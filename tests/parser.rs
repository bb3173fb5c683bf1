use proxy_sheets::parser::{from_str, parse_line, CardDeserializer, Error};

#[test]
fn quantity_separators_give_the_same_request() {
    for line in ["3x Island", "3 Island", "3X Island"] {
        let r = parse_line(line).expect("a request");
        assert_eq!(r.quantity, 3);
        assert_eq!(r.name, "Island");
        assert!(r.backface.is_none());
        assert!(r.url.is_none());
        assert!(r.data.is_none());
    }
}

#[test]
fn quantity_separators_in_a_decklist() {
    let cards = from_str("3x Island\n3 Island\n3X Island\n");
    assert_eq!(cards.len(), 3);
    for c in &cards {
        assert_eq!(c.quantity, 3);
        assert_eq!(c.name, "Island");
    }
}

#[test]
fn no_leading_digit_means_one_copy() {
    let r = parse_line("Lightning Bolt").unwrap();
    assert_eq!(r.quantity, 1);
    assert_eq!(r.name, "Lightning Bolt");
    let r = parse_line("  Sol Ring  ").unwrap();
    assert_eq!(r.quantity, 1);
    assert_eq!(r.name, "Sol Ring");
}

#[test]
fn blank_and_comment_lines_make_no_request() {
    assert!(parse_line("").is_none());
    assert!(parse_line("# comment").is_none());
    assert!(parse_line("// comment").is_none());
    assert!(parse_line("   ").is_none());
    assert!(parse_line("  # indented comment").is_none());
    assert!(from_str("\n# comment\n// comment\n").is_empty());
}

#[test]
fn single_slash_is_a_name() {
    let r = parse_line("/weird").unwrap();
    assert_eq!(r.name, "/weird");
}

#[test]
fn empty_input_gives_no_requests() {
    assert!(from_str("").is_empty());
    assert!(from_str("   \n\t\n").is_empty());
}

#[test]
fn decklist_keeps_line_order() {
    let cards = from_str("2 Forest\n# lands above\n1x Llanowar Elves\r\nGiant Growth\n4XSwamp");
    let got: Vec<(u32, &str)> = cards.iter().map(|c| (c.quantity, c.name.as_str())).collect();
    assert_eq!(
        got,
        vec![(2, "Forest"), (1, "Llanowar Elves"), (1, "Giant Growth"), (4, "Swamp")]
    );
}

#[test]
fn separator_without_spaces() {
    let r = parse_line("3xIsland").unwrap();
    assert_eq!((r.quantity, r.name.as_str()), (3, "Island"));
    let r = parse_line("12 x  Plains").unwrap();
    assert_eq!((r.quantity, r.name.as_str()), (12, "Plains"));
}

#[test]
fn quantity_too_large_defaults_to_one() {
    let r = parse_line("70000 Island").unwrap();
    assert_eq!((r.quantity, r.name.as_str()), (1, "Island"));
    let r = parse_line("99999999999999999999 Island").unwrap();
    assert_eq!((r.quantity, r.name.as_str()), (1, "Island"));
    let r = parse_line("65535 Island").unwrap();
    assert_eq!(r.quantity, 65535);
}

#[test]
fn quantity_without_name_is_dropped() {
    assert!(parse_line("3").is_none());
    assert!(parse_line("3x").is_none());
    assert!(parse_line("3 x ").is_none());
}

#[test]
fn reader_peeks_and_eats() {
    let mut de = CardDeserializer::from_str("ab");
    assert!(matches!(de.peek_char(), Ok('a')));
    assert_eq!(de.peek_nth(1), Some('b'));
    de.eat_char();
    assert!(matches!(de.peek_char(), Ok('b')));
    de.eat_char();
    assert!(de.is_empty());
    assert!(matches!(de.peek_char(), Err(Error::Eof)));
    de.eat_char();
    assert!(de.is_empty());
}

#[test]
fn reader_parses_lines() {
    let mut de = CardDeserializer::from_str("one\ntwo");
    assert_eq!(de.parse_str().unwrap(), "one");
    assert_eq!(de.parse_str().unwrap(), "two");
    assert!(matches!(de.parse_str(), Err(Error::Eof)));
}

#[test]
fn reader_parses_numbers() {
    for line in ["3x Island", "3 Island", "3X Island", "3xIsland", "3  x  Island"] {
        let mut de = CardDeserializer::from_str(line);
        assert_eq!(de.parse_u16().unwrap(), 3);
        assert_eq!(de.take_rest(), "Island");
    }
    let mut de = CardDeserializer::from_str("42x");
    assert_eq!(de.parse_u16().unwrap(), 42);
    assert!(de.is_empty());
    assert!(matches!(de.parse_u16(), Err(Error::Eof)));
    let mut de = CardDeserializer::from_str("Island");
    assert!(matches!(de.parse_u16(), Err(Error::Syntax)));
    assert!(matches!(de.peek_char(), Ok('I')));
    let mut de = CardDeserializer::from_str("99999999999999999999 Island");
    assert_eq!(de.parse_u16().unwrap(), 1);
    assert!(matches!(de.peek_char(), Ok('I')));
    let mut de = CardDeserializer::from_str("0 Island");
    assert_eq!(de.parse_u16().unwrap(), 1);
}

#[test]
fn zero_quantity_reads_as_one() {
    let r = parse_line("0 Island").unwrap();
    assert_eq!((r.quantity, r.name.as_str()), (1, "Island"));
}

#[test]
fn unicode_whitespace_is_trimmed() {
    let r = parse_line("\u{00A0}Island\u{3000}").unwrap();
    assert_eq!((r.quantity, r.name.as_str()), (1, "Island"));
    let r = parse_line("\u{2003}2\u{00A0}x\u{00A0}Forest\u{00A0}").unwrap();
    assert_eq!((r.quantity, r.name.as_str()), (2, "Forest"));
    assert!(parse_line("\u{3000}# comment").is_none());
    for c in from_str(" \u{00A0}Sol Ring\u{2028}\n\u{205F}Mox\u{0085}") {
        assert_eq!(c.name, c.name.trim());
    }
}

#[test]
fn reader_trims() {
    let mut de = CardDeserializer::from_str("  mid  ");
    de.skip_whitespace();
    de.trim_end();
    assert_eq!(de.take_rest(), "mid");
    assert!(de.is_empty());
}

#[test]
fn error_messages() {
    assert_eq!(Error::Eof.message(), "unexpected end of input");
    assert_eq!(Error::Syntax.message(), "Syntax Error");
    assert_eq!(Error::TrailingCharacters.message(), "trailing input");
    assert_eq!(Error::Message("bad".to_string()).message(), "bad");
}

#[test]
fn comment_between_requests_changes_nothing() {
    let with = from_str("1 Island\n// sideboard\n2 Forest");
    let without = from_str("1 Island\n2 Forest");
    assert_eq!(with.len(), without.len());
    for (a, b) in with.iter().zip(without.iter()) {
        assert_eq!((a.quantity, &a.name), (b.quantity, &b.name));
    }
}
