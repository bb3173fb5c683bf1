//! The decklist grammar: one card request per line, `[quantity [x]] name`.
use vstd::prelude::*;

use crate::types::CardEntry;

verus! {

/// Errors of the character-level reader.
#[derive(Debug)]
pub enum Error {
    Message(String),
    Eof,
    Syntax,
    TrailingCharacters,
}

impl Error {
    /// A message that describes the error.
    pub fn message(&self) -> (r: String)
        ensures
            match self {
                Error::Message(m) => r@ == m@,
                Error::Eof => r@ == "unexpected end of input"@,
                Error::Syntax => r@ == "Syntax Error"@,
                Error::TrailingCharacters => r@ == "trailing input"@,
            },
    {
        match self {
            Error::Message(m) => m.clone(),
            Error::Eof => "unexpected end of input".to_owned(),
            Error::Syntax => "Syntax Error".to_owned(),
            Error::TrailingCharacters => "trailing input".to_owned(),
        }
    }
}

/// Whitespace in the decklist grammar: the characters of Unicode's White_Space property.
pub open spec fn is_space(c: char) -> bool {
    let u = c as u32;
    (0x09 <= u && u <= 0x0D) || u == 0x20 || u == 0x85 || u == 0xA0 || u == 0x1680 || (0x2000
        <= u && u <= 0x200A) || u == 0x2028 || u == 0x2029 || u == 0x202F || u == 0x205F || u
        == 0x3000
}

pub open spec fn is_digit(c: char) -> bool {
    '0' as u32 <= c as u32 && c as u32 <= '9' as u32
}

pub open spec fn digit_of(c: char) -> nat {
    (c as u32 - '0' as u32) as nat
}

/// `s` without its leading whitespace.
pub open spec fn trim_start(s: Seq<char>) -> Seq<char>
    decreases s.len(),
{
    if s.len() > 0 && is_space(s[0]) {
        trim_start(s.drop_first())
    } else {
        s
    }
}

/// `s` without its trailing whitespace.
pub open spec fn trim_end(s: Seq<char>) -> Seq<char>
    decreases s.len(),
{
    if s.len() > 0 && is_space(s.last()) {
        trim_end(s.drop_last())
    } else {
        s
    }
}

pub open spec fn trim(s: Seq<char>) -> Seq<char> {
    trim_start(trim_end(s))
}

/// The length of the run of decimal digits that `s` starts with.
pub open spec fn digit_run(s: Seq<char>) -> nat
    decreases s.len(),
{
    if s.len() > 0 && is_digit(s[0]) {
        1 + digit_run(s.drop_first())
    } else {
        0
    }
}

/// The number that a string of decimal digits spells.
pub open spec fn digits_value(d: Seq<char>) -> nat
    decreases d.len(),
{
    if d.len() == 0 {
        0
    } else {
        digits_value(d.drop_last()) * 10 + digit_of(d.last())
    }
}

/// The position of the first line break of `s`, or its length if it has none.
pub open spec fn newline_index(s: Seq<char>) -> nat
    decreases s.len(),
{
    if s.len() == 0 {
        0
    } else if s[0] == '\n' {
        0
    } else {
        1 + newline_index(s.drop_first())
    }
}

pub open spec fn first_line(s: Seq<char>) -> Seq<char> {
    s.take(newline_index(s) as int)
}

/// What follows the first line break of `s` (nothing if it has none).
pub open spec fn after_first_line(s: Seq<char>) -> Seq<char> {
    if newline_index(s) < s.len() {
        s.skip(newline_index(s) + 1int)
    } else {
        Seq::empty()
    }
}

/// A trimmed line that carries no request: empty, or a `#` or `//` comment.
pub open spec fn is_blank_or_comment(t: Seq<char>) -> bool {
    t.len() == 0 || t[0] == '#' || (t.len() >= 2 && t[0] == '/' && t[1] == '/')
}

/// What is left of a line after its quantity: optional whitespace, an optional
/// `x` or `X`, optional whitespace, then the name.
pub open spec fn strip_separator(s: Seq<char>) -> Seq<char> {
    let u = trim_start(s);
    let v = if u.len() > 0 && (u[0] == 'x' || u[0] == 'X') {
        u.drop_first()
    } else {
        u
    };
    trim_start(v)
}

/// The quantity that a digit run gives: its value, or 1 where that is 0 or
/// does not fit in 16 bits (a quantity is positive).
pub open spec fn quantity_of(d: Seq<char>) -> nat {
    if 1 <= digits_value(d) <= u16::MAX {
        digits_value(d)
    } else {
        1
    }
}

/// The request (quantity, name) that one line makes, if any.
pub open spec fn line_request(l: Seq<char>) -> Option<(nat, Seq<char>)> {
    let t = trim(l);
    if is_blank_or_comment(t) {
        None
    } else if is_digit(t[0]) {
        let k = digit_run(t);
        let name = strip_separator(t.skip(k as int));
        if name.len() == 0 {
            None
        } else {
            Some((quantity_of(t.take(k as int)), name))
        }
    } else {
        Some((1, t))
    }
}

/// The requests of a whole decklist, in line order.
pub open spec fn decklist(s: Seq<char>) -> Seq<(nat, Seq<char>)>
    decreases s.len(),
    via decklist_decreases
{
    if s.len() == 0 {
        Seq::empty()
    } else {
        let head = match line_request(first_line(s)) {
            Some(r) => seq![r],
            None => Seq::empty(),
        };
        head + decklist(after_first_line(s))
    }
}

proof fn lemma_newline_index_bound(s: Seq<char>)
    ensures
        newline_index(s) <= s.len(),
        newline_index(s) < s.len() ==> s[newline_index(s) as int] == '\n',
        forall|j: int| 0 <= j < newline_index(s) ==> s[j] != '\n',
    decreases s.len(),
{
    if s.len() > 0 && s[0] != '\n' {
        lemma_newline_index_bound(s.drop_first());
        assert forall|j: int| 0 <= j < newline_index(s) implies s[j] != '\n' by {
            if j > 0 {
                assert(s[j] == s.drop_first()[j - 1]);
            }
        }
    }
}

#[via_fn]
proof fn decklist_decreases(s: Seq<char>) {
    lemma_newline_index_bound(s);
}

proof fn lemma_digit_run_prefix(d: Seq<char>, r: Seq<char>)
    requires
        forall|i: int| 0 <= i < d.len() ==> is_digit(#[trigger] d[i]),
        r.len() == 0 || !is_digit(r[0]),
    ensures
        digit_run(d + r) == d.len(),
    decreases d.len(),
{
    if d.len() > 0 {
        assert((d + r).drop_first() =~= d.drop_first() + r);
        lemma_digit_run_prefix(d.drop_first(), r);
    } else {
        assert(d + r =~= r);
    }
}

/// A quantity followed by `x `, `X ` or a space, then a name, makes one request
/// of that quantity and that name, whichever of the three separators is used.
pub proof fn lemma_quantity_separators(d: Seq<char>, n: Seq<char>)
    requires
        d.len() > 0,
        forall|i: int| 0 <= i < d.len() ==> is_digit(#[trigger] d[i]),
        n.len() > 0,
        !is_space(n[0]),
        !is_space(n.last()),
        n[0] != 'x',
        n[0] != 'X',
    ensures
        line_request(d + seq!['x', ' '] + n) == Some((quantity_of(d), n)),
        line_request(d + seq!['X', ' '] + n) == Some((quantity_of(d), n)),
        line_request(d + seq![' '] + n) == Some((quantity_of(d), n)),
{
    lemma_separator(d, seq!['x', ' '], n);
    lemma_separator(d, seq!['X', ' '], n);
    lemma_separator(d, seq![' '], n);
}

proof fn lemma_separator(d: Seq<char>, sep: Seq<char>, n: Seq<char>)
    requires
        d.len() > 0,
        forall|i: int| 0 <= i < d.len() ==> is_digit(#[trigger] d[i]),
        n.len() > 0,
        !is_space(n[0]),
        !is_space(n.last()),
        n[0] != 'x',
        n[0] != 'X',
        sep == seq!['x', ' '] || sep == seq!['X', ' '] || sep == seq![' '],
    ensures
        line_request(d + sep + n) == Some((quantity_of(d), n)),
{
    let l = d + sep + n;
    let rest = sep + n;
    assert(l =~= d + rest);
    assert(l.last() == n.last());
    assert(trim_end(l) == l);
    assert(l[0] == d[0]);
    assert(trim_start(l) == l);
    assert(trim(l) == l);
    assert(rest[0] == sep[0]);
    lemma_digit_run_prefix(d, rest);
    assert(l.skip(d.len() as int) =~= rest);
    assert(l.take(d.len() as int) =~= d);
    assert(trim_start(n) == n);
    if sep.len() == 2 {
        assert(trim_start(rest) == rest);
        assert(rest.drop_first() =~= seq![' '] + n);
        assert((seq![' '] + n).drop_first() =~= n);
        assert(trim_start(seq![' '] + n) == trim_start(n));
    } else {
        assert(rest.drop_first() =~= n);
        assert(trim_start(rest) == trim_start(n));
    }
    assert(strip_separator(rest) == n);
}

/// A line with no leading digit asks for one copy.
pub proof fn lemma_no_digit_one_copy(l: Seq<char>)
    requires
        line_request(l) is Some,
        !is_digit(trim(l)[0]),
    ensures
        line_request(l)->Some_0.0 == 1,
{
}

/// An empty line and a `#` or `//` comment make no request, alone or in a decklist.
pub proof fn lemma_comment_lines(l: Seq<char>, rest: Seq<char>)
    requires
        is_blank_or_comment(trim(l)),
        forall|i: int| 0 <= i < l.len() ==> l[i] != '\n',
    ensures
        line_request(l) is None,
        decklist(l).len() == 0,
        decklist(l + seq!['\n'] + rest) == decklist(rest),
{
    lemma_newline_index_bound(l);
    let s = l + seq!['\n'] + rest;
    lemma_newline_index_bound(s);
    assert(newline_index(l) == l.len()) by {
        if newline_index(l) < l.len() {
            assert(l[newline_index(l) as int] == '\n');
        }
    }
    assert(newline_index(s) == l.len()) by {
        if newline_index(s) < l.len() {
            assert(s[newline_index(s) as int] == l[newline_index(s) as int]);
        }
        assert(s[l.len() as int] == '\n');
    }
    assert(first_line(s) =~= l);
    assert(after_first_line(s) =~= rest);
    assert(first_line(l) =~= l);
    if l.len() > 0 {
        assert(after_first_line(l) =~= Seq::<char>::empty());
        assert(decklist(Seq::<char>::empty()).len() == 0);
    }
    assert(decklist(s) =~= decklist(rest));
}

/// Whether `e` is the parsed request `(q, n)`.
pub open spec fn is_request(e: CardEntry, q: nat, n: Seq<char>) -> bool {
    &&& e.quantity == q
    &&& e.name@ == n
    &&& e.backface is None
    &&& e.url is None
    &&& e.data is None
}

pub fn is_space_char(c: char) -> (r: bool)
    ensures
        r == is_space(c),
{
    let u = c as u32;
    (0x09 <= u && u <= 0x0D) || u == 0x20 || u == 0x85 || u == 0xA0 || u == 0x1680 || (0x2000
        <= u && u <= 0x200A) || u == 0x2028 || u == 0x2029 || u == 0x202F || u == 0x205F || u
        == 0x3000
}

pub fn is_digit_char(c: char) -> (r: bool)
    ensures
        r == is_digit(c),
{
    '0' as u32 <= c as u32 && c as u32 <= '9' as u32
}

/// Collects the characters of `s` in order.
pub(crate) fn chars_of(s: &str) -> (r: Vec<char>)
    ensures
        r@ == s@,
{
    let mut v: Vec<char> = Vec::new();
    for c in it: s.chars()
        invariant
            v@ == it.seq().take(it.index() as int),
    {
        v.push(c);
    }
    v
}

/// Relies on `String: FromIterator<&char>`: the string holds the given
/// characters, in order.
#[verifier::external_body]
pub(crate) fn string_from_chars(v: &Vec<char>) -> (r: String)
    ensures
        r@ == v@,
{
    v.iter().collect()
}

/// A reader over the characters of a text, consumed from the front.
pub struct CardDeserializer {
    input: Vec<char>,
    pos: usize,
    end: usize,
}

impl View for CardDeserializer {
    type V = Seq<char>;

    /// The characters not yet consumed.
    closed spec fn view(&self) -> Seq<char> {
        self.input@.subrange(self.pos as int, self.end as int)
    }
}

impl CardDeserializer {
    pub closed spec fn wf(&self) -> bool {
        self.pos <= self.end <= self.input.len()
    }

    pub fn from_str(input: &str) -> (r: Self)
        ensures
            r.wf(),
            r@ == input@,
    {
        let v = chars_of(input);
        let n = v.len();
        let r = CardDeserializer { input: v, pos: 0, end: n };
        assert(r@ =~= input@);
        r
    }

    pub fn is_empty(&self) -> (r: bool)
        requires
            self.wf(),
        ensures
            r == (self@.len() == 0),
    {
        self.pos == self.end
    }

    /// The character `k` places ahead, without consuming anything.
    pub fn peek_nth(&self, k: usize) -> (r: Option<char>)
        requires
            self.wf(),
        ensures
            k < self@.len() ==> r == Some(self@[k as int]),
            k >= self@.len() ==> r is None,
    {
        if k < self.end - self.pos {
            Some(self.input[self.pos + k])
        } else {
            None
        }
    }

    /// The first character, without consuming it.
    pub fn peek_char(&self) -> (r: Result<char, Error>)
        requires
            self.wf(),
        ensures
            self@.len() > 0 ==> r == Ok::<char, Error>(self@[0]),
            self@.len() == 0 ==> r == Err::<char, Error>(Error::Eof),
    {
        match self.peek_nth(0) {
            Some(c) => Ok(c),
            None => Err(Error::Eof),
        }
    }

    /// Consumes the first character, if there is one.
    pub fn eat_char(&mut self)
        requires
            old(self).wf(),
        ensures
            final(self).wf(),
            final(self)@ == (if old(self)@.len() > 0 {
                old(self)@.drop_first()
            } else {
                old(self)@
            }),
    {
        if self.pos < self.end {
            self.pos = self.pos + 1;
            assert(self@ =~= old(self)@.drop_first());
        }
    }

    /// Consumes the leading whitespace.
    pub fn skip_whitespace(&mut self)
        requires
            old(self).wf(),
        ensures
            final(self).wf(),
            final(self)@ == trim_start(old(self)@),
    {
        while self.pos < self.end && is_space_char(self.input[self.pos])
            invariant
                self.wf(),
                self.input == old(self).input,
                self.end == old(self).end,
                trim_start(self@) == trim_start(old(self)@),
            decreases self.end - self.pos,
        {
            assert(self@.drop_first() =~= self.input@.subrange(self.pos + 1, self.end as int));
            self.pos = self.pos + 1;
        }
    }

    /// Drops the trailing whitespace.
    pub fn trim_end(&mut self)
        requires
            old(self).wf(),
        ensures
            final(self).wf(),
            final(self)@ == trim_end(old(self)@),
    {
        while self.end > self.pos && is_space_char(self.input[self.end - 1])
            invariant
                self.wf(),
                self.input == old(self).input,
                self.pos == old(self).pos,
                trim_end(self@) == trim_end(old(self)@),
            decreases self.end - self.pos,
        {
            assert(self@.drop_last() =~= self.input@.subrange(self.pos as int, self.end - 1));
            self.end = self.end - 1;
        }
    }

    /// The characters from `from` up to (not including) `to`, as a string.
    fn copy_range(&self, from: usize, to: usize) -> (r: String)
        requires
            from <= to <= self.input.len(),
        ensures
            r@ == self.input@.subrange(from as int, to as int),
    {
        let mut v: Vec<char> = Vec::new();
        let mut i: usize = from;
        while i < to
            invariant
                from <= i <= to <= self.input.len(),
                v@ == self.input@.subrange(from as int, i as int),
            decreases to - i,
        {
            v.push(self.input[i]);
            i = i + 1;
            assert(v@ =~= self.input@.subrange(from as int, i as int));
        }
        string_from_chars(&v)
    }

    /// Consumes everything that is left and returns it.
    pub fn take_rest(&mut self) -> (r: String)
        requires
            old(self).wf(),
        ensures
            final(self).wf(),
            r@ == old(self)@,
            final(self)@.len() == 0,
    {
        let r = self.copy_range(self.pos, self.end);
        self.pos = self.end;
        r
    }

    /// Consumes one line and its line break, and returns the line.
    pub fn parse_str(&mut self) -> (r: Result<String, Error>)
        requires
            old(self).wf(),
        ensures
            final(self).wf(),
            old(self)@.len() == 0 ==> r is Err && r->Err_0 is Eof && final(self)@ == old(self)@,
            old(self)@.len() > 0 ==> r is Ok && r->Ok_0@ == first_line(old(self)@)
                && final(self)@ == after_first_line(old(self)@),
    {
        if self.pos == self.end {
            return Err(Error::Eof);
        }
        let ghost s = self@;
        let mut i: usize = self.pos;
        while i < self.end && self.input[i] != '\n'
            invariant
                self.pos <= i <= self.end <= self.input.len(),
                s == self@,
                newline_index(s) == (i - self.pos) + newline_index(
                    self.input@.subrange(i as int, self.end as int),
                ),
            decreases self.end - i,
        {
            assert(self.input@.subrange(i as int, self.end as int).drop_first()
                =~= self.input@.subrange(i + 1, self.end as int));
            i = i + 1;
        }
        let line = self.copy_range(self.pos, i);
        assert(line@ =~= first_line(s));
        if i < self.end {
            self.pos = i + 1;
            assert(self@ =~= after_first_line(s));
        } else {
            self.pos = self.end;
            assert(self@ =~= after_first_line(s));
        }
        Ok(line)
    }

    /// Reads the quantity that a line starts with: the leading run of decimal
    /// digits, then the separator after it (whitespace, an optional `x` or `X`,
    /// whitespace). A run whose value is 0 or does not fit in 16 bits reads as 1.
    pub fn parse_u16(&mut self) -> (r: Result<u16, Error>)
        requires
            old(self).wf(),
        ensures
            final(self).wf(),
            old(self)@.len() == 0 ==> r is Err && r->Err_0 is Eof,
            old(self)@.len() > 0 && digit_run(old(self)@) == 0 ==> r is Err && r->Err_0 is Syntax,
            digit_run(old(self)@) == 0 ==> final(self)@ == old(self)@,
            digit_run(old(self)@) > 0 ==> r is Ok && r->Ok_0 == quantity_of(
                old(self)@.take(digit_run(old(self)@) as int),
            ) && final(self)@ == strip_separator(old(self)@.skip(digit_run(old(self)@) as int)),
    {
        let ghost s = self@;
        let start = self.pos;
        let mut value: u32 = 0;
        let mut too_big = false;
        while self.pos < self.end && is_digit_char(self.input[self.pos])
            invariant
                self.wf(),
                self.input == old(self).input,
                self.end == old(self).end,
                start == old(self).pos <= self.pos,
                digit_run(s) == (self.pos - start) + digit_run(self@),
                s == old(self)@,
                !too_big ==> value <= u16::MAX && value == digits_value(
                    self.input@.subrange(start as int, self.pos as int),
                ),
                too_big ==> digits_value(self.input@.subrange(start as int, self.pos as int))
                    > u16::MAX,
            decreases self.end - self.pos,
        {
            let c = self.input[self.pos];
            let ghost prev = self.input@.subrange(start as int, self.pos as int);
            let ghost next = self.input@.subrange(start as int, self.pos + 1);
            assert(next.drop_last() =~= prev);
            assert(self@.drop_first() =~= self.input@.subrange(self.pos + 1, self.end as int));
            assert(digits_value(next) == digits_value(prev) * 10 + digit_of(c));
            if !too_big {
                value = value * 10 + (c as u32 - '0' as u32);
                if value > 65535 {
                    too_big = true;
                }
            }
            self.pos = self.pos + 1;
        }
        assert(self@ =~= s.skip(digit_run(s) as int));
        assert(self.input@.subrange(start as int, self.pos as int) =~= s.take(
            digit_run(s) as int,
        ));
        if start == self.end {
            return Err(Error::Eof);
        }
        if self.pos == start {
            return Err(Error::Syntax);
        }
        self.skip_whitespace();
        match self.peek_char() {
            Ok(c) => {
                if c == 'x' || c == 'X' {
                    self.eat_char();
                }
            },
            Err(_) => {},
        }
        self.skip_whitespace();
        if too_big || value == 0 {
            Ok(1)
        } else {
            Ok(value as u16)
        }
    }
}

/// Parses one line of a decklist into a request, if it makes one.
pub fn parse_line(line: &str) -> (r: Option<CardEntry>)
    ensures
        match line_request(line@) {
            None => r is None,
            Some(req) => r is Some && is_request(r->Some_0, req.0, req.1),
        },
{
    let mut de = CardDeserializer::from_str(line);
    de.trim_end();
    de.skip_whitespace();
    let ghost t = de@;
    assert(t == trim(line@));
    let first = match de.peek_char() {
        Ok(c) => c,
        Err(_) => {
            return None;
        },
    };
    if first == '#' {
        return None;
    }
    if first == '/' && de.peek_nth(1) == Some('/') {
        return None;
    }
    let mut quantity: u32 = 1;
    if is_digit_char(first) {
        match de.parse_u16() {
            Ok(v) => {
                quantity = v as u32;
            },
            Err(_) => {},
        }
    }
    if de.is_empty() {
        return None;
    }
    let name = de.take_rest();
    Some(CardEntry { quantity, backface: None, name, url: None, data: None })
}

/// Parses a whole decklist: one request per line that makes one, in line order.
pub fn from_str(s: &str) -> (r: Vec<CardEntry>)
    ensures
        r.len() == decklist(s@).len(),
        forall|i: int|
            0 <= i < r.len() ==> is_request(r[i], #[trigger] decklist(s@)[i].0, decklist(s@)[i].1),
{
    let mut de = CardDeserializer::from_str(s);
    let mut out: Vec<CardEntry> = Vec::new();
    let ghost done: Seq<(nat, Seq<char>)> = Seq::empty();
    while !de.is_empty()
        invariant
            de.wf(),
            done + decklist(de@) == decklist(s@),
            out.len() == done.len(),
            forall|i: int| 0 <= i < out.len() ==> is_request(out[i], #[trigger] done[i].0, done[i].1),
        decreases de@.len(),
    {
        let ghost before = de@;
        proof {
            lemma_newline_index_bound(before);
        }
        let line = match de.parse_str() {
            Ok(l) => l,
            Err(_) => {
                return out;
            },
        };
        let parsed = parse_line(line.as_str());
        match parsed {
            Some(e) => {
                proof {
                    let req = line_request(first_line(before))->Some_0;
                    assert(done.push(req) + decklist(de@) =~= done + decklist(before));
                    done = done.push(req);
                }
                out.push(e);
            },
            None => {
                assert(done + decklist(de@) =~= done + decklist(before));
            },
        }
    }
    assert(done =~= decklist(s@));
    out
}

} // verus!
