use proxy_sheets::bulk::file_name;
use proxy_sheets::consts::{CARD_HEIGHT, CARD_WIDTH, MARGIN_X, MARGIN_Y};
use proxy_sheets::database::BulkDB;
use proxy_sheets::fetch::{assemble_fetched, fetch_jobs, FETCH_CONCURRENCY};
use proxy_sheets::layout::{expand_copies, grid_position, plan_pages};
use proxy_sheets::resolve::resolve;
use proxy_sheets::types::{
    BulkData, BulkEntry, BulkImageUris, BulkLanguage, BulkType, CardEntry, CardFaces,
    CardLayout, List,
};

fn uris(png: &str) -> BulkImageUris {
    BulkImageUris {
        small: format!("{png}-small"),
        normal: format!("{png}-normal"),
        large: format!("{png}-large"),
        png: png.to_string(),
        art_crop: format!("{png}-art"),
        border_crop: format!("{png}-border"),
    }
}

fn entry(id: &str, name: &str, layout: CardLayout, png: Option<&str>, faces: Option<Vec<&str>>) -> BulkEntry {
    BulkEntry {
        id: id.to_string(),
        oracle_id: None,
        name: name.to_string(),
        lang: BulkLanguage::English,
        uri: format!("https://example.org/cards/{id}"),
        scryfall_uri: format!("https://example.org/card/{id}"),
        layout,
        highres_image: true,
        image_status: "highres_scan".to_string(),
        image_uris: png.map(uris),
        card_faces: faces.map(|f| {
            f.into_iter()
                .map(|u| CardFaces { name: format!("{name} face"), image_uris: Some(uris(u)) })
                .collect()
        }),
    }
}

fn request(quantity: u32, name: &str) -> CardEntry {
    CardEntry { quantity, backface: None, name: name.to_string(), url: None, data: None }
}

fn resolved(name: &str, quantity: u32, url: Option<&str>) -> CardEntry {
    CardEntry {
        quantity,
        backface: None,
        name: name.to_string(),
        url: url.map(|u| u.to_string()),
        data: None,
    }
}

fn sample_db() -> BulkDB {
    let (db, dups) = BulkDB::from_entries(vec![
        entry("1", "Island", CardLayout::Normal, Some("island.png"), None),
        entry(
            "2",
            "Delver of Secrets // Insectile Aberration",
            CardLayout::Transform,
            None,
            Some(vec!["delver-front.png", "delver-back.png"]),
        ),
        entry("3", "Odd Transform", CardLayout::Transform, Some("odd.png"), None),
        entry("4", "Bushi Tenderfoot", CardLayout::Flip, Some("bushi.png"), Some(vec!["b1.png", "b2.png"])),
        entry("5", "Fire // Ice", CardLayout::Split, Some("fire-ice.png"), Some(vec!["f.png", "i.png"])),
    ]);
    assert!(dups.is_empty());
    db
}

#[test]
fn duplicate_names_keep_the_first_record() {
    let (db, dups) = BulkDB::from_entries(vec![
        entry("first", "Island", CardLayout::Normal, Some("a.png"), None),
        entry("other", "Forest", CardLayout::Normal, Some("f.png"), None),
        entry("second", "Island", CardLayout::Normal, Some("b.png"), None),
    ]);
    assert_eq!(db.len(), 2);
    assert_eq!(dups, vec!["Island".to_string()]);
    assert_eq!(db.get(&"Island".to_string()).unwrap().id, "first");
    assert_eq!(db.get(&"Forest".to_string()).unwrap().id, "other");
    assert!(db.get(&"Swamp".to_string()).is_none());
}

#[test]
fn lookup_is_case_sensitive() {
    let db = sample_db();
    assert!(db.get(&"island".to_string()).is_none());
    assert!(db.get(&"Island".to_string()).is_some());
}

#[test]
fn transform_card_resolves_to_front_then_back() {
    let db = sample_db();
    let name = "Delver of Secrets // Insectile Aberration";
    let (out, missing) = resolve(&db, &vec![request(2, name)]);
    assert!(missing.is_empty());
    assert_eq!(out.len(), 2);
    assert_eq!(out[0].backface, Some(false));
    assert_eq!(out[1].backface, Some(true));
    assert_eq!(out[0].url.as_deref(), Some("delver-front.png"));
    assert_eq!(out[1].url.as_deref(), Some("delver-back.png"));
    assert_ne!(out[0].url, out[1].url);
    for c in &out {
        assert_eq!(c.quantity, 2);
        assert_eq!(c.name, name);
        assert!(c.data.is_none());
    }
}

#[test]
fn flip_card_with_faces_splits() {
    let db = sample_db();
    let (out, _) = resolve(&db, &vec![request(1, "Bushi Tenderfoot")]);
    assert_eq!(out.len(), 2);
    assert_eq!(out[0].url.as_deref(), Some("b1.png"));
    assert_eq!(out[1].url.as_deref(), Some("b2.png"));
}

#[test]
fn normal_card_resolves_to_one_print() {
    let db = sample_db();
    let (out, missing) = resolve(&db, &vec![request(4, "Island")]);
    assert!(missing.is_empty());
    assert_eq!(out.len(), 1);
    assert_eq!(out[0].backface, None);
    assert_eq!(out[0].quantity, 4);
    assert_eq!(out[0].url.as_deref(), Some("island.png"));
}

#[test]
fn split_layout_is_not_face_splitting() {
    let db = sample_db();
    let (out, _) = resolve(&db, &vec![request(1, "Fire // Ice")]);
    assert_eq!(out.len(), 1);
    assert_eq!(out[0].url.as_deref(), Some("fire-ice.png"));
}

#[test]
fn transform_without_faces_falls_back_to_the_card_image() {
    let db = sample_db();
    let (out, _) = resolve(&db, &vec![request(1, "Odd Transform")]);
    assert_eq!(out.len(), 1);
    assert_eq!(out[0].backface, None);
    assert_eq!(out[0].url.as_deref(), Some("odd.png"));
}

#[test]
fn unknown_card_is_reported_and_skipped() {
    let db = sample_db();
    let (out, missing) = resolve(&db, &vec![request(1, "Island"), request(3, "Black Lotus"), request(2, "Island")]);
    assert_eq!(missing, vec!["Black Lotus".to_string()]);
    assert_eq!(out.len(), 2);
    assert_eq!(out[0].quantity, 1);
    assert_eq!(out[1].quantity, 2);
}

#[test]
fn jobs_are_tagged_by_position() {
    let cards = vec![
        resolved("A", 1, Some("a.png")),
        resolved("B", 1, None),
        resolved("C", 1, Some("c.png")),
    ];
    let jobs = fetch_jobs(&cards);
    assert_eq!(jobs, vec![(0, "a.png".to_string()), (2, "c.png".to_string())]);
    assert_eq!(FETCH_CONCURRENCY, 8);
}

#[test]
fn fetch_results_come_back_in_deck_order() {
    let make = || vec![
        resolved("A", 1, Some("a.png")),
        resolved("B", 1, Some("b.png")),
        resolved("C", 1, Some("c.png")),
    ];
    let in_order = assemble_fetched(make(), vec![(0, Some(vec![1])), (1, Some(vec![2])), (2, Some(vec![3]))]);
    let shuffled = assemble_fetched(make(), vec![(2, Some(vec![3])), (0, Some(vec![1])), (1, Some(vec![2]))]);
    for out in [&in_order, &shuffled] {
        let names: Vec<&str> = out.iter().map(|c| c.name.as_str()).collect();
        assert_eq!(names, vec!["A", "B", "C"]);
        assert_eq!(out[0].data, Some(vec![1]));
        assert_eq!(out[1].data, Some(vec![2]));
        assert_eq!(out[2].data, Some(vec![3]));
    }
}

#[test]
fn failed_or_missing_fetch_leaves_no_data() {
    let cards = vec![resolved("A", 1, Some("a.png")), resolved("B", 1, None), resolved("C", 1, Some("c.png"))];
    let out = assemble_fetched(cards, vec![(2, None), (0, Some(vec![7])), (9, Some(vec![9]))]);
    assert_eq!(out.len(), 3);
    assert_eq!(out[0].data, Some(vec![7]));
    assert_eq!(out[1].data, None);
    assert_eq!(out[2].data, None);
    assert_eq!(out[2].url.as_deref(), Some("c.png"));
}

#[test]
fn copies_stand_side_by_side() {
    let cards = vec![resolved("A", 1, None), resolved("B", 3, None), resolved("C", 1, None)];
    assert_eq!(expand_copies(&cards), vec![0, 1, 1, 1, 2]);
    let pages = plan_pages(&cards);
    assert_eq!(pages.len(), 1);
    let ids: Vec<usize> = pages[0].iter().map(|p| p.card).collect();
    assert_eq!(ids, vec![0, 1, 1, 1, 2]);
}

#[test]
fn zero_quantity_gives_no_copies() {
    let cards = vec![resolved("A", 0, None), resolved("B", 2, None)];
    assert_eq!(expand_copies(&cards), vec![1, 1]);
}

#[test]
fn ten_copies_make_two_pages() {
    let cards = vec![resolved("A", 10, None)];
    let pages = plan_pages(&cards);
    assert_eq!(pages.len(), 2);
    assert_eq!(pages[0].len(), 9);
    assert_eq!(pages[1].len(), 1);
    assert_eq!((pages[1][0].x, pages[1][0].y), (MARGIN_X, MARGIN_Y));
}

#[test]
fn nine_copies_make_one_page_and_none_make_none() {
    assert_eq!(plan_pages(&vec![resolved("A", 9, None)]).len(), 1);
    assert!(plan_pages(&vec![]).is_empty());
}

#[test]
fn grid_positions_fill_columns_first() {
    assert_eq!(MARGIN_X, 124);
    assert_eq!(MARGIN_Y, 195);
    assert_eq!(grid_position(0), (MARGIN_X, MARGIN_Y));
    assert_eq!(grid_position(1), (MARGIN_X, CARD_HEIGHT + MARGIN_Y));
    assert_eq!(grid_position(3), (CARD_WIDTH + MARGIN_X, MARGIN_Y));
    assert_eq!(grid_position(8), (2 * CARD_WIDTH + MARGIN_X, 2 * CARD_HEIGHT + MARGIN_Y));
    assert_eq!(grid_position(8), (1612, 2273));
}

#[test]
fn oracle_file_is_found_and_named() {
    let file = |kind: BulkType, uri: &str| BulkData {
        id: "x".to_string(),
        bulk_type: kind,
        updated_at: "2024-01-01".to_string(),
        uri: "https://example.org/bulk".to_string(),
        name: "bulk".to_string(),
        description: String::new(),
        size: 10,
        download_uri: uri.to_string(),
        content_type: "application/json".to_string(),
        content_encoding: "gzip".to_string(),
    };
    let list = List {
        has_more: false,
        data: vec![
            file(BulkType::DefaultCards, "https://example.org/default-cards.json"),
            file(BulkType::OracleCards, "https://example.org/oracle-cards-1.json"),
            file(BulkType::OracleCards, "https://example.org/oracle-cards-2.json"),
        ],
    };
    assert_eq!(list.find(BulkType::OracleCards), Some(1));
    assert_eq!(list.find(BulkType::Rulings), None);
    assert_eq!(file_name("/file/scryfall-bulk/oracle-cards/oracle-cards-20240101.json"), "oracle-cards-20240101.json");
    assert_eq!(file_name("plain.json"), "plain.json");
    assert_eq!(file_name("dir/"), "");
}
