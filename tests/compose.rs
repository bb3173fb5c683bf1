use std::io::Cursor;

use image::{GenericImageView, ImageFormat, Rgba, RgbaImage};
use proxy_sheets::compose::{compose_page, BlankReason};
use proxy_sheets::consts::{A4_HEIGHT, A4_WIDTH};
use proxy_sheets::layout::plan_pages;
use proxy_sheets::types::CardEntry;

fn card(data: Option<Vec<u8>>) -> CardEntry {
    CardEntry { quantity: 1, backface: None, name: "Card".to_string(), url: None, data }
}

fn red_png() -> Vec<u8> {
    let img = RgbaImage::from_pixel(4, 4, Rgba([255, 0, 0, 255]));
    let mut out = Vec::new();
    img.write_to(&mut Cursor::new(&mut out), ImageFormat::Png).unwrap();
    out
}

#[test]
fn page_draws_cards_and_reports_blank_cells() {
    let cards = vec![card(Some(red_png())), card(None), card(Some(vec![1, 2, 3]))];
    let pages = plan_pages(&cards);
    assert_eq!(pages.len(), 1);
    let (canvas, blanks) = compose_page(&pages[0], &cards);
    assert_eq!(canvas.dimensions(), (A4_WIDTH as u32, A4_HEIGHT as u32));
    let first = pages[0][0];
    assert_eq!(canvas.get_pixel(first.x as u32, first.y as u32), Rgba([255, 0, 0, 255]));
    assert_eq!(canvas.get_pixel(0, 0), Rgba([255, 255, 255, 255]));
    assert_eq!(blanks.len(), 2);
    assert_eq!((blanks[0].cell, blanks[0].card, blanks[0].reason), (1, 1, BlankReason::NoData));
    assert_eq!((blanks[1].cell, blanks[1].card, blanks[1].reason), (2, 2, BlankReason::Undecodable));
}

#[test]
fn every_decodable_card_is_drawn() {
    let cards = vec![card(Some(red_png())), card(Some(red_png()))];
    let pages = plan_pages(&cards);
    let (canvas, blanks) = compose_page(&pages[0], &cards);
    assert!(blanks.is_empty());
    for p in &pages[0] {
        assert_eq!(canvas.get_pixel(p.x as u32 + 3, p.y as u32 + 3), Rgba([255, 0, 0, 255]));
    }
}
