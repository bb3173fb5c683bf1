//! Page and card geometry, in pixels at 300 DPI.
use vstd::prelude::*;

verus! {

/// A4 at 300 DPI: 2480 x 3508 pixels.
pub const A4_WIDTH: usize = 2480;

pub const A4_HEIGHT: usize = 3508;

/// A card at 300 DPI (63mm x 88mm).
pub const CARD_WIDTH: usize = 744;

pub const CARD_HEIGHT: usize = 1039;

/// The grid of each page: 3 x 3 cards.
pub const CARDS_PER_ROW: usize = 3;

pub const CARDS_PER_COL: usize = 3;

pub const CARDS_PER_PAGE: usize = CARDS_PER_ROW * CARDS_PER_COL;

/// The margins that center the grid on the page.
pub const MARGIN_X: usize = (A4_WIDTH - (CARD_WIDTH * CARDS_PER_ROW)) / 2;

pub const MARGIN_Y: usize = (A4_HEIGHT - (CARD_HEIGHT * CARDS_PER_COL)) / 2;

} // verus!
