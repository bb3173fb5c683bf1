//! Page composition: decoding each placed card's image and drawing it on a
//! white A4 canvas. A cell whose card has no usable image stays blank and is reported.
use vstd::prelude::*;

use image::{DynamicImage, ImageError};

use crate::consts::{A4_HEIGHT, A4_WIDTH};
use crate::layout::Placement;
use crate::types::CardEntry;

verus! {

#[verifier::external_type_specification]
#[verifier::external_body]
pub struct ExDynamicImage(DynamicImage);

#[verifier::external_type_specification]
#[verifier::external_body]
pub struct ExImageError(ImageError);

/// Whether the PNG decoder accepts the bytes `b`.
pub uninterp spec fn png_decodes(b: Seq<u8>) -> bool;

/// Relies on `image::load_from_memory_with_format` with the PNG format: the
/// decoded image, or the decoder's error; which of the two depends on the bytes alone.
#[verifier::external_body]
fn decode_png(bytes: &Vec<u8>) -> (r: Result<DynamicImage, ImageError>)
    ensures
        r is Ok <==> png_decodes(bytes@),
{
    image::load_from_memory_with_format(bytes, image::ImageFormat::Png)
}

/// Relies on `image::ImageBuffer::from_pixel`: an RGBA canvas of the given size
/// with every channel of every pixel set to `value`. It panics only where the
/// buffer would not fit in a vector, which `requires` rules out.
#[verifier::external_body]
fn filled_canvas(width: u32, height: u32, value: u8) -> (r: DynamicImage)
    requires
        width as int * height as int * 4 <= isize::MAX,
{
    DynamicImage::ImageRgba8(image::RgbaImage::from_pixel(width, height, image::Rgba([value; 4])))
}

/// Relies on `image::imageops::overlay`: draws `top` onto `bottom` with its
/// top-left corner at `(x, y)`, without scaling, cropping what falls outside.
#[verifier::external_body]
fn overlay(bottom: &mut DynamicImage, top: &DynamicImage, x: i64, y: i64) {
    image::imageops::overlay(bottom, top, x, y)
}

/// Why a cell of a page stayed blank.
#[derive(Debug, Clone, Copy, PartialEq, Eq, Structural)]
pub enum BlankReason {
    /// The card has no image data (its fetch failed, or it had no address).
    NoData,
    /// The card's data is not a PNG image that could be decoded.
    Undecodable,
}

/// A cell of a page that stayed blank: its position on the page, the card meant for it, and why.
#[derive(Debug, Clone, Copy, PartialEq, Eq, Structural)]
pub struct BlankCell {
    pub cell: usize,
    pub card: usize,
    pub reason: BlankReason,
}

/// Whether card `c` exists and carries image data.
pub open spec fn has_data(cards: Seq<CardEntry>, c: int) -> bool {
    0 <= c < cards.len() && cards[c].data is Some
}

/// Whether card `c` exists and carries image data that decodes as PNG.
pub open spec fn drawable(cards: Seq<CardEntry>, c: int) -> bool {
    has_data(cards, c) && png_decodes(cards[c].data->Some_0@)
}

/// Draws a page: a white A4 canvas with each placement's card image at its
/// corner. Returns the canvas and, in cell order, the cells left blank: every
/// cell whose card has no data (reason `NoData`), and those whose data did not
/// decode (reason `Undecodable`).
pub fn compose_page(page: &Vec<Placement>, cards: &Vec<CardEntry>) -> (r: (DynamicImage, Vec<BlankCell>))
    ensures
        forall|k: int|
            0 <= k < r.1.len() ==> {
                &&& (#[trigger] r.1[k]).cell < page.len()
                &&& r.1[k].card == page[r.1[k].cell as int].card
                &&& (r.1[k].reason == BlankReason::NoData <==> !has_data(
                    cards@,
                    r.1[k].card as int,
                ))
                &&& !drawable(cards@, r.1[k].card as int)
            },
        forall|a: int, b: int| 0 <= a < b < r.1.len() ==> r.1[a].cell < r.1[b].cell,
        forall|j: int|
            0 <= j < page.len() ==> ((exists|k: int| 0 <= k < r.1.len() && r.1[k].cell == j)
                <==> !drawable(cards@, (#[trigger] page[j]).card as int)),
{
    let mut canvas = filled_canvas(A4_WIDTH as u32, A4_HEIGHT as u32, 255);
    let mut blanks: Vec<BlankCell> = Vec::new();
    let mut j: usize = 0;
    while j < page.len()
        invariant
            j <= page.len(),
            forall|k: int|
                0 <= k < blanks.len() ==> {
                    &&& (#[trigger] blanks[k]).cell < j
                    &&& blanks[k].card == page[blanks[k].cell as int].card
                    &&& (blanks[k].reason == BlankReason::NoData <==> !has_data(
                        cards@,
                        blanks[k].card as int,
                    ))
                    &&& !drawable(cards@, blanks[k].card as int)
                },
            forall|a: int, b: int| 0 <= a < b < blanks.len() ==> blanks[a].cell < blanks[b].cell,
            forall|i: int|
                0 <= i < j ==> ((exists|k: int| 0 <= k < blanks.len() && blanks[k].cell == i)
                    <==> !drawable(cards@, (#[trigger] page[i]).card as int)),
        decreases page.len() - j,
    {
        let p = page[j];
        let ghost before = blanks@;
        let mut reason: Option<BlankReason> = Some(BlankReason::NoData);
        if p.card < cards.len() {
            match &cards[p.card].data {
                Some(bytes) => {
                    match decode_png(bytes) {
                        Ok(img) => {
                            // A corner beyond the i64 range lies far off the
                            // canvas, where nothing would be drawn anyway.
                            if p.x <= i64::MAX as usize && p.y <= i64::MAX as usize {
                                overlay(&mut canvas, &img, p.x as i64, p.y as i64);
                            }
                            reason = None;
                        },
                        Err(_) => {
                            reason = Some(BlankReason::Undecodable);
                        },
                    }
                },
                None => {},
            }
        }
        match reason {
            Some(why) => {
                blanks.push(BlankCell { cell: j, card: p.card, reason: why });
            },
            None => {},
        }
        assert forall|i: int| 0 <= i <= j implies ((exists|k: int|
            0 <= k < blanks.len() && blanks[k].cell == i) <==> !drawable(
            cards@,
            (#[trigger] page[i]).card as int,
        )) by {
            if i < j {
                if exists|k: int| 0 <= k < before.len() && before[k].cell == i {
                    let k = choose|k: int| 0 <= k < before.len() && before[k].cell == i;
                    assert(blanks[k] == before[k]);
                }
                if exists|k: int| 0 <= k < blanks.len() && blanks[k].cell == i {
                    let k = choose|k: int| 0 <= k < blanks.len() && blanks[k].cell == i;
                    if k < before.len() {
                        assert(blanks[k] == before[k]);
                    }
                }
            } else {
                if reason is Some {
                    assert(blanks[blanks.len() - 1].cell == j);
                } else {
                    assert(blanks@ == before);
                }
            }
        }
        j = j + 1;
    }
    (canvas, blanks)
}

} // verus!
