//! The data that flows through the pipeline: requests and database records.
use vstd::prelude::*;

verus! {

/// The kinds of bulk file that the card database service offers.
#[derive(Debug, Clone, Copy, PartialEq, Eq, Structural)]
pub enum BulkType {
    OracleCards,
    UniqueArtowrk,
    DefaultCards,
    AllCards,
    Rulings,
}

/// One bulk file on offer, as listed by the card database service.
#[derive(Debug)]
pub struct BulkData {
    pub id: String,
    pub bulk_type: BulkType,
    pub updated_at: String,
    pub uri: String,
    pub name: String,
    pub description: String,
    pub size: u128,
    pub download_uri: String,
    pub content_type: String,
    pub content_encoding: String,
}

/// The listing of bulk files.
#[derive(Debug)]
pub struct List {
    pub has_more: bool,
    pub data: Vec<BulkData>,
}

#[derive(Debug, Clone, Copy, PartialEq, Eq, Structural)]
pub enum BulkLanguage {
    English,
    German,
    Japanese,
    French,
    Spanish,
    SimplifiedChinese,
    TraditionalChinese,
    Russian,
    Italian,
    Phyrexian,
    Portugese,
    Quenya,
    Sanskrit,
    AncientGreek,
    Hebrew,
    Korean,
}

#[derive(Debug, Clone, Copy, PartialEq, Eq, Structural)]
pub enum BulkEntryType {
    Card,
}

/// The image addresses of one card face, one per size.
#[derive(Debug)]
pub struct BulkImageUris {
    pub small: String,
    pub normal: String,
    pub large: String,
    pub png: String,
    pub art_crop: String,
    pub border_crop: String,
}

#[derive(Debug, Clone, Copy, PartialEq, Eq, Structural)]
pub enum Colors {
    White,
    Blue,
    Black,
    Red,
    Green,
    Colorless,
}

/// How a card's faces are laid out on the physical card.
#[derive(Debug, Clone, Copy, PartialEq, Eq, Structural)]
pub enum CardLayout {
    Normal,
    Transform,
    ArtSeries,
    Token,
    Class,
    Planar,
    Saga,
    Scheme,
    DoubleFacedToken,
    Meld,
    Prototype,
    Vanguard,
    Emblem,
    ModalDfc,
    Split,
    Adventure,
    Augment,
    Flip,
    Host,
    Mutate,
    Leveler,
    Case,
}

/// One face of a multi-faced card.
#[derive(Debug)]
pub struct CardFaces {
    pub name: String,
    pub image_uris: Option<BulkImageUris>,
}

/// One record of the card database.
#[derive(Debug)]
pub struct BulkEntry {
    pub id: String,
    pub oracle_id: Option<String>,
    pub name: String,
    pub lang: BulkLanguage,
    pub uri: String,
    pub scryfall_uri: String,
    pub layout: CardLayout,
    pub highres_image: bool,
    pub image_status: String,
    pub image_uris: Option<BulkImageUris>,
    pub card_faces: Option<Vec<CardFaces>>,
}

/// One card of the decklist on its way through the pipeline: requested, then
/// resolved to an image address, then fetched.
pub struct CardEntry {
    pub quantity: u32,
    /// `None`: a single-faced print; `Some(false)`: the front face; `Some(true)`: the back face.
    pub backface: Option<bool>,
    pub name: String,
    pub url: Option<String>,
    pub data: Option<Vec<u8>>,
}

} // verus!
