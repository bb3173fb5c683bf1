//! Print-ready proxy pages from a decklist: the decklist is parsed into card
//! requests, the requests are resolved against a card database (multi-faced
//! cards become one print per face), the card images are fetched and put back
//! in deck order, and the copies are laid out nine to an A4 page.

pub mod consts;
pub mod types;
pub mod parser;
pub mod bulk;
pub mod database;
pub mod resolve;
pub mod fetch;
pub mod layout;
pub mod compose;
