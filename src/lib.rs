//! Session Description Protocol (RFC 4566): a parser that enforces the field
//! order of the grammar while reading, a canonical serializer, and the codec of
//! the `extmap` attribute.

pub mod text;
pub mod number;
pub mod error;
pub mod direction;
pub mod common;
pub mod time;
pub mod session;
pub mod media;
pub mod document;
pub mod lexer;
pub mod uri;
pub mod decoder;
pub mod grammar;
pub mod serializer;
pub mod extmap;
pub mod laws;
pub mod round_trip;
pub mod records;
pub mod canonical;

pub use document::SDP;
pub use error::Error;
pub use extmap::ExtMap;
