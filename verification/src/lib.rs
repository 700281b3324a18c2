//! Character encodings for a regular-expression engine: character length,
//! code in and out, case folding, newline and boundary adjustment, for the
//! Unicode formats, the single-byte encodings and the East Asian multi-byte
//! encodings.

pub mod cjk;
pub mod encoding;
pub mod error;
pub mod laws;
pub mod lead;
pub mod mbc;
pub mod model;
pub mod utf;

pub use encoding::{EncKind, Encoding};
pub use error::{Error, ErrorKind};
