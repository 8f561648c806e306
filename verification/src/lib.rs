//! PDF to Markdown conversion: the verified text, quality and markdown logic.

pub mod convert;
pub mod error;
pub mod markdown;
pub mod pdf;
pub mod quality;
pub mod tables;
pub mod text;
pub mod types;

pub use convert::convert_bytes;
pub use error::{Error, Result};
pub use types::{Document, ItemKind, PageNum};
