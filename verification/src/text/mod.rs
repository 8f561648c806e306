//! Text processing utilities: character classes, Unicode normalization, CJK
//! handling and RTL detection.

pub mod bidi;
pub mod chars;
pub mod cjk;
pub mod unicode;
pub mod words;
