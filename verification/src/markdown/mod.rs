//! Markdown conversion: heading and table-of-contents analysis, text
//! normalisation, and the final clean-up pass.

pub mod analysis;
pub mod convert;
pub mod postprocess;
pub mod preprocess;
