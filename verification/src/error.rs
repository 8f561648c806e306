//! Error types for PDF-to-Markdown conversion.

use lopdf::Error as LopdfError;
use vstd::prelude::*;

use crate::text::chars::{contains_seq, str_contains};

verus! {

#[verifier::external_type_specification]
#[verifier::external_body]
pub struct ExIoError(std::io::Error);

#[verifier::external_type_specification]
#[verifier::external_body]
pub struct ExLopdfError(LopdfError);

/// All errors that can occur during PDF-to-Markdown conversion.
#[derive(Debug)]
#[non_exhaustive]
pub enum Error {
    /// I/O error reading the PDF file.
    Io(std::io::Error),
    /// The PDF could not be parsed.
    Parse(String),
    /// The PDF is encrypted and could not be decrypted.
    Encrypted,
    /// The PDF structure is invalid (corrupt xref, missing objects, etc.).
    InvalidStructure,
    /// The input is not a PDF document.
    NotPdf {
        /// A hint about what the file actually is (e.g. "HTML document").
        hint: String,
    },
}

/// Convenience type alias for `Result<T, p2m::Error>`.
pub type Result<T> = std::result::Result<T, Error>;

/// A `lopdf` error as plain values: one variant per variant of
/// `lopdf::Error` that the error mapping tells apart, with its plain
/// fields (fields of other `lopdf` error types are left out), and `Other`
/// for every other variant.
#[derive(Debug)]
pub enum LopdfFailure {
    IO(std::io::Error),
    Decryption,
    InvalidPassword,
    Parse,
    ObjectIdMismatch,
    Xref,
    MissingXrefEntry,
    IndirectObject { offset: usize },
    ReferenceLimit,
    ReferenceCycle((u32, u16)),
    Other,
}

/// The `LopdfFailure` that a `lopdf::Error` converts to (a function of the
/// error's variant and fields).
pub uninterp spec fn failure_of(err: LopdfError) -> LopdfFailure;

/// The `Display` text of a `lopdf::Error`. Every variant's text is a fixed
/// `thiserror` format over the variant's own plain fields (the `IO`
/// variant's text is "IO error" and does not include the I/O error's own
/// message), so it is a function of the error alone.
pub uninterp spec fn error_text_of(err: LopdfError) -> Seq<char>;

/// Converts a `lopdf::Error` into `LopdfFailure`: one arm per variant it
/// names, moving the plain fields over; the other variants are `Other`.
#[verifier::external_body]
pub(crate) fn lopdf_failure(err: LopdfError) -> (r: LopdfFailure)
    ensures
        r == failure_of(err),
{
    match err {
        LopdfError::IO(io) => LopdfFailure::IO(io),
        LopdfError::Decryption(_) => LopdfFailure::Decryption,
        LopdfError::InvalidPassword => LopdfFailure::InvalidPassword,
        LopdfError::Parse(_) => LopdfFailure::Parse,
        LopdfError::ObjectIdMismatch => LopdfFailure::ObjectIdMismatch,
        LopdfError::Xref(_) => LopdfFailure::Xref,
        LopdfError::MissingXrefEntry => LopdfFailure::MissingXrefEntry,
        LopdfError::IndirectObject { offset } => LopdfFailure::IndirectObject { offset },
        LopdfError::ReferenceLimit => LopdfFailure::ReferenceLimit,
        LopdfError::ReferenceCycle(id) => LopdfFailure::ReferenceCycle(id),
        _ => LopdfFailure::Other,
    }
}

/// The `Display` text of a `lopdf::Error` (its `to_string()`).
#[verifier::external_body]
pub(crate) fn lopdf_error_text(err: &LopdfError) -> (r: String)
    ensures
        r@ == error_text_of(*err),
{
    err.to_string()
}

/// Error classification of a `lopdf` failure with display text `message`:
/// I/O errors pass through, decryption failures are `Encrypted`, parse
/// failures whose message mentions the header are `NotPdf`, structural
/// failures are `InvalidStructure`, and everything else is `Parse` with its
/// message.
pub open spec fn failure_error(f: LopdfFailure, message: Seq<char>, e: Error) -> bool {
    match f {
        LopdfFailure::IO(io) => e == Error::Io(io),
        LopdfFailure::Decryption | LopdfFailure::InvalidPassword => e is Encrypted,
        LopdfFailure::Parse => if contains_seq(message, "header"@) {
            e matches Error::NotPdf { hint } && hint@ == "invalid PDF file header"@
        } else {
            e is InvalidStructure
        },
        LopdfFailure::ObjectIdMismatch | LopdfFailure::Xref | LopdfFailure::MissingXrefEntry
        | LopdfFailure::IndirectObject { .. } | LopdfFailure::ReferenceLimit
        | LopdfFailure::ReferenceCycle(_) => e is InvalidStructure,
        _ => e matches Error::Parse(m) && m@ == message,
    }
}

/// The library error that a `lopdf` error maps to.
pub open spec fn lopdf_error_maps_to(err: LopdfError, e: Error) -> bool {
    failure_error(failure_of(err), error_text_of(err), e)
}

impl Error {
    /// Map a `lopdf` failure with display text `message` to the library's
    /// error.
    pub fn from_failure(f: LopdfFailure, message: String) -> (e: Error)
        ensures
            failure_error(f, message@, e),
    {
        match f {
            LopdfFailure::IO(io) => Error::Io(io),
            LopdfFailure::Decryption | LopdfFailure::InvalidPassword => Error::Encrypted,
            LopdfFailure::Parse => {
                if str_contains(message.as_str(), "header") {
                    Error::NotPdf { hint: "invalid PDF file header".to_owned() }
                } else {
                    Error::InvalidStructure
                }
            },
            LopdfFailure::ObjectIdMismatch | LopdfFailure::Xref | LopdfFailure::MissingXrefEntry
            | LopdfFailure::IndirectObject { .. } | LopdfFailure::ReferenceLimit
            | LopdfFailure::ReferenceCycle(_) => Error::InvalidStructure,
            _ => Error::Parse(message),
        }
    }

    /// Map a `lopdf` error to the library's error: `from_failure` of its
    /// variant and display text.
    pub fn from_lopdf(err: LopdfError) -> (e: Error)
        ensures
            lopdf_error_maps_to(err, e),
    {
        let message = lopdf_error_text(&err);
        Error::from_failure(lopdf_failure(err), message)
    }
}

} // verus!
