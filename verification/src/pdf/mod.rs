//! Low-level PDF handling: document validation and loading, and the
//! document's title.

pub mod fonts;
pub mod glyph_names;
pub mod links;
pub mod objects;
pub mod structure_tree;
pub mod xobjects;

use lopdf::Dictionary as PdfDictionary;
use lopdf::Document as PdfDocument;
use lopdf::Error as LopdfError;
use lopdf::Object as PdfObject;
use vstd::prelude::*;
use vstd::slice::slice_to_vec;
use vstd::utf8::{decode_utf8, valid_utf8};

use crate::error::{lopdf_error_maps_to, Error};
use crate::pdf::objects::{
    dict_by_id, dictionary_entry, document_dictionary, document_objects, document_page_count,
    document_page_numbers, document_trailer, entry_string, object_value, ref_entry, string_entry,
    trailer_shape, PdfShape, PdfValue,
};
use crate::text::chars::{trim, trim_exec, str_chars};

verus! {

#[verifier::external_type_specification]
#[verifier::external_body]
pub struct ExPdfDocument(PdfDocument);

#[verifier::external_type_specification]
#[verifier::external_body]
pub struct ExPdfDictionary(PdfDictionary);

// ── Validation ─────────────────────────────────────────────────────

/// `u8::is_ascii_whitespace`: space, tab, line feed, form feed, carriage
/// return.
pub open spec fn ascii_whitespace_byte(b: u8) -> bool {
    b == 0x20 || b == 0x09 || b == 0x0A || b == 0x0C || b == 0x0D
}

pub open spec fn bytes_start_with(b: Seq<u8>, p: Seq<u8>) -> bool {
    p.len() <= b.len() && b.subrange(0, p.len() as int) == p
}

/// `b` without its leading ASCII white space.
pub open spec fn skip_ascii_whitespace(b: Seq<u8>) -> Seq<u8>
    decreases b.len(),
{
    if b.len() > 0 && ascii_whitespace_byte(b[0]) {
        skip_ascii_whitespace(b.drop_first())
    } else {
        b
    }
}

pub open spec fn utf8_bom() -> Seq<u8> {
    seq![0xEFu8, 0xBBu8, 0xBFu8]
}

/// `b` without a leading UTF-8 byte order mark and leading white space.
pub open spec fn without_bom_and_whitespace(b: Seq<u8>) -> Seq<u8> {
    skip_ascii_whitespace(
        if bytes_start_with(b, utf8_bom()) {
            b.subrange(3, b.len() as int)
        } else {
            b
        },
    )
}

/// The first `n` bytes of `b` (all of them if it is shorter).
pub open spec fn head(b: Seq<u8>, n: int) -> Seq<u8> {
    if b.len() <= n {
        b
    } else {
        b.take(n)
    }
}

/// `%PDF-`
pub open spec fn pdf_magic() -> Seq<u8> {
    seq![0x25u8, 0x50u8, 0x44u8, 0x46u8, 0x2Du8]
}

/// A buffer that looks like a PDF: after a byte order mark and white
/// space, its first kilobyte starts with `%PDF-`.
pub open spec fn has_pdf_header(b: Seq<u8>) -> bool {
    b.len() > 0 && bytes_start_with(without_bom_and_whitespace(head(b, 1024)), pdf_magic())
}

/// The hint about what a buffer that is not a PDF holds, from its magic
/// bytes.
pub open spec fn type_hint(b: Seq<u8>) -> Seq<char> {
    let h = head(b, 256);
    if b.len() == 0 {
        "empty file"@
    } else if bytes_start_with(h, seq![0x50u8, 0x4Bu8]) {
        "ZIP archive (possibly DOCX/XLSX/PPTX)"@
    } else if bytes_start_with(h, seq![0x89u8, 0x50u8, 0x4Eu8, 0x47u8]) {
        "PNG image"@
    } else if bytes_start_with(h, seq![0xFFu8, 0xD8u8, 0xFFu8]) {
        "JPEG image"@
    } else if bytes_start_with(h, seq![0x47u8, 0x49u8, 0x46u8, 0x38u8]) {
        "GIF image"@
    } else if bytes_start_with(
        h,
        seq![0x3Cu8, 0x21u8, 0x44u8, 0x4Fu8, 0x43u8, 0x54u8, 0x59u8, 0x50u8, 0x45u8],
    ) || bytes_start_with(h, seq![0x3Cu8, 0x68u8, 0x74u8, 0x6Du8, 0x6Cu8]) {
        "HTML document"@
    } else if bytes_start_with(h, seq![0x7Bu8]) || bytes_start_with(h, seq![0x5Bu8]) {
        "JSON data"@
    } else {
        "unknown file type"@
    }
}

fn slice_starts_with(b: &[u8], p: &[u8]) -> (r: bool)
    ensures
        r == bytes_start_with(b@, p@),
{
    if p.len() > b.len() {
        return false;
    }
    let mut i: usize = 0;
    while i < p.len()
        invariant
            p@.len() <= b@.len(),
            i <= p@.len(),
            forall|j: int| 0 <= j < i ==> b@[j] == p@[j],
        decreases p@.len() - i,
    {
        if b[i] != p[i] {
            assert(b@.subrange(0, p@.len() as int)[i as int] != p@[i as int]);
            return false;
        }
        i += 1;
    }
    assert(b@.subrange(0, p@.len() as int) =~= p@);
    true
}

fn head_slice(b: &[u8], n: usize) -> (r: &[u8])
    ensures
        r@ == head(b@, n as int),
{
    if b.len() <= n {
        b
    } else {
        &b[0..n]
    }
}

/// Strip UTF-8 BOM and leading whitespace from a byte slice.
pub fn strip_bom_and_whitespace(bytes: &[u8]) -> (r: &[u8])
    ensures
        r@ == without_bom_and_whitespace(bytes@),
{
    let mut start: usize = 0;
    if slice_starts_with(bytes, &[0xEFu8, 0xBBu8, 0xBFu8]) {
        start = 3;
    }
    let ghost unbommed = bytes@.subrange(start as int, bytes@.len() as int);
    assert(unbommed == (if bytes_start_with(bytes@, utf8_bom()) {
        bytes@.subrange(3, bytes@.len() as int)
    } else {
        bytes@
    }));
    let mut i = start;
    while i < bytes.len() && (bytes[i] == 0x20 || bytes[i] == 0x09 || bytes[i] == 0x0A
        || bytes[i] == 0x0C || bytes[i] == 0x0D)
        invariant
            start <= i <= bytes@.len(),
            unbommed == bytes@.subrange(start as int, bytes@.len() as int),
            skip_ascii_whitespace(unbommed) == skip_ascii_whitespace(
                bytes@.subrange(i as int, bytes@.len() as int),
            ),
        decreases bytes@.len() - i,
    {
        assert(bytes@.subrange(i as int, bytes@.len() as int).drop_first() =~= bytes@.subrange(
            i + 1,
            bytes@.len() as int,
        ));
        i += 1;
    }
    &bytes[i..bytes.len()]
}

/// Provide a hint about what a non-PDF file actually is.
pub fn detect_type_hint(buffer: &[u8]) -> (r: String)
    ensures
        r@ == type_hint(buffer@),
{
    if buffer.len() == 0 {
        return "empty file".to_owned();
    }
    let h = head_slice(buffer, 256);
    let m1: [u8; 2] = [0x50u8, 0x4Bu8];
    assert(m1@ =~= seq![0x50u8, 0x4Bu8]);
    let m2: [u8; 4] = [0x89u8, 0x50u8, 0x4Eu8, 0x47u8];
    assert(m2@ =~= seq![0x89u8, 0x50u8, 0x4Eu8, 0x47u8]);
    let m3: [u8; 3] = [0xFFu8, 0xD8u8, 0xFFu8];
    assert(m3@ =~= seq![0xFFu8, 0xD8u8, 0xFFu8]);
    let m4: [u8; 4] = [0x47u8, 0x49u8, 0x46u8, 0x38u8];
    assert(m4@ =~= seq![0x47u8, 0x49u8, 0x46u8, 0x38u8]);
    let m5: [u8; 9] = [0x3Cu8, 0x21u8, 0x44u8, 0x4Fu8, 0x43u8, 0x54u8, 0x59u8, 0x50u8, 0x45u8];
    assert(m5@ =~= seq![0x3Cu8, 0x21u8, 0x44u8, 0x4Fu8, 0x43u8, 0x54u8, 0x59u8, 0x50u8, 0x45u8]);
    let m6: [u8; 5] = [0x3Cu8, 0x68u8, 0x74u8, 0x6Du8, 0x6Cu8];
    assert(m6@ =~= seq![0x3Cu8, 0x68u8, 0x74u8, 0x6Du8, 0x6Cu8]);
    let m7: [u8; 1] = [0x7Bu8];
    assert(m7@ =~= seq![0x7Bu8]);
    let m8: [u8; 1] = [0x5Bu8];
    assert(m8@ =~= seq![0x5Bu8]);
    if slice_starts_with(h, &m1) {
        "ZIP archive (possibly DOCX/XLSX/PPTX)".to_owned()
    } else if slice_starts_with(h, &m2) {
        "PNG image".to_owned()
    } else if slice_starts_with(h, &m3) {
        "JPEG image".to_owned()
    } else if slice_starts_with(h, &m4) {
        "GIF image".to_owned()
    } else if slice_starts_with(h, &m5) || slice_starts_with(h, &m6) {
        "HTML document".to_owned()
    } else if slice_starts_with(h, &m7) || slice_starts_with(h, &m8) {
        "JSON data".to_owned()
    } else {
        "unknown file type".to_owned()
    }
}

/// Validate that a byte buffer looks like a PDF.
pub fn validate_bytes(buffer: &[u8]) -> (r: Result<(), Error>)
    ensures
        r is Ok <==> has_pdf_header(buffer@),
        r matches Err(e) ==> e matches Error::NotPdf { hint } && hint@ == type_hint(buffer@),
{
    if buffer.len() == 0 {
        return Err(Error::NotPdf { hint: detect_type_hint(buffer) });
    }
    let header = head_slice(buffer, 1024);
    let trimmed = strip_bom_and_whitespace(header);
    if slice_starts_with(trimmed, &[0x25u8, 0x50u8, 0x44u8, 0x46u8, 0x2Du8]) {
        Ok(())
    } else {
        Err(Error::NotPdf { hint: detect_type_hint(buffer) })
    }
}

// ── Loading ────────────────────────────────────────────────────────

/// The trailer of the document that `Document::load_mem` builds from
/// `bytes`, or `None` where it fails.
pub uninterp spec fn loaded_trailer(bytes: Seq<u8>) -> Option<Map<Seq<u8>, PdfShape>>;

/// `lopdf::Document::load_mem`: parses the buffer with the default
/// (lenient) options. Whether it succeeds, and the trailer it reads, are
/// functions of the bytes: `Reader::read` (reader.rs) parses the header and
/// the cross-reference data and trailer in order from the buffer (falling
/// back to a sequential scan), then either decrypts sequentially (which only
/// removes `/Encrypt` from the trailer) or loads the objects; the one
/// parallel step (`load_objects_raw`, reader.rs:986) returns an error only
/// in strict mode (reader.rs:929, 946) and does not touch the trailer. The
/// objects are not stated: in that parallel step two object streams that
/// both hold an object the cross-reference data do not place may race to
/// supply it. Which error comes back is not stated either. Its source
/// returns errors through `Result`; no panic on malformed input is shown
/// there, but that is not proved.
#[verifier::external_body]
fn document_load_mem(buffer: &[u8]) -> (r: Result<PdfDocument, LopdfError>)
    ensures
        r is Ok <==> loaded_trailer(buffer@) is Some,
        r matches Ok(d) ==> loaded_trailer(buffer@) == Some(trailer_shape(d)),
{
    PdfDocument::load_mem(buffer)
}

/// Load a PDF from a byte buffer, returning the document and its page
/// count.
///
/// A buffer without a PDF header is refused with `NotPdf` before parsing;
/// one with a header loads exactly when lopdf can parse it.
pub fn load_from_bytes(buffer: &[u8]) -> (r: Result<(PdfDocument, u32), Error>)
    ensures
        !has_pdf_header(buffer@) ==> (r matches Err(Error::NotPdf { hint }) && hint@ == type_hint(
            buffer@,
        )),
        has_pdf_header(buffer@) ==> (r is Ok <==> loaded_trailer(buffer@) is Some),
        has_pdf_header(buffer@) && r is Err ==> exists|le: LopdfError|
            #[trigger] lopdf_error_maps_to(le, r->Err_0),
        r matches Ok((d, n)) ==> {
            &&& loaded_trailer(buffer@) == Some(trailer_shape(d))
            &&& document_page_count(d) <= u32::MAX ==> n == document_page_count(d)
        },
{
    validate_bytes(buffer)?;
    match document_load_mem(buffer) {
        Ok(doc) => {
            let pages = document_page_numbers(&doc).len();
            #[verifier::truncate]
            let page_count = pages as u32;
            Ok((doc, page_count))
        },
        Err(err) => Err(Error::from_lopdf(err)),
    }
}

// ── Title ──────────────────────────────────────────────────────────

/// `String::from_utf8`: a string exactly when the bytes are valid UTF-8,
/// with the characters they encode.
#[verifier::external_body]
pub(crate) fn string_from_utf8(bytes: Vec<u8>) -> (r: Option<String>)
    ensures
        r is Some <==> valid_utf8(bytes@),
        r matches Some(s) ==> s@ == decode_utf8(bytes@),
{
    String::from_utf8(bytes).ok()
}

/// The title given the bytes of the `/Title` string: valid UTF-8 that is
/// not blank.
pub open spec fn title_from(bytes: Option<Seq<u8>>) -> Option<Seq<char>> {
    match bytes {
        Some(b) => if valid_utf8(b) && trim(decode_utf8(b)).len() > 0 {
            Some(decode_utf8(b))
        } else {
            None
        },
        None => None,
    }
}

/// Decode the bytes of a `/Title` string into a title.
pub fn title_from_bytes(bytes: Option<Vec<u8>>) -> (r: Option<String>)
    ensures
        r matches Some(s) ==> bytes is Some && title_from(Some(bytes->0@)) == Some(s@),
        r is None ==> bytes is None || title_from(Some(bytes->0@)) is None,
{
    match bytes {
        Some(b) => {
            let ghost bv = b@;
            match string_from_utf8(b) {
                Some(t) => {
                    let chars = str_chars(t.as_str());
                    let trimmed = trim_exec(chars.as_slice());
                    if trimmed.len() == 0 {
                        None
                    } else {
                        Some(t)
                    }
                },
                None => None,
            }
        },
        None => None,
    }
}

/// The bytes of the `/Title` string of the dictionary that the trailer's
/// `/Info` reference resolves to.
pub open spec fn info_title_bytes(doc: PdfDocument) -> Option<Seq<u8>> {
    match ref_entry(trailer_shape(doc), seq![0x49u8, 0x6Eu8, 0x66u8, 0x6Fu8]) {
        Some(id) => match dict_by_id(document_objects(doc), id) {
            Some(d) => string_entry(d, seq![0x54u8, 0x69u8, 0x74u8, 0x6Cu8, 0x65u8]),
            None => None,
        },
        None => None,
    }
}

/// The document's title from its `/Info` dictionary, if it has a
/// non-blank UTF-8 one.
pub fn document_title(doc: &PdfDocument) -> (r: Option<String>)
    ensures
        r matches Some(s) ==> title_from(info_title_bytes(*doc)) == Some(s@),
        r is None ==> title_from(info_title_bytes(*doc)) is None,
        r matches Some(s) ==> trim(s@).len() > 0,
{
    let info_key: [u8; 4] = [0x49u8, 0x6Eu8, 0x66u8, 0x6Fu8];
    let title_key: [u8; 5] = [0x54u8, 0x69u8, 0x74u8, 0x6Cu8, 0x65u8];
    assert(info_key@ =~= seq![0x49u8, 0x6Eu8, 0x66u8, 0x6Fu8]);
    assert(title_key@ =~= seq![0x54u8, 0x69u8, 0x74u8, 0x6Cu8, 0x65u8]);
    // The trailer's `Info` entry, when it is a reference.
    let info = match dictionary_entry(document_trailer(doc), &info_key) {
        Some(o) => match object_value(o) {
            PdfValue::Reference(num, generation) => (num, generation),
            _ => return None,
        },
        None => return None,
    };
    let dict = match document_dictionary(doc, info) {
        Some(d) => d,
        None => return None,
    };
    // `Title`
    let title = match entry_string(dict, &title_key) {
        Some(b) => Some(slice_to_vec(b.as_slice())),
        None => None,
    };
    title_from_bytes(title)
}

} // verus!
