//! Reading PDF objects: telling an object's variant apart, resolving
//! references to dictionaries, and reading typed dictionary entries.

use lopdf::Dictionary as PdfDictionary;
use lopdf::Document as PdfDocument;
use lopdf::Object as PdfObject;
use vstd::prelude::*;

verus! {

// ── The shape of PDF objects ───────────────────────────────────────

/// What a PDF object holds, as far as the readers here look at it: a
/// dictionary's entries, an array's elements, a reference's object
/// number and generation, an integer, the bytes of a string or a name;
/// anything else (null, booleans, reals, streams) is `Other`.
pub enum PdfShape {
    Dictionary(Map<Seq<u8>, PdfShape>),
    Array(Seq<PdfShape>),
    Reference(u32, u16),
    Integer(i64),
    String(Seq<u8>),
    Name(Seq<u8>),
    Other,
}

/// The shape of a `lopdf::Object`.
pub uninterp spec fn object_shape(obj: PdfObject) -> PdfShape;

/// The entries of a `lopdf::Dictionary`, keyed by their bytes.
pub uninterp spec fn dictionary_shape(dict: PdfDictionary) -> Map<Seq<u8>, PdfShape>;

/// The objects of a `lopdf::Document` (its `objects` map), by id.
pub uninterp spec fn document_objects(doc: PdfDocument) -> Map<(u32, u16), PdfShape>;

/// The entries of a document's trailer dictionary.
pub uninterp spec fn trailer_shape(doc: PdfDocument) -> Map<Seq<u8>, PdfShape>;

/// The shapes of an array's elements.
pub open spec fn shapes(a: Seq<PdfObject>) -> Seq<PdfShape> {
    Seq::new(a.len(), |i: int| object_shape(a[i]))
}

/// What `Document::get_object` finds for an id: the object stored under
/// it, with references followed while `left` more of them may be
/// followed; nothing for a missing id or too long a chain.
pub open spec fn dereferenced(objs: Map<(u32, u16), PdfShape>, id: (u32, u16), left: nat) -> Option<
    PdfShape,
>
    decreases left,
{
    if !objs.contains_key(id) {
        None
    } else {
        match objs[id] {
            PdfShape::Reference(n, g) => if left == 0 {
                None
            } else {
                dereferenced(objs, (n, g), (left - 1) as nat)
            },
            s => Some(s),
        }
    }
}

/// The object lopdf resolves an id to (it follows at most 128 references).
pub open spec fn object_by_id(objs: Map<(u32, u16), PdfShape>, id: (u32, u16)) -> Option<PdfShape> {
    dereferenced(objs, id, 128)
}

/// The dictionary an id resolves to, if it resolves to one.
pub open spec fn dict_by_id(objs: Map<(u32, u16), PdfShape>, id: (u32, u16)) -> Option<
    Map<Seq<u8>, PdfShape>,
> {
    match object_by_id(objs, id) {
        Some(PdfShape::Dictionary(m)) => Some(m),
        _ => None,
    }
}

/// A dictionary given directly or through a reference.
pub open spec fn dict_of(objs: Map<(u32, u16), PdfShape>, s: PdfShape) -> Option<
    Map<Seq<u8>, PdfShape>,
> {
    match s {
        PdfShape::Dictionary(m) => Some(m),
        PdfShape::Reference(n, g) => dict_by_id(objs, (n, g)),
        _ => None,
    }
}

/// An array given directly or through a reference.
pub open spec fn array_of(objs: Map<(u32, u16), PdfShape>, s: PdfShape) -> Option<Seq<PdfShape>> {
    match s {
        PdfShape::Array(a) => Some(a),
        PdfShape::Reference(n, g) => match object_by_id(objs, (n, g)) {
            Some(PdfShape::Array(a)) => Some(a),
            _ => None,
        },
        _ => None,
    }
}

/// The entry under `key`, when it is a name: its bytes.
pub open spec fn name_entry(m: Map<Seq<u8>, PdfShape>, key: Seq<u8>) -> Option<Seq<u8>> {
    if m.contains_key(key) {
        match m[key] {
            PdfShape::Name(n) => Some(n),
            _ => None,
        }
    } else {
        None
    }
}

/// The entry under `key`, when it is a string: its bytes.
pub open spec fn string_entry(m: Map<Seq<u8>, PdfShape>, key: Seq<u8>) -> Option<Seq<u8>> {
    if m.contains_key(key) {
        match m[key] {
            PdfShape::String(b) => Some(b),
            _ => None,
        }
    } else {
        None
    }
}

/// The entry under `key`, when it is an array given directly: its elements.
pub open spec fn array_entry(m: Map<Seq<u8>, PdfShape>, key: Seq<u8>) -> Option<Seq<PdfShape>> {
    if m.contains_key(key) {
        match m[key] {
            PdfShape::Array(a) => Some(a),
            _ => None,
        }
    } else {
        None
    }
}

// ── Reading objects ────────────────────────────────────────────────

/// A PDF object told apart by the variants that the readers of fonts,
/// links, form fields and resources look at.
pub enum PdfValue<'a> {
    Dictionary(&'a PdfDictionary),
    Array(&'a Vec<PdfObject>),
    Reference(u32, u16),
    Integer(i64),
    String(&'a Vec<u8>),
    Name(&'a Vec<u8>),
    Other,
}

/// Tells a `lopdf::Object` apart by its variant (`Dictionary`, `Array`,
/// `Reference`, `Integer`, `String`, `Name`, anything else), handing out
/// its fields; the object's shape is the variant with those fields.
#[verifier::external_body]
pub(crate) fn object_value(obj: &PdfObject) -> (r: PdfValue<'_>)
    ensures
        match r {
            PdfValue::Dictionary(d) => object_shape(*obj) == PdfShape::Dictionary(
                dictionary_shape(*d),
            ),
            PdfValue::Array(a) => object_shape(*obj) == PdfShape::Array(shapes(a@)),
            PdfValue::Reference(n, g) => object_shape(*obj) == PdfShape::Reference(n, g),
            PdfValue::Integer(n) => object_shape(*obj) == PdfShape::Integer(n),
            PdfValue::String(b) => object_shape(*obj) == PdfShape::String(b@),
            PdfValue::Name(b) => object_shape(*obj) == PdfShape::Name(b@),
            PdfValue::Other => object_shape(*obj) == PdfShape::Other,
        },
{
    match obj {
        PdfObject::Dictionary(d) => PdfValue::Dictionary(d),
        PdfObject::Array(a) => PdfValue::Array(a),
        PdfObject::Reference(id) => PdfValue::Reference(id.0, id.1),
        PdfObject::Integer(n) => PdfValue::Integer(*n),
        PdfObject::String(b, _) => PdfValue::String(b),
        PdfObject::Name(b) => PdfValue::Name(b),
        _ => PdfValue::Other,
    }
}

/// `Document::catalog`: the dictionary the trailer's `/Root` reference
/// resolves to, if it is one.
#[verifier::external_body]
pub(crate) fn document_catalog(doc: &PdfDocument) -> (r: Option<&PdfDictionary>)
    ensures
        r is Some <==> catalog_of(*doc) is Some,
        r matches Some(d) ==> catalog_of(*doc) == Some(dictionary_shape(*d)),
{
    doc.catalog().ok()
}

/// The dictionary that the trailer's `/Root` reference resolves to.
pub open spec fn catalog_of(doc: PdfDocument) -> Option<Map<Seq<u8>, PdfShape>> {
    match ref_entry(trailer_shape(doc), seq![0x52u8, 0x6Fu8, 0x6Fu8, 0x74u8]) {
        Some(id) => dict_by_id(document_objects(doc), id),
        None => None,
    }
}

/// The entry under `key`, when it is a reference: its id.
pub open spec fn ref_entry(m: Map<Seq<u8>, PdfShape>, key: Seq<u8>) -> Option<(u32, u16)> {
    if m.contains_key(key) {
        match m[key] {
            PdfShape::Reference(n, g) => Some((n, g)),
            _ => None,
        }
    } else {
        None
    }
}

/// `Dictionary::get`: the entry under `key`, if there is one.
#[verifier::external_body]
pub(crate) fn dictionary_entry<'a>(dict: &'a PdfDictionary, key: &[u8]) -> (r: Option<&'a PdfObject>)
    ensures
        r is Some <==> dictionary_shape(*dict).contains_key(key@),
        r matches Some(o) ==> object_shape(*o) == dictionary_shape(*dict)[key@],
{
    dict.get(key).ok()
}

/// `Document::get_dictionary`: the object with that id (references
/// followed) when it is a dictionary.
#[verifier::external_body]
pub(crate) fn document_dictionary(doc: &PdfDocument, id: (u32, u16)) -> (r: Option<&PdfDictionary>)
    ensures
        r is Some <==> dict_by_id(document_objects(*doc), id) is Some,
        r matches Some(d) ==> dict_by_id(document_objects(*doc), id) == Some(dictionary_shape(*d)),
{
    doc.get_dictionary(id).ok()
}

/// `Document::get_object`: the object with that id, references followed
/// (at most 128 of them).
#[verifier::external_body]
pub(crate) fn document_object(doc: &PdfDocument, id: (u32, u16)) -> (r: Option<&PdfObject>)
    ensures
        r is Some <==> object_by_id(document_objects(*doc), id) is Some,
        r matches Some(o) ==> object_by_id(document_objects(*doc), id) == Some(object_shape(*o)),
{
    doc.get_object(id).ok()
}

/// The document's trailer dictionary (`Document::trailer`).
#[verifier::external_body]
pub(crate) fn document_trailer(doc: &PdfDocument) -> (r: &PdfDictionary)
    ensures
        dictionary_shape(*r) == trailer_shape(*doc),
{
    &doc.trailer
}

/// The number of pages that `Document::get_pages` finds by walking the
/// page tree.
pub uninterp spec fn document_page_count(doc: PdfDocument) -> nat;

/// The numbers `1..=n`, ascending.
pub open spec fn page_numbers_upto(n: nat) -> Seq<u32> {
    Seq::new(n, |i: int| (i + 1) as u32)
}

/// `Document::get_pages` read for its keys: the page numbers, ascending
/// (a `BTreeMap` walks its keys in order). `get_pages` numbers the pages
/// it finds `(i + 1) as u32` for `i` from 0, so the keys are `1..=n` while
/// `n` fits in a `u32`; past that the numbers wrap and nothing more is
/// stated.
#[verifier::external_body]
pub(crate) fn document_page_numbers(doc: &PdfDocument) -> (r: Vec<u32>)
    ensures
        forall|i: int, j: int| 0 <= i < j < r@.len() ==> r@[i] < r@[j],
        document_page_count(*doc) <= u32::MAX ==> r@ == page_numbers_upto(
            document_page_count(*doc),
        ),
{
    doc.get_pages().keys().copied().collect()
}

/// An array given directly or through a reference.
pub fn resolve_array<'a>(doc: &'a PdfDocument, obj: &'a PdfObject) -> (r: Option<&'a Vec<PdfObject>>)
    ensures
        r is Some <==> array_of(document_objects(*doc), object_shape(*obj)) is Some,
        r matches Some(a) ==> array_of(document_objects(*doc), object_shape(*obj)) == Some(
            shapes(a@),
        ),
{
    match object_value(obj) {
        PdfValue::Array(a) => Some(a),
        PdfValue::Reference(num, generation) => match document_object(doc, (num, generation)) {
            Some(o) => match object_value(o) {
                PdfValue::Array(a) => Some(a),
                _ => None,
            },
            None => None,
        },
        _ => None,
    }
}

/// A dictionary given directly or through a reference.
pub fn resolve_dict<'a>(doc: &'a PdfDocument, obj: &'a PdfObject) -> (r: Option<&'a PdfDictionary>)
    ensures
        r is Some <==> dict_of(document_objects(*doc), object_shape(*obj)) is Some,
        r matches Some(d) ==> dict_of(document_objects(*doc), object_shape(*obj)) == Some(
            dictionary_shape(*d),
        ),
{
    match object_value(obj) {
        PdfValue::Dictionary(d) => Some(d),
        PdfValue::Reference(num, generation) => document_dictionary(doc, (num, generation)),
        _ => None,
    }
}

/// The entry under `key` when it is a name: its bytes.
pub(crate) fn entry_name<'a>(dict: &'a PdfDictionary, key: &[u8]) -> (r: Option<&'a Vec<u8>>)
    ensures
        r is Some <==> name_entry(dictionary_shape(*dict), key@) is Some,
        r matches Some(n) ==> name_entry(dictionary_shape(*dict), key@) == Some(n@),
{
    match dictionary_entry(dict, key) {
        Some(o) => match object_value(o) {
            PdfValue::Name(n) => Some(n),
            _ => None,
        },
        None => None,
    }
}

/// The entry under `key` when it is a string: its bytes.
pub(crate) fn entry_string<'a>(dict: &'a PdfDictionary, key: &[u8]) -> (r: Option<&'a Vec<u8>>)
    ensures
        r is Some <==> string_entry(dictionary_shape(*dict), key@) is Some,
        r matches Some(b) ==> string_entry(dictionary_shape(*dict), key@) == Some(b@),
{
    match dictionary_entry(dict, key) {
        Some(o) => match object_value(o) {
            PdfValue::String(b) => Some(b),
            _ => None,
        },
        None => None,
    }
}

/// The entry under `key` when it is an array given directly.
pub(crate) fn entry_array<'a>(dict: &'a PdfDictionary, key: &[u8]) -> (r: Option<&'a Vec<PdfObject>>)
    ensures
        r is Some <==> array_entry(dictionary_shape(*dict), key@) is Some,
        r matches Some(a) ==> array_entry(dictionary_shape(*dict), key@) == Some(shapes(a@)),
{
    match dictionary_entry(dict, key) {
        Some(o) => match object_value(o) {
            PdfValue::Array(a) => Some(a),
            _ => None,
        },
        None => None,
    }
}

/// The two byte strings are equal.
pub fn bytes_eq(a: &[u8], b: &[u8]) -> (r: bool)
    ensures
        r == (a@ == b@),
{
    if a.len() != b.len() {
        return false;
    }
    let mut i: usize = 0;
    while i < a.len()
        invariant
            i <= a@.len(),
            a@.len() == b@.len(),
            forall|k: int| 0 <= k < i ==> a@[k] == b@[k],
        decreases a@.len() - i,
    {
        if a[i] != b[i] {
            return false;
        }
        i += 1;
    }
    assert(a@ =~= b@);
    true
}

/// The entry under `key` is the name `name`.
pub(crate) fn has_name(dict: &PdfDictionary, key: &[u8], name: &[u8]) -> (r: bool)
    ensures
        r == (name_entry(dictionary_shape(*dict), key@) == Some(name@)),
{
    match entry_name(dict, key) {
        Some(n) => bytes_eq(n.as_slice(), name),
        None => false,
    }
}

} // verus!
