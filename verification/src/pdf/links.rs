//! Hyperlink and form field annotation extraction.
//!
//! Finds link annotations on a page and filled form fields in the
//! document's `/AcroForm`, and turns each into the text it contributes;
//! the `/Rect` arrays that position them are handed back for the caller to
//! read.

use std::collections::HashMap;

use lopdf::Dictionary as PdfDictionary;
use lopdf::Document as PdfDocument;
use lopdf::Object as PdfObject;
use vstd::prelude::*;

use crate::pdf::fonts::{string_from_utf8_lossy, utf8_lossy};
use crate::pdf::objects::{
    array_entry, array_of, bytes_eq, catalog_of, dict_by_id, dict_of, dictionary_entry, dictionary_shape, document_catalog,
    document_dictionary, document_objects, entry_array, entry_name, entry_string, has_name,
    name_entry, object_shape, object_value, ref_entry, resolve_array, resolve_dict, shapes,
    string_entry, PdfShape, PdfValue,
};
use crate::text::chars::push_chars;
use crate::text::chars::str_chars;
use crate::types::{ItemKind, PageNum};

verus! {

broadcast use vstd::std_specs::hash::group_hash_axioms;

// ── Positioned text ────────────────────────────────────────────────

/// A link or form field with the text it contributes, and the `/Rect`
/// array that positions it on its page.
pub struct PlacedText<'a> {
    /// A link's URI, or a form field's qualified name and value.
    pub text: String,
    /// `Link` with the URI, or `FormField`.
    pub kind: ItemKind,
    /// The page it belongs to.
    pub page: PageNum,
    /// The `/Rect` array, when it has at least four entries.
    pub rect: Option<&'a Vec<PdfObject>>,
}

/// The key `Rect`.
pub open spec fn rect_key() -> Seq<u8> {
    seq![0x52u8, 0x65u8, 0x63u8, 0x74u8]
}

/// The `/Rect` array of a dictionary, when it is given directly and has at
/// least four entries.
pub open spec fn rect_entry(m: Map<Seq<u8>, PdfShape>) -> Option<Seq<PdfShape>> {
    match array_entry(m, rect_key()) {
        Some(a) => if a.len() >= 4 {
            Some(a)
        } else {
            None
        },
        None => None,
    }
}

/// The `/Rect` array of an annotation, when it has at least four entries.
fn rect_of<'a>(dict: &'a PdfDictionary) -> (r: Option<&'a Vec<PdfObject>>)
    ensures
        r is Some <==> rect_entry(dictionary_shape(*dict)) is Some,
        r matches Some(a) ==> rect_entry(dictionary_shape(*dict)) == Some(shapes(a@)) && a@.len()
            >= 4,
{
    let key: [u8; 4] = [0x52u8, 0x65u8, 0x63u8, 0x74u8];
    assert(key@ =~= rect_key());
    match entry_array(dict, &key) {
        Some(a) => if a.len() >= 4 {
            Some(a)
        } else {
            None
        },
        None => None,
    }
}

// ── Links ──────────────────────────────────────────────────────────

/// Text decoded from some bytes as `String::from_utf8_lossy` does.
pub open spec fn lossy_text(t: Seq<char>) -> bool {
    exists|b: Seq<u8>| #[trigger] utf8_lossy(b) == t
}

/// The URI of a link annotation: the `/URI` string of its `/A` action
/// dictionary (given directly or through a reference), decoded as lossy
/// UTF-8.
pub open spec fn link_uri(objs: Map<(u32, u16), PdfShape>, annot: Map<Seq<u8>, PdfShape>) -> Option<
    Seq<char>,
> {
    if annot.contains_key(seq![0x41u8]) {
        match dict_of(objs, annot[seq![0x41u8]]) {
            Some(a) => match string_entry(a, seq![0x55u8, 0x52u8, 0x49u8]) {
                Some(b) => Some(utf8_lossy(b)),
                None => None,
            },
            None => None,
        }
    } else {
        None
    }
}

/// Extract the URI from a link annotation's `/A` (Action) dictionary: its
/// `/URI` string, decoded as lossy UTF-8.
fn extract_link_uri(doc: &PdfDocument, annot_dict: &PdfDictionary) -> (r: Option<String>)
    ensures
        r is Some <==> link_uri(document_objects(*doc), dictionary_shape(*annot_dict)) is Some,
        r matches Some(s) ==> link_uri(document_objects(*doc), dictionary_shape(*annot_dict))
            == Some(s@),
        r matches Some(s) ==> lossy_text(s@),
{
    let a_key: [u8; 1] = [0x41u8];
    let uri_key: [u8; 3] = [0x55u8, 0x52u8, 0x49u8];
    assert(a_key@ =~= seq![0x41u8]);
    assert(uri_key@ =~= seq![0x55u8, 0x52u8, 0x49u8]);
    // `A`
    let a_obj = match dictionary_entry(annot_dict, &a_key) {
        Some(o) => o,
        None => return None,
    };
    let a_dict = match resolve_dict(doc, a_obj) {
        Some(d) => d,
        None => return None,
    };
    // `URI`
    match entry_string(a_dict, &uri_key) {
        Some(bytes) => {
            let s = string_from_utf8_lossy(bytes.as_slice());
            assert(utf8_lossy(bytes@) == s@);
            Some(s)
        },
        None => None,
    }
}

/// A link item: its text is the link's URI, which its kind carries too,
/// and it has a `/Rect` array.
pub open spec fn link_item(it: PlacedText, page_num: u32) -> bool {
    &&& it.kind matches ItemKind::Link(u) && u@ == it.text@
    &&& lossy_text(it.text@)
    &&& it.page@ == page_num
    &&& it.rect matches Some(a) && a@.len() >= 4
}

/// The `/Rect` shapes an item carries.
pub open spec fn rect_view(rect: Option<&Vec<PdfObject>>) -> Option<Seq<PdfShape>> {
    match rect {
        Some(a) => Some(shapes(a@)),
        None => None,
    }
}

/// The link an annotation gives: when it resolves to a dictionary whose
/// `/Subtype` is `Link`, with a URI and a `/Rect` array, its URI and rect.
pub open spec fn link_of(objs: Map<(u32, u16), PdfShape>, annot: PdfShape) -> Option<
    (Seq<char>, Seq<PdfShape>),
> {
    match dict_of(objs, annot) {
        Some(d) => if name_entry(d, subtype_key()) == Some(seq![0x4Cu8, 0x69u8, 0x6Eu8, 0x6Bu8]) {
            match (link_uri(objs, d), rect_entry(d)) {
                (Some(u), Some(r)) => Some((u, r)),
                _ => None,
            }
        } else {
            None
        },
        None => None,
    }
}

/// The links of the first annotations, in order.
pub open spec fn links_from(objs: Map<(u32, u16), PdfShape>, annots: Seq<PdfShape>) -> Seq<
    (Seq<char>, Seq<PdfShape>),
>
    decreases annots.len(),
{
    if annots.len() == 0 {
        seq![]
    } else {
        let prev = links_from(objs, annots.drop_last());
        match link_of(objs, annots.last()) {
            Some(l) => prev.push(l),
            None => prev,
        }
    }
}

/// The key `Annots`.
pub open spec fn annots_key() -> Seq<u8> {
    seq![0x41u8, 0x6Eu8, 0x6Eu8, 0x6Fu8, 0x74u8, 0x73u8]
}

/// The links of a page: those of the annotations in its `/Annots` array.
pub open spec fn page_links(objs: Map<(u32, u16), PdfShape>, page_id: (u32, u16)) -> Seq<
    (Seq<char>, Seq<PdfShape>),
> {
    match dict_by_id(objs, page_id) {
        Some(p) => if p.contains_key(annots_key()) {
            match array_of(objs, p[annots_key()]) {
                Some(a) => links_from(objs, a),
                None => seq![],
            }
        } else {
            seq![]
        },
        None => seq![],
    }
}

/// The items are the given links, in order, on page `page_num`.
pub open spec fn links_placed(
    items: Seq<PlacedText>,
    links: Seq<(Seq<char>, Seq<PdfShape>)>,
    page_num: u32,
) -> bool {
    &&& items.len() == links.len()
    &&& forall|k: int|
        0 <= k < items.len() ==> link_item(#[trigger] items[k], page_num) && items[k].text@
            == links[k].0 && rect_view(items[k].rect) == Some(links[k].1)
}

/// Extract hyperlink annotations from a page.
///
/// Each `/Link` annotation of the page's `/Annots` whose action has a
/// `/URI` string and which has a `/Rect` array gives one item, in the
/// order of the annotations.
pub fn extract_page_links<'a>(doc: &'a PdfDocument, page_id: (u32, u16), page_num: u32) -> (r: Vec<
    PlacedText<'a>,
>)
    requires
        page_num > 0,
    ensures
        links_placed(r@, page_links(document_objects(*doc), page_id), page_num),
{
    let ghost objs = document_objects(*doc);
    let mut items: Vec<PlacedText<'a>> = Vec::new();
    let page_dict = match document_dictionary(doc, page_id) {
        Some(d) => d,
        None => return items,
    };
    let annots_k: [u8; 6] = [0x41u8, 0x6Eu8, 0x6Eu8, 0x6Fu8, 0x74u8, 0x73u8];
    assert(annots_k@ =~= annots_key());
    let annots_obj = match dictionary_entry(page_dict, &annots_k) {
        Some(o) => o,
        None => return items,
    };
    let annots = match resolve_array(doc, annots_obj) {
        Some(a) => a,
        None => return items,
    };
    let ghost ashapes = shapes(annots@);
    let subtype: [u8; 7] = [0x53u8, 0x75u8, 0x62u8, 0x74u8, 0x79u8, 0x70u8, 0x65u8];
    let link: [u8; 4] = [0x4Cu8, 0x69u8, 0x6Eu8, 0x6Bu8];
    assert(subtype@ =~= subtype_key());
    assert(link@ =~= seq![0x4Cu8, 0x69u8, 0x6Eu8, 0x6Bu8]);
    assert(page_links(objs, page_id) == links_from(objs, ashapes));
    let mut i: usize = 0;
    assert(ashapes.take(0) =~= seq![]);
    while i < annots.len()
        invariant
            i <= annots@.len(),
            page_num > 0,
            objs == document_objects(*doc),
            ashapes == shapes(annots@),
            subtype@ == subtype_key(),
            link@ == seq![0x4Cu8, 0x69u8, 0x6Eu8, 0x6Bu8],
            links_placed(items@, links_from(objs, ashapes.take(i as int)), page_num),
        decreases annots@.len() - i,
    {
        let annot_obj = &annots[i];
        let ghost before = items@;
        proof {
            assert(ashapes.take(i + 1).drop_last() =~= ashapes.take(i as int));
            assert(ashapes.take(i + 1).last() == object_shape(annots@[i as int]));
        }
        i += 1;
        let annot_dict = match resolve_dict(doc, annot_obj) {
            Some(d) => d,
            None => continue,
        };
        // `Subtype` must be `Link`.
        if !has_name(annot_dict, &subtype, &link) {
            continue;
        }
        let uri = match extract_link_uri(doc, annot_dict) {
            Some(u) => u,
            None => continue,
        };
        let rect = match rect_of(annot_dict) {
            Some(a) => a,
            None => continue,
        };
        let text = uri.clone();
        let item = PlacedText {
            text,
            kind: ItemKind::Link(uri),
            page: PageNum::new(page_num),
            rect: Some(rect),
        };
        items.push(item);
        proof {
            let l = links_from(objs, ashapes.take(i as int));
            assert(items@ =~= before.push(item));
            assert forall|k: int| 0 <= k < items@.len() implies link_item(#[trigger] items@[k], page_num)
                && items@[k].text@ == l[k].0 && rect_view(items@[k].rect) == Some(l[k].1) by {
                if k < before.len() {
                    assert(items@[k] == before[k]);
                }
            }
        }
    }
    assert(ashapes.take(annots@.len() as int) =~= ashapes);
    items
}

// ── Form fields ────────────────────────────────────────────────────

/// The fully qualified name of a field: the parent's name and the
/// field's partial name joined by a dot, or either alone when the other
/// is empty.
pub open spec fn qualified_name(parent: Seq<char>, partial: Seq<char>) -> Seq<char> {
    if parent.len() == 0 {
        partial
    } else if partial.len() == 0 {
        parent
    } else {
        parent + seq!['.'] + partial
    }
}

/// Build a field's fully qualified name from its parent's name and its
/// partial name.
pub fn qualified_field_name(parent: &str, partial: &str) -> (r: String)
    ensures
        r@ == qualified_name(parent@, partial@),
{
    let p = str_chars(parent);
    let q = str_chars(partial);
    if p.len() == 0 {
        return partial.to_owned();
    }
    if q.len() == 0 {
        return parent.to_owned();
    }
    let mut out = String::new();
    push_chars(&mut out, p.as_slice());
    push_chars(&mut out, &['.']);
    push_chars(&mut out, q.as_slice());
    assert(['.']@ =~= seq!['.']);
    out
}

/// The value of a field given its `/FT` type and its `/V` entry: a text
/// or choice field's string, or a button's name, decoded as lossy UTF-8;
/// nothing for any other type or entry.
pub open spec fn field_value(field_type: Seq<u8>, v: Option<PdfValue>) -> Option<Seq<char>> {
    if field_type == seq![0x54u8, 0x78u8] || field_type == seq![0x43u8, 0x68u8] {
        match v {
            Some(PdfValue::String(b)) => Some(utf8_lossy(b@)),
            _ => None,
        }
    } else if field_type == seq![0x42u8, 0x74u8, 0x6Eu8] {
        match v {
            Some(PdfValue::Name(n)) => Some(utf8_lossy(n@)),
            _ => None,
        }
    } else {
        None
    }
}

/// Extract a field's value from its type and its `/V` entry.
pub fn form_field_value(field_type: &[u8], v: Option<PdfValue>) -> (r: Option<String>)
    ensures
        r matches Some(s) ==> field_value(field_type@, v) == Some(s@),
        r is None ==> field_value(field_type@, v) is None,
{
    let tx: [u8; 2] = [0x54u8, 0x78u8];
    let ch: [u8; 2] = [0x43u8, 0x68u8];
    let btn: [u8; 3] = [0x42u8, 0x74u8, 0x6Eu8];
    assert(tx@ =~= seq![0x54u8, 0x78u8]);
    assert(ch@ =~= seq![0x43u8, 0x68u8]);
    assert(btn@ =~= seq![0x42u8, 0x74u8, 0x6Eu8]);
    if bytes_eq(field_type, &tx) || bytes_eq(field_type, &ch) {
        match v {
            Some(PdfValue::String(b)) => Some(string_from_utf8_lossy(b.as_slice())),
            _ => None,
        }
    } else if bytes_eq(field_type, &btn) {
        match v {
            Some(PdfValue::Name(n)) => Some(string_from_utf8_lossy(n.as_slice())),
            _ => None,
        }
    } else {
        None
    }
}

/// The text a filled field contributes: nothing for an empty value or
/// `Off`; the value alone for an unnamed field; otherwise the name, `: `
/// and the value.
pub open spec fn field_text(name: Seq<char>, value: Seq<char>) -> Option<Seq<char>> {
    if value.len() == 0 || value == seq!['O', 'f', 'f'] {
        None
    } else if name.len() == 0 {
        Some(value)
    } else {
        Some(name + seq![':', ' '] + value)
    }
}

/// Build the text of a filled field from its qualified name and value.
pub fn form_field_text(fq_name: &str, value: &str) -> (r: Option<String>)
    ensures
        r matches Some(s) ==> field_text(fq_name@, value@) == Some(s@),
        r is None ==> field_text(fq_name@, value@) is None,
{
    let v = str_chars(value);
    if v.len() == 0 || (v.len() == 3 && v[0] == 'O' && v[1] == 'f' && v[2] == 'f') {
        assert(v@.len() == 3 && v@[0] == 'O' && v@[1] == 'f' && v@[2] == 'f' ==> v@ =~= seq![
            'O',
            'f',
            'f',
        ]);
        return None;
    }
    assert(v@ != seq!['O', 'f', 'f']) by {
        if v@ == seq!['O', 'f', 'f'] {
            assert(v@[0] == 'O' && v@[1] == 'f' && v@[2] == 'f');
        }
    }
    let n = str_chars(fq_name);
    if n.len() == 0 {
        return Some(value.to_owned());
    }
    let mut out = String::new();
    push_chars(&mut out, n.as_slice());
    push_chars(&mut out, &[':', ' ']);
    push_chars(&mut out, v.as_slice());
    assert([':', ' ']@ =~= seq![':', ' ']);
    Some(out)
}

/// The key of an object id in a page map: the object number and the
/// generation in one integer.
pub open spec fn object_key(num: u32, generation: u16) -> u64 {
    (num * 65536 + generation) as u64
}

/// The key of an object id in a page map.
pub fn page_key(num: u32, generation: u16) -> (r: u64)
    ensures
        r == object_key(num, generation),
{
    num as u64 * 65536 + generation as u64
}

/// Every page number in the map is positive.
pub open spec fn page_numbers_positive(pages: Map<u64, u32>) -> bool {
    forall|k: u64| #[trigger] pages.contains_key(k) ==> pages[k] > 0
}

/// A form field item: its text is what some filled field contributes.
pub open spec fn form_field_item(it: PlacedText) -> bool {
    &&& it.kind is FormField
    &&& exists|name: Seq<char>, value: Seq<char>| #[trigger] field_text(name, value) == Some(it.text@)
}

/// The key `Subtype`.
pub open spec fn subtype_key() -> Seq<u8> {
    seq![0x53u8, 0x75u8, 0x62u8, 0x74u8, 0x79u8, 0x70u8, 0x65u8]
}

/// A kid that is a reference to a dictionary whose `/Subtype` is `Widget`.
pub open spec fn widget_ref(objs: Map<(u32, u16), PdfShape>, kid: PdfShape) -> bool {
    match kid {
        PdfShape::Reference(n, g) => match dict_by_id(objs, (n, g)) {
            Some(d) => name_entry(d, subtype_key()) == Some(
                seq![0x57u8, 0x69u8, 0x64u8, 0x67u8, 0x65u8, 0x74u8],
            ),
            None => false,
        },
        _ => false,
    }
}

/// Some kid is a reference to a widget annotation.
pub open spec fn any_widget_kid(objs: Map<(u32, u16), PdfShape>, kids: Seq<PdfShape>) -> bool {
    exists|i: int| 0 <= i < kids.len() && #[trigger] widget_ref(objs, kids[i])
}

/// Some kid of the field is a reference to a widget annotation.
fn has_widget_kids(doc: &PdfDocument, kids: &Vec<PdfObject>) -> (r: bool)
    ensures
        r == any_widget_kid(document_objects(*doc), shapes(kids@)),
{
    let subtype: [u8; 7] = [0x53u8, 0x75u8, 0x62u8, 0x74u8, 0x79u8, 0x70u8, 0x65u8];
    let widget: [u8; 6] = [0x57u8, 0x69u8, 0x64u8, 0x67u8, 0x65u8, 0x74u8];
    assert(subtype@ =~= subtype_key());
    assert(widget@ =~= seq![0x57u8, 0x69u8, 0x64u8, 0x67u8, 0x65u8, 0x74u8]);
    let ghost objs = document_objects(*doc);
    let ghost ks = shapes(kids@);
    let mut i: usize = 0;
    while i < kids.len()
        invariant
            i <= kids@.len(),
            ks == shapes(kids@),
            objs == document_objects(*doc),
            subtype@ == subtype_key(),
            widget@ == seq![0x57u8, 0x69u8, 0x64u8, 0x67u8, 0x65u8, 0x74u8],
            forall|j: int| 0 <= j < i ==> !#[trigger] widget_ref(objs, ks[j]),
        decreases kids@.len() - i,
    {
        assert(ks[i as int] == object_shape(kids@[i as int]));
        if let PdfValue::Reference(num, generation) = object_value(&kids[i]) {
            if let Some(d) = document_dictionary(doc, (num, generation)) {
                // `Subtype` is `Widget`.
                if has_name(d, &subtype, &widget) {
                    assert(widget_ref(objs, ks[i as int]));
                    return true;
                }
            }
        }
        i += 1;
    }
    false
}

/// The page of a field: its `/P` reference looked up (by [`page_key`]) in
/// the page map, or page 1.
pub open spec fn page_of_field(m: Map<Seq<u8>, PdfShape>, pages: Map<u64, u32>) -> u32 {
    match ref_entry(m, seq![0x50u8]) {
        Some((n, g)) => if pages.contains_key(object_key(n, g)) {
            pages[object_key(n, g)]
        } else {
            1
        },
        None => 1,
    }
}

/// The page of a field: its `/P` reference looked up (by [`page_key`]) in
/// the page map, or page 1.
fn field_page(field_dict: &PdfDictionary, page_id_to_num: &HashMap<u64, u32>) -> (r: u32)
    requires
        page_numbers_positive(page_id_to_num@),
    ensures
        r > 0,
        r == page_of_field(dictionary_shape(*field_dict), page_id_to_num@),
{
    let p_key: [u8; 1] = [0x50u8];
    assert(p_key@ =~= seq![0x50u8]);
    match dictionary_entry(field_dict, &p_key) {
        Some(o) => match object_value(o) {
            PdfValue::Reference(num, generation) => {
                let key = page_key(num, generation);
                match page_id_to_num.get(&key) {
                    Some(p) => *p,
                    None => 1,
                }
            },
            _ => 1,
        },
        None => 1,
    }
}

/// The value of a field from its `/FT` type and the shape of its `/V`
/// entry: as [`field_value`], read from the entry's shape.
pub open spec fn field_value_of(field_type: Seq<u8>, v: Option<PdfShape>) -> Option<Seq<char>> {
    if field_type == seq![0x54u8, 0x78u8] || field_type == seq![0x43u8, 0x68u8] {
        match v {
            Some(PdfShape::String(b)) => Some(utf8_lossy(b)),
            _ => None,
        }
    } else if field_type == seq![0x42u8, 0x74u8, 0x6Eu8] {
        match v {
            Some(PdfShape::Name(n)) => Some(utf8_lossy(n)),
            _ => None,
        }
    } else {
        None
    }
}

/// The key `Kids`.
pub open spec fn kids_key() -> Seq<u8> {
    seq![0x4Bu8, 0x69u8, 0x64u8, 0x73u8]
}

/// The items (text, page, rect) of the first fields, in order; see
/// [`field_entries`].
pub open spec fn fields_items(
    objs: Map<(u32, u16), PdfShape>,
    fields: Seq<PdfShape>,
    pages: Map<u64, u32>,
    parent: Seq<char>,
    depth: nat,
) -> Seq<(Seq<char>, u32, Option<Seq<PdfShape>>)>
    decreases depth, fields.len() + 1,
{
    if fields.len() == 0 {
        seq![]
    } else {
        fields_items(objs, fields.drop_last(), pages, parent, depth) + field_entries(
            objs,
            fields.last(),
            pages,
            parent,
            depth,
        )
    }
}

/// The items one field gives: nothing unless it resolves to a dictionary.
/// Its qualified name joins the parent's name and its `/T` string. A field
/// with a `/Kids` array holding no widget reference is a group, whose kids
/// give the items (one level of depth down; none at depth 0). Otherwise a
/// filled field gives its text, page and `/Rect`.
pub open spec fn field_entries(
    objs: Map<(u32, u16), PdfShape>,
    field: PdfShape,
    pages: Map<u64, u32>,
    parent: Seq<char>,
    depth: nat,
) -> Seq<(Seq<char>, u32, Option<Seq<PdfShape>>)>
    decreases depth, 0nat,
{
    match dict_of(objs, field) {
        None => seq![],
        Some(d) => {
            let partial = match string_entry(d, seq![0x54u8]) {
                Some(b) => utf8_lossy(b),
                None => seq![],
            };
            let fq = qualified_name(parent, partial);
            let group = match array_entry(d, kids_key()) {
                Some(ks) => !any_widget_kid(objs, ks),
                None => false,
            };
            if group {
                if depth > 0 {
                    fields_items(objs, array_entry(d, kids_key())->0, pages, fq, (depth - 1) as nat)
                } else {
                    seq![]
                }
            } else {
                let ft = match name_entry(d, seq![0x46u8, 0x54u8]) {
                    Some(n) => n,
                    None => seq![],
                };
                let v = if d.contains_key(seq![0x56u8]) {
                    Some(d[seq![0x56u8]])
                } else {
                    None
                };
                match field_value_of(ft, v) {
                    None => seq![],
                    Some(value) => match field_text(fq, value) {
                        None => seq![],
                        Some(t) => seq![(t, page_of_field(d, pages), rect_entry(d))],
                    },
                }
            }
        },
    }
}

/// The items are form-field items with the given texts, pages and rects.
pub open spec fn fields_placed(
    items: Seq<PlacedText>,
    entries: Seq<(Seq<char>, u32, Option<Seq<PdfShape>>)>,
) -> bool {
    &&& items.len() == entries.len()
    &&& forall|k: int|
        0 <= k < items.len() ==> form_field_item(#[trigger] items[k]) && items[k].text@
            == entries[k].0 && items[k].page@ == entries[k].1 && rect_view(items[k].rect)
            == entries[k].2
}

/// Recursively walk form fields, adding an item for each filled field.
///
/// A field whose `/Kids` array holds no reference to a widget annotation
/// is a group: its kids are walked with its qualified name as their
/// parent's. At most `depth` levels of groups are followed.
fn walk_form_fields<'a>(
    doc: &'a PdfDocument,
    fields: &'a Vec<PdfObject>,
    page_id_to_num: &HashMap<u64, u32>,
    items: &mut Vec<PlacedText<'a>>,
    parent_name: &str,
    depth: usize,
)
    requires
        page_numbers_positive(page_id_to_num@),
    ensures
        old(items)@.len() <= final(items)@.len(),
        forall|k: int| 0 <= k < old(items)@.len() ==> final(items)@[k] == old(items)@[k],
        fields_placed(
            final(items)@.skip(old(items)@.len() as int),
            fields_items(
                document_objects(*doc),
                shapes(fields@),
                page_id_to_num@,
                parent_name@,
                depth as nat,
            ),
        ),
    decreases depth,
{
    let ghost objs = document_objects(*doc);
    let ghost fshapes = shapes(fields@);
    let ghost start = items@;
    let t_key: [u8; 1] = [0x54u8];
    let kids_k: [u8; 4] = [0x4Bu8, 0x69u8, 0x64u8, 0x73u8];
    let ft_key: [u8; 2] = [0x46u8, 0x54u8];
    let v_key: [u8; 1] = [0x56u8];
    assert(t_key@ =~= seq![0x54u8]);
    assert(kids_k@ =~= kids_key());
    assert(ft_key@ =~= seq![0x46u8, 0x54u8]);
    assert(v_key@ =~= seq![0x56u8]);
    let mut i: usize = 0;
    assert(items@.skip(start.len() as int) =~= seq![]);
    assert(fshapes.take(0) =~= seq![]);
    while i < fields.len()
        invariant
            i <= fields@.len(),
            objs == document_objects(*doc),
            fshapes == shapes(fields@),
            t_key@ == seq![0x54u8],
            kids_k@ == kids_key(),
            ft_key@ == seq![0x46u8, 0x54u8],
            v_key@ == seq![0x56u8],
            page_numbers_positive(page_id_to_num@),
            start.len() <= items@.len(),
            forall|k: int| 0 <= k < start.len() ==> items@[k] == start[k],
            fields_placed(
                items@.skip(start.len() as int),
                fields_items(objs, fshapes.take(i as int), page_id_to_num@, parent_name@, depth as nat),
            ),
        decreases fields@.len() - i,
    {
        let field_obj = &fields[i];
        let ghost before = items@;
        let ghost prev = fields_items(
            objs,
            fshapes.take(i as int),
            page_id_to_num@,
            parent_name@,
            depth as nat,
        );
        let ghost fs = fshapes[i as int];
        proof {
            assert(fshapes.take(i + 1).drop_last() =~= fshapes.take(i as int));
            assert(fshapes.take(i + 1).last() == fs);
            assert(fs == object_shape(fields@[i as int]));
        }
        let ghost next = fields_items(
            objs,
            fshapes.take(i + 1),
            page_id_to_num@,
            parent_name@,
            depth as nat,
        );
        let ghost here = field_entries(objs, fs, page_id_to_num@, parent_name@, depth as nat);
        assert(next == prev + here);
        i += 1;
        let field_dict = match resolve_dict(doc, field_obj) {
            Some(d) => d,
            None => {
                assert(here =~= seq![]);
                assert(prev + here =~= prev);
                continue;
            },
        };
        // Partial name `T`.
        let partial_name = match entry_string(field_dict, &t_key) {
            Some(b) => string_from_utf8_lossy(b.as_slice()),
            None => String::new(),
        };
        let fq_name = qualified_field_name(parent_name, partial_name.as_str());
        // `Kids`: a group of fields unless its kids are widgets.
        if let Some(kids) = entry_array(field_dict, &kids_k) {
            if !has_widget_kids(doc, kids) {
                if depth > 0 {
                    walk_form_fields(doc, kids, page_id_to_num, items, fq_name.as_str(), depth - 1);
                    proof {
                        let sub = fields_items(
                            objs,
                            shapes(kids@),
                            page_id_to_num@,
                            fq_name@,
                            (depth - 1) as nat,
                        );
                        assert(here == sub);
                        assert(items@.skip(start.len() as int) =~= before.skip(start.len() as int)
                            + items@.skip(before.len() as int));
                        let all = items@.skip(start.len() as int);
                        assert forall|k: int| 0 <= k < all.len() implies form_field_item(
                            #[trigger] all[k],
                        ) && all[k].text@ == next[k].0 && all[k].page@ == next[k].1 && rect_view(
                            all[k].rect,
                        ) == next[k].2 by {
                            if k < prev.len() {
                                assert(all[k] == before.skip(start.len() as int)[k]);
                            } else {
                                assert(all[k] == items@.skip(before.len() as int)[k - prev.len()]);
                            }
                        }
                    }
                } else {
                    assert(here =~= seq![]);
                    assert(prev + here =~= prev);
                }
                continue;
            }
        }
        // Field type `FT` and value `V`.
        let empty: [u8; 0] = [];
        assert(empty@ =~= seq![]);
        let ft: &[u8] = match entry_name(field_dict, &ft_key) {
            Some(n) => n.as_slice(),
            None => &empty,
        };
        let v = match dictionary_entry(field_dict, &v_key) {
            Some(o) => Some(object_value(o)),
            None => None,
        };
        let value = match form_field_value(ft, v) {
            Some(s) => s,
            None => {
                assert(here =~= seq![]);
                assert(prev + here =~= prev);
                continue;
            },
        };
        let text = match form_field_text(fq_name.as_str(), value.as_str()) {
            Some(t) => t,
            None => {
                assert(here =~= seq![]);
                assert(prev + here =~= prev);
                continue;
            },
        };
        let page_num = field_page(field_dict, page_id_to_num);
        let item = PlacedText {
            text,
            kind: ItemKind::FormField,
            page: PageNum::new(page_num),
            rect: rect_of(field_dict),
        };
        items.push(item);
        proof {
            assert(field_text(fq_name@, value@) == Some(items@[items@.len() - 1].text@));
            assert(here.len() == 1);
            assert(items@.skip(start.len() as int) =~= before.skip(start.len() as int).push(item));
            let all = items@.skip(start.len() as int);
            assert forall|k: int| 0 <= k < all.len() implies form_field_item(#[trigger] all[k])
                && all[k].text@ == next[k].0 && all[k].page@ == next[k].1 && rect_view(all[k].rect)
                == next[k].2 by {
                if k < prev.len() {
                    assert(all[k] == before.skip(start.len() as int)[k]);
                }
            }
        }
    }
    assert(fshapes.take(fields@.len() as int) =~= fshapes);
}

/// The number of objects the document holds (`Document::objects`).
#[verifier::external_body]
fn document_object_count(doc: &PdfDocument) -> (r: usize)
    ensures
        r == document_objects(*doc).len(),
{
    doc.objects.len()
}

/// How many levels of field groups are followed in a document with `n`
/// objects.
pub open spec fn group_depth(n: nat) -> nat {
    if n < usize::MAX / 100 - 1 {
        (n + 1) * 100
    } else {
        usize::MAX as nat
    }
}

/// The key `AcroForm`.
pub open spec fn acroform_key() -> Seq<u8> {
    seq![0x41u8, 0x63u8, 0x72u8, 0x6Fu8, 0x46u8, 0x6Fu8, 0x72u8, 0x6Du8]
}

/// The key `Fields`.
pub open spec fn fields_key() -> Seq<u8> {
    seq![0x46u8, 0x69u8, 0x65u8, 0x6Cu8, 0x64u8, 0x73u8]
}

/// The form-field items of a document: those of the `/Fields` array of
/// the catalog's `/AcroForm` dictionary.
pub open spec fn form_items(doc: PdfDocument, pages: Map<u64, u32>) -> Seq<
    (Seq<char>, u32, Option<Seq<PdfShape>>),
> {
    let objs = document_objects(doc);
    match catalog_of(doc) {
        Some(c) => if c.contains_key(acroform_key()) {
            match dict_of(objs, c[acroform_key()]) {
                Some(acro) => if acro.contains_key(fields_key()) {
                    match array_of(objs, acro[fields_key()]) {
                        Some(fields) => fields_items(
                            objs,
                            fields,
                            pages,
                            seq![],
                            group_depth(objs.len()),
                        ),
                        None => seq![],
                    }
                } else {
                    seq![]
                },
                None => seq![],
            }
        } else {
            seq![]
        },
        None => seq![],
    }
}

/// Extract form fields from the document's `/AcroForm`.
///
/// Returns an item for each filled field (with the field's qualified
/// name). Field groups are followed as deep as the document's objects
/// allow: lopdf nests direct objects at most 100 deep, so a longer chain
/// of groups has to revisit one, and the walk stops there.
pub fn extract_form_fields<'a>(doc: &'a PdfDocument, page_id_to_num: &HashMap<u64, u32>) -> (r: Vec<
    PlacedText<'a>,
>)
    requires
        page_numbers_positive(page_id_to_num@),
    ensures
        fields_placed(r@, form_items(*doc, page_id_to_num@)),
{
    let mut items: Vec<PlacedText<'a>> = Vec::new();
    let catalog = match document_catalog(doc) {
        Some(c) => c,
        None => return items,
    };
    let acro_k: [u8; 8] = [0x41u8, 0x63u8, 0x72u8, 0x6Fu8, 0x46u8, 0x6Fu8, 0x72u8, 0x6Du8];
    let fields_k: [u8; 6] = [0x46u8, 0x69u8, 0x65u8, 0x6Cu8, 0x64u8, 0x73u8];
    assert(acro_k@ =~= acroform_key());
    assert(fields_k@ =~= fields_key());
    let acro_obj = match dictionary_entry(catalog, &acro_k) {
        Some(o) => o,
        None => return items,
    };
    let acro_dict = match resolve_dict(doc, acro_obj) {
        Some(d) => d,
        None => return items,
    };
    let fields_obj = match dictionary_entry(acro_dict, &fields_k) {
        Some(o) => o,
        None => return items,
    };
    let fields = match resolve_array(doc, fields_obj) {
        Some(a) => a,
        None => return items,
    };
    let objects = document_object_count(doc);
    let depth: usize = if objects < usize::MAX / 100 - 1 {
        (objects + 1) * 100
    } else {
        usize::MAX
    };
    assert(depth as nat == group_depth(document_objects(*doc).len()));
    proof {
        reveal_strlit("");
    }
    assert(""@ =~= Seq::<char>::empty());
    walk_form_fields(doc, fields, page_id_to_num, &mut items, "", depth);
    assert(items@.skip(0) =~= items@);
    items
}

} // verus!
