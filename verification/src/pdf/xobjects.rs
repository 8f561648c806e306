//! Form `XObject` and image detection.
//!
//! Categorizes page-level `XObject` resources as Image or Form references,
//! for the content stream processor to decide how to handle `Do`
//! operators.

use lopdf::Dictionary as PdfDictionary;
use lopdf::Document as PdfDocument;
use lopdf::Object as PdfObject;
use vstd::prelude::*;

use crate::pdf::objects::{
    bytes_eq, dict_by_id, dict_of, dictionary_entry, dictionary_shape, document_dictionary,
    document_objects, entry_name, name_entry, object_shape, object_value, resolve_dict, PdfShape,
    PdfValue,
};
use crate::pdf::links::subtype_key;
use vstd::slice::slice_to_vec;

verus! {

/// Classification of a page-level `XObject`.
#[derive(Debug, Clone)]
pub enum XObjectKind {
    /// An image `XObject`.
    Image,
    /// A Form `XObject` that may contain text (recursive extraction needed),
    /// with its object number and generation.
    Form(u32, u16),
}

/// The kind of an `XObject` with the given `/Subtype`: `Image`, `Form`
/// with the object's id, or none for any other subtype.
pub open spec fn xobject_kind_of(subtype: Option<Seq<u8>>, id: (u32, u16)) -> Option<XObjectKind> {
    match subtype {
        Some(s) => if s == seq![0x49u8, 0x6Du8, 0x61u8, 0x67u8, 0x65u8] {
            Some(XObjectKind::Image)
        } else if s == seq![0x46u8, 0x6Fu8, 0x72u8, 0x6Du8] {
            Some(XObjectKind::Form(id.0, id.1))
        } else {
            None
        },
        None => None,
    }
}

/// Classify an `XObject` by its `/Subtype` name.
pub fn xobject_kind(subtype: Option<&Vec<u8>>, id: (u32, u16)) -> (r: Option<XObjectKind>)
    ensures
        r == xobject_kind_of(
            match subtype {
                Some(s) => Some(s@),
                None => None,
            },
            id,
        ),
{
    let image: [u8; 5] = [0x49u8, 0x6Du8, 0x61u8, 0x67u8, 0x65u8];
    let form: [u8; 4] = [0x46u8, 0x6Fu8, 0x72u8, 0x6Du8];
    assert(image@ =~= seq![0x49u8, 0x6Du8, 0x61u8, 0x67u8, 0x65u8]);
    assert(form@ =~= seq![0x46u8, 0x6Fu8, 0x72u8, 0x6Du8]);
    match subtype {
        Some(s) => if bytes_eq(s.as_slice(), &image) {
            Some(XObjectKind::Image)
        } else if bytes_eq(s.as_slice(), &form) {
            Some(XObjectKind::Form(id.0, id.1))
        } else {
            None
        },
        None => None,
    }
}

/// An entry found in an `XObject` dictionary: an image, or a form with
/// the id it was found under.
pub open spec fn xobject_entry(kind: XObjectKind) -> bool {
    exists|s: Seq<u8>, id: (u32, u16)| #[trigger] xobject_kind_of(Some(s), id) == Some(kind)
}

/// The kind of the `XObject` an entry refers to: a reference to a
/// dictionary whose `/Subtype` is `Image` or `Form`.
pub open spec fn xobject_of(objs: Map<(u32, u16), PdfShape>, s: PdfShape) -> Option<XObjectKind> {
    match s {
        PdfShape::Reference(n, g) => match dict_by_id(objs, (n, g)) {
            Some(d) => xobject_kind_of(name_entry(d, subtype_key()), (n, g)),
            None => None,
        },
        _ => None,
    }
}

/// The entries are those of the dictionary `m` that refer to an image or
/// form, each once, with its kind.
pub open spec fn xobjects_match(
    r: Seq<(Vec<u8>, XObjectKind)>,
    objs: Map<(u32, u16), PdfShape>,
    m: Map<Seq<u8>, PdfShape>,
) -> bool {
    &&& forall|i: int|
        0 <= i < r.len() ==> m.contains_key((#[trigger] r[i]).0@) && xobject_of(objs, m[r[i].0@])
            == Some(r[i].1)
    &&& forall|i: int, j: int| 0 <= i < j < r.len() ==> (#[trigger] r[i]).0@ != (#[trigger] r[j]).0@
    &&& forall|k: Seq<u8>|
        #[trigger] m.contains_key(k) && xobject_of(objs, m[k]) is Some ==> exists|i: int|
            0 <= i < r.len() && (#[trigger] r[i]).0@ == k
}

/// `Dictionary::iter`: every entry of the dictionary once, with its key
/// and object (in the dictionary's order, which is not stated).
#[verifier::external_body]
fn dictionary_items(dict: &PdfDictionary) -> (r: Vec<(&Vec<u8>, &PdfObject)>)
    ensures
        forall|i: int|
            0 <= i < r@.len() ==> dictionary_shape(*dict).contains_key((#[trigger] r@[i]).0@)
                && object_shape(*r@[i].1) == dictionary_shape(*dict)[r@[i].0@],
        forall|i: int, j: int| 0 <= i < j < r@.len() ==> (#[trigger] r@[i]).0@ != (#[trigger] r@[j]).0@,
        forall|k: Seq<u8>|
            #[trigger] dictionary_shape(*dict).contains_key(k) ==> exists|i: int|
                0 <= i < r@.len() && (#[trigger] r@[i]).0@ == k,
{
    dict.iter().collect()
}

/// Categorize the entries of an `XObject` dictionary that refer to an
/// image or form dictionary.
fn collect_xobjects_from_dict(
    doc: &PdfDocument,
    dict: &PdfDictionary,
    result: &mut Vec<(Vec<u8>, XObjectKind)>,
)
    ensures
        old(result)@.len() <= final(result)@.len(),
        forall|k: int| 0 <= k < old(result)@.len() ==> final(result)@[k] == old(result)@[k],
        xobjects_match(
            final(result)@.skip(old(result)@.len() as int),
            document_objects(*doc),
            dictionary_shape(*dict),
        ),
{
    let ghost objs = document_objects(*doc);
    let ghost m = dictionary_shape(*dict);
    let ghost start = result@;
    let subtype: [u8; 7] = [0x53u8, 0x75u8, 0x62u8, 0x74u8, 0x79u8, 0x70u8, 0x65u8];
    assert(subtype@ =~= subtype_key());
    let items = dictionary_items(dict);
    let mut i: usize = 0;
    while i < items.len()
        invariant
            i <= items@.len(),
            objs == document_objects(*doc),
            m == dictionary_shape(*dict),
            subtype@ == subtype_key(),
            forall|t: int|
                0 <= t < items@.len() ==> m.contains_key((#[trigger] items@[t]).0@) && object_shape(
                    *items@[t].1,
                ) == m[items@[t].0@],
            forall|t: int, u: int| 0 <= t < u < items@.len() ==> (#[trigger] items@[t]).0@ != (
            #[trigger] items@[u]).0@,
            start.len() <= result@.len(),
            forall|k: int| 0 <= k < start.len() ==> result@[k] == start[k],
            ({
                let new = result@.skip(start.len() as int);
                &&& forall|j: int|
                    0 <= j < new.len() ==> m.contains_key((#[trigger] new[j]).0@) && xobject_of(
                        objs,
                        m[new[j].0@],
                    ) == Some(new[j].1)
                &&& forall|j: int| 0 <= j < new.len() ==> exists|t: int|
                    0 <= t < i && (#[trigger] new[j]).0@ == (#[trigger] items@[t]).0@
                &&& forall|j1: int, j2: int|
                    0 <= j1 < j2 < new.len() ==> (#[trigger] new[j1]).0@ != (#[trigger] new[j2]).0@
                &&& forall|t: int|
                    0 <= t < i && xobject_of(objs, m[(#[trigger] items@[t]).0@]) is Some ==> exists|
                        j: int,
                    | 0 <= j < new.len() && (#[trigger] new[j]).0@ == items@[t].0@
            }),
        decreases items@.len() - i,
    {
        let (name, obj) = items[i];
        let ghost before = result@;
        let ghost key = name@;
        proof {
            assert(items@[i as int].0@ == key);
        }
        let obj_id = match object_value(obj) {
            PdfValue::Reference(num, generation) => (num, generation),
            _ => {
                i += 1;
                continue;
            },
        };
        let xobj_dict = match document_dictionary(doc, obj_id) {
            Some(d) => d,
            None => {
                i += 1;
                continue;
            },
        };
        let sub = entry_name(xobj_dict, &subtype);
        let kind = match xobject_kind(sub, obj_id) {
            Some(k) => k,
            None => {
                i += 1;
                continue;
            },
        };
        let copy = slice_to_vec(name.as_slice());
        result.push((copy, kind));
        proof {
            let new = result@.skip(start.len() as int);
            let old_new = before.skip(start.len() as int);
            assert(new =~= old_new.push((copy, kind)));
            assert(xobject_of(objs, m[key]) == Some(kind));
            assert forall|j: int| 0 <= j < new.len() implies exists|t: int|
                0 <= t < i + 1 && (#[trigger] new[j]).0@ == (#[trigger] items@[t]).0@ by {
                if j < old_new.len() {
                    assert(new[j] == old_new[j]);
                } else {
                    assert(new[j].0@ == items@[i as int].0@);
                }
            }
            assert forall|j1: int, j2: int|
                0 <= j1 < j2 < new.len() implies (#[trigger] new[j1]).0@ != (#[trigger] new[j2]).0@ by {
                if j2 == new.len() - 1 {
                    assert(new[j1] == old_new[j1]);
                    let t = choose|t: int| 0 <= t < i && (#[trigger] old_new[j1]).0@ == (
                    #[trigger] items@[t]).0@;
                    assert(items@[t].0@ != items@[i as int].0@);
                } else {
                    assert(new[j1] == old_new[j1]);
                    assert(new[j2] == old_new[j2]);
                }
            }
            assert forall|t: int|
                0 <= t < i + 1 && xobject_of(objs, m[(#[trigger] items@[t]).0@]) is Some implies exists|
                    j: int,
                | 0 <= j < new.len() && (#[trigger] new[j]).0@ == items@[t].0@ by {
                if t < i {
                    let j = choose|j: int| 0 <= j < old_new.len() && (#[trigger] old_new[j]).0@
                        == items@[t].0@;
                    assert(new[j] == old_new[j]);
                } else {
                    assert(new[new.len() - 1].0@ == items@[t].0@);
                }
            }
            assert forall|j: int| 0 <= j < new.len() implies m.contains_key(
                (#[trigger] new[j]).0@,
            ) && xobject_of(objs, m[new[j].0@]) == Some(new[j].1) by {
                if j < old_new.len() {
                    assert(new[j] == old_new[j]);
                }
            }
        }
        i += 1;
    }
    proof {
        let new = result@.skip(start.len() as int);
        assert forall|k: Seq<u8>|
            #[trigger] m.contains_key(k) && xobject_of(objs, m[k]) is Some implies exists|i: int|
                0 <= i < new.len() && (#[trigger] new[i]).0@ == k by {
            let t = choose|t: int| 0 <= t < items@.len() && (#[trigger] items@[t]).0@ == k;
            assert(xobject_of(objs, m[items@[t].0@]) is Some);
        }
    }
}

/// The `/XObject` dictionary of a page's `/Resources` (each given directly
/// or through a reference).
pub open spec fn page_xobject_dict(objs: Map<(u32, u16), PdfShape>, page_id: (u32, u16)) -> Option<
    Map<Seq<u8>, PdfShape>,
> {
    let res_key = seq![0x52u8, 0x65u8, 0x73u8, 0x6Fu8, 0x75u8, 0x72u8, 0x63u8, 0x65u8, 0x73u8];
    let xo_key = seq![0x58u8, 0x4Fu8, 0x62u8, 0x6Au8, 0x65u8, 0x63u8, 0x74u8];
    match dict_by_id(objs, page_id) {
        Some(p) => if p.contains_key(res_key) {
            match dict_of(objs, p[res_key]) {
                Some(res) => if res.contains_key(xo_key) {
                    dict_of(objs, res[xo_key])
                } else {
                    None
                },
                None => None,
            }
        } else {
            None
        },
        None => None,
    }
}

/// Retrieve the `XObject`s of a page's `/Resources/XObject` dictionary:
/// each resource name with its kind, in the dictionary's order.
pub fn get_page_xobjects(doc: &PdfDocument, page_id: (u32, u16)) -> (r: Vec<(Vec<u8>, XObjectKind)>)
    ensures
        match page_xobject_dict(document_objects(*doc), page_id) {
            Some(m) => xobjects_match(r@, document_objects(*doc), m),
            None => r@.len() == 0,
        },
{
    let mut result: Vec<(Vec<u8>, XObjectKind)> = Vec::new();
    let res_key: [u8; 9] = [0x52u8, 0x65u8, 0x73u8, 0x6Fu8, 0x75u8, 0x72u8, 0x63u8, 0x65u8, 0x73u8];
    let xo_key: [u8; 7] = [0x58u8, 0x4Fu8, 0x62u8, 0x6Au8, 0x65u8, 0x63u8, 0x74u8];
    assert(res_key@ =~= seq![0x52u8, 0x65u8, 0x73u8, 0x6Fu8, 0x75u8, 0x72u8, 0x63u8, 0x65u8, 0x73u8]);
    assert(xo_key@ =~= seq![0x58u8, 0x4Fu8, 0x62u8, 0x6Au8, 0x65u8, 0x63u8, 0x74u8]);
    let page_dict = match document_dictionary(doc, page_id) {
        Some(d) => d,
        None => return result,
    };
    let resources = match dictionary_entry(page_dict, &res_key) {
        Some(o) => match resolve_dict(doc, o) {
            Some(d) => d,
            None => return result,
        },
        None => return result,
    };
    let xobject_dict = match dictionary_entry(resources, &xo_key) {
        Some(o) => match resolve_dict(doc, o) {
            Some(d) => d,
            None => return result,
        },
        None => return result,
    };
    collect_xobjects_from_dict(doc, xobject_dict, &mut result);
    assert(result@.skip(0) =~= result@);
    result
}

} // verus!
