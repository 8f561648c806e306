use std::collections::HashMap;

use lopdf::{Dictionary, Document, Object, ObjectId};

use p2m::pdf::links::{
    extract_form_fields, extract_page_links, form_field_text, form_field_value, page_key,
    qualified_field_name,
};
use p2m::pdf::fonts::{build_font_encodings, get_font_file2_obj_num};
use p2m::pdf::objects::PdfValue;
use p2m::pdf::xobjects::{get_page_xobjects, xobject_kind, XObjectKind};
use p2m::types::ItemKind;

fn name(n: &str) -> Object {
    Object::Name(n.as_bytes().to_vec())
}

fn rect() -> Object {
    Object::Array(vec![
        Object::Integer(10),
        Object::Integer(20),
        Object::Real(110.5),
        Object::Integer(40),
    ])
}

fn link_annot(uri: &str, with_rect: bool) -> Dictionary {
    let mut action = Dictionary::new();
    action.set("S", name("URI"));
    action.set("URI", Object::string_literal(uri));
    let mut annot = Dictionary::new();
    annot.set("Type", name("Annot"));
    annot.set("Subtype", name("Link"));
    annot.set("A", Object::Dictionary(action));
    if with_rect {
        annot.set("Rect", rect());
    }
    annot
}

/// A one-page document whose page carries the given annotations.
fn page_with_annots(annots: Vec<Dictionary>) -> (Document, ObjectId) {
    let mut doc = Document::with_version("1.5");
    let mut refs = Vec::new();
    for a in annots {
        refs.push(Object::Reference(doc.add_object(a)));
    }
    let mut page = Dictionary::new();
    page.set("Type", name("Page"));
    page.set("Annots", Object::Array(refs));
    let page_id = doc.add_object(page);
    (doc, page_id)
}

#[test]
fn page_links_keep_uri_annotations_with_rect() {
    let mut text_note = Dictionary::new();
    text_note.set("Subtype", name("Text"));
    text_note.set("Rect", rect());
    let (doc, page_id) = page_with_annots(vec![
        link_annot("https://example.com/a", true),
        text_note,
        link_annot("https://example.com/no-rect", false),
        link_annot("https://example.com/b", true),
    ]);
    let items = extract_page_links(&doc, page_id, 3);
    assert_eq!(items.len(), 2);
    assert_eq!(items[0].text, "https://example.com/a");
    assert!(matches!(&items[0].kind, ItemKind::Link(u) if u == "https://example.com/a"));
    assert_eq!(items[0].page.get(), 3);
    assert_eq!(items[0].rect.map(Vec::len), Some(4));
    assert_eq!(items[1].text, "https://example.com/b");
}

#[test]
fn page_links_missing_page_or_annots_give_nothing() {
    let (doc, page_id) = page_with_annots(vec![]);
    assert!(extract_page_links(&doc, page_id, 1).is_empty());
    assert!(extract_page_links(&doc, (999, 0), 1).is_empty());
}

fn field(t: Option<&str>, ft: Option<&str>, v: Option<Object>) -> Dictionary {
    let mut d = Dictionary::new();
    if let Some(t) = t {
        d.set("T", Object::string_literal(t));
    }
    if let Some(ft) = ft {
        d.set("FT", name(ft));
    }
    if let Some(v) = v {
        d.set("V", v);
    }
    d
}

#[test]
fn form_fields_are_named_and_filtered() {
    let mut doc = Document::with_version("1.5");
    let mut page = Dictionary::new();
    page.set("Type", name("Page"));
    let page_id = doc.add_object(page);

    let plain = doc.add_object(field(Some("name"), Some("Tx"), Some(Object::string_literal("John"))));
    let city = doc.add_object(field(Some("city"), Some("Tx"), Some(Object::string_literal("Paris"))));
    let mut group = field(Some("addr"), None, None);
    group.set("Kids", Object::Array(vec![Object::Reference(city)]));
    let group = doc.add_object(group);
    let off = doc.add_object(field(Some("agree"), Some("Btn"), Some(name("Off"))));
    let mut yes = field(Some("ok"), Some("Btn"), Some(name("Yes")));
    yes.set("P", Object::Reference(page_id));
    yes.set("Rect", rect());
    let yes = doc.add_object(yes);
    let mut widget = Dictionary::new();
    widget.set("Subtype", name("Widget"));
    let widget = doc.add_object(widget);
    let mut with_widgets = field(Some("w"), Some("Ch"), Some(Object::string_literal("x")));
    with_widgets.set("Kids", Object::Array(vec![Object::Reference(widget)]));
    let with_widgets = doc.add_object(with_widgets);
    let empty = doc.add_object(field(Some("e"), Some("Tx"), Some(Object::string_literal(""))));
    let unnamed = doc.add_object(field(None, Some("Tx"), Some(Object::string_literal("anon"))));

    let mut acro = Dictionary::new();
    acro.set(
        "Fields",
        Object::Array(
            [plain, group, off, yes, with_widgets, empty, unnamed]
                .iter()
                .map(|id| Object::Reference(*id))
                .collect(),
        ),
    );
    let acro_id = doc.add_object(acro);
    let mut catalog = Dictionary::new();
    catalog.set("Type", name("Catalog"));
    catalog.set("AcroForm", Object::Reference(acro_id));
    let catalog_id = doc.add_object(catalog);
    doc.trailer.set("Root", Object::Reference(catalog_id));

    let mut pages = HashMap::new();
    pages.insert(page_key(page_id.0, page_id.1), 2u32);
    let items = extract_form_fields(&doc, &pages);
    let texts: Vec<&str> = items.iter().map(|i| i.text.as_str()).collect();
    assert_eq!(texts, vec!["name: John", "addr.city: Paris", "ok: Yes", "w: x", "anon"]);
    assert!(items.iter().all(|i| matches!(i.kind, ItemKind::FormField)));
    // `ok` names its page; the others default to page 1.
    assert_eq!(items[2].page.get(), 2);
    assert_eq!(items[0].page.get(), 1);
    assert_eq!(items[2].rect.map(Vec::len), Some(4));
    assert!(items[0].rect.is_none());
}

#[test]
fn form_fields_without_acroform_give_nothing() {
    let mut doc = Document::with_version("1.5");
    let catalog_id = doc.add_object(Dictionary::new());
    doc.trailer.set("Root", Object::Reference(catalog_id));
    assert!(extract_form_fields(&doc, &HashMap::new()).is_empty());
}

#[test]
fn self_containing_field_group_ends() {
    let mut doc = Document::with_version("1.5");
    let group_id = doc.new_object_id();
    let mut group = field(Some("g"), None, None);
    group.set("Kids", Object::Array(vec![Object::Reference(group_id)]));
    doc.objects.insert(group_id, Object::Dictionary(group));
    let mut acro = Dictionary::new();
    acro.set("Fields", Object::Array(vec![Object::Reference(group_id)]));
    let mut catalog = Dictionary::new();
    catalog.set("AcroForm", Object::Dictionary(acro));
    let catalog_id = doc.add_object(catalog);
    doc.trailer.set("Root", Object::Reference(catalog_id));
    assert!(extract_form_fields(&doc, &HashMap::new()).is_empty());
}

#[test]
fn qualified_names_join_with_dots() {
    assert_eq!(qualified_field_name("", "a"), "a");
    assert_eq!(qualified_field_name("p", ""), "p");
    assert_eq!(qualified_field_name("p.q", "r"), "p.q.r");
    assert_eq!(qualified_field_name("", ""), "");
}

#[test]
fn field_values_by_type() {
    let s = b"hello".to_vec();
    let n = b"On".to_vec();
    assert_eq!(form_field_value(b"Tx", Some(PdfValue::String(&s))).as_deref(), Some("hello"));
    assert_eq!(form_field_value(b"Ch", Some(PdfValue::String(&s))).as_deref(), Some("hello"));
    assert_eq!(form_field_value(b"Tx", Some(PdfValue::Name(&n))), None);
    assert_eq!(form_field_value(b"Btn", Some(PdfValue::Name(&n))).as_deref(), Some("On"));
    assert_eq!(form_field_value(b"Btn", Some(PdfValue::String(&s))), None);
    assert_eq!(form_field_value(b"Sig", Some(PdfValue::String(&s))), None);
    assert_eq!(form_field_value(b"Tx", None), None);
    let bad = vec![0x66, 0xFF];
    assert_eq!(form_field_value(b"Tx", Some(PdfValue::String(&bad))).as_deref(), Some("f\u{FFFD}"));
}

#[test]
fn field_texts() {
    assert_eq!(form_field_text("name", "John").as_deref(), Some("name: John"));
    assert_eq!(form_field_text("", "John").as_deref(), Some("John"));
    assert_eq!(form_field_text("name", ""), None);
    assert_eq!(form_field_text("name", "Off"), None);
    assert_eq!(form_field_text("name", "off").as_deref(), Some("name: off"));
}

#[test]
fn page_keys_are_distinct_per_generation() {
    assert_eq!(page_key(1, 0), 65536);
    assert_eq!(page_key(1, 2), 65538);
    assert_ne!(page_key(2, 0), page_key(1, 65535));
}

// ── XObjects ───────────────────────────────────────────────────

#[test]
fn page_xobjects_by_subtype() {
    let mut doc = Document::with_version("1.5");
    let mut img = Dictionary::new();
    img.set("Subtype", name("Image"));
    let img = doc.add_object(img);
    let mut form = Dictionary::new();
    form.set("Subtype", name("Form"));
    let form = doc.add_object(form);
    let mut ps = Dictionary::new();
    ps.set("Subtype", name("PS"));
    let ps = doc.add_object(ps);
    let mut stream_dict = Dictionary::new();
    stream_dict.set("Subtype", name("Image"));
    let stream = doc.add_object(Object::Stream(lopdf::Stream::new(stream_dict, vec![0u8; 4])));
    let mut xobjects = Dictionary::new();
    xobjects.set("Im1", Object::Reference(img));
    xobjects.set("Fm1", Object::Reference(form));
    xobjects.set("Direct", Object::Dictionary(Dictionary::new()));
    xobjects.set("Ps1", Object::Reference(ps));
    xobjects.set("St1", Object::Reference(stream));
    let mut resources = Dictionary::new();
    resources.set("XObject", Object::Dictionary(xobjects));
    let resources = doc.add_object(resources);
    let mut page = Dictionary::new();
    page.set("Resources", Object::Reference(resources));
    let page_id = doc.add_object(page);

    let found = get_page_xobjects(&doc, page_id);
    assert_eq!(found.len(), 2);
    assert_eq!(found[0].0, b"Im1".to_vec());
    assert!(matches!(found[0].1, XObjectKind::Image));
    assert_eq!(found[1].0, b"Fm1".to_vec());
    assert!(matches!(found[1].1, XObjectKind::Form(n, g) if (n, g) == form));
    assert!(get_page_xobjects(&doc, (500, 0)).is_empty());

    assert!(matches!(xobject_kind(Some(&b"Form".to_vec()), (3, 1)), Some(XObjectKind::Form(3, 1))));
    assert!(xobject_kind(Some(&b"Image ".to_vec()), (3, 1)).is_none());
    assert!(xobject_kind(None, (3, 1)).is_none());
}

#[test]
fn font_file2_object_number() {
    let mut doc = Document::with_version("1.5");
    let mut desc = Dictionary::new();
    desc.set("FontFile2", Object::Reference((7, 0)));
    let desc = doc.add_object(desc);
    let mut font = Dictionary::new();
    font.set("FontDescriptor", Object::Reference(desc));
    assert_eq!(get_font_file2_obj_num(&doc, &font), Some(7));

    let mut direct_desc = Dictionary::new();
    direct_desc.set("FontFile2", Object::Integer(7));
    let mut font2 = Dictionary::new();
    font2.set("FontDescriptor", Object::Dictionary(direct_desc));
    assert_eq!(get_font_file2_obj_num(&doc, &font2), None);
    assert_eq!(get_font_file2_obj_num(&doc, &Dictionary::new()), None);
}

#[test]
fn font_encodings_from_differences() {
    let mut doc = Document::with_version("1.5");
    let mut enc1 = Dictionary::new();
    enc1.set("Differences", Object::Array(vec![Object::Integer(65), name("B"), name("A")]));
    let mut f1 = Dictionary::new();
    f1.set("Encoding", Object::Dictionary(enc1));
    let mut enc2 = Dictionary::new();
    enc2.set("Differences", Object::Array(vec![Object::Integer(1), name("glyph00042")]));
    let enc2 = doc.add_object(enc2);
    let mut f2 = Dictionary::new();
    f2.set("Encoding", Object::Reference(enc2));
    let mut f3 = Dictionary::new();
    f3.set("Encoding", name("WinAnsiEncoding"));
    let f4 = Dictionary::new();
    let fonts = vec![
        (b"F1".to_vec(), &f1),
        (b"F2".to_vec(), &f2),
        (b"F3".to_vec(), &f3),
        (b"F4".to_vec(), &f4),
    ];
    let (encodings, has_gid) = build_font_encodings(&doc, &fonts);
    assert!(has_gid);
    assert_eq!(encodings.len(), 1);
    assert_eq!(encodings[0].0, "F1");
    assert_eq!(encodings[0].1.get(&65), Some(&'B'));
    assert_eq!(encodings[0].1.get(&66), Some(&'A'));
    let (none, no_gid) = build_font_encodings(&doc, &fonts[2..]);
    assert!(none.is_empty());
    assert!(!no_gid);
}
