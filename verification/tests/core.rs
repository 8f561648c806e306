use lopdf::{Dictionary, Object};

use p2m::convert::{markdown_from_pages, render_pages, selected_pages};
use p2m::error::{Error, LopdfFailure};
use p2m::pdf::fonts::{
    apply_symbol_pua, clean_pua_chars, parse_differences, parse_encoding_dictionary, DifferencesEntry, ToUnicodeCMap,
};
use p2m::pdf::{
    detect_type_hint, document_title, load_from_bytes, strip_bom_and_whitespace, title_from_bytes,
    validate_bytes,
};
use p2m::text::bidi::{is_rtl_char, is_rtl_text};
use p2m::text::cjk::is_cjk_char;
use p2m::quality::{check_quality, detect_encoding_issues, is_cid_garbage, is_garbage_text};
use p2m::text::unicode::{
    decode_text_string, expand_ligatures, is_bold_font, is_cid_font, is_italic_font,
};
use p2m::types::{Document, ItemKind, LineItem, PageNum, TextLine};

fn one_page_pdf(title: Option<&str>) -> Vec<u8> {
    let mut doc = lopdf::Document::with_version("1.5");
    let pages_id = doc.new_object_id();
    let mut page = Dictionary::new();
    page.set("Type", Object::Name(b"Page".to_vec()));
    page.set("Parent", Object::Reference(pages_id));
    let page_id = doc.add_object(page);
    let mut pages = Dictionary::new();
    pages.set("Type", Object::Name(b"Pages".to_vec()));
    pages.set("Kids", Object::Array(vec![Object::Reference(page_id)]));
    pages.set("Count", Object::Integer(1));
    doc.objects.insert(pages_id, Object::Dictionary(pages));
    let mut catalog = Dictionary::new();
    catalog.set("Type", Object::Name(b"Catalog".to_vec()));
    catalog.set("Pages", Object::Reference(pages_id));
    let catalog_id = doc.add_object(catalog);
    doc.trailer.set("Root", Object::Reference(catalog_id));
    if let Some(t) = title {
        let mut info = Dictionary::new();
        info.set("Title", Object::string_literal(t));
        let info_id = doc.add_object(info);
        doc.trailer.set("Info", Object::Reference(info_id));
    }
    let mut bytes = Vec::new();
    doc.save_to(&mut bytes).unwrap();
    bytes
}

#[test]
fn page_num_round_trip_and_display() {
    let p = PageNum::new(5);
    assert_eq!(p.get(), 5);
    assert_eq!(p.to_string(), "5");
    assert_eq!(PageNum::new(1234).to_string(), "1234");
    assert_eq!(PageNum::new(10).to_string(), "10");
    assert!(PageNum::new(2) < PageNum::new(3));
    assert_eq!(PageNum::new(7), PageNum::new(7));
}

#[test]
fn item_kind_default_is_text() {
    assert!(matches!(ItemKind::default(), ItemKind::Text));
    let link = ItemKind::Link("https://example.com".to_string());
    assert!(matches!(link, ItemKind::Link(ref u) if u == "https://example.com"));
}

#[test]
fn document_holds_parts() {
    let d = Document { markdown: "# T\n".to_string(), page_count: 2, title: None };
    assert_eq!(d.page_count, 2);
    assert!(d.title.is_none());
}

#[test]
fn validate_accepts_pdf_header() {
    assert!(validate_bytes(b"%PDF-1.7\n...").is_ok());
    assert!(validate_bytes(b"\xEF\xBB\xBF  \n%PDF-1.4").is_ok());
}

#[test]
fn validate_refuses_other_files() {
    match validate_bytes(b"<!DOCTYPE html><html>") {
        Err(Error::NotPdf { hint }) => assert_eq!(hint, "HTML document"),
        other => panic!("unexpected {other:?}"),
    }
    match validate_bytes(b"") {
        Err(Error::NotPdf { hint }) => assert_eq!(hint, "empty file"),
        other => panic!("unexpected {other:?}"),
    }
}

#[test]
fn type_hints() {
    assert_eq!(detect_type_hint(b"PK\x03\x04"), "ZIP archive (possibly DOCX/XLSX/PPTX)");
    assert_eq!(detect_type_hint(b"\x89PNG\r\n"), "PNG image");
    assert_eq!(detect_type_hint(b"\xFF\xD8\xFF\xE0"), "JPEG image");
    assert_eq!(detect_type_hint(b"GIF89a"), "GIF image");
    assert_eq!(detect_type_hint(b"<html>"), "HTML document");
    assert_eq!(detect_type_hint(b"{\"a\":1}"), "JSON data");
    assert_eq!(detect_type_hint(b"hello"), "unknown file type");
}

#[test]
fn strip_bom_then_whitespace() {
    assert_eq!(strip_bom_and_whitespace(b"\xEF\xBB\xBF \t\r\nabc"), b"abc");
    assert_eq!(strip_bom_and_whitespace(b"  x "), b"x ");
    assert_eq!(strip_bom_and_whitespace(b""), b"");
}

#[test]
fn load_counts_pages_and_reads_title() {
    let bytes = one_page_pdf(Some("Annual Report"));
    let (doc, pages) = load_from_bytes(&bytes).unwrap();
    assert_eq!(pages, 1);
    assert_eq!(document_title(&doc), Some("Annual Report".to_string()));
    let untitled = one_page_pdf(None);
    let (doc, _) = load_from_bytes(&untitled).unwrap();
    assert_eq!(document_title(&doc), None);
    let blank = one_page_pdf(Some("   "));
    let (doc, _) = load_from_bytes(&blank).unwrap();
    assert_eq!(document_title(&doc), None);
}

#[test]
fn load_refuses_non_pdf_and_broken_pdf() {
    assert!(matches!(load_from_bytes(b"GIF89a...."), Err(Error::NotPdf { .. })));
    assert!(load_from_bytes(b"%PDF-1.4\nthis is not really a pdf").is_err());
}

#[test]
fn title_bytes() {
    assert_eq!(title_from_bytes(Some(b"Hello".to_vec())), Some("Hello".to_string()));
    assert_eq!(title_from_bytes(Some(vec![0xFF, 0xFE])), None);
    assert_eq!(title_from_bytes(Some(b" \t".to_vec())), None);
    assert_eq!(title_from_bytes(None), None);
}

#[test]
fn error_mapping_variants() {
    assert!(matches!(Error::from_lopdf(lopdf::Error::InvalidPassword), Error::Encrypted));
    assert!(matches!(Error::from_lopdf(lopdf::Error::ReferenceLimit), Error::InvalidStructure));
    assert!(matches!(Error::from_lopdf(lopdf::Error::MissingXrefEntry), Error::InvalidStructure));
    assert!(matches!(
        Error::from_failure(LopdfFailure::Parse, "invalid file header".to_string()),
        Error::NotPdf { ref hint } if hint == "invalid PDF file header"
    ));
    assert!(matches!(
        Error::from_failure(LopdfFailure::Parse, "bad object".to_string()),
        Error::InvalidStructure
    ));
    assert!(matches!(
        Error::from_failure(LopdfFailure::Other, "boom".to_string()),
        Error::Parse(ref m) if m == "boom"
    ));
    assert!(matches!(
        Error::from_failure(LopdfFailure::ReferenceCycle((3, 0)), "cycle".to_string()),
        Error::InvalidStructure
    ));
    assert!(matches!(
        Error::from_failure(LopdfFailure::Decryption, String::new()),
        Error::Encrypted
    ));
    let io = std::io::Error::new(std::io::ErrorKind::NotFound, "missing");
    assert!(matches!(Error::from_failure(LopdfFailure::IO(io), String::new()), Error::Io(_)));
    assert!(matches!(
        Error::from_lopdf(lopdf::Error::DictKey("Root".to_string())),
        Error::Parse(ref m) if m == "missing required dictionary key \"Root\""
    ));
    assert!(matches!(Error::from_lopdf(lopdf::Error::ObjectIdMismatch), Error::InvalidStructure));
    let io = std::io::Error::new(std::io::ErrorKind::Other, "disk");
    assert!(matches!(Error::from_lopdf(lopdf::Error::IO(io)), Error::Io(_)));
}

#[test]
fn text_string_decoding() {
    assert_eq!(decode_text_string(&[0xFE, 0xFF, 0x00, 0x41, 0x00, 0xE9]), "Aé");
    assert_eq!(decode_text_string(&[0x41, 0xE9]), "Aé");
    assert_eq!(decode_text_string(&[0xFE, 0xFF, 0xD8, 0x00]), "\u{FFFD}");
    assert_eq!(decode_text_string(&[]), "");
}

#[test]
fn font_style_names() {
    assert!(is_bold_font("Helvetica-Bold"));
    assert!(is_bold_font("ABCDEF+Roboto-Medium"));
    assert!(!is_bold_font("Roboto-MediumItalic"));
    assert!(is_italic_font("Times-Italic"));
    assert!(is_italic_font("Arial-ItalicMT"));
    assert!(!is_italic_font("Helvetica"));
    assert!(is_cid_font("C2_0"));
    assert!(is_cid_font("C0_1"));
    assert!(!is_cid_font("Identity-H"));
}

#[test]
fn rtl_and_cjk() {
    assert!(is_rtl_char('\u{05D0}'));
    assert!(is_rtl_char('\u{0627}'));
    assert!(!is_rtl_char('A'));
    assert!(is_rtl_text(&["\u{0627}\u{0644}", "x"]));
    assert!(!is_rtl_text(&["hello", "\u{0627}"]));
    assert!(is_cjk_char('中'));
    assert!(is_cjk_char('한'));
    assert!(!is_cjk_char('a'));
}

#[test]
fn symbol_font_pua_and_cmap_lookup() {
    assert_eq!(apply_symbol_pua("Helvetica", "\u{F041}"), "\u{F041}");
    assert_eq!(apply_symbol_pua("Symbol", "\u{F041}b"), "Ab");
    assert_eq!(apply_symbol_pua("ABC+Wingdings-Regular", "\u{F0E8}"), "\u{E8}");
    let mut cmap = ToUnicodeCMap::default();
    cmap.mappings.insert(65u32, "A".to_string());
    assert_eq!(cmap.decode(65), Some("A"));
    assert_eq!(cmap.decode(66), None);
}

#[test]
fn differences_build_byte_map() {
    let entries = vec![
        DifferencesEntry::Code(65),
        DifferencesEntry::Name(b"A".to_vec()),
        DifferencesEntry::Name(b"B".to_vec()),
        DifferencesEntry::Code(300),
        DifferencesEntry::Name(b"space".to_vec()),
        DifferencesEntry::Name(b"glyph12".to_vec()),
        DifferencesEntry::Code(-5),
        DifferencesEntry::Name(b"uni0041".to_vec()),
        DifferencesEntry::Other,
    ];
    let res = parse_differences(&entries);
    assert_eq!(res.gid_glyph_count, 1);
    assert_eq!(res.map.len(), 3);
    assert_eq!(res.map.get(&65), Some(&'A'));
    assert_eq!(res.map.get(&66), Some(&'B'));
    assert_eq!(res.map.get(&0), Some(&'A'));
}

#[test]
fn encoding_dictionary_differences() {
    let mut doc = lopdf::Document::with_version("1.5");
    let name_id = doc.add_object(Object::Name(b"B".to_vec()));
    let mut enc = Dictionary::new();
    enc.set(
        "Differences",
        Object::Array(vec![
            Object::Integer(65),
            Object::Name(b"A".to_vec()),
            Object::Reference(name_id),
        ]),
    );
    let res = parse_encoding_dictionary(&doc, &enc).unwrap();
    assert_eq!(res.map.get(&65), Some(&'A'));
    assert_eq!(res.map.get(&66), Some(&'B'));
    assert_eq!(res.gid_glyph_count, 0);
    assert!(parse_encoding_dictionary(&doc, &Dictionary::new()).is_none());
}

#[test]
fn quality_laws_on_samples() {
    // Short text is never garbage.
    assert!(!is_garbage_text("#$%^&*()"));
    // A replacement character is always an encoding issue.
    assert!(detect_encoding_issues("ok \u{FFFD} ok"));
    let report = check_quality("fine \u{FFFD}");
    assert!(report.needs_ocr_fallback());
    // Garbage is also CID garbage.
    let garbage = ",&<X ~%5&8-!A ~*(!,-!U (/#!U X ~#/=U 9/%*(!U !(  X \
                   (%U-(-/ V %&((8-#&&< *,(6--< %5&8-!( (,(/! #/<5U X \
                   º&( >/5 /5&(#(8-!5 *,(6--( *,%@/-A W";
    assert!(is_garbage_text(garbage));
    assert!(is_cid_garbage(garbage));
}

#[test]
fn ligature_expansion_is_idempotent_on_samples() {
    for s in ["\u{FB01}rst\u{00AD}ly", "a\u{2002}b", "plain text", "\u{FB03}x\u{200B}"] {
        let once = expand_ligatures(s);
        assert_eq!(expand_ligatures(&once), once);
    }
}

#[test]
fn clean_pua_is_idempotent_on_samples() {
    for s in ["Hello\u{E000}World\u{F8FF}!", "abc", "\u{E123}"] {
        let once = clean_pua_chars(s);
        assert_eq!(clean_pua_chars(&once), once);
    }
}

// ── Lines of text ──────────────────────────────────────────────

fn item(text: &str, bold: bool, italic: bool, attached: bool) -> LineItem {
    LineItem { text: text.to_string(), bold, italic, attached }
}

fn line(items: Vec<LineItem>) -> TextLine {
    TextLine { items, page: PageNum::new(1) }
}

#[test]
fn line_text_puts_spaces_between_words() {
    let l = line(vec![item("Hello", false, false, false), item("world", false, false, false)]);
    assert_eq!(l.text(), "Hello world");
}

#[test]
fn line_text_no_space_around_hyphens_or_attached_items() {
    let l = line(vec![
        item("co-", false, false, false),
        item("operate", false, false, false),
        item("x", false, false, true),
        item("-y", false, false, false),
        item(" z", false, false, false),
    ]);
    assert_eq!(l.text(), "co-operatex-y z");
}

#[test]
fn line_text_keeps_raw_item_text() {
    let l = line(vec![item("a", false, false, false), item("   ", false, false, false), item("b", false, false, false)]);
    assert_eq!(l.text(), "a   b");
    assert_eq!(l.text_with_formatting(false, false), "a   b");
}

#[test]
fn line_formatting_wraps_bold_runs() {
    let l = line(vec![item("Bold", true, false, false), item("text", false, false, false)]);
    assert_eq!(l.text_with_formatting(true, false), "**Bold** text");
    // Without bold formatting the markers are left out.
    assert_eq!(l.text_with_formatting(false, true), "Bold text");
}

#[test]
fn line_formatting_nests_and_closes_markers() {
    let l = line(vec![item("a", false, true, false), item("b", true, true, false)]);
    assert_eq!(l.text_with_formatting(true, true), "*a **b***");
}

#[test]
fn line_formatting_skips_blank_items_and_trims() {
    let l = line(vec![
        item(" a ", false, false, false),
        item("   ", true, false, false),
        item("b", false, false, false),
    ]);
    assert_eq!(l.text_with_formatting(true, false), "a b");
}

// ── Whole documents ────────────────────────────────────────────

fn text_pdf(pages_text: &[&str]) -> Vec<u8> {
    let mut doc = lopdf::Document::with_version("1.5");
    let pages_id = doc.new_object_id();
    let mut font = Dictionary::new();
    font.set("Type", Object::Name(b"Font".to_vec()));
    font.set("Subtype", Object::Name(b"Type1".to_vec()));
    font.set("BaseFont", Object::Name(b"Helvetica".to_vec()));
    font.set("Encoding", Object::Name(b"WinAnsiEncoding".to_vec()));
    let font_id = doc.add_object(font);
    let mut fonts = Dictionary::new();
    fonts.set("F1", Object::Reference(font_id));
    let mut resources = Dictionary::new();
    resources.set("Font", Object::Dictionary(fonts));
    let resources_id = doc.add_object(resources);
    let mut kids = Vec::new();
    for t in pages_text {
        let content = format!("BT /F1 12 Tf 72 712 Td ({t}) Tj ET");
        let stream = lopdf::Stream::new(Dictionary::new(), content.into_bytes());
        let content_id = doc.add_object(Object::Stream(stream));
        let mut page = Dictionary::new();
        page.set("Type", Object::Name(b"Page".to_vec()));
        page.set("Parent", Object::Reference(pages_id));
        page.set("Resources", Object::Reference(resources_id));
        page.set("Contents", Object::Reference(content_id));
        page.set(
            "MediaBox",
            Object::Array(vec![
                Object::Integer(0),
                Object::Integer(0),
                Object::Integer(612),
                Object::Integer(792),
            ]),
        );
        kids.push(Object::Reference(doc.add_object(page)));
    }
    let mut pages = Dictionary::new();
    pages.set("Type", Object::Name(b"Pages".to_vec()));
    pages.set("Count", Object::Integer(kids.len() as i64));
    pages.set("Kids", Object::Array(kids));
    doc.objects.insert(pages_id, Object::Dictionary(pages));
    let mut catalog = Dictionary::new();
    catalog.set("Type", Object::Name(b"Catalog".to_vec()));
    catalog.set("Pages", Object::Reference(pages_id));
    let catalog_id = doc.add_object(catalog);
    doc.trailer.set("Root", Object::Reference(catalog_id));
    let mut bytes = Vec::new();
    doc.save_to(&mut bytes).unwrap();
    bytes
}

#[test]
fn convert_bytes_reads_page_text() {
    let pdf = text_pdf(&["Hello world", "Second page"]);
    let doc = p2m::convert_bytes(&pdf).unwrap();
    assert_eq!(doc.page_count, 2);
    assert!(doc.markdown.contains("Hello world"));
    assert!(doc.markdown.contains("Second page"));
    assert!(doc.markdown.ends_with('\n'));
    assert!(!doc.markdown.contains("\n\n\n"));
    assert_eq!(doc.title, None);
}

#[test]
fn convert_bytes_refuses_non_pdf() {
    let r = p2m::convert_bytes(b"PK\x03\x04 zip");
    assert!(matches!(r, Err(Error::NotPdf { ref hint }) if hint.contains("ZIP")));
}

#[test]
fn markdown_from_selected_pages_with_breaks() {
    let pdf = text_pdf(&["Alpha", "Beta", "Gamma"]);
    let (doc, _) = load_from_bytes(&pdf).unwrap();
    let mut filter = std::collections::HashSet::new();
    filter.insert(3u32);
    filter.insert(1u32);
    let md = markdown_from_pages(&doc, Some(&filter), true, true, false, true);
    assert!(md.starts_with("<!-- Page 1 -->"));
    assert!(md.contains("Alpha"));
    assert!(!md.contains("Beta"));
    assert!(md.contains("<!-- Page 3 -->"));
    assert!(md.contains("Gamma"));
}

#[test]
fn convert_bytes_with_selected_pages() {
    let pdf = text_pdf(&["Alpha", "Beta", "Gamma"]);
    let mut filter = std::collections::HashSet::new();
    filter.insert(2u32);
    let doc = p2m::convert::convert_bytes_with(&pdf, Some(&filter), true, true, true, true).unwrap();
    assert_eq!(doc.page_count, 3);
    assert!(doc.markdown.starts_with("<!-- Page 2 -->"));
    assert!(doc.markdown.contains("Beta"));
    assert!(!doc.markdown.contains("Alpha"));
    assert!(!doc.markdown.contains("Gamma"));
    assert!(matches!(
        p2m::convert::convert_bytes_with(b"%PDF-1.4\nnot a pdf", None, false, true, true, true),
        Err(_)
    ));
}

#[test]
fn render_pages_assembles_and_cleans() {
    let pages = vec![(1u32, "\u{FB01}rst page".to_string()), (12u32, "second".to_string())];
    assert_eq!(
        render_pages(&pages, true, false, false, false),
        "<!-- Page 1 -->\n\nfirst page\n\n<!-- Page 12 -->\n\nsecond\n"
    );
    assert_eq!(render_pages(&pages, false, false, false, false), "first page\n\nsecond\n");
    assert_eq!(render_pages(&[], false, false, false, false), "\n");
}

#[test]
fn selected_pages_follow_the_filter() {
    let mut filter = std::collections::HashSet::new();
    filter.insert(2u32);
    filter.insert(4u32);
    filter.insert(9u32);
    assert_eq!(selected_pages(&[1, 2, 3, 4], Some(&filter)), vec![2, 4]);
    assert_eq!(selected_pages(&[1, 2, 3], None), vec![1, 2, 3]);
}
