use p2m::pdf::fonts::{
    checked_score_text, clean_pua_chars, glyph_name_to_char, is_gid_glyph_name,
    is_private_use_area, score_text, extract_text_from_operand, try_extract_text_from_operand, parse_cid_w_array, CMapChoice, CMapDecisionCache, CMapTexts,
    WArrayItem,
};
use lopdf::Object;
use std::collections::HashMap;

// ── CMapDecisionCache ──────────────────────────────────────────

#[test]
fn decision_cache_returns_none_until_threshold() {
    let mut cache = CMapDecisionCache::new();
    // 100 bytes is below the 240-byte threshold.
    let result = cache.consider(1, "hello world", "h3ll0 w0rld", 100);
    assert!(result.is_none());
    assert!(cache.get_choice(1).is_none());
}

#[test]
fn decision_cache_decides_after_threshold() {
    let mut cache = CMapDecisionCache::new();
    // Feed enough bytes.
    cache.consider(1, "hello world test", "garbled text", 120);
    let result = cache.consider(1, "another good sentence", "more garbage", 130);
    assert!(result.is_some());
    assert!(cache.get_choice(1).is_some());
}

#[test]
fn decision_cache_sticky_after_decision() {
    let mut cache = CMapDecisionCache::new();
    cache.consider(1, "good text here", "bad text", 250);
    let choice = cache.get_choice(1);
    assert_eq!(choice, Some(CMapChoice::Primary));
    // Subsequent calls return the same decision.
    let again = cache.consider(1, "bad text", "good text here", 100);
    assert_eq!(again, Some(CMapChoice::Primary));
}

// ── score_text ─────────────────────────────────────────────────

#[test]
fn score_natural_text_higher_than_garbage() {
    let good = score_text("The quick brown fox jumps over the lazy dog.");
    let bad = score_text("\u{FFFD}\u{FFFD}\u{FFFD}\u{E000}\u{E001}");
    assert!(good > bad, "good={good}, bad={bad}");
}

#[test]
fn score_empty_is_zero() {
    assert_eq!(score_text(""), 0);
}

// ── clean_pua_chars ────────────────────────────────────────────

#[test]
fn clean_pua_strips_bmp_pua() {
    let input = "Hello\u{E000}World\u{F8FF}!";
    assert_eq!(clean_pua_chars(input), "HelloWorld!");
}

#[test]
fn clean_pua_preserves_normal_text() {
    let input = "Hello World";
    assert_eq!(clean_pua_chars(input), "Hello World");
}

// ── is_gid_glyph_name ──────────────────────────────────────────

#[test]
fn gid_glyph_names_detected() {
    assert!(is_gid_glyph_name("glyph00042"));
    assert!(is_gid_glyph_name("cid12345"));
    assert!(is_gid_glyph_name("g42"));
    assert!(!is_gid_glyph_name("Agrave"));
    assert!(!is_gid_glyph_name("space"));
}

// ── glyph_name_to_char ─────────────────────────────────────────

#[test]
fn glyph_name_space() {
    assert_eq!(glyph_name_to_char("space"), Some(' '));
}

#[test]
fn glyph_name_notdef() {
    assert_eq!(glyph_name_to_char(".notdef"), None);
    assert_eq!(glyph_name_to_char("notdef"), None);
}

#[test]
fn glyph_name_uni_format() {
    assert_eq!(glyph_name_to_char("uni0041"), Some('A'));
    assert_eq!(glyph_name_to_char("uni00E9"), Some('é'));
}

#[test]
fn glyph_name_u_format() {
    assert_eq!(glyph_name_to_char("u0041"), Some('A'));
}

// ── private_use_area ───────────────────────────────────────────

#[test]
fn pua_detection() {
    assert!(is_private_use_area('\u{E000}'));
    assert!(is_private_use_area('\u{F8FF}'));
    assert!(!is_private_use_area('A'));
    assert!(!is_private_use_area('\u{FFFD}'));
}

// ── String operands ────────────────────────────────────────────

fn texts(primary: &str, remapped: Option<&str>, fallback: Option<&str>) -> CMapTexts {
    CMapTexts {
        primary: primary.to_string(),
        remapped: remapped.map(str::to_string),
        fallback: fallback.map(str::to_string),
    }
}

#[test]
fn operand_without_bytes_gives_nothing() {
    let mut cache = CMapDecisionCache::new();
    let t = texts("abc", None, None);
    assert_eq!(extract_text_from_operand(b"", "Helvetica", Some(&t), 7, None, &mut cache), None);
}

#[test]
fn operand_uses_primary_cmap_without_pua() {
    let mut cache = CMapDecisionCache::new();
    let t = texts("Hello\u{E000} world", None, None);
    let r = extract_text_from_operand(b"\x01\x02", "Helvetica", Some(&t), 7, None, &mut cache);
    assert_eq!(r.as_deref(), Some("Hello world"));
}

#[test]
fn operand_empty_cmap_text_uses_fallback() {
    let mut cache = CMapDecisionCache::new();
    let t = texts("", None, Some("fall\u{F000}back"));
    let r = extract_text_from_operand(b"\x01", "Helvetica", Some(&t), 7, None, &mut cache);
    assert_eq!(r.as_deref(), Some("fallback"));
}

#[test]
fn operand_empty_cmap_texts_fall_through_to_bytes() {
    let mut cache = CMapDecisionCache::new();
    let t = texts("", None, Some(""));
    let r = extract_text_from_operand(b"AB", "Helvetica", Some(&t), 7, None, &mut cache);
    assert_eq!(r.as_deref(), Some("AB"));
}

#[test]
fn operand_undecided_font_records_sample_and_uses_primary() {
    let mut cache = CMapDecisionCache::new();
    let t = texts("hello world", Some("h3ll0"), None);
    let r = extract_text_from_operand(&[1u8; 10], "Helvetica", Some(&t), 3, None, &mut cache);
    assert_eq!(r.as_deref(), Some("hello world"));
    // 10 bytes are too few for a decision.
    assert_eq!(cache.get_choice(3), None);
}

#[test]
fn operand_decision_picks_remapped_text() {
    let mut cache = CMapDecisionCache::new();
    // The remapped text scores higher; 240 bytes settle the choice.
    let t = texts("\u{E001}\u{E002}", Some("the text"), None);
    let r = extract_text_from_operand(&[1u8; 240], "Helvetica", Some(&t), 3, None, &mut cache);
    assert_eq!(r.as_deref(), Some("the text"));
    assert_eq!(cache.get_choice(3), Some(CMapChoice::Remapped));
    // Later operands follow the recorded choice.
    let t2 = texts("primary", Some("remapped"), None);
    let r2 = extract_text_from_operand(b"\x01", "Helvetica", Some(&t2), 3, None, &mut cache);
    assert_eq!(r2.as_deref(), Some("remapped"));
}

#[test]
fn operand_differences_map_with_ascii_passthrough() {
    let mut cache = CMapDecisionCache::new();
    let mut enc = HashMap::new();
    enc.insert(0x01u8, '\u{e9}');
    let r = extract_text_from_operand(b"\x01A", "Helvetica", None, 0, Some(&enc), &mut cache);
    assert_eq!(r.as_deref(), Some("\u{e9}A"));
}

#[test]
fn operand_unmapped_byte_skips_differences_map() {
    let mut cache = CMapDecisionCache::new();
    let mut enc = HashMap::new();
    enc.insert(0x01u8, 'x');
    // 0x02 is neither mapped nor printable, so the map is not used; the
    // bytes are valid UTF-8 without NUL.
    let r = extract_text_from_operand(b"\x01\x02", "Helvetica", None, 0, Some(&enc), &mut cache);
    assert_eq!(r.as_deref(), Some("\u{1}\u{2}"));
}

#[test]
fn operand_utf16_with_byte_order_mark() {
    let mut cache = CMapDecisionCache::new();
    let r = extract_text_from_operand(
        &[0xFE, 0xFF, 0x00, 0x48, 0x00, 0x69],
        "Helvetica",
        None,
        0,
        None,
        &mut cache,
    );
    assert_eq!(r.as_deref(), Some("Hi"));
}

#[test]
fn operand_utf8_with_nul_is_read_as_latin1() {
    let mut cache = CMapDecisionCache::new();
    let r = extract_text_from_operand(b"A\x00", "Helvetica", None, 0, None, &mut cache);
    assert_eq!(r.as_deref(), Some("A\u{0}"));
}

#[test]
fn operand_invalid_utf8_is_read_as_latin1() {
    let mut cache = CMapDecisionCache::new();
    let r = extract_text_from_operand(&[0x43, 0x61, 0x66, 0xE9], "Helvetica", None, 0, None, &mut cache);
    assert_eq!(r.as_deref(), Some("Caf\u{e9}"));
}

#[test]
fn operand_symbol_font_remaps_pua() {
    let mut cache = CMapDecisionCache::new();
    // U+F041 in UTF-8.
    let r = extract_text_from_operand(&[0xEF, 0x81, 0x81], "Symbol", None, 0, None, &mut cache);
    assert_eq!(r.as_deref(), Some("A"));
    // The CMap layer strips PUA characters instead.
    let t = texts("\u{F041}B", None, None);
    let r2 = extract_text_from_operand(b"\x01", "Symbol", Some(&t), 0, None, &mut cache);
    assert_eq!(r2.as_deref(), Some("B"));
}

// ── parse_cid_w_array ──────────────────────────────────────────

/// How the parser reads a direct `/W` element: integers and reals as
/// CIDs and widths, arrays as runs of widths.
#[allow(clippy::cast_sign_loss, clippy::cast_possible_truncation)]
fn w_items(objs: &[Object]) -> Vec<WArrayItem> {
    fn number(o: &Object) -> u32 {
        match o {
            Object::Integer(i) => *i as f64 as u32,
            Object::Real(f) => f64::from(*f) as u32,
            _ => 0,
        }
    }
    objs.iter()
        .map(|o| WArrayItem {
            cid: match o {
                Object::Integer(i) if *i >= 0 => Some(*i as u32),
                Object::Real(f) if *f >= 0.0 => Some(*f as u32),
                _ => None,
            },
            widths: match o {
                Object::Array(a) => Some(a.iter().map(number).collect()),
                _ => None,
            },
            width: number(o),
        })
        .collect()
}

#[test]
fn parse_w_array_consecutive_format() {
    // Format: [1 [500 600 700]]
    let w = vec![
        Object::Integer(1),
        Object::Array(vec![
            Object::Integer(500),
            Object::Integer(600),
            Object::Integer(700),
        ]),
    ];
    let mut widths = HashMap::new();
    parse_cid_w_array(&w_items(&w), &mut widths);
    assert_eq!(widths.get(&1), Some(&500));
    assert_eq!(widths.get(&2), Some(&600));
    assert_eq!(widths.get(&3), Some(&700));
}

#[test]
fn parse_w_array_range_format() {
    // Format: [10 15 1000]
    let w = vec![
        Object::Integer(10),
        Object::Integer(15),
        Object::Integer(1000),
    ];
    let mut widths = HashMap::new();
    parse_cid_w_array(&w_items(&w), &mut widths);
    for cid in 10..=15 {
        assert_eq!(widths.get(&cid), Some(&1000));
    }
}

#[test]
fn parse_w_array_mixed_formats_and_clamping() {
    // [0 [70000 250.7] 65534 70000 9 5]: widths clamp to 16 bits, CIDs
    // beyond 16 bits are dropped, reals are truncated.
    let w = vec![
        Object::Integer(0),
        Object::Array(vec![Object::Integer(70000), Object::Real(250.7)]),
        Object::Integer(65534),
        Object::Integer(70000),
        Object::Integer(9),
        Object::Integer(5),
    ];
    let mut widths = HashMap::new();
    parse_cid_w_array(&w_items(&w), &mut widths);
    assert_eq!(widths.get(&0), Some(&65535));
    assert_eq!(widths.get(&1), Some(&250));
    assert_eq!(widths.get(&65534), Some(&9));
    assert_eq!(widths.get(&65535), Some(&9));
    // The trailing 5 has nothing after it.
    assert_eq!(widths.len(), 4);
}

#[test]
fn parse_w_array_skips_non_cids_and_keeps_existing() {
    let w = vec![
        Object::Name(b"X".to_vec()),
        Object::Integer(-4),
        Object::Integer(3),
        Object::Array(vec![Object::Null, Object::Integer(40)]),
    ];
    let mut widths = HashMap::new();
    widths.insert(100u16, 7u16);
    widths.insert(3u16, 1u16);
    parse_cid_w_array(&w_items(&w), &mut widths);
    assert_eq!(widths.get(&3), Some(&0));
    assert_eq!(widths.get(&4), Some(&40));
    assert_eq!(widths.get(&100), Some(&7));
    assert_eq!(widths.len(), 3);
}

#[test]
fn parse_w_array_range_is_capped() {
    // A range wider than 65536 CIDs stops 65535 after its start; a second
    // CID that is not a number skips the pair.
    let w = vec![
        Object::Integer(0),
        Object::Integer(4_000_000),
        Object::Integer(2),
        Object::Integer(8),
        Object::Name(b"bad".to_vec()),
        Object::Integer(5),
    ];
    let mut widths = HashMap::new();
    parse_cid_w_array(&w_items(&w), &mut widths);
    assert_eq!(widths.len(), 65536);
    assert_eq!(widths.get(&65535), Some(&2));
}

#[test]
fn checked_scoring_and_considering() {
    let t = "The quick brown fox and the dog";
    assert_eq!(checked_score_text(t), Some(score_text(t)));
    assert_eq!(checked_score_text(""), Some(0));
    let mut cache = CMapDecisionCache::new();
    assert!(cache.fits_to_consider(1, "good text here", "bad text", 250));
    assert_eq!(cache.try_consider(1, "good text here", "bad text", 100), Some(None));
    assert_eq!(
        cache.try_consider(1, "good text here", "bad text", 200),
        Some(Some(CMapChoice::Primary))
    );
    assert_eq!(cache.try_consider(3, "a", "b", 10), Some(None));
    assert_eq!(cache.try_consider(3, "a", "b", usize::MAX), None);
    assert_eq!(cache.get_choice(3), None);
}

#[test]
fn checked_operand_extraction() {
    let mut cache = CMapDecisionCache::new();
    assert_eq!(
        try_extract_text_from_operand(b"", "F1", None, 0, None, &mut cache),
        Some(None)
    );
    let r = try_extract_text_from_operand(b"Hi", "F1", None, 0, None, &mut cache);
    assert_eq!(r, Some(extract_text_from_operand(b"Hi", "F1", None, 0, None, &mut cache)));
}
