use p2m::text::unicode::{expand_ligatures, is_arabic_presentation_form, reverse_visual_arabic};

#[test]
fn strip_soft_hyphen() {
    assert_eq!(expand_ligatures("con\u{00AD}tent"), "content");
}

#[test]
fn strip_zero_width_space() {
    assert_eq!(expand_ligatures("hello\u{200B}world"), "helloworld");
}

#[test]
fn strip_bom() {
    assert_eq!(expand_ligatures("\u{FEFF}text"), "text");
}

#[test]
fn strip_zwnj_zwj_word_joiner() {
    assert_eq!(expand_ligatures("a\u{200C}b\u{200D}c\u{2060}d"), "abcd");
}

#[test]
fn ligature_plus_invisible_chars() {
    assert_eq!(expand_ligatures("\u{FB01}rst\u{00AD}ly"), "firstly");
}

#[test]
fn ligatures_still_expand() {
    assert_eq!(expand_ligatures("\u{FB00}\u{FB01}\u{FB02}"), "fffifl");
}

#[test]
fn normalize_typographic_spaces() {
    assert_eq!(expand_ligatures("•\u{2003}text"), "• text");
    assert_eq!(expand_ligatures("a\u{2002}b"), "a b");
    assert_eq!(expand_ligatures("x\u{2009}y"), "x y");
}

#[test]
fn nbsp_preserved() {
    assert_eq!(expand_ligatures("a\u{00A0}b"), "a\u{00A0}b");
}

#[test]
fn nfkc_arabic_presentation_forms() {
    let input = "\u{FEE1}\u{FEF3}";
    let result = expand_ligatures(input);
    assert!(
        !result.chars().any(is_arabic_presentation_form),
        "presentation forms should be normalized: {result:?}"
    );
    assert!(
        result.chars().any(|c| matches!(c, '\u{0600}'..='\u{06FF}')),
        "should contain base Arabic characters: {result:?}"
    );
}

#[test]
fn no_reversal_for_base_arabic() {
    let input = "\u{0645}\u{0631}\u{062D}\u{0628}\u{0627}"; // مرحبا
    let result = expand_ligatures(input);
    assert_eq!(result, input, "base Arabic should pass through unchanged");
}

#[test]
fn latin_text_unaffected() {
    assert_eq!(expand_ligatures("Hello World"), "Hello World");
}

#[test]
fn reverse_visual_arabic_pure_rtl() {
    let input = "\u{0628}\u{0627}";
    let result = reverse_visual_arabic(input);
    assert_eq!(result, "\u{0627}\u{0628}");
}

#[test]
fn reverse_visual_arabic_with_ltr_run() {
    let input = "\u{0623}123\u{0628}";
    let result = reverse_visual_arabic(input);
    assert_eq!(result, "\u{0628}123\u{0623}");
}

#[test]
fn arabic_presentation_form_detection() {
    assert!(is_arabic_presentation_form('\u{FB50}'));
    assert!(is_arabic_presentation_form('\u{FDFF}'));
    assert!(is_arabic_presentation_form('\u{FE70}'));
    assert!(is_arabic_presentation_form('\u{FEFE}'));
    assert!(!is_arabic_presentation_form('\u{FEFF}'));
    assert!(!is_arabic_presentation_form('\u{0645}'));
    assert!(!is_arabic_presentation_form('A'));
}

#[test]
fn pure_rtl_reversal_undoes_itself() {
    for s in ["\u{0628}\u{0627}", "\u{05D0}\u{05D1} \u{05D2}", ""] {
        let once = reverse_visual_arabic(s);
        assert_eq!(reverse_visual_arabic(&once), s);
    }
}

#[test]
fn mixed_text_keeps_ltr_runs_forward() {
    let once = reverse_visual_arabic("\u{0628} abc \u{0627}");
    assert!(once.contains("abc"));
}

#[test]
fn mixed_text_without_punctuation_round_trips() {
    for s in ["\u{0623}123\u{0628}", "\u{0628} abc \u{0627} 42", "ab\u{0628}cd"] {
        let once = reverse_visual_arabic(s);
        let mut a: Vec<char> = once.chars().collect();
        let mut b: Vec<char> = s.chars().collect();
        a.sort();
        b.sort();
        assert_eq!(a, b);
        assert_eq!(reverse_visual_arabic(&once), s);
    }
    assert_eq!(reverse_visual_arabic("ab\u{0628}cd"), "cd\u{0628}ab");
}

#[test]
fn presentation_forms_expand_once() {
    for s in ["\u{FEFB}", "\u{FE91}\u{FE8E}\u{FB01}", "\u{FEFB} 12"] {
        let once = expand_ligatures(s);
        assert!(!once.chars().any(is_arabic_presentation_form));
        assert_eq!(expand_ligatures(&once), once);
    }
    assert_eq!(expand_ligatures("\u{FEFB}"), "\u{0627}\u{0644}");
}
