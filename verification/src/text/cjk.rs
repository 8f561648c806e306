//! CJK character classification.

use vstd::prelude::*;

verus! {

/// CJK blocks: Hangul Jamo, CJK symbols and punctuation, Hiragana,
/// Katakana, Hangul compatibility Jamo, CJK unified ideographs, Hangul
/// syllables, CJK compatibility ideographs, halfwidth and fullwidth forms.
pub open spec fn cjk_char(c: char) -> bool {
    ('\u{1100}' <= c && c <= '\u{11FF}') || ('\u{3000}' <= c && c <= '\u{303F}') || ('\u{3040}'
        <= c && c <= '\u{309F}') || ('\u{30A0}' <= c && c <= '\u{30FF}') || ('\u{3130}' <= c && c
        <= '\u{318F}') || ('\u{4E00}' <= c && c <= '\u{9FFF}') || ('\u{AC00}' <= c && c
        <= '\u{D7AF}') || ('\u{F900}' <= c && c <= '\u{FAFF}') || ('\u{FF00}' <= c && c
        <= '\u{FFEF}')
}

/// Check if a character is CJK (Chinese, Japanese, Korean).
///
/// CJK languages don't use spaces between words, so word-boundary
/// heuristics should not apply when CJK characters are involved.
pub fn is_cjk_char(c: char) -> (r: bool)
    ensures
        r == cjk_char(c),
{
    ('\u{1100}' <= c && c <= '\u{11FF}') || ('\u{3000}' <= c && c <= '\u{303F}') || ('\u{3040}'
        <= c && c <= '\u{309F}') || ('\u{30A0}' <= c && c <= '\u{30FF}') || ('\u{3130}' <= c && c
        <= '\u{318F}') || ('\u{4E00}' <= c && c <= '\u{9FFF}') || ('\u{AC00}' <= c && c
        <= '\u{D7AF}') || ('\u{F900}' <= c && c <= '\u{FAFF}') || ('\u{FF00}' <= c && c
        <= '\u{FFEF}')
}

} // verus!
