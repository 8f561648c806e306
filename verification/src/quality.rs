//! Quality checks for extracted text.
//!
//! Detects garbage text from broken font encodings, CID-to-Unicode mapping
//! failures, and dollar-as-space encoding issues. These signals indicate that
//! the extracted text is unreliable and OCR fallback may be needed.

use vstd::prelude::*;
use vstd::string::StringSliceAdditionalSpecFns;

use crate::text::chars::{
    alphanumeric, ascii_alphabetic, count, has_char, count_char, is_alphanumeric,
    is_ascii_alphabetic, is_whitespace, str_chars, white_space,
};

verus! {

// ── Specification ──────────────────────────────────────────────────

/// Characters that the garbage check does not count at all.
pub open spec fn garbage_ignored(c: char) -> bool {
    white_space(c) || c == '#' || c == '*' || c == '|' || c == '-' || c == '\n'
}

/// Number of counted alphanumeric characters.
pub open spec fn garbage_alnum(s: Seq<char>) -> nat {
    count(s, |c: char| !garbage_ignored(c) && alphanumeric(c))
}

/// Number of counted characters that are not alphanumeric.
pub open spec fn garbage_other(s: Seq<char>) -> nat {
    count(s, |c: char| !garbage_ignored(c) && !alphanumeric(c))
}

/// At least 50 counted characters, fewer than half of them alphanumeric.
pub open spec fn garbage_text(s: Seq<char>) -> bool {
    let a = garbage_alnum(s);
    let total = a + garbage_other(s);
    total >= 50 && a * 2 < total
}

pub open spec fn c1_control(c: char) -> bool {
    '\u{80}' <= c && c <= '\u{9F}'
}

pub open spec fn high_latin(c: char) -> bool {
    '\u{A0}' <= c && c <= '\u{FF}'
}

/// Number of characters that are not white space.
pub open spec fn cid_total(s: Seq<char>) -> nat {
    count(s, |c: char| !white_space(c))
}

pub open spec fn cid_c1(s: Seq<char>) -> nat {
    count(s, |c: char| !white_space(c) && c1_control(c))
}

pub open spec fn cid_high_latin(s: Seq<char>) -> nat {
    count(s, |c: char| !white_space(c) && high_latin(c))
}

pub open spec fn ascii_letter_count(s: Seq<char>) -> nat {
    count(s, |c: char| ascii_alphabetic(c))
}

/// Failed CID mapping: garbage text, or (with at least five non-space
/// characters) at least 5% C1 controls, or at least 40% high Latin-1 with
/// fewer than a third ASCII letters.
pub open spec fn cid_garbage(s: Seq<char>) -> bool {
    garbage_text(s) || {
        let total = cid_total(s);
        total >= 5 && (cid_c1(s) * 20 >= total || (cid_high_latin(s) * 5 >= total * 2
            && ascii_letter_count(s) * 3 < total))
    }
}

pub open spec fn ascii_alpha_byte(b: u8) -> bool {
    (65 <= b && b <= 90) || (97 <= b && b <= 122)
}

/// Byte `i` is a `$` between two ASCII letters (not at either end).
pub open spec fn letter_dollar_letter_at(b: Seq<u8>, i: int) -> bool {
    1 <= i && i + 1 < b.len() && b[i] == 36u8 && ascii_alpha_byte(b[i - 1]) && ascii_alpha_byte(
        b[i + 1],
    )
}

/// Number of letter-`$`-letter positions among the first `k` bytes.
pub open spec fn letter_dollar_letter_upto(b: Seq<u8>, k: int) -> nat
    decreases k,
{
    if k <= 0 {
        0
    } else {
        letter_dollar_letter_upto(b, k - 1) + if letter_dollar_letter_at(b, k - 1) {
            1nat
        } else {
            0nat
        }
    }
}

pub open spec fn letter_dollar_letter(b: Seq<u8>) -> nat {
    letter_dollar_letter_upto(b, b.len() as int)
}

pub open spec fn dollar_count(s: Seq<char>) -> nat {
    count(s, |c: char| c == '$')
}

/// A replacement character, or more than ten `$` of which more than twenty,
/// or more than half, stand between two ASCII letters.
pub open spec fn encoding_issues(s: Seq<char>, bytes: Seq<u8>) -> bool {
    s.contains('\u{FFFD}') || (dollar_count(s) > 10 && (letter_dollar_letter(bytes) > 20
        || letter_dollar_letter(bytes) * 2 > dollar_count(s)))
}

// ── Implementation ─────────────────────────────────────────────────

/// Check if extracted text is predominantly garbage (non-alphanumeric).
///
/// Broken font encodings produce text like `"----1-.-.-.___  --.-. .._ I_---."`.
/// Real text in any language has >50% alphanumeric characters.
pub fn is_garbage_text(text: &str) -> (r: bool)
    ensures
        r == garbage_text(text@),
{
    let v = str_chars(text);
    garbage_in(v.as_slice())
}

fn garbage_in(v: &[char]) -> (r: bool)
    ensures
        r == garbage_text(v@),
{
    let ghost pa = |c: char| !garbage_ignored(c) && alphanumeric(c);
    let ghost po = |c: char| !garbage_ignored(c) && !alphanumeric(c);
    let mut alphanum: usize = 0;
    let mut non_alphanum: usize = 0;
    let mut i: usize = 0;
    while i < v.len()
        invariant
            i <= v@.len(),
            alphanum == count(v@.take(i as int), pa),
            non_alphanum == count(v@.take(i as int), po),
            alphanum + non_alphanum <= i,
            pa == (|c: char| !garbage_ignored(c) && alphanumeric(c)),
            po == (|c: char| !garbage_ignored(c) && !alphanumeric(c)),
        decreases v@.len() - i,
    {
        assert(v@.take(i + 1).drop_last() =~= v@.take(i as int));
        let ch = v[i];
        if !(is_whitespace(ch) || ch == '#' || ch == '*' || ch == '|' || ch == '-' || ch == '\n') {
            if is_alphanumeric(ch) {
                alphanum += 1;
            } else {
                non_alphanum += 1;
            }
        }
        i += 1;
    }
    assert(v@.take(v@.len() as int) =~= v@);
    let total = alphanum + non_alphanum;
    total >= 50 && alphanum < total - alphanum
}

/// Detect garbage from failed CID-to-Unicode mapping (Identity-H fonts).
///
/// Raw CID bytes often produce C1 control characters (U+0080–U+009F) or
/// high-Latin-1 mojibake when CID values don't map to Unicode codepoints.
pub fn is_cid_garbage(text: &str) -> (r: bool)
    ensures
        r == cid_garbage(text@),
{
    let v = str_chars(text);
    if garbage_in(v.as_slice()) {
        return true;
    }
    let ghost pt = |c: char| !white_space(c);
    let ghost pc = |c: char| !white_space(c) && c1_control(c);
    let ghost ph = |c: char| !white_space(c) && high_latin(c);
    let ghost pl = |c: char| ascii_alphabetic(c);
    let mut total: usize = 0;
    let mut c1: usize = 0;
    let mut hl: usize = 0;
    let mut letters: usize = 0;
    let mut i: usize = 0;
    while i < v.len()
        invariant
            i <= v@.len(),
            total == count(v@.take(i as int), pt),
            c1 == count(v@.take(i as int), pc),
            hl == count(v@.take(i as int), ph),
            letters == count(v@.take(i as int), pl),
            total <= i,
            c1 <= i,
            hl <= i,
            letters <= i,
            pt == (|c: char| !white_space(c)),
            pc == (|c: char| !white_space(c) && c1_control(c)),
            ph == (|c: char| !white_space(c) && high_latin(c)),
            pl == (|c: char| ascii_alphabetic(c)),
        decreases v@.len() - i,
    {
        assert(v@.take(i + 1).drop_last() =~= v@.take(i as int));
        let ch = v[i];
        if is_ascii_alphabetic(ch) {
            letters += 1;
        }
        if !is_whitespace(ch) {
            total += 1;
            if '\u{80}' <= ch && ch <= '\u{9F}' {
                c1 += 1;
            }
            if '\u{A0}' <= ch && ch <= '\u{FF}' {
                hl += 1;
            }
        }
        i += 1;
    }
    assert(v@.take(v@.len() as int) =~= v@);
    if total < 5 {
        return false;
    }
    if (c1 as u128) * 20 >= total as u128 {
        return true;
    }
    (hl as u128) * 5 >= (total as u128) * 2 && (letters as u128) * 3 < total as u128
}

/// Detect encoding issues like U+FFFD replacements or dollar-as-space patterns.
///
/// Returns `true` when:
/// - Text contains U+FFFD (replacement character)
/// - `$` appears frequently between letters (broken CMap substitution)
pub fn detect_encoding_issues(text: &str) -> (r: bool)
    ensures
        r == encoding_issues(text@, text.spec_bytes()),
{
    let v = str_chars(text);
    if has_char(v.as_slice(), '\u{FFFD}') {
        return true;
    }
    let total_dollars = count_char(v.as_slice(), '$');
    if total_dollars > 10 {
        let bytes = text.as_bytes();
        let ldl = count_letter_dollar_letter(bytes);
        if ldl > 20 || (ldl as u128) * 2 > total_dollars as u128 {
            return true;
        }
    }
    false
}

/// Counts the bytes `$` that stand between two ASCII letters.
fn count_letter_dollar_letter(bytes: &[u8]) -> (n: usize)
    ensures
        n == letter_dollar_letter(bytes@),
{
    let len = bytes.len();
    let mut n: usize = 0;
    let mut i: usize = 0;
    while i < len
        invariant
            len == bytes@.len(),
            i <= len,
            n == letter_dollar_letter_upto(bytes@, i as int),
            n <= i,
        decreases len - i,
    {
        if i >= 1 && i + 1 < len && bytes[i] == 36u8 && is_ascii_alpha_byte(bytes[i - 1])
            && is_ascii_alpha_byte(bytes[i + 1]) {
            n += 1;
        }
        i += 1;
    }
    n
}

fn is_ascii_alpha_byte(b: u8) -> (r: bool)
    ensures
        r == ascii_alpha_byte(b),
{
    (65 <= b && b <= 90) || (97 <= b && b <= 122)
}

/// Combined quality assessment result.
#[derive(Debug, Clone, Copy)]
pub struct QualityReport {
    /// Text is predominantly non-alphanumeric (broken font encoding).
    pub is_garbage: bool,
    /// CID-to-Unicode mapping failure detected (C1 controls, mojibake).
    pub is_cid_garbage: bool,
    /// Encoding issues like U+FFFD or dollar-as-space patterns.
    pub has_encoding_issues: bool,
}

impl QualityReport {
    /// Returns `true` if any quality issue was detected.
    pub fn needs_ocr_fallback(&self) -> (r: bool)
        ensures
            r == (self.is_garbage || self.is_cid_garbage || self.has_encoding_issues),
    {
        self.is_garbage || self.is_cid_garbage || self.has_encoding_issues
    }
}

/// Run all quality checks on the extracted markdown text.
pub fn check_quality(markdown: &str) -> (r: QualityReport)
    ensures
        r.is_garbage == garbage_text(markdown@),
        r.is_cid_garbage == cid_garbage(markdown@),
        r.has_encoding_issues == encoding_issues(markdown@, markdown.spec_bytes()),
{
    QualityReport {
        is_garbage: is_garbage_text(markdown),
        is_cid_garbage: is_cid_garbage(markdown),
        has_encoding_issues: detect_encoding_issues(markdown),
    }
}

// ── Laws ───────────────────────────────────────────────────────────

/// Garbage text is always also reported as CID garbage.
pub proof fn lemma_garbage_implies_cid_garbage(s: Seq<char>)
    requires
        garbage_text(s),
    ensures
        cid_garbage(s),
{
}

/// A combined report asks for OCR fallback exactly when the text is CID
/// garbage (which includes plain garbage) or has encoding issues.
pub proof fn lemma_report_needs_fallback(s: Seq<char>, bytes: Seq<u8>)
    ensures
        (garbage_text(s) || cid_garbage(s) || encoding_issues(s, bytes)) == (cid_garbage(s)
            || encoding_issues(s, bytes)),
{
}

/// Text with fewer than 50 counted characters is never garbage.
pub proof fn lemma_short_text_not_garbage(s: Seq<char>)
    requires
        s.len() < 50,
    ensures
        !garbage_text(s),
{
    let pa = |c: char| !garbage_ignored(c) && alphanumeric(c);
    let po = |c: char| !garbage_ignored(c) && !alphanumeric(c);
    lemma_count_split(s, pa, po);
}

/// The two garbage counters never count the same character, so together
/// they count at most every character once.
pub proof fn lemma_count_split(
    s: Seq<char>,
    p: spec_fn(char) -> bool,
    q: spec_fn(char) -> bool,
)
    requires
        forall|c: char| !(#[trigger] p(c) && q(c)),
    ensures
        count(s, p) + count(s, q) <= s.len(),
    decreases s.len(),
{
    if s.len() > 0 {
        lemma_count_split(s.drop_last(), p, q);
    }
}

/// Any text that contains U+FFFD has encoding issues.
pub proof fn lemma_replacement_char_is_issue(s: Seq<char>, bytes: Seq<u8>)
    requires
        s.contains('\u{FFFD}'),
    ensures
        encoding_issues(s, bytes),
{
}

} // verus!
