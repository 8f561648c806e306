//! Font glyph-name decoding, Symbol-font remapping, decoded-text scoring,
//! Private Use Area cleanup, and the cache that picks between a font's
//! primary and remapped CMap.

use std::collections::HashMap;

use vstd::prelude::*;
use vstd::string::StringSliceAdditionalSpecFns;
use vstd::utf8::is_char_boundary;

use crate::pdf::glyph_names::{glyph_char, glyph_to_char};
use crate::text::chars::{
    ascii_digit, ascii_hexdigit, contains_seq, control, count, is_alphabetic, is_ascii_digit,
    is_ascii_hexdigit, is_control, lowercase_of, push_char, starts_with, starts_with_exec,
    str_chars, str_contains, to_lowercase, unicode_alphabetic,
};
use crate::text::chars::eq_chars;
use crate::text::unicode::{decode_text_string, decoded_text_string};
use crate::pdf::string_from_utf8;
use vstd::slice::slice_to_vec;
use crate::pdf::objects::{
    array_of, dict_of, dictionary_entry, dictionary_shape, document_object, document_objects,
    object_by_id, object_shape, object_value, resolve_array, resolve_dict, shapes, PdfShape,
    PdfValue,
};
use lopdf::Dictionary as PdfDictionary;
use lopdf::Document as PdfDocument;
use lopdf::Object as PdfObject;
use vstd::utf8::{decode_utf8, encode_utf8, valid_utf8};

verus! {

broadcast use vstd::std_specs::hash::group_hash_axioms;

// ── CMap choice ────────────────────────────────────────────────────

/// Which CMap to use for a given font: the font's own `ToUnicode` or a
/// GID-remapped variant built from the `FontFile2` glyph table.
#[derive(Debug, Clone, Copy, PartialEq, Eq, Structural)]
#[non_exhaustive]
pub enum CMapChoice {
    /// Use the font's own `ToUnicode` CMap.
    Primary,
    /// Use the remapped (GID-based) CMap.
    Remapped,
}

/// Minimum number of bytes that must be sampled before committing to a
/// [`CMapChoice`].
pub const MIN_SAMPLE_BYTES: usize = 240;

/// Accumulated sample data for a single font.
#[derive(Debug, Clone, Copy)]
pub struct CMapSample {
    /// Sum of scores for the primary CMap across all samples.
    pub primary_score: i64,
    /// Sum of scores for the remapped CMap across all samples.
    pub remapped_score: i64,
    /// Total byte count sampled so far.
    pub total_bytes: usize,
    /// Cached final decision (once enough bytes are collected).
    pub decision: Option<CMapChoice>,
}

/// Primary unless the remapped CMap scored strictly higher.
pub open spec fn choice_for(primary: int, remapped: int) -> CMapChoice {
    if primary >= remapped {
        CMapChoice::Primary
    } else {
        CMapChoice::Remapped
    }
}

/// The sample of a font that has not been seen yet.
pub open spec fn fresh_sample() -> CMapSample {
    CMapSample { primary_score: 0, remapped_score: 0, total_bytes: 0, decision: None }
}

/// The sample recorded for `obj_num`, or a fresh one.
pub open spec fn sample_of(m: Map<u32, CMapSample>, obj_num: u32) -> CMapSample {
    if m.contains_key(obj_num) {
        m[obj_num]
    } else {
        fresh_sample()
    }
}

/// A sample is decided exactly when enough bytes were seen, and its
/// decision follows its scores.
pub open spec fn sample_wf(s: CMapSample) -> bool {
    &&& (s.decision is None <==> s.total_bytes < MIN_SAMPLE_BYTES)
    &&& (s.decision matches Some(c) ==> c == choice_for(
        s.primary_score as int,
        s.remapped_score as int,
    ))
}

/// The sample after one more observation with the given scores and byte
/// count: unchanged once decided; otherwise the sums grow, and a decision
/// is taken as soon as the byte total reaches the threshold.
pub open spec fn sample_after(s: CMapSample, primary: int, remapped: int, bytes: int) -> CMapSample {
    if s.decision is Some {
        s
    } else {
        let p = s.primary_score + primary;
        let r = s.remapped_score + remapped;
        let t = s.total_bytes + bytes;
        CMapSample {
            primary_score: p as i64,
            remapped_score: r as i64,
            total_bytes: t as usize,
            decision: if t >= MIN_SAMPLE_BYTES {
                Some(choice_for(p, r))
            } else {
                None
            },
        }
    }
}

/// The scores of both texts can be computed, and while `obj_num` is
/// undecided the sums that one more observation forms fit their types.
pub open spec fn consider_fits(
    cache: Map<u32, CMapSample>,
    obj_num: u32,
    primary: Seq<char>,
    remapped: Seq<char>,
    bytes_len: int,
) -> bool {
    &&& score_in_range(primary)
    &&& score_in_range(remapped)
    &&& sample_of(cache, obj_num).decision is None ==> {
        let s = sample_of(cache, obj_num);
        &&& i64::MIN <= s.primary_score + text_score(primary) <= i64::MAX
        &&& i64::MIN <= s.remapped_score + text_score(remapped) <= i64::MAX
        &&& s.total_bytes + bytes_len <= usize::MAX
    }
}

/// Accumulates decoded-text samples from multiple strings to decide
/// whether the primary or remapped CMap produces better output for each
/// font object.
#[derive(Debug, Clone)]
#[non_exhaustive]
pub struct CMapDecisionCache {
    /// Per-font-object-number sample data.
    samples: HashMap<u32, CMapSample>,
}

impl View for CMapDecisionCache {
    type V = Map<u32, CMapSample>;

    closed spec fn view(&self) -> Map<u32, CMapSample> {
        self.samples@
    }
}

impl CMapDecisionCache {
    /// Every recorded sample is well formed.
    pub open spec fn wf(&self) -> bool {
        forall|k: u32| #[trigger] self@.contains_key(k) ==> sample_wf(self@[k])
    }

    /// Create a new, empty decision cache.
    pub fn new() -> (r: Self)
        ensures
            r@ == Map::<u32, CMapSample>::empty(),
            r.wf(),
    {
        CMapDecisionCache { samples: HashMap::new() }
    }

    /// Return the cached decision for `obj_num`, if one has been made.
    pub fn get_choice(&self, obj_num: u32) -> (r: Option<CMapChoice>)
        ensures
            r == sample_of(self@, obj_num).decision,
    {
        match self.samples.get(&obj_num) {
            Some(s) => s.decision,
            None => None,
        }
    }

    /// Feed a decoded-text sample from both CMaps and (once enough data
    /// has been collected) return the chosen CMap variant.
    ///
    /// * `obj_num` — the PDF object number identifying the font.
    /// * `primary_text` — text decoded via the primary CMap.
    /// * `remapped_text` — text decoded via the remapped CMap.
    /// * `bytes_len` — number of raw bytes in the operand that produced
    ///   these texts.
    pub fn consider(
        &mut self,
        obj_num: u32,
        primary_text: &str,
        remapped_text: &str,
        bytes_len: usize,
    ) -> (r: Option<CMapChoice>)
        requires
            old(self).wf(),
            consider_fits(old(self)@, obj_num, primary_text@, remapped_text@, bytes_len as int),
        ensures
            final(self).wf(),
            final(self)@ == old(self)@.insert(
                obj_num,
                sample_after(
                    sample_of(old(self)@, obj_num),
                    text_score(primary_text@),
                    text_score(remapped_text@),
                    bytes_len as int,
                ),
            ),
            r == final(self)@[obj_num].decision,
    {
        let sample = match self.samples.get(&obj_num) {
            Some(s) => *s,
            None => CMapSample { primary_score: 0, remapped_score: 0, total_bytes: 0, decision: None },
        };
        // Already decided — return immediately.
        if let Some(choice) = sample.decision {
            proof {
                assert(old(self)@.contains_key(obj_num));
                assert(old(self)@.insert(obj_num, sample) =~= old(self)@);
            }
            return Some(choice);
        }
        let ps = score_text(primary_text);
        let rs = score_text(remapped_text);
        let primary_score = sample.primary_score + ps as i64;
        let remapped_score = sample.remapped_score + rs as i64;
        let total_bytes = sample.total_bytes + bytes_len;
        let decision = if total_bytes >= MIN_SAMPLE_BYTES {
            if primary_score >= remapped_score {
                Some(CMapChoice::Primary)
            } else {
                Some(CMapChoice::Remapped)
            }
        } else {
            None
        };
        let updated = CMapSample { primary_score, remapped_score, total_bytes, decision };
        self.samples.insert(obj_num, updated);
        proof {
            assert forall|k: u32| #[trigger] self@.contains_key(k) implies sample_wf(self@[k]) by {
                if k != obj_num {
                    assert(old(self)@.contains_key(k));
                }
            }
        }
        decision
    }

    /// Whether `consider` may be called with these arguments: both scores
    /// can be computed, and while `obj_num` is undecided the sums fit.
    pub fn fits_to_consider(
        &self,
        obj_num: u32,
        primary_text: &str,
        remapped_text: &str,
        bytes_len: usize,
    ) -> (r: bool)
        ensures
            r == consider_fits(self@, obj_num, primary_text@, remapped_text@, bytes_len as int),
    {
        let ps = checked_score_text(primary_text);
        let rs = checked_score_text(remapped_text);
        match (ps, rs) {
            (Some(p), Some(q)) => {
                let sample = match self.samples.get(&obj_num) {
                    Some(s) => *s,
                    None => CMapSample {
                        primary_score: 0,
                        remapped_score: 0,
                        total_bytes: 0,
                        decision: None,
                    },
                };
                assert(sample == sample_of(self@, obj_num));
                match sample.decision {
                    Some(_) => true,
                    None => {
                        let a = sample.primary_score.checked_add(p as i64);
                        let b = sample.remapped_score.checked_add(q as i64);
                        let c = sample.total_bytes.checked_add(bytes_len);
                        a.is_some() && b.is_some() && c.is_some()
                    },
                }
            },
            _ => false,
        }
    }

    /// `consider` where its bounds hold (`Some` of its result); otherwise
    /// `None`, with the cache unchanged.
    pub fn try_consider(
        &mut self,
        obj_num: u32,
        primary_text: &str,
        remapped_text: &str,
        bytes_len: usize,
    ) -> (r: Option<Option<CMapChoice>>)
        requires
            old(self).wf(),
        ensures
            final(self).wf(),
            r is Some <==> consider_fits(
                old(self)@,
                obj_num,
                primary_text@,
                remapped_text@,
                bytes_len as int,
            ),
            r is None ==> final(self)@ == old(self)@,
            r matches Some(c) ==> {
                &&& final(self)@ == old(self)@.insert(
                    obj_num,
                    sample_after(
                        sample_of(old(self)@, obj_num),
                        text_score(primary_text@),
                        text_score(remapped_text@),
                        bytes_len as int,
                    ),
                )
                &&& c == final(self)@[obj_num].decision
            },
    {
        if self.fits_to_consider(obj_num, primary_text, remapped_text, bytes_len) {
            Some(self.consider(obj_num, primary_text, remapped_text, bytes_len))
        } else {
            None
        }
    }
}

impl Default for CMapDecisionCache {
    fn default() -> (r: Self)
        ensures
            r@ == Map::<u32, CMapSample>::empty(),
            r.wf(),
    {
        Self::new()
    }
}

/// Once a font's choice is made, further samples change nothing and the
/// same choice is returned.
pub proof fn lemma_decision_sticky(s: CMapSample, primary: int, remapped: int, bytes: int)
    requires
        s.decision is Some,
    ensures
        sample_after(s, primary, remapped, bytes) == s,
{
}

/// A well-formed sample stays well formed after one more observation, and
/// it is decided exactly when its byte total has reached the threshold.
pub proof fn lemma_sample_after_wf(s: CMapSample, primary: int, remapped: int, bytes: int)
    requires
        sample_wf(s),
        bytes >= 0,
        s.decision is None ==> {
            &&& i64::MIN <= s.primary_score + primary <= i64::MAX
            &&& i64::MIN <= s.remapped_score + remapped <= i64::MAX
            &&& s.total_bytes + bytes <= usize::MAX
        },
    ensures
        sample_wf(sample_after(s, primary, remapped, bytes)),
        (sample_after(s, primary, remapped, bytes).decision is Some) == (s.decision is Some
            || s.total_bytes + bytes >= MIN_SAMPLE_BYTES),
{
}

/// The cache after a history of observations handed to `consider`, each
/// a font object number, the scores of its two texts and its byte count,
/// starting from an empty cache.
pub open spec fn cache_after(calls: Seq<(u32, int, int, int)>) -> Map<u32, CMapSample>
    decreases calls.len(),
{
    if calls.len() == 0 {
        Map::empty()
    } else {
        let prev = cache_after(calls.drop_last());
        let c = calls.last();
        prev.insert(c.0, sample_after(sample_of(prev, c.0), c.1, c.2, c.3))
    }
}

/// The sums of the primary scores, remapped scores and byte counts of the
/// observations of font `n`.
pub open spec fn observed_sums(calls: Seq<(u32, int, int, int)>, n: u32) -> (int, int, int)
    decreases calls.len(),
{
    if calls.len() == 0 {
        (0, 0, 0)
    } else {
        let (p, r, b) = observed_sums(calls.drop_last(), n);
        let c = calls.last();
        if c.0 == n {
            (p + c.1, r + c.2, b + c.3)
        } else {
            (p, r, b)
        }
    }
}

/// The choice for font `n` after a history: none until the observations
/// of `n` reach the byte threshold; at the observation that reaches it,
/// primary unless the summed remapped score is strictly higher; the same
/// choice ever after.
pub open spec fn decision_of(calls: Seq<(u32, int, int, int)>, n: u32) -> Option<CMapChoice>
    decreases calls.len(),
{
    if calls.len() == 0 {
        None
    } else {
        let prev = decision_of(calls.drop_last(), n);
        if prev is Some || calls.last().0 != n {
            prev
        } else {
            let (p, r, b) = observed_sums(calls, n);
            if b >= MIN_SAMPLE_BYTES {
                Some(choice_for(p, r))
            } else {
                None
            }
        }
    }
}

/// Every prefix of the history keeps the sums for font `n` within the
/// types of the sample's fields, and byte counts are not negative.
pub open spec fn sums_fit(calls: Seq<(u32, int, int, int)>, n: u32) -> bool {
    forall|k: int|
        0 <= k <= calls.len() ==> {
            let (p, r, b) = #[trigger] observed_sums(calls.take(k), n);
            &&& i64::MIN <= p <= i64::MAX
            &&& i64::MIN <= r <= i64::MAX
            &&& 0 <= b <= usize::MAX
        }
}

/// After any history of observations from an empty cache, the choice
/// recorded for a font (what `get_choice` returns, and what `consider`
/// returned for its last observation of it) is `decision_of` the history:
/// nothing until the font's observed bytes reach the threshold, then the
/// choice by the summed scores at that moment, kept for good; before that
/// the sample holds the sums of the font's observations.
pub proof fn lemma_cache_history(calls: Seq<(u32, int, int, int)>, n: u32)
    requires
        sums_fit(calls, n),
    ensures
        sample_of(cache_after(calls), n).decision == decision_of(calls, n),
        decision_of(calls, n) is None ==> {
            let (p, r, b) = observed_sums(calls, n);
            &&& sample_of(cache_after(calls), n).primary_score == p
            &&& sample_of(cache_after(calls), n).remapped_score == r
            &&& sample_of(cache_after(calls), n).total_bytes == b
        },
    decreases calls.len(),
{
    if calls.len() > 0 {
        let prev = calls.drop_last();
        assert forall|k: int| 0 <= k <= prev.len() implies {
            let (p, r, b) = #[trigger] observed_sums(prev.take(k), n);
            &&& i64::MIN <= p <= i64::MAX
            &&& i64::MIN <= r <= i64::MAX
            &&& 0 <= b <= usize::MAX
        } by {
            assert(prev.take(k) =~= calls.take(k));
            let _ = observed_sums(calls.take(k), n);
        }
        lemma_cache_history(prev, n);
        assert(calls.take(calls.len() as int) =~= calls);
        let _ = observed_sums(calls.take(calls.len() as int), n);
        assert(calls.take(prev.len() as int) =~= prev);
        let _ = observed_sums(calls.take(prev.len() as int), n);
    }
}

/// One more observation of font `n` after a history (what `consider`
/// records when the cache holds `cache_after(calls)`): if the font was
/// decided, the same choice; otherwise, with the sums of its earlier
/// observations (all made while it was undecided), a choice exactly when
/// the byte total with this one reaches the threshold, primary unless the
/// summed remapped score is strictly higher. Every other font keeps its
/// sample.
pub proof fn lemma_consider_after_history(
    calls: Seq<(u32, int, int, int)>,
    n: u32,
    primary: int,
    remapped: int,
    bytes: int,
)
    requires
        sums_fit(calls.push((n, primary, remapped, bytes)), n),
    ensures
        ({
            let (p, r, b) = observed_sums(calls, n);
            sample_of(cache_after(calls.push((n, primary, remapped, bytes))), n).decision == match decision_of(calls, n) {
                Some(c) => Some(c),
                None => if b + bytes >= MIN_SAMPLE_BYTES {
                    Some(choice_for(p + primary, r + remapped))
                } else {
                    None
                },
            }
        }),
        forall|m: u32|
            m != n ==> #[trigger] sample_of(cache_after(calls.push((n, primary, remapped, bytes))), m)
                == sample_of(cache_after(calls), m),
{
    let all = calls.push((n, primary, remapped, bytes));
    assert(all.drop_last() =~= calls);
    lemma_cache_history(all, n);
}

// ── Glyph names ────────────────────────────────────────────────────

/// The value of an ASCII hexadecimal digit byte.
pub open spec fn hex_byte_value(b: u8) -> Option<u32> {
    if 48 <= b && b <= 57 {
        Some((b - 48) as u32)
    } else if 97 <= b && b <= 102 {
        Some((b - 87) as u32)
    } else if 65 <= b && b <= 70 {
        Some((b - 55) as u32)
    } else {
        None
    }
}

/// The value of a string of hexadecimal digit bytes, when it fits in `u32`.
pub open spec fn hex_digits_value(d: Seq<u8>) -> Option<u32>
    decreases d.len(),
{
    if d.len() == 0 {
        Some(0)
    } else {
        match (hex_digits_value(d.drop_last()), hex_byte_value(d.last())) {
            (Some(v), Some(h)) => if v * 16 + h <= u32::MAX {
                Some((v * 16 + h) as u32)
            } else {
                None
            },
            _ => None,
        }
    }
}

/// `u32::from_str_radix(s, 16)` on the bytes of `s`: an optional `+`, then
/// at least one hexadecimal digit, with a value that fits in `u32`.
pub open spec fn parse_hex_u32(b: Seq<u8>) -> Option<u32> {
    if b.len() == 0 {
        None
    } else if b[0] == 43u8 {
        if b.len() == 1 {
            None
        } else {
            hex_digits_value(b.drop_first())
        }
    } else {
        hex_digits_value(b)
    }
}

/// The Unicode scalar values: what `char::from_u32` accepts.
pub open spec fn scalar_value(v: u32) -> bool {
    v <= 0x10FFFF && !(0xD800 <= v && v <= 0xDFFF)
}

pub open spec fn char_of(v: u32) -> Option<char> {
    if scalar_value(v) {
        Some(v as char)
    } else {
        None
    }
}

/// `char::from_u32`: `Some` exactly for the Unicode scalar values.
#[verifier::external_body]
fn char_from_u32(v: u32) -> (r: Option<char>)
    ensures
        r == char_of(v),
{
    char::from_u32(v)
}

/// The hexadecimal value of characters that are all ASCII hex digits.
pub open spec fn hex_chars_value(d: Seq<char>) -> Option<u32>
    decreases d.len(),
{
    if d.len() == 0 {
        Some(0)
    } else {
        match hex_chars_value(d.drop_last()) {
            Some(v) => {
                let c = d.last();
                let h: int = if ascii_digit(c) {
                    c as int - 48
                } else if 'a' <= c && c <= 'f' {
                    c as int - 87
                } else {
                    c as int - 55
                };
                if v * 16 + h <= u32::MAX {
                    Some((v * 16 + h) as u32)
                } else {
                    None
                }
            },
            None => None,
        }
    }
}

/// Every character of `s` is an ASCII digit.
pub open spec fn all_ascii_digits(s: Seq<char>) -> bool {
    forall|i: int| 0 <= i < s.len() ==> ascii_digit(#[trigger] s[i])
}

/// A glyph name made from a glyph index ("glyphNNNN", "cidNNNNN",
/// "gNNNN"), compared in lower case.
pub open spec fn gid_glyph_name(lower: Seq<char>) -> bool {
    (starts_with(lower, "glyph"@) && all_ascii_digits(lower.skip(5))) || (starts_with(lower, "cid"@)
        && all_ascii_digits(lower.skip(3))) || (lower.len() > 1 && lower[0] == 'g'
        && all_ascii_digits(lower.skip(1)))
}

fn digits_from(s: &[char], start: usize) -> (r: bool)
    requires
        start <= s@.len(),
    ensures
        r == all_ascii_digits(s@.skip(start as int)),
{
    let mut i = start;
    while i < s.len()
        invariant
            start <= i <= s@.len(),
            forall|j: int| start <= j < i ==> ascii_digit(#[trigger] s@[j]),
        decreases s@.len() - i,
    {
        if !is_ascii_digit(s[i]) {
            assert(!ascii_digit(s@.skip(start as int)[i - start]));
            return false;
        }
        i += 1;
    }
    assert forall|j: int| 0 <= j < s@.skip(start as int).len() implies ascii_digit(
        #[trigger] s@.skip(start as int)[j],
    ) by {
        assert(s@.skip(start as int)[j] == s@[start + j]);
    }
    true
}

/// Whether a glyph name is a bare glyph index with no useful mapping.
///
/// Byte offsets in the name are character offsets here: the prefixes are
/// ASCII, and a lowercase name of more than one byte that starts with `g`
/// has more than one character.
pub fn is_gid_glyph_name(name: &str) -> (r: bool)
    ensures
        r == gid_glyph_name(lowercase_of(name@)),
{
    let lower = to_lowercase(name);
    let l = str_chars(lower.as_str());
    let glyph = str_chars("glyph");
    let cid = str_chars("cid");
    proof {
        reveal_strlit("glyph");
        reveal_strlit("cid");
    }
    (starts_with_exec(l.as_slice(), glyph.as_slice()) && digits_from(l.as_slice(), 5)) || (
    starts_with_exec(l.as_slice(), cid.as_slice()) && digits_from(l.as_slice(), 3)) || (l.len() > 1
        && l[0] == 'g' && digits_from(l.as_slice(), 1))
}

/// What `glyph_name_to_char` returns for a glyph name with characters `n`
/// and UTF-8 bytes `b`: nothing for `.notdef`; a standard glyph name's
/// character; `uniXXXX` (four hex digits after `uni`); `uXXXX[XX]` (only hex
/// digits after `u`).
pub open spec fn glyph_name_char(n: Seq<char>, b: Seq<u8>) -> Option<char> {
    if n == ".notdef"@ || n == "notdef"@ {
        None
    } else if glyph_char(n) is Some {
        glyph_char(n)
    } else if starts_with(n, "uni"@) && b.len() >= 7 && parse_hex_u32(b.subrange(3, 7)) is Some {
        char_of(parse_hex_u32(b.subrange(3, 7))->0)
    } else if n.len() >= 1 && n[0] == 'u' && b.len() >= 5 && (forall|i: int|
        1 <= i < n.len() ==> ascii_hexdigit(#[trigger] n[i])) && hex_chars_value(n.drop_first())
        is Some {
        char_of(hex_chars_value(n.drop_first())->0)
    } else {
        None
    }
}

/// Convert a glyph name to a Unicode character.
///
/// Tries the standard glyph names first, then falls back to `uniXXXX` and
/// `uXXXX` parsing.  For `uniXXXX` the name's bytes 3..7 are read as one
/// string, so byte 7 must start a character.
pub fn glyph_name_to_char(name: &str) -> (r: Option<char>)
    requires
        starts_with(name@, "uni"@) && name.spec_bytes().len() >= 7 ==> is_char_boundary(
            name.spec_bytes(),
            7,
        ),
    ensures
        r == glyph_name_char(name@, name.spec_bytes()),
{
    let n = str_chars(name);
    let notdef1 = str_chars(".notdef");
    let notdef2 = str_chars("notdef");
    if eq_chars(n.as_slice(), notdef1.as_slice()) || eq_chars(n.as_slice(), notdef2.as_slice()) {
        return None;
    }
    let g = glyph_to_char(n.as_slice());
    if g.is_some() {
        return g;
    }
    let b = name.as_bytes();
    let uni = str_chars("uni");
    if starts_with_exec(n.as_slice(), uni.as_slice()) && b.len() >= 7 {
        let code = parse_hex_bytes(b, 3, 7);
        if let Some(code) = code {
            return char_from_u32(code);
        }
    }
    if n.len() >= 1 && n[0] == 'u' && b.len() >= 5 {
        let mut all_hex = true;
        let mut i: usize = 1;
        while i < n.len()
            invariant
                1 <= i <= n@.len(),
                all_hex == (forall|j: int| 1 <= j < i ==> ascii_hexdigit(#[trigger] n@[j])),
            decreases n@.len() - i,
        {
            if !is_ascii_hexdigit(n[i]) {
                all_hex = false;
            }
            i += 1;
        }
        if all_hex {
            let code = parse_hex_chars(n.as_slice());
            if let Some(code) = code {
                return char_from_u32(code);
            }
        }
    }
    None
}

fn hex_byte(b: u8) -> (r: Option<u32>)
    ensures
        r == hex_byte_value(b),
{
    if 48 <= b && b <= 57 {
        Some((b - 48) as u32)
    } else if 97 <= b && b <= 102 {
        Some((b - 87) as u32)
    } else if 65 <= b && b <= 70 {
        Some((b - 55) as u32)
    } else {
        None
    }
}

/// `u32::from_str_radix(&s[lo..hi], 16)` on the bytes of `s`.
fn parse_hex_bytes(b: &[u8], lo: usize, hi: usize) -> (r: Option<u32>)
    requires
        lo <= hi <= b@.len(),
    ensures
        r == parse_hex_u32(b@.subrange(lo as int, hi as int)),
{
    let ghost s = b@.subrange(lo as int, hi as int);
    if lo == hi {
        return None;
    }
    let mut start = lo;
    if b[lo] == 43u8 {
        if hi - lo == 1 {
            return None;
        }
        start = lo + 1;
        assert(s.drop_first() =~= b@.subrange(start as int, hi as int));
    }
    let mut v: u32 = 0;
    let mut i = start;
    assert(b@.subrange(start as int, start as int) =~= Seq::<u8>::empty());
    while i < hi
        invariant
            lo <= start <= i <= hi,
            hi <= b@.len(),
            s == b@.subrange(lo as int, hi as int),
            lo < hi,
            b@[lo as int] == 43u8 ==> start == lo + 1,
            b@[lo as int] != 43u8 ==> start == lo,
            hex_digits_value(b@.subrange(start as int, i as int)) == Some(v),
        decreases hi - i,
    {
        assert(b@.subrange(start as int, i + 1).drop_last() =~= b@.subrange(start as int, i as int));
        let h = hex_byte(b[i]);
        if h.is_none() || v > 0x0FFF_FFFF {
            assert(hex_digits_value(b@.subrange(start as int, i + 1)) is None);
            proof {
                let d = b@.subrange(start as int, hi as int);
                assert(d.take(i + 1 - start) =~= b@.subrange(start as int, i + 1));
                lemma_hex_none_extends(d, i + 1 - start);
                if b@[lo as int] == 43u8 {
                    assert(s.drop_first() =~= d);
                } else {
                    assert(s =~= d);
                }
            }
            return None;
        }
        let hv = h.unwrap();
        v = v * 16 + hv;
        i += 1;
    }
    proof {
        if b@[lo as int] == 43u8 {
            assert(s.drop_first() =~= b@.subrange(start as int, hi as int));
        } else {
            assert(s =~= b@.subrange(start as int, hi as int));
        }
    }
    Some(v)
}

/// A string of hex digit bytes with no value stays without one when it
/// grows.
pub proof fn lemma_hex_none_extends(d: Seq<u8>, k: int)
    requires
        0 <= k <= d.len(),
        hex_digits_value(d.take(k)) is None,
    ensures
        hex_digits_value(d) is None,
    decreases d.len() - k,
{
    if k < d.len() {
        assert(d.take(k + 1).drop_last() =~= d.take(k));
        lemma_hex_none_extends(d, k + 1);
    } else {
        assert(d.take(k) =~= d);
    }
}

/// A string of hex digit characters with no value stays without one when
/// it grows.
pub proof fn lemma_hex_chars_none_extends(d: Seq<char>, k: int)
    requires
        0 <= k <= d.len(),
        hex_chars_value(d.take(k)) is None,
    ensures
        hex_chars_value(d) is None,
    decreases d.len() - k,
{
    if k < d.len() {
        assert(d.take(k + 1).drop_last() =~= d.take(k));
        lemma_hex_chars_none_extends(d, k + 1);
    } else {
        assert(d.take(k) =~= d);
    }
}

/// The value of `n[1..]`, all ASCII hex digits.
fn parse_hex_chars(n: &[char]) -> (r: Option<u32>)
    requires
        n@.len() >= 1,
        forall|i: int| 1 <= i < n@.len() ==> ascii_hexdigit(#[trigger] n@[i]),
    ensures
        r == hex_chars_value(n@.drop_first()),
{
    let ghost d = n@.drop_first();
    let mut v: u32 = 0;
    let mut i: usize = 1;
    assert(d.take(0) =~= Seq::<char>::empty());
    while i < n.len()
        invariant
            1 <= i <= n@.len(),
            d == n@.drop_first(),
            forall|j: int| 1 <= j < n@.len() ==> ascii_hexdigit(#[trigger] n@[j]),
            hex_chars_value(d.take(i - 1)) == Some(v),
        decreases n@.len() - i,
    {
        assert(d.take(i as int).drop_last() =~= d.take(i - 1));
        assert(d.take(i as int).last() == n@[i as int]);
        let c = n[i];
        let h: u32 = if is_ascii_digit(c) {
            (c as u32) - 48
        } else if 'a' <= c && c <= 'f' {
            (c as u32) - 87
        } else {
            (c as u32) - 55
        };
        if v > 0x0FFF_FFFF {
            proof {
                lemma_hex_chars_none_extends(d, i as int);
            }
            return None;
        }
        v = v * 16 + h;
        i += 1;
    }
    assert(d.take(n@.len() - 1) =~= d);
    Some(v)
}

// ── Symbol fonts ───────────────────────────────────────────────────

/// A (lowercased) base font name of a Symbol or Wingdings font.
pub open spec fn symbol_font(lower: Seq<char>) -> bool {
    contains_seq(lower, "symbol"@) || contains_seq(lower, "wingding"@)
}

/// A character of the Symbol PUA block F000..F0FF mapped to its low byte.
pub open spec fn symbol_pua_char(c: char) -> char {
    if '\u{F000}' <= c && c <= '\u{F0FF}' {
        ((c as u32) - 0xF000) as char
    } else {
        c
    }
}

/// What `apply_symbol_pua` returns.
pub open spec fn symbol_pua_applied(base_font_name: Seq<char>, text: Seq<char>) -> Seq<char> {
    if symbol_font(lowercase_of(base_font_name)) {
        Seq::new(text.len(), |i: int| symbol_pua_char(text[i]))
    } else {
        text
    }
}

/// Apply Private Use Area remapping for Symbol and Wingdings fonts.
///
/// These fonts encode standard characters in the PUA range `F000`–`F0FF`.
/// We strip the `F0` prefix to recover the intended code point.
pub fn apply_symbol_pua(base_font_name: &str, text: &str) -> (r: String)
    ensures
        r@ == symbol_pua_applied(base_font_name@, text@),
{
    let lower = to_lowercase(base_font_name);
    let is_symbol = str_contains(lower.as_str(), "symbol") || str_contains(
        lower.as_str(),
        "wingding",
    );
    let v = str_chars(text);
    let mut out = String::new();
    let mut i: usize = 0;
    while i < v.len()
        invariant
            i <= v@.len(),
            v@ == text@,
            is_symbol == symbol_font(lowercase_of(base_font_name@)),
            out@ =~= if is_symbol {
                Seq::new(i as nat, |k: int| symbol_pua_char(v@[k]))
            } else {
                v@.take(i as int)
            },
        decreases v@.len() - i,
    {
        let ch = v[i];
        if is_symbol && '\u{F000}' <= ch && ch <= '\u{F0FF}' {
            let low = ((ch as u32) - 0xF000) as u8;
            push_char(&mut out, low as char);
        } else {
            push_char(&mut out, ch);
        }
        i += 1;
    }
    assert(v@.take(v@.len() as int) =~= v@);
    out
}

// ── Text quality scoring ───────────────────────────────────────────

/// Private Use Area: U+E000..U+F8FF and supplementary planes 15 and 16.
pub open spec fn private_use(c: char) -> bool {
    ('\u{E000}' <= c && c <= '\u{F8FF}') || ('\u{F0000}' <= c && c <= '\u{FFFFD}') || (
    '\u{100000}' <= c && c <= '\u{10FFFD}')
}

/// Check if a character is in the Unicode Private Use Area.
pub fn is_private_use_area(ch: char) -> (r: bool)
    ensures
        r == private_use(ch),
{
    ('\u{E000}' <= ch && ch <= '\u{F8FF}') || ('\u{F0000}' <= ch && ch <= '\u{FFFFD}') || (
    '\u{100000}' <= ch && ch <= '\u{10FFFD}')
}

/// The scoring class of a character; classes are tried in this order.
pub open spec fn score_letter(c: char) -> bool {
    unicode_alphabetic(c)
}

pub open spec fn score_space(c: char) -> bool {
    !unicode_alphabetic(c) && c == ' '
}

pub open spec fn score_digit(c: char) -> bool {
    !unicode_alphabetic(c) && c != ' ' && ascii_digit(c)
}

pub open spec fn score_pua(c: char) -> bool {
    !unicode_alphabetic(c) && c != ' ' && !ascii_digit(c) && private_use(c)
}

pub open spec fn score_replacement(c: char) -> bool {
    !unicode_alphabetic(c) && c != ' ' && !ascii_digit(c) && !private_use(c) && c == '\u{FFFD}'
}

pub open spec fn score_control(c: char) -> bool {
    !unicode_alphabetic(c) && c != ' ' && !ascii_digit(c) && !private_use(c) && c != '\u{FFFD}'
        && control(c) && c != '\n' && c != '\r' && c != '\t'
}

/// Ten points when `word` occurs in the lowercased text.
pub open spec fn word_bonus(lower: Seq<char>, word: Seq<char>) -> int {
    if contains_seq(lower, word) {
        10
    } else {
        0
    }
}

pub open spec fn word_bonus_0(lower: Seq<char>) -> int {
    0
    + word_bonus(lower, " the "@)
    + word_bonus(lower, " and "@)
    + word_bonus(lower, " of "@)
    + word_bonus(lower, " to "@)
    + word_bonus(lower, " in "@)
    + word_bonus(lower, " a "@)
    + word_bonus(lower, " is "@)
    + word_bonus(lower, " for "@)
    + word_bonus(lower, " on "@)
    + word_bonus(lower, " that "@)
}

pub open spec fn word_bonus_1(lower: Seq<char>) -> int {
    0
    + word_bonus(lower, " it "@)
    + word_bonus(lower, " with "@)
    + word_bonus(lower, " as "@)
    + word_bonus(lower, " was "@)
    + word_bonus(lower, " at "@)
    + word_bonus(lower, " by "@)
    + word_bonus(lower, " an "@)
    + word_bonus(lower, " be "@)
    + word_bonus(lower, " this "@)
    + word_bonus(lower, " from "@)
}

pub open spec fn word_bonus_2(lower: Seq<char>) -> int {
    0
    + word_bonus(lower, " or "@)
    + word_bonus(lower, " are "@)
    + word_bonus(lower, " but "@)
    + word_bonus(lower, " not "@)
    + word_bonus(lower, " you "@)
    + word_bonus(lower, " all "@)
    + word_bonus(lower, " can "@)
    + word_bonus(lower, " had "@)
    + word_bonus(lower, " her "@)
    + word_bonus(lower, " one "@)
}

pub open spec fn word_bonus_3(lower: Seq<char>) -> int {
    0
    + word_bonus(lower, " our "@)
    + word_bonus(lower, " out "@)
    + word_bonus(lower, " de "@)
    + word_bonus(lower, " la "@)
    + word_bonus(lower, " le "@)
    + word_bonus(lower, " et "@)
    + word_bonus(lower, " en "@)
    + word_bonus(lower, " un "@)
    + word_bonus(lower, " une "@)
    + word_bonus(lower, " les "@)
}

pub open spec fn word_bonus_4(lower: Seq<char>) -> int {
    0
    + word_bonus(lower, " des "@)
    + word_bonus(lower, " du "@)
    + word_bonus(lower, " au "@)
    + word_bonus(lower, " der "@)
    + word_bonus(lower, " die "@)
    + word_bonus(lower, " das "@)
    + word_bonus(lower, " und "@)
    + word_bonus(lower, " von "@)
    + word_bonus(lower, " den "@)
    + word_bonus(lower, " mit "@)
}

/// Bonus for common short words (English, French, German).
pub open spec fn common_word_bonus(lower: Seq<char>) -> int {
    word_bonus_0(lower) + word_bonus_1(lower) + word_bonus_2(lower) + word_bonus_3(lower) + word_bonus_4(lower)
}

/// The score before the common-word bonus.
pub open spec fn base_score(s: Seq<char>) -> int {
    2 * count(s, |c: char| score_letter(c)) + 3 * count(s, |c: char| score_space(c)) + count(
        s,
        |c: char| score_digit(c),
    ) - 5 * count(s, |c: char| score_pua(c)) - 10 * count(s, |c: char| score_replacement(c)) - 5
        * count(s, |c: char| score_control(c))
}

/// More than half of the characters are PUA or replacement characters.
pub open spec fn mostly_unreadable(s: Seq<char>) -> bool {
    (count(s, |c: char| score_pua(c)) + count(s, |c: char| score_replacement(c))) * 2 > s.len()
}

/// Heuristic quality score of decoded text: letters, spaces and digits
/// count for it, PUA, replacement and control characters against it,
/// common words add a bonus, and mostly unreadable text loses 50.
pub open spec fn text_score(s: Seq<char>) -> int {
    if s.len() == 0 {
        0
    } else {
        base_score(s) + common_word_bonus(lowercase_of(s)) - if mostly_unreadable(s) {
            50int
        } else {
            0int
        }
    }
}

/// Every intermediate value of the `i32` score computation fits.
pub open spec fn score_in_range(s: Seq<char>) -> bool {
    let letters = count(s, |c: char| score_letter(c));
    let spaces = count(s, |c: char| score_space(c));
    let digits = count(s, |c: char| score_digit(c));
    let pua = count(s, |c: char| score_pua(c));
    let repl = count(s, |c: char| score_replacement(c));
    let ctrl = count(s, |c: char| score_control(c));
    &&& s.len() <= u32::MAX
    &&& 2 * letters <= i32::MAX
    &&& 2 * letters + 3 * spaces <= i32::MAX
    &&& 2 * letters + 3 * spaces + digits <= i32::MAX
    &&& 5 * pua <= i32::MAX
    &&& 10 * repl <= i32::MAX
    &&& 5 * ctrl <= i32::MAX
    &&& base_score(s) >= i32::MIN
    &&& 2 * letters + 3 * spaces + digits - 5 * pua >= i32::MIN
    &&& 2 * letters + 3 * spaces + digits - 5 * pua - 10 * repl >= i32::MIN
    &&& base_score(s) + common_word_bonus(lowercase_of(s)) <= i32::MAX
    &&& base_score(s) + common_word_bonus(lowercase_of(s)) - 50 >= i32::MIN
}

/// Heuristic quality score for decoded text.
///
/// Higher scores indicate text that looks more like natural language.
/// Used by [`CMapDecisionCache`] to choose between primary and remapped
/// CMaps.
pub fn score_text(text: &str) -> (r: i32)
    requires
        score_in_range(text@),
    ensures
        r == text_score(text@),
{
    let v = str_chars(text);
    if v.len() == 0 {
        return 0;
    }
    let (letters, spaces, digits, pua_count, replacement_count, control_count) = score_counts(
        v.as_slice(),
    );
    let total_chars = v.len() as u32;
    let mut score: i32 = 0;
    score += letters as i32 * 2;
    score += spaces as i32 * 3;
    score += digits as i32;
    score -= pua_count as i32 * 5;
    score -= replacement_count as i32 * 10;
    score -= control_count as i32 * 5;

    // Bonus for common short words found in the text.
    let lower = to_lowercase(text);
    let bonus = common_word_bonus_exec(lower.as_str());
    score += bonus;

    if (pua_count as u64 + replacement_count as u64) * 2 > total_chars as u64 {
        score -= 50;
    }
    score
}

/// The score of `text` when every step of its `i32` computation fits
/// (`score_text` on it), or `None` where one would overflow.
pub fn checked_score_text(text: &str) -> (r: Option<i32>)
    ensures
        r is Some <==> score_in_range(text@),
        r matches Some(x) ==> x == text_score(text@),
{
    let v = str_chars(text);
    if v.len() as u64 > 4294967295u64 {
        return None;
    }
    let (letters, spaces, digits, pua, repl, ctrl) = score_counts(v.as_slice());
    let l = letters as i64;
    let sp = spaces as i64;
    let d = digits as i64;
    let p = pua as i64;
    let rp = repl as i64;
    let c = ctrl as i64;
    let lower = to_lowercase(text);
    let bonus = common_word_bonus_exec(lower.as_str()) as i64;
    let hi: i64 = 2147483647;
    let lo: i64 = -2147483648;
    let base = 2 * l + 3 * sp + d - 5 * p - 10 * rp - 5 * c;
    if 2 * l <= hi && 2 * l + 3 * sp <= hi && 2 * l + 3 * sp + d <= hi && 5 * p <= hi && 10 * rp
        <= hi && 5 * c <= hi && base >= lo && 2 * l + 3 * sp + d - 5 * p >= lo && 2 * l + 3 * sp
        + d - 5 * p - 10 * rp >= lo && base + bonus <= hi && base + bonus - 50 >= lo {
        Some(score_text(text))
    } else {
        None
    }
}

/// The six class counts of `text_score`.
fn score_counts(v: &[char]) -> (r: (u32, u32, u32, u32, u32, u32))
    requires
        v@.len() <= u32::MAX,
    ensures
        r.0 == count(v@, |c: char| score_letter(c)),
        r.1 == count(v@, |c: char| score_space(c)),
        r.2 == count(v@, |c: char| score_digit(c)),
        r.3 == count(v@, |c: char| score_pua(c)),
        r.4 == count(v@, |c: char| score_replacement(c)),
        r.5 == count(v@, |c: char| score_control(c)),
{
    let ghost pl = |c: char| score_letter(c);
    let ghost ps = |c: char| score_space(c);
    let ghost pd = |c: char| score_digit(c);
    let ghost pp = |c: char| score_pua(c);
    let ghost pr = |c: char| score_replacement(c);
    let ghost pc = |c: char| score_control(c);
    let mut letters: u32 = 0;
    let mut spaces: u32 = 0;
    let mut digits: u32 = 0;
    let mut pua_count: u32 = 0;
    let mut replacement_count: u32 = 0;
    let mut control_count: u32 = 0;
    let mut i: usize = 0;
    while i < v.len()
        invariant
            i <= v@.len(),
            v@.len() <= u32::MAX,
            pl == (|c: char| score_letter(c)),
            ps == (|c: char| score_space(c)),
            pd == (|c: char| score_digit(c)),
            pp == (|c: char| score_pua(c)),
            pr == (|c: char| score_replacement(c)),
            pc == (|c: char| score_control(c)),
            letters == count(v@.take(i as int), pl),
            spaces == count(v@.take(i as int), ps),
            digits == count(v@.take(i as int), pd),
            pua_count == count(v@.take(i as int), pp),
            replacement_count == count(v@.take(i as int), pr),
            control_count == count(v@.take(i as int), pc),
            letters + spaces + digits + pua_count + replacement_count + control_count <= i,
        decreases v@.len() - i,
    {
        assert(v@.take(i + 1).drop_last() =~= v@.take(i as int));
        let ch = v[i];
        if is_alphabetic(ch) {
            letters += 1;
        } else if ch == ' ' {
            spaces += 1;
        } else if is_ascii_digit(ch) {
            digits += 1;
        } else if is_private_use_area(ch) {
            pua_count += 1;
        } else if ch == '\u{FFFD}' {
            replacement_count += 1;
        } else if is_control(ch) && ch != '\n' && ch != '\r' && ch != '\t' {
            control_count += 1;
        }
        i += 1;
    }
    assert(v@.take(v@.len() as int) =~= v@);

    (letters, spaces, digits, pua_count, replacement_count, control_count)
}

/// Ten points for each common word that occurs in `l`.
fn common_word_bonus_exec(l: &str) -> (b: i32)
    ensures
        b == common_word_bonus(l@),
{
    word_bonus_exec_0(l) + word_bonus_exec_1(l) + word_bonus_exec_2(l) + word_bonus_exec_3(l) + word_bonus_exec_4(l)
}

fn word_bonus_exec_0(l: &str) -> (b: i32)
    ensures
        b == word_bonus_0(l@),
{
    let mut bonus: i32 = 0;
    if str_contains(l, " the ") {
        bonus += 10;
    }
    if str_contains(l, " and ") {
        bonus += 10;
    }
    if str_contains(l, " of ") {
        bonus += 10;
    }
    if str_contains(l, " to ") {
        bonus += 10;
    }
    if str_contains(l, " in ") {
        bonus += 10;
    }
    if str_contains(l, " a ") {
        bonus += 10;
    }
    if str_contains(l, " is ") {
        bonus += 10;
    }
    if str_contains(l, " for ") {
        bonus += 10;
    }
    if str_contains(l, " on ") {
        bonus += 10;
    }
    if str_contains(l, " that ") {
        bonus += 10;
    }
    bonus
}

fn word_bonus_exec_1(l: &str) -> (b: i32)
    ensures
        b == word_bonus_1(l@),
{
    let mut bonus: i32 = 0;
    if str_contains(l, " it ") {
        bonus += 10;
    }
    if str_contains(l, " with ") {
        bonus += 10;
    }
    if str_contains(l, " as ") {
        bonus += 10;
    }
    if str_contains(l, " was ") {
        bonus += 10;
    }
    if str_contains(l, " at ") {
        bonus += 10;
    }
    if str_contains(l, " by ") {
        bonus += 10;
    }
    if str_contains(l, " an ") {
        bonus += 10;
    }
    if str_contains(l, " be ") {
        bonus += 10;
    }
    if str_contains(l, " this ") {
        bonus += 10;
    }
    if str_contains(l, " from ") {
        bonus += 10;
    }
    bonus
}

fn word_bonus_exec_2(l: &str) -> (b: i32)
    ensures
        b == word_bonus_2(l@),
{
    let mut bonus: i32 = 0;
    if str_contains(l, " or ") {
        bonus += 10;
    }
    if str_contains(l, " are ") {
        bonus += 10;
    }
    if str_contains(l, " but ") {
        bonus += 10;
    }
    if str_contains(l, " not ") {
        bonus += 10;
    }
    if str_contains(l, " you ") {
        bonus += 10;
    }
    if str_contains(l, " all ") {
        bonus += 10;
    }
    if str_contains(l, " can ") {
        bonus += 10;
    }
    if str_contains(l, " had ") {
        bonus += 10;
    }
    if str_contains(l, " her ") {
        bonus += 10;
    }
    if str_contains(l, " one ") {
        bonus += 10;
    }
    bonus
}

fn word_bonus_exec_3(l: &str) -> (b: i32)
    ensures
        b == word_bonus_3(l@),
{
    let mut bonus: i32 = 0;
    if str_contains(l, " our ") {
        bonus += 10;
    }
    if str_contains(l, " out ") {
        bonus += 10;
    }
    if str_contains(l, " de ") {
        bonus += 10;
    }
    if str_contains(l, " la ") {
        bonus += 10;
    }
    if str_contains(l, " le ") {
        bonus += 10;
    }
    if str_contains(l, " et ") {
        bonus += 10;
    }
    if str_contains(l, " en ") {
        bonus += 10;
    }
    if str_contains(l, " un ") {
        bonus += 10;
    }
    if str_contains(l, " une ") {
        bonus += 10;
    }
    if str_contains(l, " les ") {
        bonus += 10;
    }
    bonus
}

fn word_bonus_exec_4(l: &str) -> (b: i32)
    ensures
        b == word_bonus_4(l@),
{
    let mut bonus: i32 = 0;
    if str_contains(l, " des ") {
        bonus += 10;
    }
    if str_contains(l, " du ") {
        bonus += 10;
    }
    if str_contains(l, " au ") {
        bonus += 10;
    }
    if str_contains(l, " der ") {
        bonus += 10;
    }
    if str_contains(l, " die ") {
        bonus += 10;
    }
    if str_contains(l, " das ") {
        bonus += 10;
    }
    if str_contains(l, " und ") {
        bonus += 10;
    }
    if str_contains(l, " von ") {
        bonus += 10;
    }
    if str_contains(l, " den ") {
        bonus += 10;
    }
    if str_contains(l, " mit ") {
        bonus += 10;
    }
    bonus
}

// ── Clean PUA characters ───────────────────────────────────────────

/// The characters of `s` outside the Private Use Area, in order.
pub open spec fn without_pua(s: Seq<char>) -> Seq<char>
    decreases s.len(),
{
    if s.len() == 0 {
        seq![]
    } else {
        without_pua(s.drop_last()) + if private_use(s.last()) {
            seq![]
        } else {
            seq![s.last()]
        }
    }
}

/// Strip Unicode Private Use Area characters from text.
///
/// PUA codepoints (`E000`–`F8FF`, plus supplementary planes) are removed
/// because they have no standard meaning and typically indicate failed
/// decoding.
pub fn clean_pua_chars(text: &str) -> (r: String)
    ensures
        r@ == without_pua(text@),
{
    let v = str_chars(text);
    let mut out = String::new();
    let mut i: usize = 0;
    while i < v.len()
        invariant
            i <= v@.len(),
            out@ == without_pua(v@.take(i as int)),
        decreases v@.len() - i,
    {
        assert(v@.take(i + 1).drop_last() =~= v@.take(i as int));
        if !is_private_use_area(v[i]) {
            push_char(&mut out, v[i]);
        }
        i += 1;
    }
    assert(v@.take(v@.len() as int) =~= v@);
    out
}

/// Text without PUA characters is returned unchanged.
pub proof fn lemma_clean_pua_identity(s: Seq<char>)
    requires
        forall|i: int| 0 <= i < s.len() ==> !private_use(#[trigger] s[i]),
    ensures
        without_pua(s) == s,
    decreases s.len(),
{
    if s.len() > 0 {
        lemma_clean_pua_identity(s.drop_last());
        assert(s.drop_last() + seq![s.last()] =~= s);
    }
}

/// The cleaned text holds no PUA character, and cleaning twice is
/// cleaning once.
pub proof fn lemma_clean_pua_idempotent(s: Seq<char>)
    ensures
        forall|i: int| 0 <= i < without_pua(s).len() ==> !private_use(#[trigger] without_pua(s)[i]),
        without_pua(without_pua(s)) == without_pua(s),
    decreases s.len(),
{
    if s.len() > 0 {
        lemma_clean_pua_idempotent(s.drop_last());
        let w = without_pua(s.drop_last());
        assert forall|i: int| 0 <= i < without_pua(s).len() implies !private_use(
            #[trigger] without_pua(s)[i],
        ) by {
            if i < w.len() {
                assert(without_pua(s)[i] == w[i]);
            }
        }
    }
    lemma_clean_pua_identity(without_pua(s));
}

// ── Encoding differences ───────────────────────────────────────────

#[verifier::external_type_specification]
#[verifier::external_body]
pub struct ExPdfObject(PdfObject);

/// An entry of an encoding's `/Differences` array as the parser reads it:
/// a code, a glyph name (given directly or through a reference), or
/// anything else.
#[derive(Debug, Clone)]
pub enum DifferencesEntry {
    Code(i64),
    Name(Vec<u8>),
    Other,
}

/// The byte-code map built from a `/Differences` array, and how many of
/// its glyph names look like bare glyph indices.
#[derive(Debug)]
pub struct EncodingResult {
    /// Byte-code to Unicode character map built from `/Differences`.
    pub map: HashMap<u8, char>,
    /// Number of entries that look like raw GID names (e.g. "glyph00042").
    pub gid_glyph_count: u32,
}

/// The characters `String::from_utf8_lossy` makes of some bytes.
pub uninterp spec fn utf8_lossy(b: Seq<u8>) -> Seq<char>;

/// `String::from_utf8_lossy`: the decoded characters when the bytes are
/// valid UTF-8; for other bytes the replacement characters it puts in are
/// not stated here, only named by `utf8_lossy`.
#[verifier::external_body]
pub(crate) fn string_from_utf8_lossy(b: &[u8]) -> (r: String)
    ensures
        r@ == utf8_lossy(b@),
        valid_utf8(b@) ==> r@ == decode_utf8(b@),
{
    String::from_utf8_lossy(b).into_owned()
}

/// The code that an integer entry sets: negative numbers count as 0, and
/// the value is truncated to 32 bits.
pub open spec fn code_of(n: i64) -> u32 {
    (if n < 0 {
        0
    } else {
        n
    }) as u32
}

/// The character a glyph name (as decoded text) stands for. A `uni` name
/// whose seventh byte falls inside a character maps to nothing.
pub open spec fn name_char(name: Seq<char>) -> Option<char> {
    let bytes = encode_utf8(name);
    if starts_with(name, "uni"@) && bytes.len() >= 7 && !is_char_boundary(bytes, 7) {
        None
    } else {
        glyph_name_char(name, bytes)
    }
}

/// A `/Differences` entry as a shape: a code is an integer, a glyph name a
/// name.
pub open spec fn diff_view(e: DifferencesEntry) -> PdfShape {
    match e {
        DifferencesEntry::Code(n) => PdfShape::Integer(n),
        DifferencesEntry::Name(b) => PdfShape::Name(b@),
        DifferencesEntry::Other => PdfShape::Other,
    }
}

/// The entries as shapes.
pub open spec fn diff_views(es: Seq<DifferencesEntry>) -> Seq<PdfShape> {
    Seq::new(es.len(), |i: int| diff_view(es[i]))
}

/// After the first `k` items (integers set the code, names map it, the
/// rest is skipped): the map, the number of index-like glyph names, and
/// the current code.
pub open spec fn differences_state_of(vs: Seq<PdfShape>, k: nat) -> (Map<u8, char>, nat, u32)
    decreases k,
{
    if k == 0 {
        (Map::empty(), 0, 0)
    } else {
        let (m, g, code) = differences_state_of(vs, (k - 1) as nat);
        match vs[k - 1] {
            PdfShape::Integer(n) => (m, g, code_of(n)),
            PdfShape::Name(b) => {
                let name = utf8_lossy(b);
                let g2 = if gid_glyph_name(lowercase_of(name)) {
                    g + 1
                } else {
                    g
                };
                let m2 = match name_char(name) {
                    Some(ch) => if code <= 255 {
                        m.insert(code as u8, ch)
                    } else {
                        m
                    },
                    None => m,
                };
                let next: u32 = if code == u32::MAX {
                    code
                } else {
                    (code + 1) as u32
                };
                (m2, g2, next)
            },
            _ => (m, g, code),
        }
    }
}

/// After the first `k` entries: the map, the number of index-like glyph
/// names, and the current code.
pub open spec fn differences_state(es: Seq<DifferencesEntry>, k: nat) -> (Map<u8, char>, nat, u32) {
    differences_state_of(diff_views(es), k)
}

proof fn lemma_differences_gid_bound(vs: Seq<PdfShape>, k: nat)
    ensures
        differences_state_of(vs, k).1 <= k,
    decreases k,
{
    if k > 0 {
        lemma_differences_gid_bound(vs, (k - 1) as nat);
    }
}

/// The character a `/Differences` name entry stands for.
pub open spec fn entry_char(e: DifferencesEntry) -> Option<char> {
    match e {
        DifferencesEntry::Name(b) => name_char(utf8_lossy(b@)),
        _ => None,
    }
}

proof fn lemma_differences_run(es: Seq<DifferencesEntry>, j: int, t: int)
    requires
        0 <= j < t <= es.len(),
        es[j] is Code,
        code_of(es[j]->Code_0) + (t - j - 1) <= 256,
        forall|q: int| j < q < t ==> #[trigger] es[q] is Name,
    ensures
        differences_state(es, t as nat).2 == code_of(es[j]->Code_0) + (t - j - 1),
        forall|i: int|
            j < i < t && #[trigger] entry_char(es[i]) is Some ==> differences_state(es, t as nat).0.contains_key(
                (code_of(es[j]->Code_0) + (i - j - 1)) as u8,
            ) && differences_state(es, t as nat).0[(code_of(es[j]->Code_0) + (i - j - 1)) as u8]
                == entry_char(es[i])->0,
    decreases t - j,
{
    let vs = diff_views(es);
    let n = code_of(es[j]->Code_0) as int;
    assert(vs[t - 1] == diff_view(es[t - 1]));
    if t == j + 1 {
    } else {
        lemma_differences_run(es, j, t - 1);
        let (m, g, code) = differences_state(es, (t - 1) as nat);
        assert(es[t - 1] is Name);
        let b = es[t - 1]->Name_0;
        assert(vs[t - 1] == PdfShape::Name(b@));
        assert(code == n + (t - 1 - j - 1));
        let m2 = differences_state(es, t as nat).0;
        assert forall|i: int|
            j < i < t && #[trigger] entry_char(es[i]) is Some implies m2.contains_key(
                (n + (i - j - 1)) as u8,
            ) && m2[(n + (i - j - 1)) as u8] == entry_char(es[i])->0 by {
            if i < t - 1 {
                assert(m.contains_key((n + (i - j - 1)) as u8));
                assert((n + (i - j - 1)) as u8 != code as u8);
            }
        }
    }
}

/// Each glyph name of a `/Differences` array takes exactly one code:
/// after an integer `n` followed only by glyph names, the name at position
/// `i` (the `n`-th code being the first name's) is mapped at code
/// `n + i` whenever it has a character, whether or not the names before it
/// have one; and the codes of all names are used up, so the next code is
/// `n` plus the number of names. (For runs that stay within the byte
/// codes.)
pub proof fn lemma_differences_names_take_one_code_each(es: Seq<DifferencesEntry>, j: int)
    requires
        0 <= j < es.len(),
        es[j] is Code,
        code_of(es[j]->Code_0) + (es.len() - j - 1) <= 256,
        forall|q: int| j < q < es.len() ==> #[trigger] es[q] is Name,
    ensures
        differences_state(es, es.len()).2 == code_of(es[j]->Code_0) + (es.len() - j - 1),
        forall|i: int|
            j < i < es.len() && #[trigger] entry_char(es[i]) is Some ==> differences_state(
                es,
                es.len(),
            ).0.contains_key((code_of(es[j]->Code_0) + (i - j - 1)) as u8) && differences_state(
                es,
                es.len(),
            ).0[(code_of(es[j]->Code_0) + (i - j - 1)) as u8] == entry_char(es[i])->0,
{
    lemma_differences_run(es, j, es.len() as int);
}

/// The glyph name's character, or nothing for a `uni` name that cannot be
/// cut at its seventh byte.
fn name_to_char(name: &str) -> (r: Option<char>)
    ensures
        r == name_char(name@),
{
    proof {
        reveal_strlit("uni");
    }
    let bytes = name.as_bytes();
    let uni = str_chars("uni");
    let n = str_chars(name);
    if starts_with_exec(n.as_slice(), uni.as_slice()) && bytes.len() >= 7 && !name.is_char_boundary(7)
    {
        return None;
    }
    glyph_name_to_char(name)
}

/// Build the byte-code map of a `/Differences` array: an integer sets the
/// current code, and each glyph name maps the current code (when it is a
/// byte) to its character and moves to the next code.
pub fn parse_differences(entries: &[DifferencesEntry]) -> (r: EncodingResult)
    requires
        entries@.len() <= u32::MAX,
    ensures
        r.map@ == differences_state(entries@, entries@.len()).0,
        r.gid_glyph_count == differences_state(entries@, entries@.len()).1,
{
    let mut map: HashMap<u8, char> = HashMap::new();
    let mut gid_glyph_count: u32 = 0;
    let mut current_code: u32 = 0;
    let mut i: usize = 0;
    while i < entries.len()
        invariant
            i <= entries@.len(),
            entries@.len() <= u32::MAX,
            (map@, gid_glyph_count as nat, current_code) == differences_state(entries@, i as nat),
        decreases entries@.len() - i,
    {
        proof {
            lemma_differences_gid_bound(diff_views(entries@), i as nat);
        }
        match &entries[i] {
            DifferencesEntry::Code(n) => {
                let v: i64 = if *n < 0 {
                    0
                } else {
                    *n
                };
                #[verifier::truncate]
                let code = v as u32;
                current_code = code;
            },
            DifferencesEntry::Name(b) => {
                let name = string_from_utf8_lossy(b.as_slice());
                if is_gid_glyph_name(name.as_str()) {
                    gid_glyph_count += 1;
                }
                if let Some(ch) = name_to_char(name.as_str()) {
                    if current_code <= 255 {
                        map.insert(current_code as u8, ch);
                    }
                }
                current_code = current_code.saturating_add(1);
            },
            DifferencesEntry::Other => {},
        }
        i += 1;
    }
    EncodingResult { map, gid_glyph_count }
}

/// How a `/Differences` item is read: an integer, a name, or a reference
/// that resolves to a name; anything else counts as `Other`.
pub open spec fn differences_item(objs: Map<(u32, u16), PdfShape>, s: PdfShape) -> PdfShape {
    match s {
        PdfShape::Integer(n) => PdfShape::Integer(n),
        PdfShape::Name(b) => PdfShape::Name(b),
        PdfShape::Reference(n, g) => match object_by_id(objs, (n, g)) {
            Some(PdfShape::Name(b)) => PdfShape::Name(b),
            _ => PdfShape::Other,
        },
        _ => PdfShape::Other,
    }
}

/// Tells a `/Differences` item apart: an `Integer`, a `Name`, or a
/// `Reference` resolved to a `Name`; anything else is `Other`.
fn differences_entry(doc: &PdfDocument, obj: &PdfObject) -> (r: DifferencesEntry)
    ensures
        diff_view(r) == differences_item(document_objects(*doc), object_shape(*obj)),
{
    match object_value(obj) {
        PdfValue::Integer(n) => DifferencesEntry::Code(n),
        PdfValue::Name(b) => DifferencesEntry::Name(copy_bytes(b)),
        PdfValue::Reference(num, generation) => match document_object(doc, (num, generation)) {
            Some(o) => match object_value(o) {
                PdfValue::Name(b) => DifferencesEntry::Name(copy_bytes(b)),
                _ => DifferencesEntry::Other,
            },
            None => DifferencesEntry::Other,
        },
        _ => DifferencesEntry::Other,
    }
}

/// A copy of some bytes.
fn copy_bytes(b: &Vec<u8>) -> (r: Vec<u8>)
    ensures
        r@ == b@,
{
    slice_to_vec(b.as_slice())
}

/// The key `Differences`.
pub open spec fn differences_key() -> Seq<u8> {
    seq![0x44u8, 0x69u8, 0x66u8, 0x66u8, 0x65u8, 0x72u8, 0x65u8, 0x6Eu8, 0x63u8, 0x65u8, 0x73u8]
}

/// The map and GID-name count of an `/Encoding` dictionary: built from
/// its `/Differences` array (direct or through a reference) when it has
/// one with at most `u32::MAX` entries.
pub open spec fn encoding_result(objs: Map<(u32, u16), PdfShape>, enc: Map<Seq<u8>, PdfShape>) -> Option<
    (Map<u8, char>, nat),
> {
    if enc.contains_key(differences_key()) {
        match array_of(objs, enc[differences_key()]) {
            Some(a) => if a.len() <= u32::MAX {
                let vs = Seq::new(a.len(), |i: int| differences_item(objs, a[i]));
                let st = differences_state_of(vs, a.len());
                Some((st.0, st.1))
            } else {
                None
            },
            None => None,
        }
    } else {
        None
    }
}

/// Parse an `/Encoding` dictionary, extracting the `/Differences` array.
///
/// Returns `None` if no usable `/Differences` array is present (or one
/// with more entries than the 32-bit glyph count can take); otherwise the
/// map that `parse_differences` builds from the array's entries.
pub fn parse_encoding_dictionary(doc: &PdfDocument, enc_dict: &PdfDictionary) -> (r: Option<
    EncodingResult,
>)
    ensures
        r is Some <==> encoding_result(document_objects(*doc), dictionary_shape(*enc_dict)) is Some,
        r matches Some(res) ==> encoding_result(document_objects(*doc), dictionary_shape(*enc_dict))
            == Some((res.map@, res.gid_glyph_count as nat)),
{
    let ghost objs = document_objects(*doc);
    let key: [u8; 11] = [0x44u8, 0x69u8, 0x66u8, 0x66u8, 0x65u8, 0x72u8, 0x65u8, 0x6Eu8, 0x63u8, 0x65u8, 0x73u8];
    assert(key@ =~= differences_key());
    let diff_obj = match dictionary_entry(enc_dict, &key) {
        Some(o) => o,
        None => return None,
    };
    let arr = match resolve_array(doc, diff_obj) {
        Some(a) => a,
        None => return None,
    };
    if arr.len() > 0xFFFF_FFFF {
        return None;
    }
    let ghost a = shapes(arr@);
    let ghost vs = Seq::new(a.len(), |i: int| differences_item(objs, a[i]));
    let mut entries: Vec<DifferencesEntry> = Vec::new();
    let mut i: usize = 0;
    while i < arr.len()
        invariant
            i <= arr@.len(),
            entries@.len() == i,
            objs == document_objects(*doc),
            a == shapes(arr@),
            vs == Seq::new(a.len(), |i: int| differences_item(objs, a[i])),
            forall|k: int| 0 <= k < i ==> diff_view(#[trigger] entries@[k]) == vs[k],
        decreases arr@.len() - i,
    {
        let e = differences_entry(doc, &arr[i]);
        entries.push(e);
        i += 1;
    }
    let res = parse_differences(entries.as_slice());
    assert(diff_views(entries@) =~= vs);
    assert(entries@.len() <= u32::MAX);
    Some(res)
}

/// The key `Encoding`.
pub open spec fn encoding_key() -> Seq<u8> {
    seq![0x45u8, 0x6Eu8, 0x63u8, 0x6Fu8, 0x64u8, 0x69u8, 0x6Eu8, 0x67u8]
}

/// The encoding of a font: that of its `/Encoding` dictionary (direct or
/// through a reference), if it has one; a named encoding gives nothing.
pub open spec fn font_encoding_of(objs: Map<(u32, u16), PdfShape>, font: Map<Seq<u8>, PdfShape>) -> Option<
    (Map<u8, char>, nat),
> {
    if font.contains_key(encoding_key()) {
        match dict_of(objs, font[encoding_key()]) {
            Some(e) => encoding_result(objs, e),
            None => None,
        }
    } else {
        None
    }
}

/// The encoding map of a font with an `/Encoding` dictionary (direct or
/// through a reference), if it has a usable `/Differences` array.
fn font_encoding(doc: &PdfDocument, font_dict: &PdfDictionary) -> (r: Option<EncodingResult>)
    ensures
        r is Some <==> font_encoding_of(document_objects(*doc), dictionary_shape(*font_dict)) is Some,
        r matches Some(res) ==> font_encoding_of(document_objects(*doc), dictionary_shape(*font_dict))
            == Some((res.map@, res.gid_glyph_count as nat)),
{
    let key: [u8; 8] = [0x45u8, 0x6Eu8, 0x63u8, 0x6Fu8, 0x64u8, 0x69u8, 0x6Eu8, 0x67u8];
    assert(key@ =~= encoding_key());
    let enc_obj = match dictionary_entry(font_dict, &key) {
        Some(o) => o,
        None => return None,
    };
    // A named encoding like /WinAnsiEncoding is left to the CMap.
    match resolve_dict(doc, enc_obj) {
        Some(d) => parse_encoding_dictionary(doc, d),
        None => None,
    }
}

/// The fonts (name bytes and dictionary) as plain values.
pub open spec fn font_views(fonts: Seq<(Vec<u8>, &PdfDictionary)>) -> Seq<(Seq<u8>, Map<Seq<u8>, PdfShape>)> {
    Seq::new(fonts.len(), |i: int| (fonts[i].0@, dictionary_shape(*fonts[i].1)))
}

/// The encodings of the first fonts: each font's non-empty map under its
/// name (decoded as lossy UTF-8), in order, and whether any font's map
/// counted a GID-style glyph name.
pub open spec fn font_encodings_of(
    objs: Map<(u32, u16), PdfShape>,
    fonts: Seq<(Seq<u8>, Map<Seq<u8>, PdfShape>)>,
) -> (Seq<(Seq<char>, Map<u8, char>)>, bool)
    decreases fonts.len(),
{
    if fonts.len() == 0 {
        (seq![], false)
    } else {
        let (prev, gid) = font_encodings_of(objs, fonts.drop_last());
        let f = fonts.last();
        match font_encoding_of(objs, f.1) {
            Some((m, g)) => (
                if m.len() > 0 {
                    prev.push((utf8_lossy(f.0), m))
                } else {
                    prev
                },
                gid || g > 0,
            ),
            None => (prev, gid),
        }
    }
}

/// The encodings are the given names and maps, in order.
pub open spec fn encodings_match(
    r: Seq<(String, HashMap<u8, char>)>,
    e: Seq<(Seq<char>, Map<u8, char>)>,
) -> bool {
    &&& r.len() == e.len()
    &&& forall|k: int| 0 <= k < r.len() ==> (#[trigger] r[k]).0@ == e[k].0 && r[k].1@ == e[k].1
}

/// Build the `/Differences` encoding maps of a page's fonts, given by
/// resource name.
///
/// Returns each font's non-empty map under its name (decoded as lossy
/// UTF-8), in the order of the fonts, and whether any font's
/// `/Differences` uses GID-style glyph names (which may require
/// `FontFile2` fallback).
pub fn build_font_encodings(doc: &PdfDocument, fonts: &[(Vec<u8>, &PdfDictionary)]) -> (r: (
    Vec<(String, HashMap<u8, char>)>,
    bool,
))
    ensures
        encodings_match(r.0@, font_encodings_of(document_objects(*doc), font_views(fonts@)).0),
        r.1 == font_encodings_of(document_objects(*doc), font_views(fonts@)).1,
{
    let ghost objs = document_objects(*doc);
    let ghost fv = font_views(fonts@);
    let mut page_encodings: Vec<(String, HashMap<u8, char>)> = Vec::new();
    let mut has_gid_fonts = false;
    let mut i: usize = 0;
    assert(fv.take(0) =~= seq![]);
    while i < fonts.len()
        invariant
            i <= fonts@.len(),
            objs == document_objects(*doc),
            fv == font_views(fonts@),
            encodings_match(page_encodings@, font_encodings_of(objs, fv.take(i as int)).0),
            has_gid_fonts == font_encodings_of(objs, fv.take(i as int)).1,
        decreases fonts@.len() - i,
    {
        let (name_bytes, font_dict) = &fonts[i];
        let ghost before = page_encodings@;
        proof {
            assert(fv.take(i + 1).drop_last() =~= fv.take(i as int));
            assert(fv.take(i + 1).last() == fv[i as int]);
        }
        let font_name = string_from_utf8_lossy(name_bytes.as_slice());
        if let Some(enc_result) = font_encoding(doc, font_dict) {
            if enc_result.gid_glyph_count > 0 {
                has_gid_fonts = true;
            }
            if enc_result.map.len() > 0 {
                page_encodings.push((font_name, enc_result.map));
                proof {
                    let e = font_encodings_of(objs, fv.take(i + 1)).0;
                    assert forall|k: int| 0 <= k < page_encodings@.len() implies (
                    #[trigger] page_encodings@[k]).0@ == e[k].0 && page_encodings@[k].1@ == e[k].1 by {
                        if k < before.len() {
                            assert(page_encodings@[k] == before[k]);
                        }
                    }
                }
            }
        }
        i += 1;
    }
    assert(fv.take(fonts@.len() as int) =~= fv);
    (page_encodings, has_gid_fonts)
}

// ── ToUnicode CMap ─────────────────────────────────────────────────

/// A parsed `ToUnicode` CMap.
#[derive(Debug, Clone, Default)]
#[non_exhaustive]
pub struct ToUnicodeCMap {
    /// Mappings from character codes to Unicode strings.
    pub mappings: HashMap<u32, String>,
}

impl ToUnicodeCMap {
    /// Look up a character code and return the corresponding Unicode string.
    pub fn decode(&self, code: u32) -> (r: Option<&str>)
        ensures
            r.is_some() == self.mappings@.contains_key(code),
            r matches Some(s) ==> s@ == self.mappings@[code]@,
    {
        match self.mappings.get(&code) {
            Some(s) => Some(s.as_str()),
            None => None,
        }
    }
}

// ── String operands ────────────────────────────────────────────────

/// The texts that a font's CMaps decode one string operand to: the
/// primary CMap's, the remapped CMap's where the font has one, and the
/// fallback CMap's where it has one.
#[derive(Debug, Clone)]
pub struct CMapTexts {
    pub primary: String,
    pub remapped: Option<String>,
    pub fallback: Option<String>,
}

/// The CMap text an operand settles on before any fallback, and the
/// decision cache afterwards. With a remapped CMap the cached choice picks
/// the text; an undecided font records one more sample (unless both texts
/// are empty) and follows the decision that sample leads to, if any.
pub open spec fn chosen_cmap_text(
    t: CMapTexts,
    obj_num: u32,
    bytes_len: int,
    cache: Map<u32, CMapSample>,
) -> (Seq<char>, Map<u32, CMapSample>) {
    match t.remapped {
        None => (t.primary@, cache),
        Some(rem) => match sample_of(cache, obj_num).decision {
            Some(c) => (if c == CMapChoice::Remapped {
                rem@
            } else {
                t.primary@
            }, cache),
            None => if t.primary@.len() > 0 || rem@.len() > 0 {
                let s = sample_after(
                    sample_of(cache, obj_num),
                    text_score(t.primary@),
                    text_score(rem@),
                    bytes_len,
                );
                (if s.decision == Some(CMapChoice::Remapped) {
                    rem@
                } else {
                    t.primary@
                }, cache.insert(obj_num, s))
            } else {
                (seq![], cache)
            },
        },
    }
}

/// The CMap layer: the chosen text without PUA characters when it is not
/// empty, else the fallback CMap's text likewise, else nothing.
pub open spec fn cmap_layer(
    t: CMapTexts,
    obj_num: u32,
    bytes_len: int,
    cache: Map<u32, CMapSample>,
) -> (Option<Seq<char>>, Map<u32, CMapSample>) {
    let (chosen, cache2) = chosen_cmap_text(t, obj_num, bytes_len, cache);
    if chosen.len() > 0 {
        (Some(without_pua(chosen)), cache2)
    } else {
        match t.fallback {
            Some(f) => if f@.len() > 0 {
                (Some(without_pua(f@)), cache2)
            } else {
                (None, cache2)
            },
            None => (None, cache2),
        }
    }
}

/// Each byte through a font's `/Differences` map, or as itself when it is
/// printable ASCII; nothing as soon as a byte is neither.
pub open spec fn encoded_text(bytes: Seq<u8>, enc: Map<u8, char>) -> Option<Seq<char>>
    decreases bytes.len(),
{
    if bytes.len() == 0 {
        Some(seq![])
    } else {
        match encoded_text(bytes.drop_last(), enc) {
            None => None,
            Some(t) => {
                let b = bytes.last();
                if enc.contains_key(b) {
                    Some(t.push(enc[b]))
                } else if 0x20 <= b && b < 0x7F {
                    Some(t.push((b as u32) as char))
                } else {
                    None
                }
            },
        }
    }
}

/// Each byte as the character with that code.
pub open spec fn latin1_text(bytes: Seq<u8>) -> Seq<char> {
    Seq::new(bytes.len(), |i: int| (bytes[i] as u32) as char)
}

/// The layers after the CMaps, in order: the `/Differences` map, UTF-16BE
/// after a byte order mark, UTF-8 without NUL characters, and Latin-1.
/// The Symbol-font remapping applies to all but the UTF-16BE text.
pub open spec fn byte_layers_text(
    bytes: Seq<u8>,
    base_font_name: Seq<char>,
    encoding: Option<&HashMap<u8, char>>,
) -> Seq<char> {
    let enc_text = match encoding {
        Some(m) => encoded_text(bytes, m@),
        None => None,
    };
    if enc_text matches Some(t) && t.len() > 0 {
        symbol_pua_applied(base_font_name, enc_text->0)
    } else if bytes.len() >= 2 && bytes[0] == 0xFE && bytes[1] == 0xFF && decoded_text_string(
        bytes,
    ).len() > 0 {
        decoded_text_string(bytes)
    } else if valid_utf8(bytes) && decode_utf8(bytes).len() > 0 && !decode_utf8(bytes).contains(
        '\0',
    ) {
        symbol_pua_applied(base_font_name, decode_utf8(bytes))
    } else {
        symbol_pua_applied(base_font_name, latin1_text(bytes))
    }
}

/// The text of a string operand and the decision cache afterwards: nothing
/// for no bytes; else the CMap layer's text when it gives one, else the
/// byte layers' text.
pub open spec fn operand_text(
    bytes: Seq<u8>,
    base_font_name: Seq<char>,
    cmap: Option<&CMapTexts>,
    obj_num: u32,
    encoding: Option<&HashMap<u8, char>>,
    cache: Map<u32, CMapSample>,
) -> (Option<Seq<char>>, Map<u32, CMapSample>) {
    if bytes.len() == 0 {
        (None, cache)
    } else {
        let (l1, cache2) = match cmap {
            Some(t) => cmap_layer(*t, obj_num, bytes.len() as int, cache),
            None => (None, cache),
        };
        if l1 is Some {
            (l1, cache2)
        } else {
            (Some(byte_layers_text(bytes, base_font_name, encoding)), cache2)
        }
    }
}

/// Once a prefix fails to decode, so does every longer prefix.
proof fn lemma_encoded_none_extends(bytes: Seq<u8>, enc: Map<u8, char>, k: int)
    requires
        0 <= k <= bytes.len(),
        encoded_text(bytes.take(k), enc) is None,
    ensures
        encoded_text(bytes, enc) is None,
    decreases bytes.len() - k,
{
    if k < bytes.len() {
        assert(bytes.take(k + 1).drop_last() =~= bytes.take(k));
        lemma_encoded_none_extends(bytes, enc, k + 1);
    } else {
        assert(bytes.take(k) =~= bytes);
    }
}

/// The operand's bytes through a `/Differences` map (printable ASCII
/// passing through), or nothing when a byte is neither mapped nor
/// printable.
fn decode_with_encoding(bytes: &[u8], enc: &HashMap<u8, char>) -> (r: Option<String>)
    ensures
        r matches Some(s) ==> encoded_text(bytes@, enc@) == Some(s@),
        r is None ==> encoded_text(bytes@, enc@) is None,
{
    let mut text = String::new();
    let mut i: usize = 0;
    while i < bytes.len()
        invariant
            i <= bytes@.len(),
            encoded_text(bytes@.take(i as int), enc@) == Some(text@),
        decreases bytes@.len() - i,
    {
        let b = bytes[i];
        assert(bytes@.take(i + 1).drop_last() =~= bytes@.take(i as int));
        match enc.get(&b) {
            Some(ch) => push_char(&mut text, *ch),
            None => {
                if 0x20 <= b && b < 0x7F {
                    push_char(&mut text, b as char);
                } else {
                    proof {
                        lemma_encoded_none_extends(bytes@, enc@, i + 1);
                    }
                    return None;
                }
            },
        }
        i += 1;
    }
    assert(bytes@.take(bytes@.len() as int) =~= bytes@);
    Some(text)
}

/// No character of the text is NUL.
fn has_no_nul(text: &str) -> (r: bool)
    ensures
        r == !text@.contains('\0'),
{
    let v = str_chars(text);
    let mut i: usize = 0;
    while i < v.len()
        invariant
            i <= v@.len(),
            v@ == text@,
            forall|k: int| 0 <= k < i ==> v@[k] != '\0',
        decreases v@.len() - i,
    {
        if v[i] == '\0' {
            return false;
        }
        i += 1;
    }
    true
}

/// The text of the layers after the CMaps; see [`byte_layers_text`].
fn decode_byte_layers(
    bytes: &[u8],
    base_font_name: &str,
    encoding: Option<&HashMap<u8, char>>,
) -> (r: String)
    ensures
        r@ == byte_layers_text(bytes@, base_font_name@, encoding),
{
    // ── /Differences encoding ──
    if let Some(enc) = encoding {
        if let Some(text) = decode_with_encoding(bytes, enc) {
            if !text.as_str().is_empty() {
                return apply_symbol_pua(base_font_name, text.as_str());
            }
        }
    }
    // ── UTF-16BE (byte order mark) ──
    if bytes.len() >= 2 && bytes[0] == 0xFE && bytes[1] == 0xFF {
        let decoded = decode_text_string(bytes);
        if !decoded.as_str().is_empty() {
            return decoded;
        }
    }
    // ── UTF-8 ──
    if let Some(text) = string_from_utf8(slice_to_vec(bytes)) {
        if !text.as_str().is_empty() && has_no_nul(text.as_str()) {
            return apply_symbol_pua(base_font_name, text.as_str());
        }
    }
    // ── Latin-1 ──
    let mut latin1 = String::new();
    let mut i: usize = 0;
    while i < bytes.len()
        invariant
            i <= bytes@.len(),
            latin1@ =~= Seq::new(i as nat, |k: int| (bytes@[k] as u32) as char),
        decreases bytes@.len() - i,
    {
        push_char(&mut latin1, bytes[i] as char);
        i += 1;
    }
    apply_symbol_pua(base_font_name, latin1.as_str())
}

/// The CMap layer; see [`cmap_layer`].
fn decode_with_cmaps(
    t: &CMapTexts,
    obj_num: u32,
    bytes_len: usize,
    cmap_decisions: &mut CMapDecisionCache,
) -> (r: Option<String>)
    requires
        old(cmap_decisions).wf(),
        t.remapped matches Some(rem) ==> (sample_of(old(cmap_decisions)@, obj_num).decision is None
            ==> consider_fits(old(cmap_decisions)@, obj_num, t.primary@, rem@, bytes_len as int)),
    ensures
        final(cmap_decisions).wf(),
        final(cmap_decisions)@ == cmap_layer(*t, obj_num, bytes_len as int, old(cmap_decisions)@).1,
        r matches Some(s) ==> cmap_layer(*t, obj_num, bytes_len as int, old(cmap_decisions)@).0
            == Some(s@),
        r is None ==> cmap_layer(*t, obj_num, bytes_len as int, old(cmap_decisions)@).0 is None,
{
    let ghost cache = cmap_decisions@;
    let chosen: &String = match &t.remapped {
        None => &t.primary,
        Some(rem) => match cmap_decisions.get_choice(obj_num) {
            Some(CMapChoice::Remapped) => rem,
            Some(CMapChoice::Primary) => &t.primary,
            None => {
                if !t.primary.as_str().is_empty() || !rem.as_str().is_empty() {
                    let choice = cmap_decisions.consider(
                        obj_num,
                        t.primary.as_str(),
                        rem.as_str(),
                        bytes_len,
                    );
                    match choice {
                        Some(CMapChoice::Remapped) => rem,
                        _ => &t.primary,
                    }
                } else {
                    &t.primary
                }
            },
        },
    };
    assert(chosen@.len() > 0 ==> chosen@ == chosen_cmap_text(*t, obj_num, bytes_len as int, cache).0);
    if !chosen.as_str().is_empty() {
        return Some(clean_pua_chars(chosen.as_str()));
    }
    match &t.fallback {
        Some(f) => {
            if !f.as_str().is_empty() {
                Some(clean_pua_chars(f.as_str()))
            } else {
                None
            }
        },
        None => None,
    }
}

/// The bounds of `extract_text_from_operand`: with a remapped CMap and an
/// undecided font, `consider` may be called on the two texts.
pub open spec fn operand_fits(
    cache: Map<u32, CMapSample>,
    cmap: Option<&CMapTexts>,
    obj_num: u32,
    bytes_len: int,
) -> bool {
    cmap matches Some(t) ==> (t.remapped matches Some(rem) ==> (sample_of(cache, obj_num).decision
        is None ==> consider_fits(cache, obj_num, t.primary@, rem@, bytes_len)))
}

/// Decode the bytes of a string operand to text, trying in order the
/// font's CMaps (with the cached choice between primary and remapped), its
/// `/Differences` map, UTF-16BE after a byte order mark, UTF-8, and
/// Latin-1.
///
/// * `cmap` — what the font's CMaps decode the bytes to, if it has any.
/// * `obj_num` — the object number of the font's `ToUnicode` stream (the
///   key of the CMap decision).
/// * `encoding` — the font's `/Differences` map, if any.
pub fn extract_text_from_operand(
    bytes: &[u8],
    base_font_name: &str,
    cmap: Option<&CMapTexts>,
    obj_num: u32,
    encoding: Option<&HashMap<u8, char>>,
    cmap_decisions: &mut CMapDecisionCache,
) -> (r: Option<String>)
    requires
        old(cmap_decisions).wf(),
        operand_fits(old(cmap_decisions)@, cmap, obj_num, bytes@.len() as int),
    ensures
        final(cmap_decisions).wf(),
        final(cmap_decisions)@ == operand_text(
            bytes@,
            base_font_name@,
            cmap,
            obj_num,
            encoding,
            old(cmap_decisions)@,
        ).1,
        r matches Some(s) ==> operand_text(
            bytes@,
            base_font_name@,
            cmap,
            obj_num,
            encoding,
            old(cmap_decisions)@,
        ).0 == Some(s@),
        r is None <==> bytes@.len() == 0,
{
    if bytes.len() == 0 {
        return None;
    }
    if let Some(t) = cmap {
        if let Some(text) = decode_with_cmaps(t, obj_num, bytes.len(), cmap_decisions) {
            return Some(text);
        }
    }
    Some(decode_byte_layers(bytes, base_font_name, encoding))
}

/// `extract_text_from_operand` where its bounds hold (`Some` of its
/// result); otherwise `None`, with the cache unchanged.
pub fn try_extract_text_from_operand(
    bytes: &[u8],
    base_font_name: &str,
    cmap: Option<&CMapTexts>,
    obj_num: u32,
    encoding: Option<&HashMap<u8, char>>,
    cmap_decisions: &mut CMapDecisionCache,
) -> (r: Option<Option<String>>)
    requires
        old(cmap_decisions).wf(),
    ensures
        final(cmap_decisions).wf(),
        r is Some <==> operand_fits(old(cmap_decisions)@, cmap, obj_num, bytes@.len() as int),
        r is None ==> final(cmap_decisions)@ == old(cmap_decisions)@,
        r matches Some(x) ==> {
            &&& final(cmap_decisions)@ == operand_text(
                bytes@,
                base_font_name@,
                cmap,
                obj_num,
                encoding,
                old(cmap_decisions)@,
            ).1
            &&& x matches Some(t) ==> operand_text(
                bytes@,
                base_font_name@,
                cmap,
                obj_num,
                encoding,
                old(cmap_decisions)@,
            ).0 == Some(t@)
            &&& x is None <==> bytes@.len() == 0
        },
{
    let fits = match cmap {
        Some(t) => match &t.remapped {
            Some(rem) => match cmap_decisions.get_choice(obj_num) {
                Some(_) => true,
                None => cmap_decisions.fits_to_consider(
                    obj_num,
                    t.primary.as_str(),
                    rem.as_str(),
                    bytes.len(),
                ),
            },
            None => true,
        },
        None => true,
    };
    if fits {
        Some(
            extract_text_from_operand(bytes, base_font_name, cmap, obj_num, encoding, cmap_decisions),
        )
    } else {
        None
    }
}

// ── CID widths ─────────────────────────────────────────────────────

/// One element of a CID font's `/W` array as the widths parser reads it.
#[derive(Debug, Clone)]
pub struct WArrayItem {
    /// The element as a CID: a non-negative number (through one reference),
    /// truncated to 32 bits.
    pub cid: Option<u32>,
    /// The element's numbers when it is an array, each truncated to 32 bits
    /// (anything that is not a number counts as 0).
    pub widths: Option<Vec<u32>>,
    /// The element as a number truncated to 32 bits, or 0.
    pub width: u32,
}

/// A width clamped to 16 bits.
pub open spec fn width16(w: u32) -> u16 {
    if w > 0xFFFF {
        0xFFFF
    } else {
        w as u16
    }
}

/// `m` with the CIDs `start`, `start + 1`, … (as far as they fit 16 bits)
/// set to the widths `ws` in turn.
pub open spec fn with_width_run(m: Map<u16, u16>, start: u32, ws: Seq<u32>) -> Map<u16, u16> {
    Map::new(
        |k: u16| m.contains_key(k) || (start <= k && k < start + ws.len()),
        |k: u16|
            if start <= k && k < start + ws.len() {
                width16(ws[k - start])
            } else {
                m[k]
            },
    )
}

/// `m` with every CID from `lo` to `hi` (as far as they fit 16 bits) set
/// to `w`.
pub open spec fn with_width_range(m: Map<u16, u16>, lo: int, hi: int, w: u16) -> Map<u16, u16> {
    Map::new(
        |k: u16| m.contains_key(k) || (lo <= k && k <= hi),
        |k: u16|
            if lo <= k && k <= hi {
                w
            } else {
                m[k]
            },
    )
}

/// The widths after reading the `/W` array from element `i` on: a CID
/// followed by an array sets consecutive CIDs; a CID followed by a second
/// CID and a width sets the range between them (at most 65536 CIDs); an
/// element that is not a CID where one is expected is skipped, and the
/// reading stops when a CID has nothing after it.
pub open spec fn w_array_widths(items: Seq<WArrayItem>, i: int, m: Map<u16, u16>) -> Map<u16, u16>
    decreases items.len() - i,
{
    if i < 0 || i >= items.len() {
        m
    } else {
        match items[i].cid {
            None => w_array_widths(items, i + 1, m),
            Some(start) => if i + 1 >= items.len() {
                m
            } else {
                match items[i + 1].widths {
                    Some(ws) => w_array_widths(items, i + 2, with_width_run(m, start, ws@)),
                    None => if i + 2 < items.len() {
                        match items[i + 1].cid {
                            None => w_array_widths(items, i + 2, m),
                            Some(end) => w_array_widths(
                                items,
                                i + 3,
                                with_width_range(
                                    m,
                                    start as int,
                                    if end < start + 0xFFFF {
                                        end as int
                                    } else {
                                        start + 0xFFFF
                                    },
                                    width16(items[i + 2].width),
                                ),
                            ),
                        }
                    } else {
                        w_array_widths(items, i + 1, m)
                    },
                }
            },
        }
    }
}

/// Reading a `/W` array only adds or overwrites widths: every CID that had
/// a width still has one.
pub proof fn lemma_w_array_keeps_cids(items: Seq<WArrayItem>, i: int, m: Map<u16, u16>)
    ensures
        m.dom().subset_of(w_array_widths(items, i, m).dom()),
    decreases items.len() - i,
{
    if 0 <= i < items.len() {
        match items[i].cid {
            None => lemma_w_array_keeps_cids(items, i + 1, m),
            Some(start) => if i + 1 < items.len() {
                match items[i + 1].widths {
                    Some(ws) => lemma_w_array_keeps_cids(items, i + 2, with_width_run(m, start, ws@)),
                    None => if i + 2 < items.len() {
                        match items[i + 1].cid {
                            None => lemma_w_array_keeps_cids(items, i + 2, m),
                            Some(end) => {
                                let hi = if end < start + 0xFFFF {
                                    end as int
                                } else {
                                    start + 0xFFFF
                                };
                                lemma_w_array_keeps_cids(
                                    items,
                                    i + 3,
                                    with_width_range(m, start as int, hi, width16(items[i + 2].width)),
                                );
                            },
                        }
                    } else {
                        lemma_w_array_keeps_cids(items, i + 1, m);
                    },
                }
            },
        }
    }
}

fn clamp_width(w: u32) -> (r: u16)
    ensures
        r == width16(w),
{
    if w > 0xFFFF {
        0xFFFF
    } else {
        w as u16
    }
}

/// Set consecutive CIDs from `start` to the widths `ws`.
fn set_width_run(widths: &mut HashMap<u16, u16>, start: u32, ws: &Vec<u32>)
    ensures
        final(widths)@ == with_width_run(old(widths)@, start, ws@),
{
    let ghost m0 = widths@;
    let mut j: usize = 0;
    while j < ws.len()
        invariant
            j <= ws@.len(),
            widths@ == with_width_run(m0, start, ws@.take(j as int)),
        decreases ws@.len() - j,
    {
        let ghost before = widths@;
        if j <= 0xFFFF && start as u64 + j as u64 <= 0xFFFF {
            let cid: u64 = start as u64 + j as u64;
            widths.insert(cid as u16, clamp_width(ws[j]));
            assert(widths@ =~= with_width_run(m0, start, ws@.take(j + 1)));
        } else {
            assert(before =~= with_width_run(m0, start, ws@.take(j + 1)));
        }
        j += 1;
    }
    assert(ws@.take(ws@.len() as int) =~= ws@);
}

/// Set every CID from `lo` to `hi` (as far as they fit 16 bits) to `w`.
fn set_width_range(widths: &mut HashMap<u16, u16>, lo: u32, hi: u64, w: u16)
    ensures
        final(widths)@ == with_width_range(old(widths)@, lo as int, hi as int, w),
{
    let ghost m0 = widths@;
    let top: u64 = if hi < 0xFFFF {
        hi
    } else {
        0xFFFF
    };
    let mut c: u64 = lo as u64;
    while c <= top
        invariant
            lo <= c,
            c <= top + 1 || c == lo,
            top <= 0xFFFF,
            top == (if hi < 0xFFFF { hi } else { 0xFFFF }),
            widths@ == with_width_range(m0, lo as int, c - 1, w),
        decreases top + 1 - c,
    {
        widths.insert(c as u16, w);
        assert(widths@ =~= with_width_range(m0, lo as int, c as int, w));
        c += 1;
    }
    assert(widths@ =~= with_width_range(m0, lo as int, hi as int, w));
}

/// Parse a CID font `W` (widths) array.
///
/// The array alternates between two formats:
/// - `[c [w1 w2 w3 ...]]` — consecutive widths starting at CID `c`.
/// - `[c1 c2 w]` — all CIDs from `c1` to `c2` share width `w`.
///
/// CIDs beyond 16 bits are ignored, and widths are clamped to 16 bits.
pub fn parse_cid_w_array(w_array: &[WArrayItem], widths: &mut HashMap<u16, u16>)
    ensures
        final(widths)@ == w_array_widths(w_array@, 0, old(widths)@),
{
    let len = w_array.len();
    let mut i: usize = 0;
    while i < len
        invariant
            i <= len,
            len == w_array@.len(),
            w_array_widths(w_array@, i as int, widths@) == w_array_widths(
                w_array@,
                0,
                old(widths)@,
            ),
        decreases len - i,
    {
        let start = match w_array[i].cid {
            Some(v) => v,
            None => {
                i += 1;
                continue;
            },
        };
        i += 1;
        if i >= len {
            return;
        }
        // Format 1: [c [w1 w2 w3 ...]]
        if let Some(ws) = &w_array[i].widths {
            set_width_run(widths, start, ws);
            i += 1;
            continue;
        }
        // Format 2: [c1 c2 w]
        if i + 1 < len {
            let end = match w_array[i].cid {
                Some(v) => v,
                None => {
                    i += 1;
                    continue;
                },
            };
            i += 1;
            let w16 = clamp_width(w_array[i].width);
            i += 1;
            let cap: u64 = start as u64 + 0xFFFF;
            let last: u64 = if (end as u64) < cap {
                end as u64
            } else {
                cap
            };
            set_width_range(widths, start, last, w16);
        }
    }
}

// ── Embedded font programs ─────────────────────────────────────────

/// The key `FontDescriptor`.
pub open spec fn font_descriptor_key() -> Seq<u8> {
    seq![
        0x46u8, 0x6Fu8, 0x6Eu8, 0x74u8, 0x44u8, 0x65u8, 0x73u8, 0x63u8, 0x72u8, 0x69u8, 0x70u8,
        0x74u8, 0x6Fu8, 0x72u8,
    ]
}

/// The key `FontFile2`.
pub open spec fn font_file2_key() -> Seq<u8> {
    seq![0x46u8, 0x6Fu8, 0x6Eu8, 0x74u8, 0x46u8, 0x69u8, 0x6Cu8, 0x65u8, 0x32u8]
}

/// The object number of a font's `/FontFile2` reference, found in its
/// `/FontDescriptor` dictionary (direct or through a reference).
pub open spec fn font_file2_of(objs: Map<(u32, u16), PdfShape>, font: Map<Seq<u8>, PdfShape>) -> Option<
    u32,
> {
    if font.contains_key(font_descriptor_key()) {
        match dict_of(objs, font[font_descriptor_key()]) {
            Some(desc) => if desc.contains_key(font_file2_key()) {
                match desc[font_file2_key()] {
                    PdfShape::Reference(n, _) => Some(n),
                    _ => None,
                }
            } else {
                None
            },
            None => None,
        }
    } else {
        None
    }
}

/// Get the object number of the `/FontFile2` entry in a font's descriptor,
/// when that entry is a reference.
///
/// This is used for TrueType fonts when we need to build a GID-to-Unicode
/// remapping from the `cmap` table inside the embedded font program.
pub fn get_font_file2_obj_num(doc: &PdfDocument, font_dict: &PdfDictionary) -> (r: Option<u32>)
    ensures
        r == font_file2_of(document_objects(*doc), dictionary_shape(*font_dict)),
{
    let fd_key: [u8; 14] = [
        0x46u8, 0x6Fu8, 0x6Eu8, 0x74u8, 0x44u8, 0x65u8, 0x73u8, 0x63u8, 0x72u8, 0x69u8, 0x70u8,
        0x74u8, 0x6Fu8, 0x72u8,
    ];
    let ff2_key: [u8; 9] = [0x46u8, 0x6Fu8, 0x6Eu8, 0x74u8, 0x46u8, 0x69u8, 0x6Cu8, 0x65u8, 0x32u8];
    assert(fd_key@ =~= font_descriptor_key());
    assert(ff2_key@ =~= font_file2_key());
    let desc_obj = match dictionary_entry(font_dict, &fd_key) {
        Some(o) => o,
        None => return None,
    };
    let desc = match resolve_dict(doc, desc_obj) {
        Some(d) => d,
        None => return None,
    };
    let ff2 = match dictionary_entry(desc, &ff2_key) {
        Some(o) => o,
        None => return None,
    };
    match object_value(ff2) {
        PdfValue::Reference(num, _) => Some(num),
        _ => None,
    }
}

} // verus!
