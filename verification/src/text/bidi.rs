//! RTL detection.

use vstd::prelude::*;

use crate::text::chars::{count, is_alphabetic, str_chars, unicode_alphabetic, lemma_count_bound};
use crate::text::cjk::{cjk_char, is_cjk_char};

verus! {

/// Hebrew, Arabic, Syriac, Arabic supplement, Thaana, NKo, Samaritan,
/// Mandaic, Arabic extended-A, Hebrew and Arabic presentation forms.
pub open spec fn rtl_char(c: char) -> bool {
    ('\u{0590}' <= c && c <= '\u{05FF}') || ('\u{0600}' <= c && c <= '\u{06FF}') || ('\u{0700}'
        <= c && c <= '\u{074F}') || ('\u{0750}' <= c && c <= '\u{077F}') || ('\u{0780}' <= c && c
        <= '\u{07BF}') || ('\u{07C0}' <= c && c <= '\u{07FF}') || ('\u{0800}' <= c && c
        <= '\u{083F}') || ('\u{0840}' <= c && c <= '\u{085F}') || ('\u{08A0}' <= c && c
        <= '\u{08FF}') || ('\u{FB1D}' <= c && c <= '\u{FB4F}') || ('\u{FB50}' <= c && c
        <= '\u{FDFF}') || ('\u{FE70}' <= c && c <= '\u{FEFF}')
}

/// Check if a character belongs to an RTL script.
pub fn is_rtl_char(c: char) -> (r: bool)
    ensures
        r == rtl_char(c),
{
    ('\u{0590}' <= c && c <= '\u{05FF}') || ('\u{0600}' <= c && c <= '\u{06FF}') || ('\u{0700}'
        <= c && c <= '\u{074F}') || ('\u{0750}' <= c && c <= '\u{077F}') || ('\u{0780}' <= c && c
        <= '\u{07BF}') || ('\u{07C0}' <= c && c <= '\u{07FF}') || ('\u{0800}' <= c && c
        <= '\u{083F}') || ('\u{0840}' <= c && c <= '\u{085F}') || ('\u{08A0}' <= c && c
        <= '\u{08FF}') || ('\u{FB1D}' <= c && c <= '\u{FB4F}') || ('\u{FB50}' <= c && c
        <= '\u{FDFF}') || ('\u{FE70}' <= c && c <= '\u{FEFF}')
}

/// A letter that counts for left-to-right text: alphabetic, neither RTL
/// nor CJK.
pub open spec fn ltr_letter(c: char) -> bool {
    !rtl_char(c) && unicode_alphabetic(c) && !cjk_char(c)
}

/// Sum over all fragments of the characters that satisfy `p`.
pub open spec fn total_count(texts: Seq<Seq<char>>, p: spec_fn(char) -> bool) -> nat
    decreases texts.len(),
{
    if texts.len() == 0 {
        0
    } else {
        total_count(texts.drop_last(), p) + count(texts.last(), p)
    }
}

/// The views of a slice of string slices.
pub open spec fn views(texts: Seq<&str>) -> Seq<Seq<char>> {
    texts.map_values(|t: &str| t@)
}

pub open spec fn rtl_count(texts: Seq<Seq<char>>) -> nat {
    total_count(texts, |c: char| rtl_char(c))
}

pub open spec fn ltr_count(texts: Seq<Seq<char>>) -> nat {
    total_count(texts, |c: char| ltr_letter(c))
}

/// Predominantly RTL: some RTL characters, and more of them than LTR letters.
pub open spec fn rtl_text(texts: Seq<Seq<char>>) -> bool {
    rtl_count(texts) > 0 && rtl_count(texts) > ltr_count(texts)
}

/// Determine whether a sequence of text fragments is predominantly RTL.
///
/// The counters are `u32`: both counts must fit.
pub fn is_rtl_text(texts: &[&str]) -> (r: bool)
    requires
        rtl_count(views(texts@)) <= u32::MAX,
        ltr_count(views(texts@)) <= u32::MAX,
    ensures
        r == rtl_text(views(texts@)),
{
    let ghost prtl = |c: char| rtl_char(c);
    let ghost pltr = |c: char| ltr_letter(c);
    let ghost all_views = views(texts@);
    let mut rtl: u32 = 0;
    let mut ltr: u32 = 0;
    let mut k: usize = 0;
    while k < texts.len()
        invariant
            k <= texts@.len(),
            all_views == views(texts@),
            prtl == (|c: char| rtl_char(c)),
            pltr == (|c: char| ltr_letter(c)),
            rtl_count(all_views) <= u32::MAX,
            ltr_count(all_views) <= u32::MAX,
            rtl == total_count(all_views.take(k as int), prtl),
            ltr == total_count(all_views.take(k as int), pltr),
        decreases texts@.len() - k,
    {
        let v = str_chars(texts[k]);
        proof {
            assert(all_views.take(k + 1).drop_last() =~= all_views.take(k as int));
            lemma_total_count_prefix(all_views, k + 1, prtl);
            lemma_total_count_prefix(all_views, k + 1, pltr);
        }
        let mut i: usize = 0;
        while i < v.len()
            invariant
                i <= v@.len(),
                v@ == all_views[k as int],
                k < all_views.len(),
                prtl == (|c: char| rtl_char(c)),
                pltr == (|c: char| ltr_letter(c)),
                rtl == total_count(all_views.take(k as int), prtl) + count(v@.take(i as int), prtl),
                ltr == total_count(all_views.take(k as int), pltr) + count(v@.take(i as int), pltr),
                total_count(all_views.take(k as int), prtl) + count(v@, prtl) <= u32::MAX,
                total_count(all_views.take(k as int), pltr) + count(v@, pltr) <= u32::MAX,
            decreases v@.len() - i,
        {
            proof {
                assert(v@.take(i + 1).drop_last() =~= v@.take(i as int));
                lemma_count_prefix(v@, i + 1, prtl);
                lemma_count_prefix(v@, i + 1, pltr);
            }
            let c = v[i];
            if is_rtl_char(c) {
                rtl += 1;
            } else if is_alphabetic(c) && !is_cjk_char(c) {
                ltr += 1;
            }
            i += 1;
        }
        assert(v@.take(v@.len() as int) =~= v@);
        k += 1;
    }
    assert(all_views.take(texts@.len() as int) =~= all_views);
    rtl > 0 && rtl > ltr
}

pub proof fn lemma_count_prefix(s: Seq<char>, k: int, p: spec_fn(char) -> bool)
    requires
        0 <= k <= s.len(),
    ensures
        count(s.take(k), p) <= count(s, p),
    decreases s.len() - k,
{
    if k < s.len() {
        assert(s.take(k) =~= s.drop_last().take(k));
        lemma_count_prefix(s.drop_last(), k, p);
    } else {
        assert(s.take(k) =~= s);
    }
}

pub proof fn lemma_total_count_prefix(ts: Seq<Seq<char>>, k: int, p: spec_fn(char) -> bool)
    requires
        0 <= k <= ts.len(),
    ensures
        total_count(ts.take(k), p) <= total_count(ts, p),
    decreases ts.len() - k,
{
    if k < ts.len() {
        assert(ts.take(k) =~= ts.drop_last().take(k));
        lemma_total_count_prefix(ts.drop_last(), k, p);
    } else {
        assert(ts.take(k) =~= ts);
    }
}

/// A single fragment with no RTL characters is never RTL text.
pub proof fn lemma_no_rtl_chars_not_rtl(texts: Seq<Seq<char>>)
    requires
        forall|i: int, j: int|
            0 <= i < texts.len() && 0 <= j < texts[i].len() ==> !rtl_char(#[trigger] texts[i][j]),
    ensures
        !rtl_text(texts),
    decreases texts.len(),
{
    if texts.len() > 0 {
        lemma_no_rtl_chars_not_rtl(texts.drop_last());
        lemma_count_none(texts.last(), |c: char| rtl_char(c));
    }
}

pub proof fn lemma_count_none(s: Seq<char>, p: spec_fn(char) -> bool)
    requires
        forall|j: int| 0 <= j < s.len() ==> !p(#[trigger] s[j]),
    ensures
        count(s, p) == 0,
    decreases s.len(),
{
    if s.len() > 0 {
        lemma_count_none(s.drop_last(), p);
    }
}

} // verus!
