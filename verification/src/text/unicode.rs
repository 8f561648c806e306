//! NFKC normalization, ligature expansion, invisible character stripping,
//! PDF text-string decoding and font-name classification.

use unicode_normalization::UnicodeNormalization;
use vstd::prelude::*;

use crate::text::chars::{
    ascii_alphanumeric, ascii_punctuation, contains_seq, is_ascii_alphanumeric,
    is_ascii_punctuation, lowercase_of, push_char, starts_with, starts_with_exec, str_chars,
    str_contains, string_from_chars, to_lowercase,
};

verus! {

// ── Ligature expansion ─────────────────────────────────────────────

/// Characters kept by the control-character filter.
pub open spec fn kept_char(c: char) -> bool {
    c >= ' ' || c == '\n' || c == '\r' || c == '\t'
}

/// The characters of `s` that satisfy `kept_char`, in order.
pub open spec fn keep_printable(s: Seq<char>) -> Seq<char>
    decreases s.len(),
{
    if s.len() == 0 {
        seq![]
    } else {
        keep_printable(s.drop_last()) + if kept_char(s.last()) {
            seq![s.last()]
        } else {
            seq![]
        }
    }
}

/// Some character of `s` is an ASCII alphanumeric.
pub open spec fn has_ascii_alnum(s: Seq<char>) -> bool {
    exists|i: int| 0 <= i < s.len() && ascii_alphanumeric(#[trigger] s[i])
}

/// Some character of `s` is an Arabic presentation form.
pub open spec fn has_presentation_form(s: Seq<char>) -> bool {
    exists|i: int| 0 <= i < s.len() && arabic_presentation_form(#[trigger] s[i])
}

/// Arabic presentation forms A and B (without the byte order mark).
pub open spec fn arabic_presentation_form(c: char) -> bool {
    ('\u{FB50}' <= c && c <= '\u{FDFF}') || ('\u{FE70}' <= c && c <= '\u{FEFE}')
}

/// Invisible characters that are dropped: soft hyphen, zero width space,
/// byte order mark, zero width non-joiner and joiner, word joiner.
pub open spec fn invisible_char(c: char) -> bool {
    c == '\u{00AD}' || c == '\u{200B}' || c == '\u{FEFF}' || c == '\u{200C}' || c == '\u{200D}'
        || c == '\u{2060}'
}

/// Typographic spaces U+2000..U+200A.
pub open spec fn typographic_space(c: char) -> bool {
    '\u{2000}' <= c && c <= '\u{200A}'
}

/// The replacement of one character.
pub open spec fn expand_char(c: char) -> Seq<char> {
    if c == '\u{FB00}' {
        seq!['f', 'f']
    } else if c == '\u{FB01}' {
        seq!['f', 'i']
    } else if c == '\u{FB02}' {
        seq!['f', 'l']
    } else if c == '\u{FB03}' {
        seq!['f', 'f', 'i']
    } else if c == '\u{FB04}' {
        seq!['f', 'f', 'l']
    } else if c == '\u{FB05}' || c == '\u{FB06}' {
        seq!['s', 't']
    } else if invisible_char(c) {
        seq![]
    } else if typographic_space(c) {
        seq![' ']
    } else {
        seq![c]
    }
}

/// Every character of `s` replaced by `expand_char`.
pub open spec fn expand_seq(s: Seq<char>) -> Seq<char>
    decreases s.len(),
{
    if s.len() == 0 {
        seq![]
    } else {
        expand_seq(s.drop_last()) + expand_char(s.last())
    }
}

/// The NFKC normal form of a string, as `unicode_normalization` computes it.
pub uninterp spec fn nfkc_form(s: Seq<char>) -> Seq<char>;

/// What `expand_ligatures` returns: control characters dropped; when
/// Arabic presentation forms are present, NFKC applied; ligatures expanded,
/// invisible characters dropped, typographic spaces made ASCII spaces; and
/// when presentation forms were present, visual order turned into logical
/// order.
pub open spec fn ligatures_expanded(s: Seq<char>) -> Seq<char> {
    let t = keep_printable(s);
    let had = has_presentation_form(t);
    let n = if had {
        nfkc_form(t)
    } else {
        t
    };
    let e = expand_seq(n);
    if had {
        visual_to_logical(e)
    } else {
        e
    }
}

/// `UnicodeNormalization::nfkc` collected into a `String`: the result is
/// the NFKC form of the input, named `nfkc_form`. Every character of it
/// below U+0020 is a character of the input: in the crate's source an
/// output character is an input character passed through (ASCII never
/// decomposes, normalize.rs `decompose`), a character of its decomposition
/// or composition tables (tables.rs; none of them is below U+0020), or a
/// Hangul jamo or syllable.
#[verifier::external_body]
fn nfkc(s: &str) -> (r: String)
    ensures
        r@ == nfkc_form(s@),
        forall|j: int| 0 <= j < r@.len() && r@[j] < ' ' ==> s@.contains(#[trigger] r@[j]),
{
    s.nfkc().collect::<String>()
}

/// Expand Unicode ligature characters to their component characters,
/// strip invisible characters, and normalize Arabic presentation forms.
///
/// This makes extracted text more searchable and semantically correct.
///
/// Expanding is idempotent whenever its result has no Arabic presentation
/// forms: a second pass then gives the result back.
pub fn expand_ligatures(text: &str) -> (r: String)
    ensures
        r@ == ligatures_expanded(text@),
        !has_presentation_form(r@) ==> ligatures_expanded(r@) == r@,
{
    let v = str_chars(text);
    // Strip null bytes and other control characters (except newline/tab).
    let mut t: Vec<char> = Vec::new();
    let mut i: usize = 0;
    while i < v.len()
        invariant
            i <= v@.len(),
            t@ == keep_printable(v@.take(i as int)),
        decreases v@.len() - i,
    {
        assert(v@.take(i + 1).drop_last() =~= v@.take(i as int));
        let c = v[i];
        if c >= ' ' || c == '\n' || c == '\r' || c == '\t' {
            t.push(c);
        }
        i += 1;
    }
    assert(v@.take(v@.len() as int) =~= v@);

    // Presentation forms signal visual-order storage.
    let had_presentation_forms = any_presentation_form(t.as_slice());

    let n: Vec<char> = if had_presentation_forms {
        let ts = string_from_chars(t.as_slice());
        let normalized = nfkc(ts.as_str());
        proof {
            let kp = keep_printable(text@);
            lemma_keep_printable_kept(text@);
            assert forall|j: int| 0 <= j < nfkc_form(kp).len() implies kept_char(
                #[trigger] nfkc_form(kp)[j],
            ) by {
                let c = nfkc_form(kp)[j];
                assert(normalized@[j] == c);
                if !(c >= ' ') {
                    assert(kp.contains(c));
                    let k = choose|k: int| 0 <= k < kp.len() && kp[k] == c;
                    assert(kept_char(kp[k]));
                }
            }
        }
        str_chars(normalized.as_str())
    } else {
        t
    };

    let mut result: Vec<char> = Vec::new();
    let mut j: usize = 0;
    while j < n.len()
        invariant
            j <= n@.len(),
            result@ == expand_seq(n@.take(j as int)),
        decreases n@.len() - j,
    {
        assert(n@.take(j + 1).drop_last() =~= n@.take(j as int));
        let ch = n[j];
        if ch == '\u{FB00}' {
            result.push('f');
            result.push('f');
        } else if ch == '\u{FB01}' {
            result.push('f');
            result.push('i');
        } else if ch == '\u{FB02}' {
            result.push('f');
            result.push('l');
        } else if ch == '\u{FB03}' {
            result.push('f');
            result.push('f');
            result.push('i');
        } else if ch == '\u{FB04}' {
            result.push('f');
            result.push('f');
            result.push('l');
        } else if ch == '\u{FB05}' || ch == '\u{FB06}' {
            result.push('s');
            result.push('t');
        } else if ch == '\u{00AD}' || ch == '\u{200B}' || ch == '\u{FEFF}' || ch == '\u{200C}'
            || ch == '\u{200D}' || ch == '\u{2060}' {
        } else if '\u{2000}' <= ch && ch <= '\u{200A}' {
            result.push(' ');
        } else {
            result.push(ch);
        }
        assert(result@ =~= expand_seq(n@.take(j as int)) + expand_char(ch));
        j += 1;
    }
    assert(n@.take(n@.len() as int) =~= n@);

    let r = if had_presentation_forms {
        let logical = visual_to_logical_exec(result.as_slice());
        string_from_chars(logical.as_slice())
    } else {
        string_from_chars(result.as_slice())
    };
    proof {
        if !has_presentation_form(r@) {
            if had_presentation_forms {
                lemma_expand_ligatures_idempotent_normalized(text@);
            } else {
                lemma_expand_ligatures_idempotent(text@);
            }
        }
    }
    r
}

fn any_presentation_form(v: &[char]) -> (r: bool)
    ensures
        r == has_presentation_form(v@),
{
    let mut i: usize = 0;
    while i < v.len()
        invariant
            i <= v@.len(),
            forall|j: int| 0 <= j < i ==> !arabic_presentation_form(#[trigger] v@[j]),
        decreases v@.len() - i,
    {
        if is_arabic_presentation_form(v[i]) {
            return true;
        }
        i += 1;
    }
    false
}

/// Check if a character is an Arabic presentation form (not BOM).
pub fn is_arabic_presentation_form(c: char) -> (r: bool)
    ensures
        r == arabic_presentation_form(c),
{
    ('\u{FB50}' <= c && c <= '\u{FDFF}') || ('\u{FE70}' <= c && c <= '\u{FEFE}')
}

// ── Visual to logical order ────────────────────────────────────────

/// The character at `i` is adjacent to an ASCII alphanumeric.
pub open spec fn adjacent_to_ascii_alnum(s: Seq<char>, i: int) -> bool {
    (i > 0 && ascii_alphanumeric(s[i - 1])) || (i + 1 < s.len() && ascii_alphanumeric(s[i + 1]))
}

/// The character at `i` belongs to a left-to-right run: ASCII
/// alphanumeric, or ASCII punctuation next to one.
pub open spec fn ltr_at(s: Seq<char>, i: int) -> bool {
    ascii_alphanumeric(s[i]) || (ascii_punctuation(s[i]) && adjacent_to_ascii_alnum(s, i))
}

/// A run as it appears in the reversed output, reversed back: LTR runs
/// reversed (so that they read forwards after the final reversal), others
/// as they stand.
pub open spec fn run_piece(run: Seq<char>, ltr: bool) -> Seq<char> {
    if ltr {
        run.reverse()
    } else {
        run
    }
}

/// Scanning the first `k` characters into maximal runs of equal
/// direction: the pieces of the completed runs in order, the current run,
/// and its direction.
pub open spec fn run_state(s: Seq<char>, k: nat) -> (Seq<char>, Seq<char>, bool)
    decreases k,
{
    if k == 0 {
        (seq![], seq![], false)
    } else if k == 1 {
        (seq![], seq![s[0]], ltr_at(s, 0))
    } else {
        let (done, cur, ltr) = run_state(s, (k - 1) as nat);
        let c = ltr_at(s, k - 1);
        if c == ltr {
            (done, cur.push(s[k - 1]), ltr)
        } else {
            (done + run_piece(cur, ltr), seq![s[k - 1]], c)
        }
    }
}

/// Visual-order Arabic text in logical order: pure RTL text reversed;
/// otherwise the runs in reverse order, LTR runs kept as they read and the
/// other runs reversed.
pub open spec fn visual_to_logical(s: Seq<char>) -> Seq<char> {
    if !has_ascii_alnum(s) {
        s.reverse()
    } else {
        let (done, cur, ltr) = run_state(s, s.len());
        (done + run_piece(cur, ltr)).reverse()
    }
}

/// Text without ASCII letters or digits is simply reversed, so turning it
/// around twice gives it back.
pub proof fn lemma_visual_to_logical_pure_rtl(s: Seq<char>)
    requires
        !has_ascii_alnum(s),
    ensures
        visual_to_logical(s) == s.reverse(),
        visual_to_logical(visual_to_logical(s)) == s,
{
    assert(!has_ascii_alnum(s.reverse())) by {
        if has_ascii_alnum(s.reverse()) {
            let i = choose|i: int| 0 <= i < s.reverse().len() && ascii_alphanumeric(
                #[trigger] s.reverse()[i],
            );
            assert(s.reverse()[i] == s[s.len() - 1 - i]);
        }
    }
    assert(s.reverse().reverse() =~= s);
}

/// Some character of `s` is ASCII punctuation.
pub open spec fn has_ascii_punctuation(s: Seq<char>) -> bool {
    exists|i: int| 0 <= i < s.len() && ascii_punctuation(#[trigger] s[i])
}

/// The first index of the left-to-right run that holds `i`.
pub open spec fn run_first(s: Seq<char>, i: int) -> int
    decreases i,
{
    if i > 0 && ltr_at(s, i - 1) {
        run_first(s, i - 1)
    } else {
        i
    }
}

/// The last index of the left-to-right run that holds `i`.
pub open spec fn run_last(s: Seq<char>, i: int) -> int
    decreases s.len() - i,
{
    if 0 <= i && i + 1 < s.len() && ltr_at(s, i + 1) {
        run_last(s, i + 1)
    } else {
        i
    }
}

/// `s` with each maximal left-to-right run reversed in place.
pub open spec fn ltr_runs_reversed(s: Seq<char>) -> Seq<char> {
    Seq::new(
        s.len(),
        |i: int|
            if ltr_at(s, i) {
                s[run_first(s, i) + run_last(s, i) - i]
            } else {
                s[i]
            },
    )
}

/// A maximal left-to-right run `a..b` gives each of its indices these
/// run bounds.
proof fn lemma_run_bounds(s: Seq<char>, a: int, b: int, i: int)
    requires
        0 <= a <= i < b <= s.len(),
        forall|j: int| a <= j < b ==> #[trigger] ltr_at(s, j),
        a == 0 || !ltr_at(s, a - 1),
        b == s.len() || !ltr_at(s, b),
    ensures
        run_first(s, i) == a,
        run_last(s, i) == b - 1,
{
    lemma_run_first_at(s, a, b, i);
    lemma_run_last_at(s, a, b, i);
}

proof fn lemma_run_first_at(s: Seq<char>, a: int, b: int, i: int)
    requires
        0 <= a <= i < b <= s.len(),
        forall|j: int| a <= j < b ==> #[trigger] ltr_at(s, j),
        a == 0 || !ltr_at(s, a - 1),
    ensures
        run_first(s, i) == a,
    decreases i - a,
{
    if i > a {
        lemma_run_first_at(s, a, b, i - 1);
    }
}

proof fn lemma_run_last_at(s: Seq<char>, a: int, b: int, i: int)
    requires
        0 <= a <= i < b <= s.len(),
        forall|j: int| a <= j < b ==> #[trigger] ltr_at(s, j),
        b == s.len() || !ltr_at(s, b),
    ensures
        run_last(s, i) == b - 1,
    decreases b - i,
{
    if i + 1 < b {
        lemma_run_last_at(s, a, b, i + 1);
    }
}

/// The run bounds of a left-to-right index enclose a maximal run.
proof fn lemma_run_props(s: Seq<char>, i: int)
    requires
        0 <= i < s.len(),
        ltr_at(s, i),
    ensures
        0 <= run_first(s, i) <= i <= run_last(s, i) < s.len(),
        forall|j: int| run_first(s, i) <= j <= run_last(s, i) ==> #[trigger] ltr_at(s, j),
        run_first(s, i) == 0 || !ltr_at(s, run_first(s, i) - 1),
        run_last(s, i) == s.len() - 1 || !ltr_at(s, run_last(s, i) + 1),
{
    lemma_run_first_props(s, i);
    lemma_run_last_props(s, i);
}

proof fn lemma_run_first_props(s: Seq<char>, i: int)
    requires
        0 <= i < s.len(),
        ltr_at(s, i),
    ensures
        0 <= run_first(s, i) <= i,
        forall|j: int| run_first(s, i) <= j <= i ==> #[trigger] ltr_at(s, j),
        run_first(s, i) == 0 || !ltr_at(s, run_first(s, i) - 1),
    decreases i,
{
    if i > 0 && ltr_at(s, i - 1) {
        lemma_run_first_props(s, i - 1);
    }
}

proof fn lemma_run_last_props(s: Seq<char>, i: int)
    requires
        0 <= i < s.len(),
        ltr_at(s, i),
    ensures
        i <= run_last(s, i) < s.len(),
        forall|j: int| i <= j <= run_last(s, i) ==> #[trigger] ltr_at(s, j),
        run_last(s, i) == s.len() - 1 || !ltr_at(s, run_last(s, i) + 1),
    decreases s.len() - i,
{
    if i + 1 < s.len() && ltr_at(s, i + 1) {
        lemma_run_last_props(s, i + 1);
    }
}

/// What the scan of the first `k` characters has built: the completed
/// runs are `s` up to the current run with its left-to-right runs
/// reversed, the current run is the rest of the first `k` characters, of
/// one direction and starting a run, and the scan keeps every character.
proof fn lemma_run_state(s: Seq<char>, k: nat)
    requires
        1 <= k <= s.len(),
    ensures
        ({
            let (done, cur, ltr) = run_state(s, k);
            let st = k - cur.len();
            &&& 1 <= cur.len() <= k
            &&& done.len() == st
            &&& cur == s.subrange(st, k as int)
            &&& forall|j: int| st <= j < k ==> #[trigger] ltr_at(s, j) == ltr
            &&& st == 0 || ltr_at(s, st - 1) != ltr
            &&& forall|j: int| 0 <= j < st ==> #[trigger] done[j] == ltr_runs_reversed(s)[j]
            &&& (done + cur).to_multiset() == s.take(k as int).to_multiset()
        }),
    decreases k,
{
    broadcast use vstd::seq_lib::group_to_multiset_ensures;

    if k == 1 {
        assert(s.subrange(0, 1) =~= seq![s[0]]);
        assert((seq![] + seq![s[0]]) =~= s.take(1));
    } else {
        lemma_run_state(s, (k - 1) as nat);
        let (done, cur, ltr) = run_state(s, (k - 1) as nat);
        let st = k - 1 - cur.len();
        let c = ltr_at(s, k - 1);
        assert(s.take(k as int) =~= s.take(k - 1).push(s[k - 1]));
        if c == ltr {
            assert(cur.push(s[k - 1]) =~= s.subrange(st, k as int));
            assert(done + cur.push(s[k - 1]) =~= (done + cur).push(s[k - 1]));
        } else {
            let piece = run_piece(cur, ltr);
            let done2 = done + piece;
            assert forall|j: int| 0 <= j < k - 1 implies #[trigger] done2[j] == ltr_runs_reversed(
                s,
            )[j] by {
                if j >= st {
                    if ltr {
                        lemma_run_bounds(s, st, k - 1, j);
                        assert(done2[j] == cur.reverse()[j - st]);
                    } else {
                        assert(done2[j] == cur[j - st]);
                    }
                }
            }
            assert(s.subrange(k - 1, k as int) =~= seq![s[k - 1]]);
            vstd::seq_lib::lemma_multiset_commutative(done, piece);
            vstd::seq_lib::lemma_multiset_commutative(done, cur);
            vstd::seq_lib::lemma_multiset_commutative(done2, seq![s[k - 1]]);
            vstd::seq_lib::lemma_multiset_commutative(done + cur, seq![s[k - 1]]);
            if ltr {
                cur.lemma_reverse_to_multiset();
            }
            assert((done + cur).push(s[k - 1]) =~= (done + cur) + seq![s[k - 1]]);
        }
    }
}

/// Visual-to-logical order is the text with its left-to-right runs
/// reversed in place, turned around; it keeps every character.
pub proof fn lemma_visual_to_logical_runs(s: Seq<char>)
    ensures
        visual_to_logical(s) == ltr_runs_reversed(s).reverse(),
        visual_to_logical(s).to_multiset() == s.to_multiset(),
{
    if !has_ascii_alnum(s) {
        assert forall|i: int| 0 <= i < s.len() implies !#[trigger] ltr_at(s, i) by {
            if i > 0 {
                assert(!ascii_alphanumeric(s[i - 1]));
            }
            if i + 1 < s.len() {
                assert(!ascii_alphanumeric(s[i + 1]));
            }
        }
        assert(ltr_runs_reversed(s) =~= s);
        s.lemma_reverse_to_multiset();
    } else {
        let (done, cur, ltr) = run_state(s, s.len());
        lemma_run_state(s, s.len());
        let st = s.len() - cur.len();
        let u = done + run_piece(cur, ltr);
        assert forall|j: int| 0 <= j < s.len() implies #[trigger] u[j] == ltr_runs_reversed(s)[j] by {
            if j >= st {
                if ltr {
                    lemma_run_bounds(s, st, s.len() as int, j);
                    assert(u[j] == cur.reverse()[j - st]);
                } else {
                    assert(u[j] == cur[j - st]);
                }
            }
        }
        assert(u =~= ltr_runs_reversed(s));
        assert(s.take(s.len() as int) =~= s);
        vstd::seq_lib::lemma_multiset_commutative(done, run_piece(cur, ltr));
        vstd::seq_lib::lemma_multiset_commutative(done, cur);
        if ltr {
            cur.lemma_reverse_to_multiset();
        }
        u.lemma_reverse_to_multiset();
    }
}

/// Without ASCII punctuation, a character is left-to-right exactly when
/// it is an ASCII letter or digit.
proof fn lemma_ltr_plain(s: Seq<char>, i: int)
    requires
        !has_ascii_punctuation(s),
        0 <= i < s.len(),
    ensures
        ltr_at(s, i) == ascii_alphanumeric(s[i]),
{
    assert(!ascii_punctuation(s[i]));
}

/// Without ASCII punctuation, reversing the runs commutes with turning
/// the text around.
proof fn lemma_runs_reversed_reverse(s: Seq<char>)
    requires
        !has_ascii_punctuation(s),
    ensures
        ltr_runs_reversed(s.reverse()) == ltr_runs_reversed(s).reverse(),
{
    let n = s.len() as int;
    let r = s.reverse();
    assert(!has_ascii_punctuation(r)) by {
        if has_ascii_punctuation(r) {
            let i = choose|i: int| 0 <= i < r.len() && ascii_punctuation(#[trigger] r[i]);
            assert(r[i] == s[n - 1 - i]);
        }
    }
    assert forall|i: int| 0 <= i < n implies #[trigger] ltr_at(r, i) == ltr_at(s, n - 1 - i) by {
        lemma_ltr_plain(r, i);
        lemma_ltr_plain(s, n - 1 - i);
    }
    assert forall|i: int| 0 <= i < n implies #[trigger] ltr_runs_reversed(r)[i]
        == ltr_runs_reversed(s).reverse()[i] by {
        let j = n - 1 - i;
        if ltr_at(s, j) {
            lemma_run_props(s, j);
            let af = run_first(s, j);
            let bl = run_last(s, j);
            assert forall|m: int| n - 1 - bl <= m < n - af implies #[trigger] ltr_at(r, m) by {
                assert(ltr_at(s, n - 1 - m));
            }
            if n - 1 - bl > 0 {
                assert(ltr_at(r, n - 2 - bl) == ltr_at(s, bl + 1));
            }
            if n - af < n {
                assert(ltr_at(r, n - af) == ltr_at(s, af - 1));
            }
            lemma_run_bounds(r, n - 1 - bl, n - af, i);
        }
    }
    assert(ltr_runs_reversed(r) =~= ltr_runs_reversed(s).reverse());
}

/// Without ASCII punctuation, reversing the runs twice gives the text
/// back, and the result has no punctuation either.
proof fn lemma_runs_reversed_twice(s: Seq<char>)
    requires
        !has_ascii_punctuation(s),
    ensures
        !has_ascii_punctuation(ltr_runs_reversed(s)),
        ltr_runs_reversed(ltr_runs_reversed(s)) == s,
{
    let t = ltr_runs_reversed(s);
    let n = s.len() as int;
    assert forall|i: int| 0 <= i < n implies (#[trigger] t[i] == s[i] || (ltr_at(s, i)
        && run_first(s, i) <= run_first(s, i) + run_last(s, i) - i <= run_last(s, i))) by {
        if ltr_at(s, i) {
            lemma_run_props(s, i);
        }
    }
    assert(!has_ascii_punctuation(t)) by {
        if has_ascii_punctuation(t) {
            let i = choose|i: int| 0 <= i < t.len() && ascii_punctuation(#[trigger] t[i]);
            if ltr_at(s, i) {
                lemma_run_props(s, i);
                assert(!ascii_punctuation(s[run_first(s, i) + run_last(s, i) - i]));
            } else {
                assert(!ascii_punctuation(s[i]));
            }
        }
    }
    assert forall|i: int| 0 <= i < n implies #[trigger] ltr_at(t, i) == ltr_at(s, i) by {
        lemma_ltr_plain(t, i);
        lemma_ltr_plain(s, i);
        if ltr_at(s, i) {
            lemma_run_props(s, i);
            let m = run_first(s, i) + run_last(s, i) - i;
            assert(ltr_at(s, m));
            lemma_ltr_plain(s, m);
        }
    }
    assert forall|i: int| 0 <= i < n implies #[trigger] ltr_runs_reversed(t)[i] == s[i] by {
        if ltr_at(s, i) {
            lemma_run_props(s, i);
            let af = run_first(s, i);
            let bl = run_last(s, i);
            assert forall|m: int| af <= m < bl + 1 implies #[trigger] ltr_at(t, m) by {
                assert(ltr_at(s, m));
            }
            if af > 0 {
                assert(ltr_at(t, af - 1) == ltr_at(s, af - 1));
            }
            if bl + 1 < n {
                assert(ltr_at(t, bl + 1) == ltr_at(s, bl + 1));
            }
            lemma_run_bounds(t, af, bl + 1, i);
            let m = af + bl - i;
            lemma_run_bounds(s, af, bl + 1, m);
            assert(ltr_at(s, m));
            assert(t[m] == s[af + bl - m]);
        }
    }
    assert(ltr_runs_reversed(t) =~= s);
}

/// Visual-to-logical order keeps every character, and on text without
/// ASCII punctuation (or without ASCII letters and digits) applying it
/// twice gives the text back.
pub proof fn lemma_visual_to_logical_round_trip(s: Seq<char>)
    requires
        !has_ascii_punctuation(s) || !has_ascii_alnum(s),
    ensures
        visual_to_logical(visual_to_logical(s)) == s,
        visual_to_logical(s).to_multiset() == s.to_multiset(),
{
    lemma_visual_to_logical_runs(s);
    if !has_ascii_alnum(s) {
        lemma_visual_to_logical_pure_rtl(s);
    } else {
        let t = ltr_runs_reversed(s);
        lemma_runs_reversed_twice(s);
        lemma_visual_to_logical_runs(t.reverse());
        assert(!has_ascii_punctuation(t.reverse())) by {
            if has_ascii_punctuation(t.reverse()) {
                let i = choose|i: int| 0 <= i < t.reverse().len() && ascii_punctuation(
                    #[trigger] t.reverse()[i],
                );
                assert(t.reverse()[i] == t[t.len() - 1 - i]);
            }
        }
        lemma_runs_reversed_reverse(t);
        assert(t.reverse().reverse() =~= t);
    }
}

/// Check if the character at `idx` is adjacent to an ASCII alphanumeric.
pub fn is_adjacent_to_ascii_alnum(chars: &[char], idx: usize) -> (r: bool)
    requires
        idx < chars@.len(),
    ensures
        r == adjacent_to_ascii_alnum(chars@, idx as int),
{
    (idx > 0 && is_ascii_alphanumeric(chars[idx - 1])) || (idx + 1 < chars.len()
        && is_ascii_alphanumeric(chars[idx + 1]))
}

fn reversed(v: &[char]) -> (r: Vec<char>)
    ensures
        r@ == v@.reverse(),
{
    let mut r: Vec<char> = Vec::new();
    let mut i: usize = v.len();
    while i > 0
        invariant
            i <= v@.len(),
            r@ == v@.subrange(i as int, v@.len() as int).reverse(),
        decreases i,
    {
        i -= 1;
        r.push(v[i]);
        assert(r@ =~= v@.subrange(i as int, v@.len() as int).reverse());
    }
    assert(v@.subrange(0, v@.len() as int) =~= v@);
    r
}

fn append_piece(out: &mut Vec<char>, run: &[char], ltr: bool)
    ensures
        final(out)@ == old(out)@ + run_piece(run@, ltr),
{
    let piece = if ltr {
        reversed(run)
    } else {
        slice_copy(run)
    };
    let mut i: usize = 0;
    while i < piece.len()
        invariant
            i <= piece@.len(),
            piece@ == run_piece(run@, ltr),
            out@ == old(out)@ + piece@.take(i as int),
        decreases piece@.len() - i,
    {
        out.push(piece[i]);
        i += 1;
        assert(out@ =~= old(out)@ + piece@.take(i as int));
    }
    assert(piece@.take(piece@.len() as int) =~= piece@);
}

fn slice_copy(v: &[char]) -> (r: Vec<char>)
    ensures
        r@ == v@,
{
    let mut r: Vec<char> = Vec::new();
    let mut i: usize = 0;
    while i < v.len()
        invariant
            i <= v@.len(),
            r@ == v@.take(i as int),
        decreases v@.len() - i,
    {
        r.push(v[i]);
        i += 1;
        assert(r@ =~= v@.take(i as int));
    }
    assert(v@.take(v@.len() as int) =~= v@);
    r
}

fn visual_to_logical_exec(chars: &[char]) -> (r: Vec<char>)
    ensures
        r@ == visual_to_logical(chars@),
{
    let mut has_ltr = false;
    let mut k: usize = 0;
    while k < chars.len()
        invariant
            k <= chars@.len(),
            has_ltr == has_ascii_alnum(chars@.take(k as int)),
        decreases chars@.len() - k,
    {
        proof {
            assert forall|j: int| 0 <= j < k implies chars@.take(k + 1)[j] == chars@.take(
                k as int,
            )[j] by {}
            assert(chars@.take(k + 1)[k as int] == chars@[k as int]);
        }
        if is_ascii_alphanumeric(chars[k]) {
            has_ltr = true;
        }
        k += 1;
    }
    assert(chars@.take(chars@.len() as int) =~= chars@);
    if !has_ltr {
        return reversed(chars);
    }
    let n = chars.len();
    let mut out: Vec<char> = Vec::new();
    let mut cur: Vec<char> = Vec::new();
    let mut cur_ltr = false;
    let mut i: usize = 0;
    while i < n
        invariant
            n == chars@.len(),
            i <= n,
            run_state(chars@, i as nat) == (out@, cur@, cur_ltr),
        decreases n - i,
    {
        let c_ltr = is_ascii_alphanumeric(chars[i]) || (is_ascii_punctuation(chars[i])
            && is_adjacent_to_ascii_alnum(chars, i));
        if i == 0 {
            cur.push(chars[i]);
            cur_ltr = c_ltr;
        } else if c_ltr == cur_ltr {
            cur.push(chars[i]);
        } else {
            append_piece(&mut out, cur.as_slice(), cur_ltr);
            cur = Vec::new();
            cur.push(chars[i]);
            cur_ltr = c_ltr;
        }
        proof {
            if i == 0 {
                assert(cur@ =~= seq![chars@[0]]);
            }
        }
        i += 1;
    }
    append_piece(&mut out, cur.as_slice(), cur_ltr);
    reversed(out.as_slice())
}

/// Reverse visual-order Arabic text to logical order.
///
/// Pure RTL text gets a simple character reversal. Mixed content
/// (embedded numbers or Latin words) splits into LTR and non-LTR runs:
/// run order is reversed, and only non-LTR runs are reversed internally.
pub fn reverse_visual_arabic(text: &str) -> (r: String)
    ensures
        r@ == visual_to_logical(text@),
{
    let v = str_chars(text);
    let out = visual_to_logical_exec(v.as_slice());
    string_from_chars(out.as_slice())
}

// ── PDF text strings ───────────────────────────────────────────────

pub open spec fn high_surrogate(u: u16) -> bool {
    0xD800 <= u && u <= 0xDBFF
}

pub open spec fn low_surrogate(u: u16) -> bool {
    0xDC00 <= u && u <= 0xDFFF
}

/// Lossy UTF-16 decoding: a high surrogate followed by a low surrogate
/// makes one supplementary character; every other surrogate becomes
/// U+FFFD; every other unit is its own character.
pub open spec fn utf16_decode_lossy(u: Seq<u16>) -> Seq<char>
    decreases u.len(),
{
    if u.len() == 0 {
        seq![]
    } else if u.len() >= 2 && high_surrogate(u[0]) && low_surrogate(u[1]) {
        seq![
            ((0x10000 + (u[0] - 0xD800) * 0x400 + (u[1] - 0xDC00)) as u32) as char,
        ] + utf16_decode_lossy(u.subrange(2, u.len() as int))
    } else if high_surrogate(u[0]) || low_surrogate(u[0]) {
        seq!['\u{FFFD}'] + utf16_decode_lossy(u.subrange(1, u.len() as int))
    } else {
        seq![(u[0] as u32) as char] + utf16_decode_lossy(u.subrange(1, u.len() as int))
    }
}

/// The big-endian 16-bit units after a two-byte prefix; a trailing odd
/// byte is ignored.
pub open spec fn utf16be_units(b: Seq<u8>) -> Seq<u16> {
    Seq::new(
        ((b.len() - 2) / 2) as nat,
        |i: int| (b[2 + 2 * i] * 256 + b[3 + 2 * i]) as u16,
    )
}

/// What `decode_text_string` returns: UTF-16BE after a `FE FF` byte order
/// mark, otherwise each byte as the character with that code (Latin-1).
pub open spec fn decoded_text_string(b: Seq<u8>) -> Seq<char> {
    if b.len() >= 2 && b[0] == 0xFE && b[1] == 0xFF {
        utf16_decode_lossy(utf16be_units(b))
    } else {
        Seq::new(b.len(), |i: int| (b[i] as u32) as char)
    }
}

/// `String::from_utf16_lossy`, whose documentation states the decoding
/// that `utf16_decode_lossy` writes out.
#[verifier::external_body]
fn string_from_utf16_lossy(units: &[u16]) -> (r: String)
    ensures
        r@ == utf16_decode_lossy(units@),
{
    String::from_utf16_lossy(units)
}

/// Decode a PDF text string that may be UTF-16BE (BOM `\xFE\xFF`) or
/// `PDFDocEncoding` (Latin-1 superset).
pub fn decode_text_string(bytes: &[u8]) -> (r: String)
    ensures
        r@ == decoded_text_string(bytes@),
{
    let len = bytes.len();
    if len >= 2 && bytes[0] == 0xFE && bytes[1] == 0xFF {
        let mut units: Vec<u16> = Vec::new();
        let mut i: usize = 2;
        while i + 1 < len
            invariant
                len == bytes@.len(),
                2 <= i <= len,
                (i - 2) % 2 == 0,
                units@ == utf16be_units(bytes@).take((i - 2) / 2),
            decreases len - i,
        {
            let unit: u16 = (bytes[i] as u16) * 256 + (bytes[i + 1] as u16);
            units.push(unit);
            i += 2;
            assert(units@ =~= utf16be_units(bytes@).take((i - 2) / 2));
        }
        assert(units@ =~= utf16be_units(bytes@));
        string_from_utf16_lossy(units.as_slice())
    } else {
        let mut out = String::new();
        let mut i: usize = 0;
        while i < len
            invariant
                len == bytes@.len(),
                i <= len,
                out@ =~= Seq::new(i as nat, |k: int| (bytes@[k] as u32) as char),
            decreases len - i,
        {
            push_char(&mut out, bytes[i] as char);
            i += 1;
        }
        out
    }
}

// ── Font names ─────────────────────────────────────────────────────

/// A (lowercased) font name that indicates bold style.
pub open spec fn bold_name(lower: Seq<char>) -> bool {
    contains_seq(lower, "bold"@) || contains_seq(lower, "-bd"@) || contains_seq(lower, "_bd"@)
        || contains_seq(lower, "black"@) || contains_seq(lower, "heavy"@) || contains_seq(
        lower,
        "demibold"@,
    ) || contains_seq(lower, "semibold"@) || contains_seq(lower, "demi-bold"@) || contains_seq(
        lower,
        "semi-bold"@,
    ) || contains_seq(lower, "extrabold"@) || contains_seq(lower, "ultrabold"@) || (
    contains_seq(lower, "medium"@) && !contains_seq(lower, "mediumitalic"@))
}

/// A (lowercased) font name that indicates italic or oblique style.
pub open spec fn italic_name(lower: Seq<char>) -> bool {
    contains_seq(lower, "italic"@) || contains_seq(lower, "oblique"@) || contains_seq(
        lower,
        "-it"@,
    ) || contains_seq(lower, "_it"@) || contains_seq(lower, "slant"@) || contains_seq(
        lower,
        "inclined"@,
    ) || contains_seq(lower, "kursiv"@)
}

/// Check if a font name indicates bold style.
pub fn is_bold_font(font_name: &str) -> (r: bool)
    ensures
        r == bold_name(lowercase_of(font_name@)),
{
    let lower = to_lowercase(font_name);
    let l = lower.as_str();
    str_contains(l, "bold") || str_contains(l, "-bd") || str_contains(l, "_bd") || str_contains(
        l,
        "black",
    ) || str_contains(l, "heavy") || str_contains(l, "demibold") || str_contains(l, "semibold")
        || str_contains(l, "demi-bold") || str_contains(l, "semi-bold") || str_contains(
        l,
        "extrabold",
    ) || str_contains(l, "ultrabold") || (str_contains(l, "medium") && !str_contains(
        l,
        "mediumitalic",
    ))
}

/// Check if a font name indicates italic/oblique style.
pub fn is_italic_font(font_name: &str) -> (r: bool)
    ensures
        r == italic_name(lowercase_of(font_name@)),
{
    let lower = to_lowercase(font_name);
    let l = lower.as_str();
    str_contains(l, "italic") || str_contains(l, "oblique") || str_contains(l, "-it")
        || str_contains(l, "_it") || str_contains(l, "slant") || str_contains(l, "inclined")
        || str_contains(l, "kursiv")
}

/// Check if a font name indicates a CID font.
pub fn is_cid_font(font: &str) -> (r: bool)
    ensures
        r == (starts_with(font@, "C2_"@) || starts_with(font@, "C0_"@)),
{
    let f = str_chars(font);
    let c2 = str_chars("C2_");
    let c0 = str_chars("C0_");
    starts_with_exec(f.as_slice(), c2.as_slice()) || starts_with_exec(f.as_slice(), c0.as_slice())
}

// ── Laws of ligature expansion ─────────────────────────────────────

/// A character that `expand_ligatures` leaves as it is: kept by the
/// control filter, and neither a presentation form, a ligature, an
/// invisible character nor a typographic space.
pub open spec fn plain_char(c: char) -> bool {
    kept_char(c) && !arabic_presentation_form(c) && !invisible_char(c) && !typographic_space(c)
        && !('\u{FB00}' <= c && c <= '\u{FB06}')
}

/// Every character of `s` is plain.
pub open spec fn plain_text(s: Seq<char>) -> bool {
    forall|i: int| 0 <= i < s.len() ==> plain_char(#[trigger] s[i])
}

proof fn lemma_plain_prefix(s: Seq<char>)
    requires
        plain_text(s),
    ensures
        keep_printable(s) == s,
        expand_seq(s) == s,
    decreases s.len(),
{
    if s.len() > 0 {
        assert(plain_char(s[s.len() - 1]));
        assert(plain_text(s.drop_last())) by {
            assert forall|i: int| 0 <= i < s.drop_last().len() implies plain_char(
                #[trigger] s.drop_last()[i],
            ) by {
                assert(s.drop_last()[i] == s[i]);
            }
        }
        lemma_plain_prefix(s.drop_last());
        assert(s.drop_last().push(s.last()) =~= s);
        assert(s.drop_last() + seq![s.last()] =~= s);
    }
}

/// Text made only of plain characters comes back unchanged.
pub proof fn lemma_plain_text_unchanged(s: Seq<char>)
    requires
        plain_text(s),
    ensures
        ligatures_expanded(s) == s,
{
    lemma_plain_prefix(s);
    assert(!has_presentation_form(s)) by {
        if has_presentation_form(s) {
            let i = choose|i: int| 0 <= i < s.len() && arabic_presentation_form(#[trigger] s[i]);
            assert(plain_char(s[i]));
        }
    }
}

proof fn lemma_keep_printable_kept(s: Seq<char>)
    ensures
        forall|i: int|
            0 <= i < keep_printable(s).len() ==> kept_char(#[trigger] keep_printable(s)[i])
                && exists|j: int| 0 <= j < s.len() && s[j] == keep_printable(s)[i],
    decreases s.len(),
{
    if s.len() > 0 {
        lemma_keep_printable_kept(s.drop_last());
        let p = keep_printable(s.drop_last());
        assert forall|i: int| 0 <= i < keep_printable(s).len() implies kept_char(
            #[trigger] keep_printable(s)[i],
        ) && exists|j: int| 0 <= j < s.len() && s[j] == keep_printable(s)[i] by {
            if i < p.len() {
                assert(keep_printable(s)[i] == p[i]);
                let j = choose|j: int| 0 <= j < s.drop_last().len() && s.drop_last()[j] == p[i];
                assert(s[j] == p[i]);
            } else {
                assert(keep_printable(s)[i] == s.last());
                assert(s[s.len() - 1] == s.last());
            }
        }
    }
}

proof fn lemma_expand_seq_plain(t: Seq<char>)
    requires
        forall|i: int| 0 <= i < t.len() ==> kept_char(#[trigger] t[i]),
        !has_presentation_form(t),
    ensures
        plain_text(expand_seq(t)),
    decreases t.len(),
{
    if t.len() > 0 {
        let c = t.last();
        assert(kept_char(t[t.len() - 1]));
        assert(!arabic_presentation_form(c)) by {
            if arabic_presentation_form(c) {
                assert(arabic_presentation_form(t[t.len() - 1]));
            }
        }
        assert(!has_presentation_form(t.drop_last())) by {
            if has_presentation_form(t.drop_last()) {
                let i = choose|i: int|
                    0 <= i < t.drop_last().len() && arabic_presentation_form(
                        #[trigger] t.drop_last()[i],
                    );
                assert(t.drop_last()[i] == t[i]);
            }
        }
        assert forall|i: int| 0 <= i < t.drop_last().len() implies kept_char(
            #[trigger] t.drop_last()[i],
        ) by {
            assert(t.drop_last()[i] == t[i]);
        }
        lemma_expand_seq_plain(t.drop_last());
        let prev = expand_seq(t.drop_last());
        let tail = expand_char(c);
        assert(plain_text(tail));
        assert forall|i: int| 0 <= i < (prev + tail).len() implies plain_char(
            #[trigger] (prev + tail)[i],
        ) by {
            if i < prev.len() {
                assert((prev + tail)[i] == prev[i]);
            } else {
                assert((prev + tail)[i] == tail[i - prev.len()]);
            }
        }
    }
}

/// A character that the expansion step leaves as it is and that the
/// control filter keeps.
pub open spec fn expanded_char(c: char) -> bool {
    kept_char(c) && !invisible_char(c) && !typographic_space(c) && !('\u{FB00}' <= c && c
        <= '\u{FB06}')
}

proof fn lemma_expand_seq_expanded(t: Seq<char>)
    requires
        forall|i: int| 0 <= i < t.len() ==> kept_char(#[trigger] t[i]),
    ensures
        forall|i: int| 0 <= i < expand_seq(t).len() ==> expanded_char(#[trigger] expand_seq(t)[i]),
    decreases t.len(),
{
    if t.len() > 0 {
        assert(kept_char(t[t.len() - 1]));
        assert forall|i: int| 0 <= i < t.drop_last().len() implies kept_char(
            #[trigger] t.drop_last()[i],
        ) by {
            assert(t.drop_last()[i] == t[i]);
        }
        lemma_expand_seq_expanded(t.drop_last());
        let prev = expand_seq(t.drop_last());
        let tail = expand_char(t.last());
        assert forall|i: int| 0 <= i < (prev + tail).len() implies expanded_char(
            #[trigger] (prev + tail)[i],
        ) by {
            if i < prev.len() {
                assert((prev + tail)[i] == prev[i]);
            } else {
                assert((prev + tail)[i] == tail[i - prev.len()]);
            }
        }
    }
}

/// Expanding twice is expanding once for text with Arabic presentation
/// forms, when the NFKC form of its printable characters has no control
/// characters and the first expansion leaves no presentation form.
pub proof fn lemma_expand_ligatures_idempotent_normalized(s: Seq<char>)
    requires
        has_presentation_form(keep_printable(s)),
        forall|i: int|
            0 <= i < nfkc_form(keep_printable(s)).len() ==> kept_char(
                #[trigger] nfkc_form(keep_printable(s))[i],
            ),
        !has_presentation_form(ligatures_expanded(s)),
    ensures
        ligatures_expanded(ligatures_expanded(s)) == ligatures_expanded(s),
{
    broadcast use vstd::seq_lib::group_to_multiset_ensures;

    let n = nfkc_form(keep_printable(s));
    let e = expand_seq(n);
    lemma_expand_seq_expanded(n);
    lemma_visual_to_logical_runs(e);
    let v = visual_to_logical(e);
    assert(v == ligatures_expanded(s));
    assert forall|i: int| 0 <= i < v.len() implies plain_char(#[trigger] v[i]) by {
        assert(v.contains(v[i]));
        assert(v.to_multiset().count(v[i]) > 0);
        assert(e.contains(v[i]));
        let j = choose|j: int| 0 <= j < e.len() && e[j] == v[i];
        assert(expanded_char(e[j]));
        assert(!arabic_presentation_form(v[i]));
    }
    lemma_plain_text_unchanged(v);
}

/// The Latin letters that a Latin typographic ligature stands for: ff,
/// fi, fl, ffi, ffl, and st for both long-s-t and s-t.
pub open spec fn ligature_letters(c: char) -> Option<Seq<char>> {
    if c == '\u{FB00}' {
        Some(seq!['f', 'f'])
    } else if c == '\u{FB01}' {
        Some(seq!['f', 'i'])
    } else if c == '\u{FB02}' {
        Some(seq!['f', 'l'])
    } else if c == '\u{FB03}' {
        Some(seq!['f', 'f', 'i'])
    } else if c == '\u{FB04}' {
        Some(seq!['f', 'f', 'l'])
    } else if c == '\u{FB05}' || c == '\u{FB06}' {
        Some(seq!['s', 't'])
    } else {
        None
    }
}

proof fn lemma_keep_printable_append(x: Seq<char>, y: Seq<char>)
    ensures
        keep_printable(x + y) == keep_printable(x) + keep_printable(y),
    decreases y.len(),
{
    if y.len() == 0 {
        assert(x + y =~= x);
    } else {
        lemma_keep_printable_append(x, y.drop_last());
        assert((x + y).drop_last() =~= x + y.drop_last());
        assert((x + y).last() == y.last());
    }
}

proof fn lemma_expand_seq_append(x: Seq<char>, y: Seq<char>)
    ensures
        expand_seq(x + y) == expand_seq(x) + expand_seq(y),
    decreases y.len(),
{
    if y.len() == 0 {
        assert(x + y =~= x);
    } else {
        lemma_expand_seq_append(x, y.drop_last());
        assert((x + y).drop_last() =~= x + y.drop_last());
        assert((x + y).last() == y.last());
    }
}

proof fn lemma_no_presentation_form_kept(a: Seq<char>)
    requires
        !has_presentation_form(a),
    ensures
        !has_presentation_form(keep_printable(a)),
{
    lemma_keep_printable_kept(a);
    if has_presentation_form(keep_printable(a)) {
        let k = keep_printable(a);
        let i = choose|i: int| 0 <= i < k.len() && arabic_presentation_form(#[trigger] k[i]);
        let j = choose|j: int| 0 <= j < a.len() && a[j] == k[i];
        assert(arabic_presentation_form(a[j]));
    }
}

/// A Latin ligature in text without Arabic presentation forms becomes its
/// own letters, in place: the text before it and the text after it are
/// expanded as they would be on their own.
pub proof fn lemma_ligature_expands_in_place(a: Seq<char>, c: char, b: Seq<char>)
    requires
        ligature_letters(c) is Some,
        !has_presentation_form(a),
        !has_presentation_form(b),
    ensures
        ligatures_expanded(a + seq![c] + b) == ligatures_expanded(a) + ligature_letters(c)->0
            + ligatures_expanded(b),
{
    let s = a + seq![c] + b;
    lemma_keep_printable_append(a + seq![c], b);
    lemma_keep_printable_append(a, seq![c]);
    assert(seq![c].drop_last() =~= Seq::<char>::empty());
    assert(kept_char(c));
    assert(keep_printable(seq![c]) =~= seq![c]) by {
        reveal_with_fuel(keep_printable, 2);
    }
    lemma_no_presentation_form_kept(a);
    lemma_no_presentation_form_kept(b);
    let ka = keep_printable(a);
    let kb = keep_printable(b);
    assert(keep_printable(s) == ka + seq![c] + kb);
    assert(!has_presentation_form(ka + seq![c] + kb)) by {
        if has_presentation_form(ka + seq![c] + kb) {
            let t = ka + seq![c] + kb;
            let i = choose|i: int| 0 <= i < t.len() && arabic_presentation_form(#[trigger] t[i]);
            if i < ka.len() {
                assert(t[i] == ka[i]);
            } else if i == ka.len() {
                assert(t[i] == c);
            } else {
                assert(t[i] == kb[i - ka.len() - 1]);
            }
        }
    }
    lemma_expand_seq_append(ka + seq![c], kb);
    lemma_expand_seq_append(ka, seq![c]);
    assert(expand_seq(seq![c]) =~= expand_char(c)) by {
        assert(seq![c].drop_last() =~= Seq::<char>::empty());
        assert(seq![c].last() == c);
        reveal_with_fuel(expand_seq, 2);
    }
}

/// Soft hyphens, zero-width spaces and joiners, word joiners and byte
/// order marks vanish, and the typographic spaces U+2000..U+200A become
/// one ASCII space each, in place: the text around them is expanded as it
/// would be on its own (for text without Arabic presentation forms).
pub proof fn lemma_invisible_and_spaces_in_place(a: Seq<char>, c: char, b: Seq<char>)
    requires
        c == '\u{00AD}' || c == '\u{200B}' || c == '\u{FEFF}' || c == '\u{200C}' || c
            == '\u{200D}' || c == '\u{2060}' || ('\u{2000}' <= c && c <= '\u{200A}'),
        !has_presentation_form(a),
        !has_presentation_form(b),
    ensures
        ligatures_expanded(a + seq![c] + b) == ligatures_expanded(a) + (if '\u{2000}' <= c && c
            <= '\u{200A}' {
            seq![' ']
        } else {
            Seq::<char>::empty()
        }) + ligatures_expanded(b),
{
    lemma_keep_printable_append(a + seq![c], b);
    lemma_keep_printable_append(a, seq![c]);
    assert(seq![c].drop_last() =~= Seq::<char>::empty());
    assert(kept_char(c));
    assert(keep_printable(seq![c]) =~= seq![c]) by {
        reveal_with_fuel(keep_printable, 2);
    }
    lemma_no_presentation_form_kept(a);
    lemma_no_presentation_form_kept(b);
    let ka = keep_printable(a);
    let kb = keep_printable(b);
    assert(!has_presentation_form(ka + seq![c] + kb)) by {
        if has_presentation_form(ka + seq![c] + kb) {
            let t = ka + seq![c] + kb;
            let i = choose|i: int| 0 <= i < t.len() && arabic_presentation_form(#[trigger] t[i]);
            if i < ka.len() {
                assert(t[i] == ka[i]);
            } else if i == ka.len() {
                assert(t[i] == c);
            } else {
                assert(t[i] == kb[i - ka.len() - 1]);
            }
        }
    }
    lemma_expand_seq_append(ka + seq![c], kb);
    lemma_expand_seq_append(ka, seq![c]);
    assert(expand_seq(seq![c]) =~= expand_char(c)) by {
        assert(seq![c].last() == c);
        reveal_with_fuel(expand_seq, 2);
    }
}

/// Expanding twice is expanding once, for text without Arabic
/// presentation forms.
pub proof fn lemma_expand_ligatures_idempotent(s: Seq<char>)
    requires
        !has_presentation_form(keep_printable(s)),
    ensures
        ligatures_expanded(ligatures_expanded(s)) == ligatures_expanded(s),
{
    let t = keep_printable(s);
    lemma_keep_printable_kept(s);
    assert forall|i: int| 0 <= i < t.len() implies kept_char(#[trigger] t[i]) by {}
    lemma_expand_seq_plain(t);
    lemma_plain_text_unchanged(expand_seq(t));
}

} // verus!
