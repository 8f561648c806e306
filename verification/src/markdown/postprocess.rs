//! Post-processing of the generated markdown: dot leaders, hyphenation,
//! page numbers, URL formatting and white space.

use vstd::prelude::*;

use vstd::string::StringSliceAdditionalSpecFns;
use vstd::utf8::is_char_boundary;

use crate::text::chars::{
    ascii_digit, contains_seq, count, eq_chars, find_exec, find_seq, is_ascii_digit, is_whitespace, lowercase_of,
    matches_at, matches_at_exec, white_space,
    slice_to_vec_range, starts_with, starts_with_exec, str_chars, string_from_chars, to_lowercase,
    trim, trim_end, trim_exec, trim_start, trim_start_index,
};
use crate::text::words::{
    append_chars, copy_chars, join_exec, join_with, lines_exec, lines_of, split_exec, split_on,
    views_of, words_exec, words_of,
};

verus! {

// ── Dot leaders ────────────────────────────────────────────────────

/// The number of consecutive dots in `s` from index `i` on.
pub open spec fn dot_run(s: Seq<char>, i: int) -> nat
    decreases s.len() - i,
{
    if 0 <= i < s.len() && s[i] == '.' {
        1 + dot_run(s, i + 1)
    } else {
        0
    }
}

/// `s` from index `i` on, with every run of four or more dots replaced by
/// `" ... "`.
pub open spec fn collapsed_dots_from(s: Seq<char>, i: int) -> Seq<char>
    decreases s.len() - i,
{
    if i < 0 || i >= s.len() {
        seq![]
    } else if dot_run(s, i) >= 4 {
        proof {
            lemma_dot_run_bound(s, i);
        }
        " ... "@ + collapsed_dots_from(s, i + dot_run(s, i))
    } else {
        seq![s[i]] + collapsed_dots_from(s, i + 1)
    }
}

/// `s` with every run of four or more dots replaced by `" ... "`.
pub open spec fn collapsed_dots(s: Seq<char>) -> Seq<char> {
    collapsed_dots_from(s, 0)
}

pub proof fn lemma_dot_run_bound(s: Seq<char>, i: int)
    requires
        0 <= i <= s.len(),
    ensures
        i + dot_run(s, i) <= s.len(),
    decreases s.len() - i,
{
    if i < s.len() && s[i] == '.' {
        lemma_dot_run_bound(s, i + 1);
    }
}

/// The length of the run of dots at `i`.
fn dot_run_exec(s: &[char], i: usize) -> (r: usize)
    requires
        i <= s@.len(),
    ensures
        r == dot_run(s@, i as int),
        i + r <= s@.len(),
{
    let mut j: usize = i;
    while j < s.len() && s[j] == '.'
        invariant
            i <= j <= s@.len(),
            dot_run(s@, i as int) == (j - i) + dot_run(s@, j as int),
        decreases s@.len() - j,
    {
        j += 1;
    }
    proof {
        lemma_dot_run_bound(s@, i as int);
    }
    j - i
}

/// Collapse dot leaders (runs of 4+ dots) into " ... ".
pub fn collapse_dot_leaders(text: &str) -> (r: String)
    ensures
        r@ == collapsed_dots(text@),
{
    let v = str_chars(text);
    let dots = str_chars(" ... ");
    let mut out: Vec<char> = Vec::new();
    let mut i: usize = 0;
    while i < v.len()
        invariant
            v@ == text@,
            dots@ == " ... "@,
            i <= v@.len(),
            out@ + collapsed_dots_from(v@, i as int) == collapsed_dots(v@),
        decreases v@.len() - i,
    {
        let run = dot_run_exec(v.as_slice(), i);
        if run >= 4 {
            append_chars(&mut out, dots.as_slice());
            assert(out@ + collapsed_dots_from(v@, (i + run) as int) =~= collapsed_dots(v@));
            i = i + run;
        } else {
            out.push(v[i]);
            assert(out@ + collapsed_dots_from(v@, i + 1) =~= collapsed_dots(v@));
            i = i + 1;
        }
    }
    assert(out@ =~= collapsed_dots(v@));
    string_from_chars(out.as_slice())
}

/// No four dots in a row.
pub open spec fn no_four_dots(t: Seq<char>) -> bool {
    forall|k: int|
        0 <= k && k + 3 < t.len() ==> !(#[trigger] t[k] == '.' && t[k + 1] == '.' && t[k + 2] == '.'
            && t[k + 3] == '.')
}

proof fn lemma_dot_run_shift(a: Seq<char>, b: Seq<char>, j: int)
    requires
        0 <= j <= b.len(),
    ensures
        dot_run(a + b, a.len() + j) == dot_run(b, j),
    decreases b.len() - j,
{
    if j < b.len() {
        assert((a + b)[a.len() + j] == b[j]);
        lemma_dot_run_shift(a, b, j + 1);
    }
}

proof fn lemma_dot_run_end(s: Seq<char>, i: int)
    requires
        0 <= i <= s.len(),
    ensures
        i + dot_run(s, i) < s.len() ==> s[i + dot_run(s, i)] != '.',
    decreases s.len() - i,
{
    if i < s.len() && s[i] == '.' {
        lemma_dot_run_end(s, i + 1);
    }
}

proof fn lemma_dot_run_at_least(t: Seq<char>, i: int, m: int)
    requires
        0 <= i,
        0 <= m,
        i + m <= t.len(),
        forall|j: int| i <= j < i + m ==> #[trigger] t[j] == '.',
    ensures
        dot_run(t, i) >= m,
    decreases m,
{
    if m > 0 {
        lemma_dot_run_at_least(t, i + 1, m - 1);
    }
}

proof fn lemma_collapsed_dots_from(s: Seq<char>, i: int)
    requires
        0 <= i <= s.len(),
    ensures
        no_four_dots(collapsed_dots_from(s, i)),
        dot_run(collapsed_dots_from(s, i), 0) <= if dot_run(s, i) < 4 {
            dot_run(s, i)
        } else {
            0
        },
    decreases s.len() - i,
{
    reveal_strlit(" ... ");
    if i < s.len() {
        let run = dot_run(s, i);
        lemma_dot_run_bound(s, i);
        if run >= 4 {
            let rest = collapsed_dots_from(s, i + run);
            lemma_collapsed_dots_from(s, i + run);
            lemma_dot_run_end(s, i);
            let out = " ... "@ + rest;
            assert(out == collapsed_dots_from(s, i));
            assert(dot_run(s, i + run) == 0);
            assert forall|k: int| 0 <= k && k + 3 < out.len() implies !(#[trigger] out[k] == '.'
                && out[k + 1] == '.' && out[k + 2] == '.' && out[k + 3] == '.') by {
                if k >= 5 {
                    assert(out[k] == rest[k - 5] && out[k + 1] == rest[k - 4] && out[k + 2] == rest[k
                        - 3] && out[k + 3] == rest[k - 2]);
                } else if k == 0 {
                    assert(out[0] == ' ');
                } else {
                    assert(out[4] == ' ');
                    if k == 1 {
                        assert(out[k + 3] == out[4]);
                    } else if k == 2 {
                        assert(out[k + 2] == out[4]);
                    } else if k == 3 {
                        assert(out[k + 1] == out[4]);
                    } else {
                        assert(out[k] == out[4]);
                    }
                }
            }
            assert(out[0] == ' ');
        } else {
            let rest = collapsed_dots_from(s, i + 1);
            lemma_collapsed_dots_from(s, i + 1);
            let out = seq![s[i]] + rest;
            assert(out == collapsed_dots_from(s, i));
            lemma_dot_run_shift(seq![s[i]], rest, 0);
            assert forall|k: int| 0 <= k && k + 3 < out.len() implies !(#[trigger] out[k] == '.'
                && out[k + 1] == '.' && out[k + 2] == '.' && out[k + 3] == '.') by {
                if k >= 1 {
                    assert(out[k] == rest[k - 1] && out[k + 1] == rest[k] && out[k + 2] == rest[k
                        + 1] && out[k + 3] == rest[k + 2]);
                } else if out[0] == '.' && out[1] == '.' && out[2] == '.' && out[3] == '.' {
                    lemma_dot_run_at_least(out, 0, 4);
                    assert(dot_run(out, 0) == 1 + dot_run(out, 1));
                }
            }
        }
    }
}

/// After collapsing, no run of four or more dots remains.
pub proof fn lemma_collapsed_dots_no_leaders(s: Seq<char>)
    ensures
        !contains_seq(collapsed_dots(s), "...."@),
{
    lemma_collapsed_dots_from(s, 0);
    let out = collapsed_dots(s);
    reveal_strlit("....");
    assert forall|k: int| !matches_at(out, "...."@, k) by {
        if matches_at(out, "...."@, k) {
            assert(out.subrange(k, k + 4)[0] == '.');
            assert(out.subrange(k, k + 4)[1] == '.');
            assert(out.subrange(k, k + 4)[2] == '.');
            assert(out.subrange(k, k + 4)[3] == '.');
        }
    }
}

proof fn lemma_collapsed_dots_from_plain(s: Seq<char>, i: int)
    requires
        0 <= i <= s.len(),
        forall|k: int| 0 <= k < s.len() ==> #[trigger] dot_run(s, k) < 4,
    ensures
        collapsed_dots_from(s, i) == s.skip(i),
    decreases s.len() - i,
{
    if i < s.len() {
        assert(dot_run(s, i) < 4);
        lemma_collapsed_dots_from_plain(s, i + 1);
        assert(seq![s[i]] + s.skip(i + 1) =~= s.skip(i));
    } else {
        assert(s.skip(i) =~= Seq::<char>::empty());
    }
}

/// Text without four dots in a row is left as it is.
pub proof fn lemma_collapsed_dots_plain(s: Seq<char>)
    requires
        !contains_seq(s, "...."@),
    ensures
        collapsed_dots(s) == s,
{
    reveal_strlit("....");
    assert forall|k: int| 0 <= k < s.len() implies #[trigger] dot_run(s, k) < 4 by {
        if dot_run(s, k) >= 4 {
            lemma_dot_run_bound(s, k);
            lemma_dot_run_prefix(s, k, 0);
            lemma_dot_run_prefix(s, k, 1);
            lemma_dot_run_prefix(s, k, 2);
            lemma_dot_run_prefix(s, k, 3);
            assert(s.subrange(k, k + 4) =~= "...."@);
            assert(matches_at(s, "...."@, k));
        }
    }
    lemma_collapsed_dots_from_plain(s, 0);
    assert(s.skip(0) =~= s);
}

proof fn lemma_dot_run_prefix(s: Seq<char>, i: int, j: int)
    requires
        0 <= i,
        0 <= j < dot_run(s, i),
    ensures
        i + j < s.len(),
        s[i + j] == '.',
    decreases j,
{
    if j > 0 {
        lemma_dot_run_prefix(s, i + 1, j - 1);
    }
}

// ── Hyphenation ────────────────────────────────────────────────────

/// The letters on either side of a spaced hyphen: ASCII letters and the
/// accented letters of Portuguese, Spanish and French text.
pub open spec fn hyphen_letter(c: char) -> bool {
    ('a' <= c <= 'z') || ('A' <= c <= 'Z') || c == 'á' || c == 'à' || c == 'â' || c == 'ã'
        || c == 'é' || c == 'è' || c == 'ê' || c == 'í' || c == 'ï' || c == 'ó' || c == 'ô'
        || c == 'õ' || c == 'ö' || c == 'ú' || c == 'ç' || c == 'ñ' || c == 'Á' || c == 'À'
        || c == 'Â' || c == 'Ã' || c == 'É' || c == 'È' || c == 'Ê' || c == 'Í' || c == 'Ï'
        || c == 'Ó' || c == 'Ô' || c == 'Õ' || c == 'Ö' || c == 'Ú' || c == 'Ç' || c == 'Ñ'
}

fn is_hyphen_letter(c: char) -> (r: bool)
    ensures
        r == hyphen_letter(c),
{
    ('a' <= c && c <= 'z') || ('A' <= c && c <= 'Z') || c == 'á' || c == 'à' || c == 'â' || c
        == 'ã' || c == 'é' || c == 'è' || c == 'ê' || c == 'í' || c == 'ï' || c == 'ó' || c
        == 'ô' || c == 'õ' || c == 'ö' || c == 'ú' || c == 'ç' || c == 'ñ' || c == 'Á' || c
        == 'À' || c == 'Â' || c == 'Ã' || c == 'É' || c == 'È' || c == 'Ê' || c == 'Í' || c
        == 'Ï' || c == 'Ó' || c == 'Ô' || c == 'Õ' || c == 'Ö' || c == 'Ú' || c == 'Ç' || c
        == 'Ñ'
}

/// A letter, `" - "` and a letter start at index `i`.
pub open spec fn spaced_hyphen_at(s: Seq<char>, i: int) -> bool {
    0 <= i && i + 5 <= s.len() && hyphen_letter(s[i]) && s[i + 1] == ' ' && s[i + 2] == '-'
        && s[i + 3] == ' ' && hyphen_letter(s[i + 4])
}

/// `s` from index `i` on, with each letter-space-hyphen-space-letter joined
/// into letter-hyphen-letter, scanning from the left without overlaps.
pub open spec fn dehyphenated_from(s: Seq<char>, i: int) -> Seq<char>
    decreases s.len() - i,
{
    if i < 0 || i >= s.len() {
        seq![]
    } else if spaced_hyphen_at(s, i) {
        seq![s[i], '-', s[i + 4]] + dehyphenated_from(s, i + 5)
    } else {
        seq![s[i]] + dehyphenated_from(s, i + 1)
    }
}

pub open spec fn dehyphenated(s: Seq<char>) -> Seq<char> {
    dehyphenated_from(s, 0)
}

proof fn lemma_dehyphenated_from_plain(s: Seq<char>, i: int)
    requires
        0 <= i <= s.len(),
        forall|k: int| !#[trigger] spaced_hyphen_at(s, k),
    ensures
        dehyphenated_from(s, i) == s.skip(i),
    decreases s.len() - i,
{
    if i < s.len() {
        assert(!spaced_hyphen_at(s, i));
        lemma_dehyphenated_from_plain(s, i + 1);
        assert(seq![s[i]] + s.skip(i + 1) =~= s.skip(i));
    } else {
        assert(s.skip(i) =~= Seq::<char>::empty());
    }
}

/// Text without `" - "` is left as it is.
pub proof fn lemma_dehyphenated_plain(s: Seq<char>)
    requires
        !contains_seq(s, " - "@),
    ensures
        dehyphenated(s) == s,
{
    reveal_strlit(" - ");
    assert forall|k: int| !#[trigger] spaced_hyphen_at(s, k) by {
        if spaced_hyphen_at(s, k) {
            assert(s.subrange(k + 1, k + 4) =~= " - "@);
            assert(matches_at(s, " - "@, k + 1));
        }
    }
    lemma_dehyphenated_from_plain(s, 0);
    assert(s.skip(0) =~= s);
}

/// Fix words broken across lines with spaces before the continuation.
pub fn fix_hyphenation(text: &str) -> (r: String)
    ensures
        r@ == dehyphenated(text@),
{
    let v = str_chars(text);
    let n = v.len();
    let mut out: Vec<char> = Vec::new();
    let mut i: usize = 0;
    while i < n
        invariant
            v@ == text@,
            n == v@.len(),
            i <= n,
            out@ + dehyphenated_from(v@, i as int) == dehyphenated(v@),
        decreases n - i,
    {
        if n - i >= 5 && is_hyphen_letter(v[i]) && v[i + 1] == ' ' && v[i + 2] == '-' && v[i + 3]
            == ' ' && is_hyphen_letter(v[i + 4]) {
            out.push(v[i]);
            out.push('-');
            out.push(v[i + 4]);
            assert(out@ + dehyphenated_from(v@, i + 5) =~= dehyphenated(v@));
            i = i + 5;
        } else {
            out.push(v[i]);
            assert(out@ + dehyphenated_from(v@, i + 1) =~= dehyphenated(v@));
            i = i + 1;
        }
    }
    assert(out@ =~= dehyphenated(v@));
    string_from_chars(out.as_slice())
}

// ── Character boundaries ───────────────────────────────────────────

/// The first character boundary of `bytes` at or after `p`, or `p` once it
/// has passed the end.
pub open spec fn boundary_at_or_after(bytes: Seq<u8>, p: int) -> int
    decreases bytes.len() - p,
{
    if p >= bytes.len() || is_char_boundary(bytes, p) {
        p
    } else {
        boundary_at_or_after(bytes, p + 1)
    }
}

/// The last character boundary of `bytes` at or before `p` (0 at the
/// latest).
pub open spec fn boundary_at_or_before(bytes: Seq<u8>, p: int) -> int
    decreases p,
{
    if p <= 0 || is_char_boundary(bytes, p) {
        p
    } else {
        boundary_at_or_before(bytes, p - 1)
    }
}

/// `pos` if it is a character boundary, else the nearest one after it
/// (`forward`) or before it.
pub open spec fn safe_boundary(bytes: Seq<u8>, pos: int, forward: bool) -> int {
    if is_char_boundary(bytes, pos) {
        pos
    } else if forward {
        boundary_at_or_after(bytes, pos)
    } else {
        boundary_at_or_before(bytes, pos)
    }
}

/// Find the nearest valid character boundary at or after `pos`.
pub fn safe_char_boundary(text: &str, pos: usize, forward: bool) -> (r: usize)
    ensures
        r == safe_boundary(text.spec_bytes(), pos as int, forward),
{
    if text.is_char_boundary(pos) {
        return pos;
    }
    let ghost bytes = text.spec_bytes();
    let n = text.as_bytes().len();
    let mut p = pos;
    if forward {
        while p < n && !text.is_char_boundary(p)
            invariant
                bytes == text.spec_bytes(),
                n == bytes.len(),
                pos <= p,
                boundary_at_or_after(bytes, pos as int) == boundary_at_or_after(bytes, p as int),
            decreases bytes.len() - p,
        {
            p += 1;
        }
        assert(boundary_at_or_after(bytes, p as int) == p as int);
    } else {
        while p > 0 && !text.is_char_boundary(p)
            invariant
                bytes == text.spec_bytes(),
                boundary_at_or_before(bytes, pos as int) == boundary_at_or_before(bytes, p as int),
            decreases p,
        {
            p -= 1;
        }
        assert(boundary_at_or_before(bytes, p as int) == p as int);
    }
    p
}

// ── Page numbers ───────────────────────────────────────────────────

/// Every character of `s` is an ASCII digit.
pub open spec fn digits_only(s: Seq<char>) -> bool {
    forall|i: int| 0 <= i < s.len() ==> ascii_digit(#[trigger] s[i])
}

fn digits_only_exec(s: &[char]) -> (r: bool)
    ensures
        r == digits_only(s@),
{
    let mut i: usize = 0;
    while i < s.len()
        invariant
            i <= s@.len(),
            forall|j: int| 0 <= j < i ==> ascii_digit(#[trigger] s@[j]),
        decreases s@.len() - i,
    {
        if !is_ascii_digit(s[i]) {
            return false;
        }
        i += 1;
    }
    true
}

/// `"page"` followed by "of", a number, or only numbers and "of" (in the
/// lowercased line).
pub open spec fn page_phrase(lower: Seq<char>) -> bool {
    starts_with(lower, "page"@) && {
        let rest = trim(lower.skip(4));
        let ws = words_of(rest);
        rest == "of"@ || starts_with(rest, "of "@) || (rest.len() > 0 && ascii_digit(rest[0]))
            || forall|i: int| 0 <= i < ws.len() ==> (#[trigger] ws[i] == "of"@ || digits_only(ws[i]))
    }
}

/// "X of Y" where X and Y are numbers, split at the first `" of "`.
pub open spec fn of_phrase(t: Seq<char>) -> bool {
    match find_seq(t, " of "@) {
        Some(k) => {
            let before = trim(t.take(k));
            let after = trim(t.skip(k + 4));
            digits_only(before) && digits_only(after) && before.len() > 0 && after.len() > 0
        },
        None => false,
    }
}

/// A number between two dashes, such as "- 7 -".
pub open spec fn dashed_number(t: Seq<char>) -> bool {
    t.len() >= 3 && t[0] == '-' && t.last() == '-' && {
        let inner = trim(t.subrange(1, t.len() - 1));
        digits_only(inner) && inner.len() > 0
    }
}

/// A (trimmed) line that is a page number: up to four digits, a "Page N"
/// or "Page N of M" phrase, "N of M", or "- N -".
pub open spec fn page_number_line(t: Seq<char>) -> bool {
    t.len() > 0 && ((t.len() <= 4 && digits_only(t)) || page_phrase(lowercase_of(t)) || of_phrase(t)
        || dashed_number(t))
}

fn page_phrase_exec(lower: &[char]) -> (r: bool)
    ensures
        r == page_phrase(lower@),
{
    let page = str_chars("page");
    if !starts_with_exec(lower, page.as_slice()) {
        return false;
    }
    proof {
        reveal_strlit("page");
    }
    let after = slice_to_vec_range(lower, 4, lower.len());
    assert(after@ =~= lower@.skip(4));
    let rest = trim_exec(after.as_slice());
    let of = str_chars("of");
    let of_space = str_chars("of ");
    if eq_chars(rest.as_slice(), of.as_slice()) || starts_with_exec(
        rest.as_slice(),
        of_space.as_slice(),
    ) {
        return true;
    }
    if rest.len() > 0 && is_ascii_digit(rest[0]) {
        return true;
    }
    let ws = words_exec(rest.as_slice());
    assert(page_phrase(lower@) <==> forall|j: int|
        0 <= j < words_of(rest@).len() ==> (#[trigger] words_of(rest@)[j] == "of"@ || digits_only(
            words_of(rest@)[j],
        )));
    let mut i: usize = 0;
    while i < ws.len()
        invariant
            page_phrase(lower@) <==> forall|j: int|
                0 <= j < words_of(rest@).len() ==> (#[trigger] words_of(rest@)[j] == "of"@
                    || digits_only(words_of(rest@)[j])),
            views_of(ws@) == words_of(rest@),
            of@ == "of"@,
            i <= ws@.len(),
            forall|j: int|
                0 <= j < i ==> (#[trigger] words_of(rest@)[j] == "of"@ || digits_only(
                    words_of(rest@)[j],
                )),
        decreases ws@.len() - i,
    {
        assert(views_of(ws@)[i as int] == ws@[i as int]@);
        if !eq_chars(ws[i].as_slice(), of.as_slice()) && !digits_only_exec(ws[i].as_slice()) {
            assert(!(words_of(rest@)[i as int] == "of"@ || digits_only(words_of(rest@)[i as int])));
            return false;
        }
        i += 1;
    }
    true
}

fn of_phrase_exec(t: &[char]) -> (r: bool)
    ensures
        r == of_phrase(t@),
{
    let of = str_chars(" of ");
    match find_exec(t, of.as_slice()) {
        Some(k) => {
            proof {
                reveal_strlit(" of ");
                crate::text::chars::lemma_find_from_range(t@, " of "@, 0);
                assert(" of "@.len() == 4);
                assert(matches_at(t@, " of "@, k as int));
            }
            let head = slice_to_vec_range(t, 0, k);
            assert(head@ =~= t@.take(k as int));
            let n = t.len();
            assert(k + 4 <= n);
            let tail = slice_to_vec_range(t, k + 4, n);
            assert(tail@ =~= t@.skip(k + 4));
            let before = trim_exec(head.as_slice());
            let after = trim_exec(tail.as_slice());
            digits_only_exec(before.as_slice()) && digits_only_exec(after.as_slice()) && before.len()
                > 0 && after.len() > 0
        },
        None => false,
    }
}

fn dashed_number_exec(t: &[char]) -> (r: bool)
    ensures
        r == dashed_number(t@),
{
    if t.len() >= 3 && t[0] == '-' && t[t.len() - 1] == '-' {
        let mid = slice_to_vec_range(t, 1, t.len() - 1);
        let inner = trim_exec(mid.as_slice());
        digits_only_exec(inner.as_slice()) && inner.len() > 0
    } else {
        false
    }
}

fn page_number_line_chars(t: &[char]) -> (r: bool)
    ensures
        r == page_number_line(t@),
{
    if t.len() == 0 {
        return false;
    }
    if t.len() <= 4 && digits_only_exec(t) {
        return true;
    }
    let s = string_from_chars(t);
    let lower = to_lowercase(s.as_str());
    let lv = str_chars(lower.as_str());
    if page_phrase_exec(lv.as_slice()) {
        return true;
    }
    if of_phrase_exec(t) {
        return true;
    }
    dashed_number_exec(t)
}

/// Check if a line looks like a page number.
///
/// Lengths are counted in characters: a line of ASCII digits has as many
/// bytes as characters, and a line that begins and ends with `-` has at
/// least three bytes exactly when it has at least three characters.
pub fn is_page_number_line(trimmed: &str) -> (r: bool)
    ensures
        r == page_number_line(trimmed@),
{
    let v = str_chars(trimmed);
    page_number_line_chars(v.as_slice())
}

/// A horizontal rule line (`---`, possibly with white space around it).
pub open spec fn rule_line(l: Seq<char>) -> bool {
    trim(l) == "---"@
}

/// A line of white space only.
pub open spec fn blank_line(l: Seq<char>) -> bool {
    trim(l).len() == 0
}

/// Line `i` of `ls` is a page number standing on its own (after the start,
/// a rule or a blank line, and before the end, a rule or a blank line), or
/// one just before a rule (possibly with a blank line between).
pub open spec fn dropped_page_number(ls: Seq<Seq<char>>, i: int) -> bool {
    let n = ls.len();
    let prev_break = i > 0 && rule_line(ls[i - 1]);
    let next_break = i + 1 < n && rule_line(ls[i + 1]);
    let prev_empty = i > 0 && blank_line(ls[i - 1]);
    let next_empty = i + 1 < n && blank_line(ls[i + 1]);
    let isolated = (prev_break || prev_empty || i == 0) && (next_break || next_empty || i + 1 == n);
    let before_break = i + 1 < n && (rule_line(ls[i + 1]) || (i + 2 < n && blank_line(ls[i + 1])
        && rule_line(ls[i + 2])));
    page_number_line(trim(ls[i])) && (isolated || before_break)
}

/// The first `k` lines of `ls` without the dropped page numbers.
pub open spec fn kept_lines(ls: Seq<Seq<char>>, k: nat) -> Seq<Seq<char>>
    decreases k,
{
    if k == 0 {
        seq![]
    } else {
        let prev = kept_lines(ls, (k - 1) as nat);
        if dropped_page_number(ls, k - 1) {
            prev
        } else {
            prev.push(ls[k - 1])
        }
    }
}

/// The lines of `s` without standalone page numbers, joined by line feeds.
pub open spec fn page_numbers_removed(s: Seq<char>) -> Seq<char> {
    let ls = lines_of(s);
    join_with(kept_lines(ls, ls.len()), seq!['\n'])
}

/// Removing page numbers keeps every line in order except the
/// page-number lines that stand alone: those with the start of the text, a
/// blank line or a rule just before them *and* the end, a blank line or a
/// rule just after them, and those just before a rule (possibly with one
/// blank line between). A page-number line between a blank line and a
/// line of text, say, is kept.
pub proof fn lemma_page_number_kept_unless_standalone(s: Seq<char>, i: int)
    requires
        0 <= i < lines_of(s).len(),
    ensures
        ({
            let ls = lines_of(s);
            let n = ls.len();
            let standalone = page_number_line(trim(ls[i])) && (((i == 0 || blank_line(ls[i - 1])
                || rule_line(ls[i - 1])) && (i + 1 == n || blank_line(ls[i + 1]) || rule_line(
                ls[i + 1],
            ))) || (i + 1 < n && rule_line(ls[i + 1])) || (i + 2 < n && blank_line(ls[i + 1])
                && rule_line(ls[i + 2])));
            kept_lines(ls, (i + 1) as nat) == if standalone {
                kept_lines(ls, i as nat)
            } else {
                kept_lines(ls, i as nat).push(ls[i])
            }
        }),
        page_numbers_removed(s) == join_with(
            kept_lines(lines_of(s), lines_of(s).len()),
            seq!['\n'],
        ),
{
}

/// Remove standalone page numbers.
pub fn remove_page_numbers(text: &str) -> (r: String)
    ensures
        r@ == page_numbers_removed(text@),
{
    let v = str_chars(text);
    let lines = lines_exec(v.as_slice());
    let ghost ls = lines_of(text@);
    let n = lines.len();
    let rule = str_chars("---");
    // The trimmed lines, and which are rules, blank, and page numbers.
    let mut rules: Vec<bool> = Vec::new();
    let mut blanks: Vec<bool> = Vec::new();
    let mut numbers: Vec<bool> = Vec::new();
    let mut j: usize = 0;
    while j < n
        invariant
            n == lines@.len(),
            views_of(lines@) == ls,
            rule@ == "---"@,
            j <= n,
            rules@.len() == j,
            blanks@.len() == j,
            numbers@.len() == j,
            forall|m: int| 0 <= m < j ==> #[trigger] rules@[m] == rule_line(ls[m]),
            forall|m: int| 0 <= m < j ==> #[trigger] blanks@[m] == blank_line(ls[m]),
            forall|m: int| 0 <= m < j ==> #[trigger] numbers@[m] == page_number_line(trim(ls[m])),
        decreases n - j,
    {
        assert(views_of(lines@)[j as int] == lines@[j as int]@);
        let t = trim_exec(lines[j].as_slice());
        rules.push(eq_chars(t.as_slice(), rule.as_slice()));
        blanks.push(t.len() == 0);
        numbers.push(page_number_line_chars(t.as_slice()));
        j += 1;
    }
    let mut kept: Vec<Vec<char>> = Vec::new();
    let mut i: usize = 0;
    while i < n
        invariant
            n == lines@.len(),
            views_of(lines@) == ls,
            rules@.len() == n,
            blanks@.len() == n,
            numbers@.len() == n,
            forall|m: int| 0 <= m < n ==> #[trigger] rules@[m] == rule_line(ls[m]),
            forall|m: int| 0 <= m < n ==> #[trigger] blanks@[m] == blank_line(ls[m]),
            forall|m: int| 0 <= m < n ==> #[trigger] numbers@[m] == page_number_line(trim(ls[m])),
            i <= n,
            views_of(kept@) == kept_lines(ls, i as nat),
        decreases n - i,
    {
        let prev_break = i > 0 && rules[i - 1];
        let next_break = i + 1 < n && rules[i + 1];
        let prev_empty = i > 0 && blanks[i - 1];
        let next_empty = i + 1 < n && blanks[i + 1];
        let isolated = (prev_break || prev_empty || i == 0) && (next_break || next_empty || i + 1
            == n);
        let before_break = i + 1 < n && (rules[i + 1] || (i + 2 < n && blanks[i + 1] && rules[i
            + 2]));
        let drop = numbers[i] && (isolated || before_break);
        assert(drop == dropped_page_number(ls, i as int));
        if !drop {
            assert(views_of(lines@)[i as int] == lines@[i as int]@);
            let line = copy_chars(lines[i].as_slice());
            proof {
                crate::text::words::lemma_views_push(kept@, line);
            }
            kept.push(line);
        }
        i += 1;
    }
    let sep: [char; 1] = ['\n'];
    assert(sep@ =~= seq!['\n']);
    let joined = join_exec(&kept, &sep);
    string_from_chars(joined.as_slice())
}

// ── Spaces ─────────────────────────────────────────────────────────

/// `t` with every space that follows a space removed.
pub open spec fn squeeze_spaces(t: Seq<char>) -> Seq<char>
    decreases t.len(),
{
    if t.len() == 0 {
        seq![]
    } else {
        let prev = squeeze_spaces(t.drop_last());
        if t.last() == ' ' && t.len() >= 2 && t[t.len() - 2] == ' ' {
            prev
        } else {
            prev.push(t.last())
        }
    }
}

/// After squeezing, no two spaces are adjacent.
pub proof fn lemma_squeeze_spaces_single(t: Seq<char>)
    ensures
        forall|k: int|
            0 <= k && k + 1 < squeeze_spaces(t).len() ==> !(#[trigger] squeeze_spaces(t)[k] == ' '
                && squeeze_spaces(t)[k + 1] == ' '),
        squeeze_spaces(t).len() > 0 ==> squeeze_spaces(t).last() == t.last(),
    decreases t.len(),
{
    if t.len() > 0 {
        lemma_squeeze_spaces_single(t.drop_last());
        let prev = squeeze_spaces(t.drop_last());
        let out = squeeze_spaces(t);
        if !(t.last() == ' ' && t.len() >= 2 && t[t.len() - 2] == ' ') {
            assert forall|k: int| 0 <= k && k + 1 < out.len() implies !(#[trigger] out[k] == ' '
                && out[k + 1] == ' ') by {
                if k + 1 == out.len() - 1 {
                    assert(out[k] == prev.last());
                    assert(t.drop_last().last() == t[t.len() - 2]);
                } else {
                    assert(out[k] == prev[k] && out[k + 1] == prev[k + 1]);
                }
            }
        } else {
            assert(t.drop_last().last() == t[t.len() - 2]);
        }
    }
}

/// A line with its leading white space kept and the runs of spaces in
/// the rest squeezed to one space.
pub open spec fn collapse_line(l: Seq<char>) -> Seq<char> {
    l.take(l.len() - trim_start(l).len()) + squeeze_spaces(trim_start(l))
}

/// The first `k` pieces collapsed, joined by line feeds.
pub open spec fn collapsed_pieces(ps: Seq<Seq<char>>, k: nat) -> Seq<char>
    decreases k,
{
    if k == 0 {
        seq![]
    } else {
        let prev = collapsed_pieces(ps, (k - 1) as nat);
        (if k > 1 {
            prev.push('\n')
        } else {
            prev
        }) + collapse_line(ps[k - 1])
    }
}

/// Every line of `s` (split at line feeds) collapsed, every line feed kept.
pub open spec fn spaces_collapsed(s: Seq<char>) -> Seq<char> {
    collapsed_pieces(split_on(s, '\n'), split_on(s, '\n').len())
}

/// Appends `collapse_line(l)` to `out`.
fn push_collapsed_line(out: &mut Vec<char>, l: &[char])
    ensures
        final(out)@ == old(out)@ + collapse_line(l@),
{
    let i = trim_start_index(l);
    let ghost t = trim_start(l@);
    let mut k: usize = 0;
    while k < i
        invariant
            i <= l@.len(),
            k <= i,
            out@ == old(out)@ + l@.take(k as int),
        decreases i - k,
    {
        out.push(l[k]);
        k += 1;
        assert(out@ =~= old(out)@ + l@.take(k as int));
    }
    let ghost base = out@;
    assert(l@.take(l@.len() - t.len()) =~= l@.take(i as int));
    let mut prev_space = false;
    let mut j: usize = i;
    assert(t.take(0) =~= Seq::<char>::empty());
    while j < l.len()
        invariant
            i <= j <= l@.len(),
            t == l@.subrange(i as int, l@.len() as int),
            out@ == base + squeeze_spaces(t.take(j - i)),
            prev_space == (j > i && l@[j - 1] == ' '),
        decreases l@.len() - j,
    {
        let c = l[j];
        assert(t.take(j + 1 - i).drop_last() =~= t.take(j - i));
        assert(t.take(j + 1 - i).last() == c);
        if c == ' ' {
            if !prev_space {
                out.push(' ');
            }
            prev_space = true;
        } else {
            prev_space = false;
            out.push(c);
        }
        j += 1;
        assert(out@ =~= base + squeeze_spaces(t.take(j - i)));
    }
    assert(t.take(j - i) =~= t);
    assert(out@ =~= old(out)@ + collapse_line(l@));
}

/// Collapse runs of 2+ spaces to a single space within each line.
pub fn collapse_consecutive_spaces(text: &mut String)
    ensures
        final(text)@ == spaces_collapsed(old(text)@),
{
    let v = str_chars(text.as_str());
    let pieces = split_exec(v.as_slice(), '\n');
    let ghost ps = split_on(old(text)@, '\n');
    let mut out: Vec<char> = Vec::new();
    let mut k: usize = 0;
    while k < pieces.len()
        invariant
            views_of(pieces@) == ps,
            k <= pieces@.len(),
            out@ == collapsed_pieces(ps, k as nat),
        decreases pieces@.len() - k,
    {
        if k > 0 {
            out.push('\n');
        }
        assert(views_of(pieces@)[k as int] == pieces@[k as int]@);
        push_collapsed_line(&mut out, pieces[k].as_slice());
        k += 1;
    }
    *text = string_from_chars(out.as_slice());
}

// ── URLs ───────────────────────────────────────────────────────────

/// Characters that end a URL: white space, angle brackets, `)` and `]`.
pub open spec fn url_stop(c: char) -> bool {
    white_space(c) || c == '<' || c == '>' || c == ')' || c == ']'
}

/// Characters a URL may end with: not a stop character, nor `.`, `,`, `;`.
pub open spec fn url_last_char(c: char) -> bool {
    !url_stop(c) && c != '.' && c != ',' && c != ';'
}

/// Length of the scheme (`https://` or `http://`) at `i`, or 0.
pub open spec fn scheme_len(s: Seq<char>, i: int) -> int {
    if matches_at(s, "https://"@, i) {
        8
    } else if matches_at(s, "http://"@, i) {
        7
    } else {
        0
    }
}

/// The number of characters from `j` on that are not stop characters.
pub open spec fn url_run(s: Seq<char>, j: int) -> nat
    decreases s.len() - j,
{
    if 0 <= j < s.len() && !url_stop(s[j]) {
        1 + url_run(s, j + 1)
    } else {
        0
    }
}

/// The largest `e` in `lo..=hi` whose previous character may end a URL,
/// or -1.
pub open spec fn last_url_end(s: Seq<char>, lo: int, hi: int) -> int
    decreases hi - lo + 1,
{
    if hi < lo {
        -1
    } else if url_last_char(s[hi - 1]) {
        hi
    } else {
        last_url_end(s, lo, hi - 1)
    }
}

/// The end of the URL that starts at `i` (a scheme, at least one
/// character, and a last character that may end a URL, taking as many
/// characters as possible), or -1.
pub open spec fn url_match_end(s: Seq<char>, i: int) -> int {
    let l = scheme_len(s, i);
    if l == 0 {
        -1
    } else {
        last_url_end(s, i + l + 2, i + l + url_run(s, i + l))
    }
}

pub proof fn lemma_url_match_end(s: Seq<char>, i: int)
    requires
        0 <= i <= s.len(),
    ensures
        url_match_end(s, i) == -1 || i < url_match_end(s, i) <= s.len(),
{
    let l = scheme_len(s, i);
    if l > 0 {
        reveal_strlit("https://");
        reveal_strlit("http://");
        lemma_url_run_bound(s, i + l);
        lemma_last_url_end_range(s, i + l + 2, i + l + url_run(s, i + l));
    }
}

proof fn lemma_url_run_bound(s: Seq<char>, j: int)
    requires
        0 <= j <= s.len(),
    ensures
        j + url_run(s, j) <= s.len(),
    decreases s.len() - j,
{
    if j < s.len() && !url_stop(s[j]) {
        lemma_url_run_bound(s, j + 1);
    }
}

proof fn lemma_last_url_end_range(s: Seq<char>, lo: int, hi: int)
    ensures
        last_url_end(s, lo, hi) == -1 || lo <= last_url_end(s, lo, hi) <= hi,
    decreases hi - lo + 1,
{
    if hi >= lo && !url_last_char(s[hi - 1]) {
        lemma_last_url_end_range(s, lo, hi - 1);
    }
}

/// The URL at `i` is already the target of a markdown link: `](` comes
/// right before it.
pub open spec fn linked_before(s: Seq<char>, i: int) -> bool {
    i >= 2 && s[i - 2] == ']' && s[i - 1] == '('
}

/// More `[` than `]` come before `i`: the URL is inside a link's text.
pub open spec fn inside_link_text(s: Seq<char>, i: int) -> bool {
    count(s.take(i), |c: char| c == '[') > count(s.take(i), |c: char| c == ']')
}

/// `[url](url)`.
pub open spec fn url_link(u: Seq<char>) -> Seq<char> {
    seq!['['] + u + seq![']', '('] + u + seq![')']
}

/// `s` from `i` on, with every bare URL turned into a markdown link.
pub open spec fn linkified_from(s: Seq<char>, i: int) -> Seq<char>
    decreases s.len() - i,
{
    if i < 0 || i >= s.len() {
        seq![]
    } else {
        let e = url_match_end(s, i);
        if e > i {
            proof {
                lemma_url_match_end(s, i);
            }
            let u = s.subrange(i, e);
            (if linked_before(s, i) || inside_link_text(s, i) {
                u
            } else {
                url_link(u)
            }) + linkified_from(s, e)
        } else {
            seq![s[i]] + linkified_from(s, i + 1)
        }
    }
}

/// `s` with every bare URL turned into a markdown link.
pub open spec fn linkified(s: Seq<char>) -> Seq<char> {
    linkified_from(s, 0)
}

proof fn lemma_linkified_from_plain(s: Seq<char>, i: int)
    requires
        0 <= i <= s.len(),
        forall|k: int| 0 <= k < s.len() ==> #[trigger] scheme_len(s, k) == 0,
    ensures
        linkified_from(s, i) == s.skip(i),
    decreases s.len() - i,
{
    if i < s.len() {
        assert(scheme_len(s, i) == 0);
        lemma_linkified_from_plain(s, i + 1);
        assert(seq![s[i]] + s.skip(i + 1) =~= s.skip(i));
    } else {
        assert(s.skip(i) =~= Seq::<char>::empty());
    }
}

/// Text without `"http"` is left as it is.
pub proof fn lemma_linkified_plain(s: Seq<char>)
    requires
        !contains_seq(s, "http"@),
    ensures
        linkified(s) == s,
{
    reveal_strlit("http");
    reveal_strlit("http://");
    reveal_strlit("https://");
    assert forall|k: int| 0 <= k < s.len() implies #[trigger] scheme_len(s, k) == 0 by {
        if matches_at(s, "https://"@, k) || matches_at(s, "http://"@, k) {
            assert(s.subrange(k, k + 4) =~= "http"@) by {
                if matches_at(s, "https://"@, k) {
                    assert(s.subrange(k, k + 8)[0] == 'h');
                    assert(s.subrange(k, k + 8)[1] == 't');
                    assert(s.subrange(k, k + 8)[2] == 't');
                    assert(s.subrange(k, k + 8)[3] == 'p');
                } else {
                    assert(s.subrange(k, k + 7)[0] == 'h');
                    assert(s.subrange(k, k + 7)[1] == 't');
                    assert(s.subrange(k, k + 7)[2] == 't');
                    assert(s.subrange(k, k + 7)[3] == 'p');
                }
            }
            assert(matches_at(s, "http"@, k));
        }
    }
    lemma_linkified_from_plain(s, 0);
    assert(s.skip(0) =~= s);
}

fn is_url_stop(c: char) -> (r: bool)
    ensures
        r == url_stop(c),
{
    is_whitespace(c) || c == '<' || c == '>' || c == ')' || c == ']'
}

/// The end of the URL starting at `i`, if one does.
fn url_match_end_exec(s: &[char], i: usize, https: &[char], http: &[char]) -> (r: Option<usize>)
    requires
        i < s@.len(),
        https@ == "https://"@,
        http@ == "http://"@,
    ensures
        r matches Some(e) ==> e == url_match_end(s@, i as int) && i < e <= s@.len(),
        r is None ==> url_match_end(s@, i as int) <= i,
{
    proof {
        reveal_strlit("https://");
        reveal_strlit("http://");
        lemma_url_match_end(s@, i as int);
    }
    let n = s.len();
    let l: usize = if matches_at_exec(s, https, i) {
        8
    } else if matches_at_exec(s, http, i) {
        7
    } else {
        return None;
    };
    assert(l as int == scheme_len(s@, i as int));
    let b = i + l;
    let mut j = b;
    while j < n && !is_url_stop(s[j])
        invariant
            n == s@.len(),
            b <= j <= n,
            url_run(s@, b as int) == (j - b) + url_run(s@, j as int),
        decreases n - j,
    {
        j += 1;
    }
    // `j` is now `b + url_run(s, b)`.
    if n - b < 2 {
        return None;
    }
    let lo = b + 2;
    let mut hi = j;
    while hi >= lo && !(!is_url_stop(s[hi - 1]) && s[hi - 1] != '.' && s[hi - 1] != ',' && s[hi
        - 1] != ';')
        invariant
            n == s@.len(),
            lo == b + 2,
            hi <= n,
            last_url_end(s@, lo as int, j as int) == last_url_end(s@, lo as int, hi as int),
        decreases hi,
    {
        hi -= 1;
    }
    if hi >= lo {
        Some(hi)
    } else {
        None
    }
}

/// Convert URLs to markdown links.
pub fn format_urls(text: &str) -> (r: String)
    ensures
        r@ == linkified(text@),
{
    let v = str_chars(text);
    let https = str_chars("https://");
    let http = str_chars("http://");
    let n = v.len();
    let ghost open_p = |c: char| c == '[';
    let ghost close_p = |c: char| c == ']';
    let mut out: Vec<char> = Vec::new();
    let mut opens: usize = 0;
    let mut closes: usize = 0;
    let mut i: usize = 0;
    while i < n
        invariant
            v@ == text@,
            n == v@.len(),
            https@ == "https://"@,
            http@ == "http://"@,
            open_p == (|c: char| c == '['),
            close_p == (|c: char| c == ']'),
            i <= n,
            opens == count(v@.take(i as int), open_p),
            closes == count(v@.take(i as int), close_p),
            out@ + linkified_from(v@, i as int) == linkified(v@),
        decreases n - i,
    {
        match url_match_end_exec(v.as_slice(), i, https.as_slice(), http.as_slice()) {
            Some(e) => {
                let linked = (i >= 2 && v[i - 2] == ']' && v[i - 1] == '(') || opens > closes;
                let url = slice_to_vec_range(v.as_slice(), i, e);
                let ghost before = out@;
                if linked {
                    append_chars(&mut out, url.as_slice());
                } else {
                    out.push('[');
                    append_chars(&mut out, url.as_slice());
                    out.push(']');
                    out.push('(');
                    append_chars(&mut out, url.as_slice());
                    out.push(')');
                }
                assert(out@ =~= before + (if linked_before(v@, i as int) || inside_link_text(
                    v@,
                    i as int,
                ) {
                    v@.subrange(i as int, e as int)
                } else {
                    url_link(v@.subrange(i as int, e as int))
                }));
                let mut k = i;
                while k < e
                    invariant
                        i <= k <= e,
                        e <= n,
                        n == v@.len(),
                        open_p == (|c: char| c == '['),
                        close_p == (|c: char| c == ']'),
                        opens == count(v@.take(k as int), open_p),
                        closes == count(v@.take(k as int), close_p),
                    decreases e - k,
                {
                    proof {
                        assert(v@.take(k + 1).drop_last() =~= v@.take(k as int));
                        crate::text::chars::lemma_count_bound(v@.take(k as int), open_p);
                        crate::text::chars::lemma_count_bound(v@.take(k as int), close_p);
                    }
                    if v[k] == '[' {
                        opens += 1;
                    } else if v[k] == ']' {
                        closes += 1;
                    }
                    k += 1;
                }
                i = e;
            },
            None => {
                proof {
                    assert(v@.take(i + 1).drop_last() =~= v@.take(i as int));
                    crate::text::chars::lemma_count_bound(v@.take(i as int), open_p);
                    crate::text::chars::lemma_count_bound(v@.take(i as int), close_p);
                }
                if v[i] == '[' {
                    opens += 1;
                } else if v[i] == ']' {
                    closes += 1;
                }
                out.push(v[i]);
                assert(out@ + linkified_from(v@, i + 1) =~= linkified(v@));
                i += 1;
            },
        }
    }
    assert(out@ =~= linkified(v@));
    string_from_chars(out.as_slice())
}

// ── The whole pass ─────────────────────────────────────────────────

/// `s` with every line feed dropped that would be the third in a row:
/// each run of three or more line feeds becomes two.
pub open spec fn squeeze_newlines(s: Seq<char>) -> Seq<char>
    decreases s.len(),
{
    if s.len() == 0 {
        seq![]
    } else {
        let prev = squeeze_newlines(s.drop_last());
        if s.last() == '\n' && prev.len() >= 2 && prev[prev.len() - 1] == '\n' && prev[prev.len()
            - 2] == '\n' {
            prev
        } else {
            prev.push(s.last())
        }
    }
}

fn squeeze_newlines_exec(s: &[char]) -> (r: Vec<char>)
    ensures
        r@ == squeeze_newlines(s@),
{
    let mut out: Vec<char> = Vec::new();
    let mut i: usize = 0;
    while i < s.len()
        invariant
            i <= s@.len(),
            out@ == squeeze_newlines(s@.take(i as int)),
        decreases s@.len() - i,
    {
        assert(s@.take(i + 1).drop_last() =~= s@.take(i as int));
        let c = s[i];
        let n = out.len();
        if !(c == '\n' && n >= 2 && out[n - 1] == '\n' && out[n - 2] == '\n') {
            out.push(c);
        }
        i += 1;
    }
    assert(s@.take(s@.len() as int) =~= s@);
    out
}

/// The markdown after the clean-up pass: dot leaders collapsed, then
/// (as chosen) hyphenation fixed, page numbers removed and URLs linked,
/// then runs of spaces and of line feeds shortened, white space trimmed
/// and one final line feed added.
pub open spec fn cleaned_markdown(
    s: Seq<char>,
    fix_hyphens: bool,
    remove_pages: bool,
    link_urls: bool,
) -> Seq<char> {
    let a = collapsed_dots(s);
    let b = if fix_hyphens {
        dehyphenated(a)
    } else {
        a
    };
    let c = if remove_pages {
        page_numbers_removed(b)
    } else {
        b
    };
    let d = if link_urls {
        linkified(c)
    } else {
        c
    };
    trim(squeeze_newlines(spaces_collapsed(d))).push('\n')
}

/// Clean up markdown output with post-processing.
pub fn clean_markdown(
    text: String,
    fix_hyphens: bool,
    remove_pages: bool,
    link_urls: bool,
) -> (r: String)
    ensures
        r@ == cleaned_markdown(text@, fix_hyphens, remove_pages, link_urls),
{
    let mut t = collapse_dot_leaders(text.as_str());
    if fix_hyphens {
        t = fix_hyphenation(t.as_str());
    }
    if remove_pages {
        t = remove_page_numbers(t.as_str());
    }
    if link_urls {
        t = format_urls(t.as_str());
    }
    collapse_consecutive_spaces(&mut t);
    let v = str_chars(t.as_str());
    let squeezed = squeeze_newlines_exec(v.as_slice());
    let mut trimmed = trim_exec(squeezed.as_slice());
    trimmed.push('\n');
    string_from_chars(trimmed.as_slice())
}

// ── Laws of the clean-up pass ──────────────────────────────────────

/// No three line feeds in a row.
pub open spec fn no_triple_newline(t: Seq<char>) -> bool {
    forall|k: int|
        0 <= k && k + 2 < t.len() ==> !(#[trigger] t[k] == '\n' && t[k + 1] == '\n' && t[k + 2]
            == '\n')
}

proof fn lemma_squeeze_newlines(s: Seq<char>)
    ensures
        no_triple_newline(squeeze_newlines(s)),
    decreases s.len(),
{
    if s.len() > 0 {
        lemma_squeeze_newlines(s.drop_last());
        let prev = squeeze_newlines(s.drop_last());
        let out = squeeze_newlines(s);
        assert forall|k: int| 0 <= k && k + 2 < out.len() implies !(#[trigger] out[k] == '\n'
            && out[k + 1] == '\n' && out[k + 2] == '\n') by {
            if out.len() > prev.len() && k + 2 == out.len() - 1 {
                assert(out[k] == prev[prev.len() - 2]);
                assert(out[k + 1] == prev[prev.len() - 1]);
            } else {
                assert(out[k] == prev[k] && out[k + 1] == prev[k + 1] && out[k + 2] == prev[k + 2]);
            }
        }
    }
}

proof fn lemma_trim_start_keeps(s: Seq<char>)
    requires
        no_triple_newline(s),
    ensures
        no_triple_newline(trim_start(s)),
    decreases s.len(),
{
    if s.len() > 0 && white_space(s[0]) {
        let t = s.drop_first();
        assert forall|k: int| 0 <= k && k + 2 < t.len() implies !(#[trigger] t[k] == '\n' && t[k
            + 1] == '\n' && t[k + 2] == '\n') by {
            assert(t[k] == s[k + 1] && t[k + 1] == s[k + 2] && t[k + 2] == s[k + 3]);
        }
        lemma_trim_start_keeps(t);
    }
}

proof fn lemma_trim_end_keeps(s: Seq<char>)
    requires
        no_triple_newline(s),
    ensures
        no_triple_newline(trim_end(s)),
        trim_end(s).len() > 0 ==> !white_space(trim_end(s).last()),
    decreases s.len(),
{
    if s.len() > 0 && white_space(s.last()) {
        let t = s.drop_last();
        assert forall|k: int| 0 <= k && k + 2 < t.len() implies !(#[trigger] t[k] == '\n' && t[k
            + 1] == '\n' && t[k + 2] == '\n') by {
            assert(t[k] == s[k] && t[k + 1] == s[k + 1] && t[k + 2] == s[k + 2]);
        }
        lemma_trim_end_keeps(t);
    }
}

/// The cleaned markdown ends with a line feed and never holds three line
/// feeds in a row.
pub proof fn lemma_cleaned_markdown_shape(
    s: Seq<char>,
    fix_hyphens: bool,
    remove_pages: bool,
    link_urls: bool,
)
    ensures
        cleaned_markdown(s, fix_hyphens, remove_pages, link_urls).last() == '\n',
        !contains_seq(cleaned_markdown(s, fix_hyphens, remove_pages, link_urls), "\n\n\n"@),
{
    let a = collapsed_dots(s);
    let b = if fix_hyphens {
        dehyphenated(a)
    } else {
        a
    };
    let c = if remove_pages {
        page_numbers_removed(b)
    } else {
        b
    };
    let d = if link_urls {
        linkified(c)
    } else {
        c
    };
    let q = squeeze_newlines(spaces_collapsed(d));
    lemma_squeeze_newlines(spaces_collapsed(d));
    lemma_trim_start_keeps(q);
    lemma_trim_end_keeps(trim_start(q));
    let t = trim(q);
    let out = t.push('\n');
    assert(out == cleaned_markdown(s, fix_hyphens, remove_pages, link_urls));
    reveal_strlit("\n\n\n");
    assert forall|k: int| !matches_at(out, "\n\n\n"@, k) by {
        if matches_at(out, "\n\n\n"@, k) {
            assert(out.subrange(k, k + 3)[0] == '\n');
            assert(out.subrange(k, k + 3)[1] == '\n');
            assert(out.subrange(k, k + 3)[2] == '\n');
            if k + 3 <= t.len() {
                assert(t[k] == out[k] && t[k + 1] == out[k + 1] && t[k + 2] == out[k + 2]);
            } else {
                assert(t.last() == out[k + 1]);
            }
        }
    }
}

} // verus!
