//! Text normalisation used when comparing lines across pages, and the
//! tests that keep structural and decorative lines apart.

use vstd::prelude::*;

use crate::text::chars::{
    ascii_digit, contains_exec, contains_seq, is_ascii_digit, slice_to_vec_range, starts_with,
    starts_with_exec, str_chars, string_from_chars, trim_end, trim_end_exec, trim_start,
    trim_start_exec,
};
use crate::text::words::{join_exec, join_with, words_exec, words_of};
use crate::markdown::convert::{role_heading_level, struct_role_heading_level};
use crate::pdf::structure_tree::StructRole;
use std::collections::HashMap;

verus! {

broadcast use vstd::std_specs::hash::group_hash_axioms;

/// The words of `s` joined by single spaces.
pub open spec fn normalized_whitespace(s: Seq<char>) -> Seq<char> {
    join_with(words_of(s), seq![' '])
}

/// Normalize whitespace in a string for comparison.
pub fn normalize_whitespace(s: &str) -> (r: String)
    ensures
        r@ == normalized_whitespace(s@),
{
    let v = str_chars(s);
    let words = words_exec(v.as_slice());
    let sep: [char; 1] = [' '];
    assert(sep@ =~= seq![' ']);
    let joined = join_exec(&words, &sep);
    string_from_chars(joined.as_slice())
}

/// Normalizing white space twice is normalizing it once.
pub proof fn lemma_normalize_whitespace_idempotent(s: Seq<char>)
    ensures
        normalized_whitespace(normalized_whitespace(s)) == normalized_whitespace(s),
{
    crate::text::words::lemma_join_words_idempotent(s);
}

/// `s` without its leading ASCII digits.
pub open spec fn strip_leading_digits(s: Seq<char>) -> Seq<char>
    decreases s.len(),
{
    if s.len() > 0 && ascii_digit(s[0]) {
        strip_leading_digits(s.drop_first())
    } else {
        s
    }
}

/// `s` without its trailing ASCII digits.
pub open spec fn strip_trailing_digits(s: Seq<char>) -> Seq<char>
    decreases s.len(),
{
    if s.len() > 0 && ascii_digit(s.last()) {
        strip_trailing_digits(s.drop_last())
    } else {
        s
    }
}

fn strip_leading_digits_exec(s: &[char]) -> (r: Vec<char>)
    ensures
        r@ == strip_leading_digits(s@),
{
    let mut i: usize = 0;
    assert(s@.subrange(0, s@.len() as int) =~= s@);
    while i < s.len() && is_ascii_digit(s[i])
        invariant
            i <= s@.len(),
            strip_leading_digits(s@) == strip_leading_digits(s@.subrange(i as int, s@.len() as int)),
        decreases s@.len() - i,
    {
        assert(s@.subrange(i as int, s@.len() as int).drop_first() =~= s@.subrange(
            i + 1,
            s@.len() as int,
        ));
        i += 1;
    }
    slice_to_vec_range(s, i, s.len())
}

fn strip_trailing_digits_exec(s: &[char]) -> (r: Vec<char>)
    ensures
        r@ == strip_trailing_digits(s@),
{
    let mut j: usize = s.len();
    assert(s@.subrange(0, s@.len() as int) =~= s@);
    while j > 0 && is_ascii_digit(s[j - 1])
        invariant
            j <= s@.len(),
            strip_trailing_digits(s@) == strip_trailing_digits(s@.subrange(0, j as int)),
        decreases j,
    {
        assert(s@.subrange(0, j as int).drop_last() =~= s@.subrange(0, j - 1));
        j -= 1;
    }
    slice_to_vec_range(s, 0, j)
}

/// Whitespace collapsed, then leading and trailing page numbers and the
/// white space next to them removed.
pub open spec fn normalized_for_comparison(s: Seq<char>) -> Seq<char> {
    trim_end(
        strip_trailing_digits(trim_start(strip_leading_digits(normalized_whitespace(s)))),
    )
}

/// Normalize text for frequency comparison: collapse whitespace and strip
/// leading/trailing digit sequences (page numbers).
pub fn normalize_for_comparison(s: &str) -> (r: String)
    ensures
        r@ == normalized_for_comparison(s@),
{
    let ws = normalize_whitespace(s);
    let v = str_chars(ws.as_str());
    let a = strip_leading_digits_exec(v.as_slice());
    let b = trim_start_exec(a.as_slice());
    let c = strip_trailing_digits_exec(b.as_slice());
    let d = trim_end_exec(c.as_slice());
    string_from_chars(d.as_slice())
}

/// A heading, a bullet item or a numbered item.
pub open spec fn structural_line(text: Seq<char>) -> bool {
    let t = trim_start(text);
    starts_with(t, "#"@) || starts_with(t, "- "@) || starts_with(t, "* "@) || starts_with(
        t,
        "• "@,
    ) || (t.len() > 0 && ascii_digit(t[0]) && (contains_seq(t, ". "@) || contains_seq(t, ") "@)))
}

/// Returns true if the line looks like a list item or heading (should not be stripped).
pub fn is_structural_line(text: &str) -> (r: bool)
    ensures
        r == structural_line(text@),
{
    let v = str_chars(text);
    let t = trim_start_exec(v.as_slice());
    let hash = str_chars("#");
    let dash = str_chars("- ");
    let star = str_chars("* ");
    let bullet = str_chars("• ");
    let dot = str_chars(". ");
    let paren = str_chars(") ");
    starts_with_exec(t.as_slice(), hash.as_slice()) || starts_with_exec(
        t.as_slice(),
        dash.as_slice(),
    ) || starts_with_exec(t.as_slice(), star.as_slice()) || starts_with_exec(
        t.as_slice(),
        bullet.as_slice(),
    ) || (t.len() > 0 && is_ascii_digit(t[0]) && (contains_exec(t.as_slice(), dot.as_slice())
        || contains_exec(t.as_slice(), paren.as_slice())))
}

/// A non-empty line made of one character repeated.
pub open spec fn decorative_separator(text: Seq<char>) -> bool {
    text.len() > 0 && forall|i: int| 0 <= i < text.len() ==> #[trigger] text[i] == text[0]
}

/// Returns true if a line consists entirely of a single repeated character.
pub fn is_decorative_separator(text: &str) -> (r: bool)
    ensures
        r == decorative_separator(text@),
{
    let v = str_chars(text);
    if v.len() == 0 {
        return false;
    }
    let first = v[0];
    let mut i: usize = 1;
    while i < v.len()
        invariant
            v@ == text@,
            v@.len() > 0,
            first == v@[0],
            1 <= i <= v@.len(),
            forall|j: int| 0 <= j < i ==> v@[j] == first,
        decreases v@.len() - i,
    {
        if v[i] != first {
            return false;
        }
        i += 1;
    }
    true
}

// ── Heading level of a line ────────────────────────────────────────

/// The heading level the structure tree gives a line: that of the first
/// of its items' marked-content ids whose role on the page is a heading.
pub open spec fn tagged_heading_level(mcids: Seq<Option<i64>>, roles: Map<i64, StructRole>) -> Option<
    nat,
>
    decreases mcids.len(),
{
    if mcids.len() == 0 {
        None
    } else {
        match mcids[0] {
            Some(m) if roles.contains_key(m) && role_heading_level(roles[m]) is Some => role_heading_level(
                roles[m],
            ),
            _ => tagged_heading_level(mcids.drop_first(), roles),
        }
    }
}

/// The heading level of a line given its page's roles (if the page has
/// any) and the level its font size suggests.
pub open spec fn line_heading_level(
    mcids: Seq<Option<i64>>,
    roles: Option<Map<i64, StructRole>>,
    font_level: Option<usize>,
) -> Option<usize> {
    match roles {
        Some(m) => match tagged_heading_level(mcids, m) {
            Some(l) => Some(l as usize),
            None => font_level,
        },
        None => font_level,
    }
}

/// The effective heading level of a line: the structure tree's heading
/// level when the page has roles and one of the line's items is tagged as
/// a heading, otherwise the level from the line's font size
/// (`font_level`, from comparing its first item's size with the body size
/// and the heading tiers).
pub fn effective_heading_level(
    mcids: &[Option<i64>],
    page_roles: Option<&HashMap<i64, StructRole>>,
    font_level: Option<usize>,
) -> (r: Option<usize>)
    ensures
        r == line_heading_level(
            mcids@,
            match page_roles {
                Some(m) => Some(m@),
                None => None,
            },
            font_level,
        ),
{
    if let Some(roles) = page_roles {
        let mut i: usize = 0;
        assert(mcids@.skip(0) =~= mcids@);
        while i < mcids.len()
            invariant
                i <= mcids@.len(),
                page_roles == Some(roles),
                tagged_heading_level(mcids@, roles@) == tagged_heading_level(
                    mcids@.skip(i as int),
                    roles@,
                ),
            decreases mcids@.len() - i,
        {
            assert(mcids@.skip(i as int).drop_first() =~= mcids@.skip(i + 1));
            assert(mcids@.skip(i as int)[0] == mcids@[i as int]);
            if let Some(mcid) = mcids[i] {
                if let Some(role) = roles.get(&mcid) {
                    let level = struct_role_heading_level(role);
                    if level.is_some() {
                        return level;
                    }
                }
            }
            i += 1;
        }
    }
    font_level
}

} // verus!
