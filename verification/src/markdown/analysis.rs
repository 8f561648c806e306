//! Heading levels and table-of-contents line detection.

use vstd::prelude::*;

use crate::text::chars::{contains_seq, str_chars, str_contains};

verus! {

/// The heading level given to a bold line that met no font-size tier: one
/// below the tiers, kept between 2 and 6.
pub open spec fn bold_level(tier_count: nat) -> nat {
    if tier_count + 1 < 2 {
        2
    } else if tier_count + 1 > 6 {
        6
    } else {
        tier_count + 1
    }
}

/// Determine the heading level for a bold-only line that didn't meet the
/// font-size threshold, given the number of heading tiers found.
pub fn bold_heading_level(tier_count: usize) -> (r: usize)
    ensures
        r == bold_level(tier_count as nat),
        2 <= r <= 6,
{
    if tier_count < 1 {
        2
    } else if tier_count >= 5 {
        6
    } else {
        tier_count + 1
    }
}

/// Scanning the first `k` characters of `s`: the number of runs of three or
/// more dots already closed, and the length of the current run of dots.
pub open spec fn dot_scan(s: Seq<char>, k: nat) -> (nat, nat)
    decreases k,
{
    if k == 0 {
        (0, 0)
    } else {
        let (groups, run) = dot_scan(s, (k - 1) as nat);
        if s[k - 1] == '.' {
            (groups, run + 1)
        } else if run >= 3 {
            (groups + 1, 0)
        } else {
            (groups, 0)
        }
    }
}

/// The number of maximal runs of at least three dots in `s`.
pub open spec fn dot_groups(s: Seq<char>) -> nat {
    let (groups, run) = dot_scan(s, s.len());
    if run >= 3 {
        groups + 1
    } else {
        groups
    }
}

/// A table-of-contents line: four dots in a row, or two separate runs of
/// at least three dots.
pub open spec fn dot_leaders(s: Seq<char>) -> bool {
    contains_seq(s, "...."@) || dot_groups(s) >= 2
}

proof fn lemma_dot_scan_bound(s: Seq<char>, k: nat)
    requires
        k <= s.len(),
    ensures
        dot_scan(s, k).0 + dot_scan(s, k).1 <= k,
    decreases k,
{
    if k > 0 {
        lemma_dot_scan_bound(s, (k - 1) as nat);
    }
}

/// Detect TOC-style lines that contain dot leaders (e.g. "Section Name .... 42").
pub fn has_dot_leaders(text: &str) -> (r: bool)
    ensures
        r == dot_leaders(text@),
{
    if str_contains(text, "....") {
        return true;
    }
    let v = str_chars(text);
    let mut groups: usize = 0;
    let mut run: usize = 0;
    let mut i: usize = 0;
    while i < v.len()
        invariant
            i <= v@.len(),
            v@ == text@,
            (groups as nat, run as nat) == dot_scan(text@, i as nat),
        decreases v@.len() - i,
    {
        proof {
            lemma_dot_scan_bound(text@, i as nat);
        }
        if v[i] == '.' {
            run += 1;
        } else {
            if run >= 3 {
                groups += 1;
            }
            run = 0;
        }
        i += 1;
    }
    proof {
        lemma_dot_scan_bound(text@, i as nat);
    }
    if run >= 3 {
        groups += 1;
    }
    groups >= 2
}

} // verus!
