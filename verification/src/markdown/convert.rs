//! Pieces of the markdown assembly: heading levels from structure roles and
//! column counts of rendered tables.

use vstd::prelude::*;

use std::collections::{HashMap, HashSet};

use crate::pdf::structure_tree::{grouping_role, StructRole};
use crate::text::chars::{
    contains_exec, contains_seq, count, count_char, push_chars, str_chars, string_from_chars,
};
use crate::text::words::{lines_exec, lines_of, views_of};

verus! {

/// The markdown heading level of a heading role.
pub open spec fn role_heading_level(role: StructRole) -> Option<nat> {
    match role {
        StructRole::H | StructRole::H1 => Some(1),
        StructRole::H2 => Some(2),
        StructRole::H3 => Some(3),
        StructRole::H4 => Some(4),
        StructRole::H5 => Some(5),
        StructRole::H6 => Some(6),
        _ => None,
    }
}

/// Map a `StructRole` heading variant to a markdown heading level (1–6).
pub fn struct_role_heading_level(role: &StructRole) -> (r: Option<usize>)
    ensures
        r matches Some(l) ==> role_heading_level(*role) == Some(l as nat),
        r is None ==> role_heading_level(*role) is None,
{
    match role {
        StructRole::H | StructRole::H1 => Some(1),
        StructRole::H2 => Some(2),
        StructRole::H3 => Some(3),
        StructRole::H4 => Some(4),
        StructRole::H5 => Some(5),
        StructRole::H6 => Some(6),
        _ => None,
    }
}

/// The role of a line: the role of the first of its items' marked-content
/// ids that has a role on the page which is not a grouping role.
pub open spec fn line_role(mcids: Seq<Option<i64>>, roles: Map<i64, StructRole>) -> Option<
    StructRole,
>
    decreases mcids.len(),
{
    if mcids.len() == 0 {
        None
    } else {
        match mcids[0] {
            Some(m) if roles.contains_key(m) && !grouping_role(roles[m]) => Some(roles[m]),
            _ => line_role(mcids.drop_first(), roles),
        }
    }
}

/// Resolve the dominant structure role for a text line, given the
/// marked-content ids of its items in order and the roles of its page.
pub fn resolve_line_struct_role(mcids: &[Option<i64>], page_roles: &HashMap<i64, StructRole>) -> (r:
    Option<StructRole>)
    ensures
        r == line_role(mcids@, page_roles@),
{
    let mut i: usize = 0;
    assert(mcids@.skip(0) =~= mcids@);
    while i < mcids.len()
        invariant
            i <= mcids@.len(),
            line_role(mcids@, page_roles@) == line_role(mcids@.skip(i as int), page_roles@),
        decreases mcids@.len() - i,
    {
        assert(mcids@.skip(i as int).drop_first() =~= mcids@.skip(i + 1));
        assert(mcids@.skip(i as int)[0] == mcids@[i as int]);
        if let Some(mcid) = mcids[i] {
            if let Some(role) = page_roles.get(&mcid) {
                match role {
                    StructRole::Document | StructRole::Part | StructRole::Art | StructRole::Sect
                    | StructRole::Div | StructRole::NonStruct | StructRole::Span
                    | StructRole::Private => {},
                    _ => return Some(*role),
                }
            }
        }
        i += 1;
    }
    None
}

// ── Tables continued across pages ──────────────────────────────────

/// The texts of a page's tables.
pub open spec fn table_views(t: Seq<String>) -> Seq<Seq<char>> {
    Seq::new(t.len(), |i: int| t[i]@)
}

/// Pages with the texts of their tables.
pub open spec fn page_views(v: Seq<(u32, Vec<String>)>) -> Seq<(u32, Seq<Seq<char>>)> {
    Seq::new(v.len(), |i: int| (v[i].0, table_views(v[i].1@)))
}

/// Page numbers strictly increasing along the sequence.
pub open spec fn pages_increasing(v: Seq<(u32, Vec<String>)>) -> bool {
    forall|i: int, j: int| 0 <= i < j < v.len() ==> #[trigger] v[i].0 < #[trigger] v[j].0
}

/// The page right after `prev` holds one table-only table with `cols`
/// columns.
pub open spec fn continues_table(
    e: (u32, Seq<Seq<char>>),
    prev: u32,
    only: Set<u32>,
    cols: nat,
) -> bool {
    e.0 == prev + 1 && only.contains(e.0) && e.1.len() == 1 && table_columns(e.1[0]) == cols
}

/// How many pages from `j` on continue the table, page after page.
pub open spec fn continuation_count(
    s: Seq<(u32, Seq<Seq<char>>)>,
    j: int,
    prev: u32,
    only: Set<u32>,
    cols: nat,
) -> nat
    decreases s.len() - j,
{
    if 0 <= j < s.len() && continues_table(s[j], prev, only, cols) {
        1 + continuation_count(s, j + 1, s[j].0, only, cols)
    } else {
        0
    }
}

/// The lines of `ls` from index `k` on, each followed by a line feed.
pub open spec fn lines_from(ls: Seq<Seq<char>>, k: int) -> Seq<char>
    decreases ls.len() - k,
{
    if k < 0 || k >= ls.len() {
        seq![]
    } else {
        ls[k].push('\n') + lines_from(ls, k + 1)
    }
}

/// The rows of the tables of `count` pages from `from`, below their header
/// and separator lines.
pub open spec fn continued_rows(s: Seq<(u32, Seq<Seq<char>>)>, from: int, count: nat) -> Seq<char>
    decreases count,
{
    if count == 0 {
        seq![]
    } else {
        continued_rows(s, from, (count - 1) as nat) + lines_from(
            lines_of(s[from + count - 1].1[0]),
            2,
        )
    }
}

/// The pages from `i` on, each table-only page whose one table continues
/// on the following pages (same column count, consecutive table-only
/// pages with one table) taking those pages' rows, and those pages dropped.
pub open spec fn merged_from(s: Seq<(u32, Seq<Seq<char>>)>, i: int, only: Set<u32>) -> Seq<
    (u32, Seq<Seq<char>>),
>
    decreases s.len() - i,
{
    if i < 0 || i >= s.len() {
        seq![]
    } else {
        let e = s[i];
        let cols = if e.1.len() == 1 {
            table_columns(e.1[0])
        } else {
            0
        };
        let k = continuation_count(s, i + 1, e.0, only, cols);
        if e.1.len() == 1 && only.contains(e.0) && cols > 0 && k > 0 {
            proof {
                lemma_continuation_count_bound(s, i + 1, e.0, only, cols);
            }
            seq![(e.0, seq![e.1[0] + continued_rows(s, i + 1, k)])] + merged_from(
                s,
                i + 1 + k,
                only,
            )
        } else {
            seq![e] + merged_from(s, i + 1, only)
        }
    }
}

pub proof fn lemma_continuation_count_bound(
    s: Seq<(u32, Seq<Seq<char>>)>,
    j: int,
    prev: u32,
    only: Set<u32>,
    cols: nat,
)
    requires
        0 <= j <= s.len(),
    ensures
        j + continuation_count(s, j, prev, only, cols) <= s.len(),
    decreases s.len() - j,
{
    if j < s.len() && continues_table(s[j], prev, only, cols) {
        lemma_continuation_count_bound(s, j + 1, s[j].0, only, cols);
    }
}

proof fn lemma_continuation_single(
    s: Seq<(u32, Seq<Seq<char>>)>,
    j: int,
    prev: u32,
    only: Set<u32>,
    cols: nat,
)
    requires
        0 <= j,
    ensures
        forall|q: int|
            j <= q < j + continuation_count(s, j, prev, only, cols) ==> (#[trigger] s[q]).1.len()
                == 1,
    decreases s.len() - j,
{
    if 0 <= j < s.len() && continues_table(s[j], prev, only, cols) {
        lemma_continuation_single(s, j + 1, s[j].0, only, cols);
    }
}

/// A copy of a page's tables.
fn copy_tables(t: &Vec<String>) -> (r: Vec<String>)
    ensures
        table_views(r@) == table_views(t@),
{
    let mut r: Vec<String> = Vec::new();
    let mut i: usize = 0;
    while i < t.len()
        invariant
            i <= t@.len(),
            r@.len() == i,
            forall|j: int| 0 <= j < i ==> #[trigger] r@[j]@ == t@[j]@,
        decreases t@.len() - i,
    {
        r.push(t[i].clone());
        i += 1;
    }
    assert(table_views(r@) =~= table_views(t@));
    r
}

/// Appends the lines of `table` after its first two, each with a line feed.
fn push_rows_after_header(out: &mut String, table: &str)
    ensures
        final(out)@ == old(out)@ + lines_from(lines_of(table@), 2),
{
    let v = str_chars(table);
    let ls = lines_exec(v.as_slice());
    let mut k: usize = 2;
    let ghost base = out@;
    if ls.len() <= 2 {
        return;
    }
    while k < ls.len()
        invariant
            views_of(ls@) == lines_of(table@),
            2 <= k <= ls@.len(),
            base == old(out)@,
            out@ + lines_from(lines_of(table@), k as int) == base + lines_from(lines_of(table@), 2),
        decreases ls@.len() - k,
    {
        assert(views_of(ls@)[k as int] == ls@[k as int]@);
        let ghost before = out@;
        push_chars(out, ls[k].as_slice());
        crate::text::chars::push_char(out, '\n');
        assert(out@ == before + ls@[k as int]@.push('\n'));
        assert(lines_from(lines_of(table@), k as int) == ls@[k as int]@.push('\n') + lines_from(
            lines_of(table@),
            k + 1,
        ));
        k += 1;
    }
    assert(lines_from(lines_of(table@), k as int) =~= Seq::<char>::empty());
}

/// Merge continuation tables that span across page breaks.
///
/// `page_tables` lists the pages that have tables, in increasing page
/// order, each with the markdown of its tables.
pub fn merge_continuation_tables(
    page_tables: &mut Vec<(u32, Vec<String>)>,
    table_only_pages: &HashSet<u32>,
)
    requires
        pages_increasing(old(page_tables)@),
    ensures
        page_views(final(page_tables)@) == merged_from(
            page_views(old(page_tables)@),
            0,
            table_only_pages@,
        ),
{
    let ghost s = page_views(old(page_tables)@);
    let ghost only = table_only_pages@;
    let n = page_tables.len();
    let mut result: Vec<(u32, Vec<String>)> = Vec::new();
    let mut i: usize = 0;
    while i < n
        invariant
            n == page_tables@.len(),
            page_tables@ == old(page_tables)@,
            s == page_views(page_tables@),
            only == table_only_pages@,
            pages_increasing(page_tables@),
            i <= n,
            page_views(result@) + merged_from(s, i as int, only) == merged_from(s, 0, only),
        decreases n - i,
    {
        let first_page = page_tables[i].0;
        let single = page_tables[i].1.len() == 1;
        let cols = if single {
            count_table_columns(page_tables[i].1[0].as_str())
        } else {
            0
        };
        assert(s[i as int].1 == table_views(page_tables@[i as int].1@));
        let eligible = single && table_only_pages.contains(&first_page) && cols > 0;
        // Count the pages that continue the table.
        let mut k: usize = 0;
        if eligible {
            let mut prev = first_page;
            proof {
                assert(continuation_count(s, i + 1, first_page, only, cols as nat)
                    == continuation_count(s, (i + 1 + k) as int, prev, only, cols as nat) + k);
            }
            while i + 1 + k < n
                invariant
                    n == page_tables@.len(),
                    s == page_views(page_tables@),
                    only == table_only_pages@,
                    i < n,
                    i + 1 + k <= n,
                    continuation_count(s, i + 1, first_page, only, cols as nat)
                        == continuation_count(s, (i + 1 + k) as int, prev, only, cols as nat) + k,
                ensures
                    continuation_count(s, i + 1, first_page, only, cols as nat) == k,
                decreases n - (i + 1 + k),
            {
                let j = i + 1 + k;
                let next_page = page_tables[j].0;
                assert(s[j as int].1 == table_views(page_tables@[j as int].1@));
                let ok = prev < 0xFFFF_FFFFu32 && next_page == prev + 1
                    && table_only_pages.contains(&next_page) && page_tables[j].1.len() == 1
                    && count_table_columns(page_tables[j].1[0].as_str()) == cols;
                assert(ok == continues_table(s[j as int], prev, only, cols as nat));
                if !ok {
                    assert(continuation_count(s, j as int, prev, only, cols as nat) == 0);
                    break;
                }
                prev = next_page;
                k += 1;
            }
        }
        proof {
            lemma_continuation_count_bound(s, i + 1, first_page, only, cols as nat);
        }
        assert(k == (if eligible { continuation_count(s, i + 1, first_page, only, cols as nat) } else { 0 }));
        proof {
            if eligible {
                lemma_continuation_single(s, i + 1, first_page, only, cols as nat);
                assert forall|q: int| i + 1 <= q < i + 1 + k implies #[trigger] page_tables@[q].1@.len()
                    == 1 by {
                    assert(s[q].1 == table_views(page_tables@[q].1@));
                }
            }
        }
        if eligible && k > 0 {
            let mut merged = page_tables[i].1[0].clone();
            let ghost head = merged@;
            let mut m: usize = 0;
            while m < k
                invariant
                    n == page_tables@.len(),
                    s == page_views(page_tables@),
                    i + 1 + k <= n,
                    m <= k,
                    merged@ == head + continued_rows(s, i + 1, m as nat),
                    forall|q: int|
                        i + 1 <= q < i + 1 + k ==> #[trigger] page_tables@[q].1@.len() == 1,
                decreases k - m,
            {
                let q = i + 1 + m;
                assert(s[q as int].1 == table_views(page_tables@[q as int].1@));
                push_rows_after_header(&mut merged, page_tables[q].1[0].as_str());
                m += 1;
            }
            let mut tables: Vec<String> = Vec::new();
            tables.push(merged);
            let ghost before = page_views(result@);
            assert(table_views(tables@) =~= seq![merged@]);
            result.push((first_page, tables));
            proof {
                let entry = (s[i as int].0, seq![s[i as int].1[0] + continued_rows(s, i + 1, k as nat)]);
                assert(page_views(result@) =~= before.push(entry));
                assert(merged_from(s, i as int, only) == seq![entry] + merged_from(
                    s,
                    i + 1 + k,
                    only,
                ));
                assert(before.push(entry) + merged_from(s, i + 1 + k, only) =~= before + (seq![entry]
                    + merged_from(s, i + 1 + k, only)));
            }
            i = i + 1 + k;
        } else {
            let tables = copy_tables(&page_tables[i].1);
            let ghost before = page_views(result@);
            result.push((first_page, tables));
            proof {
                let entry = s[i as int];
                assert(page_views(result@) =~= before.push(entry));
                assert(merged_from(s, i as int, only) == seq![entry] + merged_from(s, i + 1, only));
                assert(before.push(entry) + merged_from(s, i + 1, only) =~= before + (seq![entry]
                    + merged_from(s, i + 1, only)));
            }
            i = i + 1;
        }
    }
    *page_tables = result;
}

/// The number of columns of a markdown table: the pipes of its separator
/// row (the second line, which holds `---`) less one, or 0.
pub open spec fn table_columns(table_md: Seq<char>) -> nat {
    let ls = lines_of(table_md);
    if ls.len() > 1 && contains_seq(ls[1], "---"@) {
        let pipes = count(ls[1], |c: char| c == '|');
        if pipes >= 2 {
            (pipes - 1) as nat
        } else {
            0
        }
    } else {
        0
    }
}

/// Count the number of columns in a markdown table by counting `|` in the
/// separator row.
pub fn count_table_columns(table_md: &str) -> (r: usize)
    ensures
        r == table_columns(table_md@),
{
    let v = str_chars(table_md);
    let ls = lines_exec(v.as_slice());
    if ls.len() > 1 {
        assert(views_of(ls@)[1] == ls@[1]@);
        let sep = &ls[1];
        let dashes = str_chars("---");
        if contains_exec(sep.as_slice(), dashes.as_slice()) {
            let pipes = count_char(sep.as_slice(), '|');
            return if pipes >= 2 {
                pipes - 1
            } else {
                0
            };
        }
    }
    0
}

} // verus!
