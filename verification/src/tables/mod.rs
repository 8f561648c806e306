//! Table detection logic on cell grids, and table rendering.

use vstd::prelude::*;

use crate::text::chars::{trim, trim_exec};

pub mod detect_lines;
pub mod detect_rects;
pub mod format;
pub mod detect_heuristic;

verus! {

/// A cell with some text that is not white space.
pub open spec fn filled(cell: Seq<char>) -> bool {
    trim(cell).len() > 0
}

/// The number of filled cells of a row.
pub open spec fn row_filled(row: Seq<String>) -> nat
    decreases row.len(),
{
    if row.len() == 0 {
        0
    } else {
        row_filled(row.drop_last()) + if filled(row.last()@) {
            1nat
        } else {
            0nat
        }
    }
}

/// The number of filled cells of a grid.
pub open spec fn grid_filled(cells: Seq<Vec<String>>) -> nat
    decreases cells.len(),
{
    if cells.len() == 0 {
        0
    } else {
        grid_filled(cells.drop_last()) + row_filled(cells.last()@)
    }
}

/// The number of cells of a row whose text satisfies `p`.
pub open spec fn row_count(row: Seq<String>, p: spec_fn(Seq<char>) -> bool) -> nat
    decreases row.len(),
{
    if row.len() == 0 {
        0
    } else {
        row_count(row.drop_last(), p) + if p(row.last()@) {
            1nat
        } else {
            0nat
        }
    }
}

/// The number of cells of a grid whose text satisfies `p`.
pub open spec fn grid_count(cells: Seq<Vec<String>>, p: spec_fn(Seq<char>) -> bool) -> nat
    decreases cells.len(),
{
    if cells.len() == 0 {
        0
    } else {
        grid_count(cells.drop_last(), p) + row_count(cells.last()@, p)
    }
}

/// The sum of `f` over the cells of a row.
pub open spec fn row_sum(row: Seq<String>, f: spec_fn(Seq<char>) -> nat) -> nat
    decreases row.len(),
{
    if row.len() == 0 {
        0
    } else {
        row_sum(row.drop_last(), f) + f(row.last()@)
    }
}

/// The sum of `f` over the cells of a grid.
pub open spec fn grid_sum(cells: Seq<Vec<String>>, f: spec_fn(Seq<char>) -> nat) -> nat
    decreases cells.len(),
{
    if cells.len() == 0 {
        0
    } else {
        grid_sum(cells.drop_last(), f) + row_sum(cells.last()@, f)
    }
}

pub proof fn lemma_row_count_bound(row: Seq<String>, p: spec_fn(Seq<char>) -> bool)
    ensures
        row_count(row, p) <= row.len(),
    decreases row.len(),
{
    if row.len() > 0 {
        lemma_row_count_bound(row.drop_last(), p);
    }
}

pub proof fn lemma_grid_count_bound(cells: Seq<Vec<String>>, p: spec_fn(Seq<char>) -> bool)
    ensures
        grid_count(cells, p) <= cell_count(cells),
    decreases cells.len(),
{
    if cells.len() > 0 {
        lemma_grid_count_bound(cells.drop_last(), p);
        lemma_row_count_bound(cells.last()@, p);
    }
}

/// The number of cells of a grid.
pub open spec fn cell_count(cells: Seq<Vec<String>>) -> nat
    decreases cells.len(),
{
    if cells.len() == 0 {
        0
    } else {
        cell_count(cells.drop_last()) + cells.last()@.len()
    }
}

/// The cell counts fit the machine arithmetic that validation does.
pub open spec fn grid_size_ok(cells: Seq<Vec<String>>) -> bool {
    cell_count(cells) * 100 <= usize::MAX && (cells.len() > 0 ==> cells.len() * cells[0]@.len()
        <= usize::MAX)
}

/// At least two rows and two columns (as the first row has), and at least
/// `percent` percent of rows × columns cells filled (rounding down).
pub open spec fn valid_grid(cells: Seq<Vec<String>>, percent: nat) -> bool {
    cells.len() >= 2 && cells[0]@.len() >= 2 && grid_filled(cells) * 100 / (cells.len()
        * cells[0]@.len()) as nat >= percent
}

proof fn lemma_row_filled_bound(row: Seq<String>)
    ensures
        row_filled(row) <= row.len(),
    decreases row.len(),
{
    if row.len() > 0 {
        lemma_row_filled_bound(row.drop_last());
    }
}

/// A grid that meets a fill threshold meets every lower one; in
/// particular a table accepted by the rectangle check (30%) is accepted
/// by the ruling-line check (20%).
pub proof fn lemma_valid_grid_monotone(cells: Seq<Vec<String>>, high: nat, low: nat)
    requires
        valid_grid(cells, high),
        low <= high,
    ensures
        valid_grid(cells, low),
{
}

/// Whether the cell has text that is not white space.
pub fn is_filled(cell: &str) -> (r: bool)
    ensures
        r == filled(cell@),
{
    let v = crate::text::chars::str_chars(cell);
    let t = trim_exec(v.as_slice());
    t.len() > 0
}

/// The number of filled cells of a row.
pub fn count_filled(row: &[String]) -> (r: usize)
    ensures
        r == row_filled(row@),
{
    let mut n: usize = 0;
    let mut i: usize = 0;
    while i < row.len()
        invariant
            i <= row@.len(),
            n == row_filled(row@.take(i as int)),
        decreases row@.len() - i,
    {
        proof {
            assert(row@.take(i + 1).drop_last() =~= row@.take(i as int));
            lemma_row_filled_bound(row@.take(i as int));
        }
        if is_filled(row[i].as_str()) {
            n += 1;
        }
        i += 1;
    }
    assert(row@.take(row@.len() as int) =~= row@);
    n
}

proof fn lemma_grid_filled_bound(cells: Seq<Vec<String>>)
    ensures
        grid_filled(cells) <= cell_count(cells),
    decreases cells.len(),
{
    if cells.len() > 0 {
        lemma_grid_filled_bound(cells.drop_last());
        lemma_row_filled_bound(cells.last()@);
    }
}

pub proof fn lemma_cell_count_prefix(cells: Seq<Vec<String>>, k: int)
    requires
        0 <= k <= cells.len(),
    ensures
        cell_count(cells.take(k)) <= cell_count(cells),
    decreases cells.len() - k,
{
    if k < cells.len() {
        assert(cells.drop_last().take(k) =~= cells.take(k));
        lemma_cell_count_prefix(cells.drop_last(), k);
    } else {
        assert(cells.take(k) =~= cells);
    }
}

/// The number of cells of a grid.
pub fn count_cells(cells: &[Vec<String>]) -> (r: usize)
    requires
        cell_count(cells@) <= usize::MAX,
    ensures
        r == cell_count(cells@),
{
    let mut n: usize = 0;
    let mut i: usize = 0;
    while i < cells.len()
        invariant
            i <= cells@.len(),
            cell_count(cells@) <= usize::MAX,
            n == cell_count(cells@.take(i as int)),
        decreases cells@.len() - i,
    {
        proof {
            assert(cells@.take(i + 1).drop_last() =~= cells@.take(i as int));
            lemma_cell_count_prefix(cells@, i + 1);
        }
        n = n + cells[i].len();
        i += 1;
    }
    assert(cells@.take(cells@.len() as int) =~= cells@);
    n
}

/// The number of filled cells of a grid.
pub fn count_grid_filled(cells: &[Vec<String>]) -> (r: usize)
    requires
        cell_count(cells@) <= usize::MAX,
    ensures
        r == grid_filled(cells@),
{
    let mut n: usize = 0;
    let mut i: usize = 0;
    while i < cells.len()
        invariant
            i <= cells@.len(),
            cell_count(cells@) <= usize::MAX,
            n == grid_filled(cells@.take(i as int)),
        decreases cells@.len() - i,
    {
        proof {
            assert(cells@.take(i + 1).drop_last() =~= cells@.take(i as int));
            lemma_grid_filled_bound(cells@.take(i + 1));
            lemma_cell_count_prefix(cells@, i + 1);
        }
        let k = count_filled(cells[i].as_slice());
        n = n + k;
        i += 1;
    }
    assert(cells@.take(cells@.len() as int) =~= cells@);
    n
}

/// The grid has at least two rows and two columns and `percent` percent
/// of its cells filled.
pub fn has_valid_grid(cells: &[Vec<String>], percent: usize) -> (r: bool)
    requires
        grid_size_ok(cells@),
    ensures
        r == valid_grid(cells@, percent as nat),
{
    let rows = cells.len();
    if rows < 2 {
        return false;
    }
    let cols = cells[0].len();
    if cols < 2 {
        return false;
    }
    let total = rows * cols;
    assert(total > 0) by (nonlinear_arith)
        requires
            total == rows * cols,
            rows >= 2,
            cols >= 2,
    ;
    proof {
        lemma_grid_filled_bound(cells@);
    }
    let filled = count_grid_filled(cells);
    filled * 100 / total >= percent
}

} // verus!
