//! Validation of tables found from text positions alone: the tests on a
//! candidate cell grid that tell real tables from forms, tables of
//! contents and running text.

use vstd::prelude::*;

use crate::tables::format::{byte_len, chars_byte_len};
use crate::tables::{
    cell_count, filled, grid_count, grid_size_ok, grid_sum, row_count, row_sum,
};
use crate::text::chars::{
    alphanumeric, ascii_digit, contains_exec, contains_seq, count, count_char, has_char,
    is_alphabetic, unicode_alphabetic, is_alphanumeric,
    is_ascii_digit, is_uppercase, is_whitespace, str_chars, trim, trim_exec, unicode_uppercase,
    white_space,
};

use crate::text::words::append_chars;
use crate::types::{ends_with_char, LineItem};
use crate::text::chars::push_chars;

verus! {

/// Detection mode controls validation thresholds.
#[derive(Debug, Clone, Copy, PartialEq, Eq, Structural)]
pub enum Mode {
    SmallFont,
    BodyFont,
}

// ── Cell content ───────────────────────────────────────────────────

/// A character of a number: a digit, `.`, `,`, `-` or `+`.
pub open spec fn number_char(c: char) -> bool {
    ascii_digit(c) || c == '.' || c == ',' || c == '-' || c == '+'
}

/// Some character of `s` is an ASCII digit.
pub open spec fn has_digit(s: Seq<char>) -> bool {
    exists|i: int| 0 <= i < s.len() && ascii_digit(#[trigger] s[i])
}

/// The trimmed text is non-empty, made of number characters, with a digit.
pub open spec fn number_like(s: Seq<char>) -> bool {
    let t = trim(s);
    t.len() > 0 && (forall|i: int| 0 <= i < t.len() ==> number_char(#[trigger] t[i]))
        && has_digit(t)
}

fn has_digit_exec(s: &[char]) -> (r: bool)
    ensures
        r == has_digit(s@),
{
    let mut i: usize = 0;
    while i < s.len()
        invariant
            i <= s@.len(),
            forall|j: int| 0 <= j < i ==> !ascii_digit(#[trigger] s@[j]),
        decreases s@.len() - i,
    {
        if is_ascii_digit(s[i]) {
            return true;
        }
        i += 1;
    }
    false
}

fn number_like_chars(s: &[char]) -> (r: bool)
    ensures
        r == number_like(s@),
{
    let t = trim_exec(s);
    if t.len() == 0 {
        return false;
    }
    let mut i: usize = 0;
    while i < t.len()
        invariant
            t@ == trim(s@),
            i <= t@.len(),
            forall|j: int| 0 <= j < i ==> number_char(#[trigger] t@[j]),
        decreases t@.len() - i,
    {
        let c = t[i];
        if !(is_ascii_digit(c) || c == '.' || c == ',' || c == '-' || c == '+') {
            assert(!number_char(t@[i as int]));
            return false;
        }
        i += 1;
    }
    has_digit_exec(t.as_slice())
}

/// Whether the trimmed text looks like a number.
pub fn looks_like_number(s: &str) -> (r: bool)
    ensures
        r == number_like(s@),
{
    let v = str_chars(s);
    number_like_chars(v.as_slice())
}

/// The number of ASCII digits in `s`.
pub open spec fn digit_count(s: Seq<char>) -> nat
    decreases s.len(),
{
    if s.len() == 0 {
        0
    } else {
        digit_count(s.drop_last()) + if ascii_digit(s.last()) {
            1nat
        } else {
            0nat
        }
    }
}

/// A short date-like value: at most ten bytes of digits, `/` and `-`, with
/// at least four digits and a separator.
pub open spec fn date_like(t: Seq<char>) -> bool {
    byte_len(t) <= 10 && digit_count(t) >= 4 && (t.contains('/') || t.contains('-')) && (forall|
        i: int,
    |
        0 <= i < t.len() ==> (ascii_digit(#[trigger] t[i]) || t[i] == '/' || t[i] == '-'))
}

/// A short code: at most ten bytes, all alphanumeric, with a digit.
pub open spec fn code_like(t: Seq<char>) -> bool {
    byte_len(t) <= 10 && (forall|i: int| 0 <= i < t.len() ==> alphanumeric(#[trigger] t[i]))
        && has_digit(t)
}

/// A unit of measure occurs in `t`.
pub open spec fn has_unit(t: Seq<char>) -> bool {
    t.contains('°') || t.contains('V') || t.contains('A') || contains_seq(t, "Hz"@)
        || contains_seq(t, "mA"@) || contains_seq(t, "µ"@) || contains_seq(t, "pin"@)
        || contains_seq(t, "MHz"@) || contains_seq(t, "kHz"@)
}

/// The trimmed text looks like a table value: a number, a date, a code, a
/// measurement, a number in parentheses, or a temperature range.
pub open spec fn table_data(s: Seq<char>) -> bool {
    let t = trim(s);
    t.len() > 0 && (number_like(t) || date_like(t) || code_like(t) || (has_digit(t) && has_unit(t))
        || (t.contains('(') && t.contains(')') && has_digit(t)) || ((contains_seq(t, "°C"@)
        || contains_seq(t, "°F"@)) && contains_seq(t, "to"@)))
}

fn digit_count_exec(s: &[char]) -> (r: usize)
    ensures
        r == digit_count(s@),
{
    let mut n: usize = 0;
    let mut i: usize = 0;
    while i < s.len()
        invariant
            i <= s@.len(),
            n == digit_count(s@.take(i as int)),
            n <= i,
        decreases s@.len() - i,
    {
        assert(s@.take(i + 1).drop_last() =~= s@.take(i as int));
        if is_ascii_digit(s[i]) {
            n += 1;
        }
        i += 1;
    }
    assert(s@.take(s@.len() as int) =~= s@);
    n
}

fn date_like_exec(t: &[char]) -> (r: bool)
    ensures
        r == date_like(t@),
{
    if chars_byte_len(t) > 10 || digit_count_exec(t) < 4 || !(has_char(t, '/') || has_char(t, '-')) {
        return false;
    }
    let mut i: usize = 0;
    while i < t.len()
        invariant
            i <= t@.len(),
            forall|j: int| 0 <= j < i ==> (ascii_digit(#[trigger] t@[j]) || t@[j] == '/' || t@[j] == '-'),
        decreases t@.len() - i,
    {
        let c = t[i];
        if !(is_ascii_digit(c) || c == '/' || c == '-') {
            return false;
        }
        i += 1;
    }
    true
}

fn code_like_exec(t: &[char]) -> (r: bool)
    ensures
        r == code_like(t@),
{
    if chars_byte_len(t) > 10 {
        return false;
    }
    let mut i: usize = 0;
    while i < t.len()
        invariant
            i <= t@.len(),
            forall|j: int| 0 <= j < i ==> alphanumeric(#[trigger] t@[j]),
        decreases t@.len() - i,
    {
        if !is_alphanumeric(t[i]) {
            return false;
        }
        i += 1;
    }
    has_digit_exec(t)
}

fn has_unit_exec(t: &[char]) -> (r: bool)
    ensures
        r == has_unit(t@),
{
    let hz = str_chars("Hz");
    let ma = str_chars("mA");
    let micro = str_chars("µ");
    let pin = str_chars("pin");
    let mhz = str_chars("MHz");
    let khz = str_chars("kHz");
    has_char(t, '°') || has_char(t, 'V') || has_char(t, 'A') || contains_exec(t, hz.as_slice())
        || contains_exec(t, ma.as_slice()) || contains_exec(t, micro.as_slice()) || contains_exec(
        t,
        pin.as_slice(),
    ) || contains_exec(t, mhz.as_slice()) || contains_exec(t, khz.as_slice())
}

fn table_data_chars(s: &[char]) -> (r: bool)
    ensures
        r == table_data(s@),
{
    let t = trim_exec(s);
    if t.len() == 0 {
        return false;
    }
    let ts = t.as_slice();
    if number_like_chars(ts) || date_like_exec(ts) || code_like_exec(ts) {
        return true;
    }
    let digit = has_digit_exec(ts);
    if digit && has_unit_exec(ts) {
        return true;
    }
    if has_char(ts, '(') && has_char(ts, ')') && digit {
        return true;
    }
    let deg_c = str_chars("°C");
    let deg_f = str_chars("°F");
    let to = str_chars("to");
    (contains_exec(ts, deg_c.as_slice()) || contains_exec(ts, deg_f.as_slice())) && contains_exec(
        ts,
        to.as_slice(),
    )
}

/// Whether a cell's text looks like table data.
pub fn looks_like_table_data(s: &str) -> (r: bool)
    ensures
        r == table_data(s@),
{
    let v = str_chars(s);
    table_data_chars(v.as_slice())
}

// ── Grid layout ────────────────────────────────────────────────────

/// The number of cells of a row that are not empty strings.
pub open spec fn row_nonempty(row: Seq<String>) -> nat
    decreases row.len(),
{
    if row.len() == 0 {
        0
    } else {
        row_nonempty(row.drop_last()) + if row.last()@.len() > 0 {
            1nat
        } else {
            0nat
        }
    }
}

proof fn lemma_row_nonempty_bound(row: Seq<String>)
    ensures
        row_nonempty(row) <= row.len(),
    decreases row.len(),
{
    if row.len() > 0 {
        lemma_row_nonempty_bound(row.drop_last());
    }
}

fn count_nonempty(row: &[String]) -> (r: usize)
    ensures
        r == row_nonempty(row@),
{
    let mut n: usize = 0;
    let mut i: usize = 0;
    while i < row.len()
        invariant
            i <= row@.len(),
            n == row_nonempty(row@.take(i as int)),
        decreases row@.len() - i,
    {
        proof {
            assert(row@.take(i + 1).drop_last() =~= row@.take(i as int));
            lemma_row_nonempty_bound(row@.take(i as int));
        }
        if !row[i].as_str().is_empty() {
            n += 1;
        }
        i += 1;
    }
    assert(row@.take(row@.len() as int) =~= row@);
    n
}

/// A character of a label: uppercase, white space or parentheses.
pub open spec fn label_char(c: char) -> bool {
    unicode_uppercase(c) || white_space(c) || c == '(' || c == ')'
}

/// The trimmed first cell of a row (empty for an empty row).
pub open spec fn first_cell(row: Seq<String>) -> Seq<char> {
    if row.len() > 0 {
        trim(row[0]@)
    } else {
        seq![]
    }
}

/// A label: ends with `:`, or longer than three bytes in capitals.
pub open spec fn label_like(first: Seq<char>) -> bool {
    (first.len() > 0 && first.last() == ':') || (byte_len(first) > 3 && forall|i: int|
        0 <= i < first.len() ==> label_char(#[trigger] first[i]))
}

/// Among the first `k` rows: those with at most two non-empty cells.
pub open spec fn sparse_rows(cells: Seq<Vec<String>>, k: nat) -> nat
    decreases k,
{
    if k == 0 {
        0
    } else {
        sparse_rows(cells, (k - 1) as nat) + if row_nonempty(cells[k - 1]@) <= 2 {
            1nat
        } else {
            0nat
        }
    }
}

/// Among the first `k` rows: those whose first cell is a label.
pub open spec fn label_rows(cells: Seq<Vec<String>>, k: nat) -> nat
    decreases k,
{
    if k == 0 {
        0
    } else {
        label_rows(cells, (k - 1) as nat) + if label_like(first_cell(cells[k - 1]@)) {
            1nat
        } else {
            0nat
        }
    }
}

/// A form laid out as label and value: more than 70% of rows have at most
/// two non-empty cells, more than half start with a label, and there are
/// at most six columns.
pub open spec fn key_value_layout(cells: Seq<Vec<String>>) -> bool {
    cells.len() > 0 && 10 * sparse_rows(cells, cells.len()) > 7 * cells.len() && 2 * label_rows(
        cells,
        cells.len(),
    ) > cells.len() && cells[0]@.len() <= 6
}

fn label_like_exec(first: &[char]) -> (r: bool)
    ensures
        r == label_like(first@),
{
    if first.len() > 0 && first[first.len() - 1] == ':' {
        return true;
    }
    if chars_byte_len(first) <= 3 {
        return false;
    }
    let mut i: usize = 0;
    while i < first.len()
        invariant
            !(first@.len() > 0 && first@.last() == ':'),
            i <= first@.len(),
            forall|j: int| 0 <= j < i ==> label_char(#[trigger] first@[j]),
        decreases first@.len() - i,
    {
        let c = first[i];
        if !(is_uppercase(c) || is_whitespace(c) || c == '(' || c == ')') {
            assert(!label_char(first@[i as int]));
            return false;
        }
        i += 1;
    }
    true
}

proof fn lemma_row_counts_bound(cells: Seq<Vec<String>>, k: nat)
    ensures
        sparse_rows(cells, k) <= k,
        label_rows(cells, k) <= k,
    decreases k,
{
    if k > 0 {
        lemma_row_counts_bound(cells, (k - 1) as nat);
    }
}

/// Whether the grid is a form of labels and values rather than a table.
pub fn is_key_value_layout(cells: &[Vec<String>]) -> (r: bool)
    ensures
        r == key_value_layout(cells@),
{
    if cells.len() == 0 {
        return false;
    }
    let num_cols = cells[0].len();
    let mut label_like: usize = 0;
    let mut rows_two_or_less: usize = 0;
    let mut i: usize = 0;
    while i < cells.len()
        invariant
            i <= cells@.len(),
            rows_two_or_less == sparse_rows(cells@, i as nat),
            label_like == label_rows(cells@, i as nat),
        decreases cells@.len() - i,
    {
        proof {
            lemma_row_counts_bound(cells@, i as nat);
        }
        let row = &cells[i];
        if count_nonempty(row.as_slice()) <= 2 {
            rows_two_or_less += 1;
        }
        let first = if row.len() > 0 {
            let v = str_chars(row[0].as_str());
            trim_exec(v.as_slice())
        } else {
            Vec::new()
        };
        assert(first@ == first_cell(cells@[i as int]@));
        if label_like_exec(first.as_slice()) {
            label_like += 1;
        }
        i += 1;
    }
    let n = cells.len() as u128;
    (rows_two_or_less as u128) * 10 > 7 * n && (label_like as u128) * 2 > n && num_cols <= 6
}

/// The non-empty cell count of each row.
pub open spec fn nonempty_counts(cells: Seq<Vec<String>>) -> Seq<nat> {
    Seq::new(cells.len(), |i: int| row_nonempty(cells[i]@))
}

/// How often `v` occurs in the first `k` entries of `s`.
pub open spec fn freq(s: Seq<nat>, v: nat, k: nat) -> nat
    decreases k,
{
    if k == 0 {
        0
    } else {
        freq(s, v, (k - 1) as nat) + if s[k - 1] == v {
            1nat
        } else {
            0nat
        }
    }
}

/// `v` occurs more often in `s` than `w`, or as often and is larger.
pub open spec fn more_common(s: Seq<nat>, v: nat, w: nat) -> bool {
    freq(s, v, s.len()) > freq(s, w, s.len()) || (freq(s, v, s.len()) == freq(s, w, s.len()) && v
        > w)
}

/// The most common of the first `k` entries of `s` (the larger on ties).
pub open spec fn most_common_upto(s: Seq<nat>, k: nat) -> nat
    decreases k,
{
    if k <= 1 {
        s[0]
    } else {
        let best = most_common_upto(s, (k - 1) as nat);
        if more_common(s, s[k - 1], best) {
            s[k - 1]
        } else {
            best
        }
    }
}

/// The most common entry is an entry, and no entry is more common.
pub proof fn lemma_most_common_upto(s: Seq<nat>, k: nat)
    requires
        1 <= k <= s.len(),
    ensures
        exists|j: int| 0 <= j < k && s[j] == most_common_upto(s, k),
        forall|j: int| 0 <= j < k ==> !more_common(s, #[trigger] s[j], most_common_upto(s, k)),
    decreases k,
{
    if k > 1 {
        lemma_most_common_upto(s, (k - 1) as nat);
        let best = most_common_upto(s, (k - 1) as nat);
        let j0 = choose|j: int| 0 <= j < k - 1 && s[j] == best;
        assert(s[j0] == best);
    } else {
        assert(s[0] == most_common_upto(s, k));
    }
}

/// How far a row's count may be from the most common count.
pub open spec fn count_tolerance(num_cols: nat) -> nat {
    if num_cols > 15 {
        num_cols / 4
    } else {
        2
    }
}

/// Among the first `k` entries of `s`: those within `tol` of `m`.
pub open spec fn near_count(s: Seq<nat>, m: nat, tol: nat, k: nat) -> nat
    decreases k,
{
    if k == 0 {
        0
    } else {
        near_count(s, m, tol, (k - 1) as nat) + if m - tol <= s[k - 1] <= m + tol {
            1nat
        } else {
            0nat
        }
    }
}

/// Rows agree on their number of non-empty cells: more than 40% of them
/// (25% for grids of more than 15 columns) lie within the tolerance of the
/// most common count. Grids of fewer than three rows pass.
pub open spec fn consistent_columns(cells: Seq<Vec<String>>) -> bool {
    cells.len() < 3 || {
        let s = nonempty_counts(cells);
        let m = most_common_upto(s, s.len());
        let nc = cells[0]@.len();
        let c = near_count(s, m, count_tolerance(nc), s.len());
        if nc > 15 {
            4 * c > cells.len()
        } else {
            5 * c > 2 * cells.len()
        }
    }
}

proof fn lemma_freq_bound(s: Seq<nat>, v: nat, k: nat)
    ensures
        freq(s, v, k) <= k,
    decreases k,
{
    if k > 0 {
        lemma_freq_bound(s, v, (k - 1) as nat);
    }
}

proof fn lemma_near_count_bound(s: Seq<nat>, m: nat, tol: nat, k: nat)
    ensures
        near_count(s, m, tol, k) <= k,
    decreases k,
{
    if k > 0 {
        lemma_near_count_bound(s, m, tol, (k - 1) as nat);
    }
}

/// How often `v` occurs in `counts`.
fn freq_exec(counts: &Vec<usize>, v: usize, s: Ghost<Seq<nat>>) -> (r: usize)
    requires
        counts@.len() == s@.len(),
        forall|i: int| 0 <= i < s@.len() ==> #[trigger] s@[i] == counts@[i] as nat,
    ensures
        r == freq(s@, v as nat, s@.len()),
{
    let mut n: usize = 0;
    let mut i: usize = 0;
    while i < counts.len()
        invariant
            counts@.len() == s@.len(),
            forall|j: int| 0 <= j < s@.len() ==> #[trigger] s@[j] == counts@[j] as nat,
            i <= counts@.len(),
            n == freq(s@, v as nat, i as nat),
        decreases counts@.len() - i,
    {
        proof {
            lemma_freq_bound(s@, v as nat, i as nat);
        }
        if counts[i] == v {
            n += 1;
        }
        i += 1;
    }
    n
}

/// Whether the rows have a consistent number of filled columns.
pub fn has_consistent_columns(cells: &[Vec<String>]) -> (r: bool)
    ensures
        r == consistent_columns(cells@),
{
    if cells.len() < 3 {
        return true;
    }
    let ghost s = nonempty_counts(cells@);
    let mut counts: Vec<usize> = Vec::new();
    let mut i: usize = 0;
    while i < cells.len()
        invariant
            s == nonempty_counts(cells@),
            i <= cells@.len(),
            counts@.len() == i,
            forall|j: int| 0 <= j < i ==> #[trigger] s[j] == counts@[j] as nat,
        decreases cells@.len() - i,
    {
        let c = count_nonempty(cells[i].as_slice());
        counts.push(c);
        i += 1;
    }
    let n = counts.len();
    let mut best: usize = counts[0];
    let mut best_freq: usize = freq_exec(&counts, best, Ghost(s));
    let mut k: usize = 1;
    while k < n
        invariant
            n == counts@.len(),
            n == s.len(),
            forall|j: int| 0 <= j < n ==> #[trigger] s[j] == counts@[j] as nat,
            1 <= k <= n,
            best as nat == most_common_upto(s, k as nat),
            best_freq == freq(s, best as nat, n as nat),
        decreases n - k,
    {
        let v = counts[k];
        let f = freq_exec(&counts, v, Ghost(s));
        if f > best_freq || (f == best_freq && v > best) {
            best = v;
            best_freq = f;
        }
        k += 1;
    }
    let num_cols = cells[0].len();
    let tolerance = if num_cols > 15 {
        num_cols / 4
    } else {
        2
    };
    let mut consistent: usize = 0;
    let mut j: usize = 0;
    while j < n
        invariant
            n == counts@.len(),
            n == s.len(),
            forall|m: int| 0 <= m < n ==> #[trigger] s[m] == counts@[m] as nat,
            j <= n,
            consistent == near_count(s, best as nat, tolerance as nat, j as nat),
        decreases n - j,
    {
        proof {
            lemma_near_count_bound(s, best as nat, tolerance as nat, j as nat);
        }
        let c = counts[j];
        let above_low = c >= best || best - c <= tolerance;
        let below_high = c <= best || c - best <= tolerance;
        if above_low && below_high {
            consistent += 1;
        }
        j += 1;
    }
    assert(tolerance as nat == count_tolerance(cells@[0]@.len()));
    let c = consistent as u128;
    let len = n as u128;
    if num_cols > 15 {
        c * 4 > len
    } else {
        c * 5 > 2 * len
    }
}

// ── Content ────────────────────────────────────────────────────────

/// A filled cell whose trimmed text looks like table data.
pub open spec fn data_cell(c: Seq<char>) -> bool {
    filled(c) && table_data(trim(c))
}

/// The byte length of a filled cell's trimmed text (0 for a blank cell).
pub open spec fn filled_len(c: Seq<char>) -> nat {
    if filled(c) {
        byte_len(trim(c))
    } else {
        0
    }
}

/// All rows but the first.
pub open spec fn body_rows(cells: Seq<Vec<String>>) -> Seq<Vec<String>> {
    if cells.len() > 0 {
        cells.drop_first()
    } else {
        cells
    }
}

/// The body (all rows but the first) holds table-like data: more than
/// 20% (small font) or 30% (body font) of its filled cells look like data,
/// or the table has at least three columns, or (body font, two columns)
/// the filled body cells average at most 25 bytes.
pub open spec fn table_like_content(cells: Seq<Vec<String>>, mode: Mode) -> bool {
    let body = body_rows(cells);
    let total = grid_count(body, |c: Seq<char>| filled(c));
    let data = grid_count(body, |c: Seq<char>| data_cell(c));
    let num_cols = if cells.len() > 0 {
        cells[0]@.len()
    } else {
        0
    };
    total > 0 && ((if mode == Mode::SmallFont {
        5 * data > total
    } else {
        10 * data > 3 * total
    }) || num_cols >= 3 || (num_cols == 2 && mode == Mode::BodyFont && grid_sum(
        body,
        |c: Seq<char>| filled_len(c),
    ) / total <= 25))
}

proof fn lemma_cell_count_range(cells: Seq<Vec<String>>, hi: int)
    requires
        1 <= hi <= cells.len(),
    ensures
        cell_count(cells.subrange(1, hi)) <= cell_count(cells),
    decreases hi,
{
    if hi > 1 {
        lemma_cell_count_range(cells, hi - 1);
        assert(cells.subrange(1, hi).drop_last() =~= cells.subrange(1, hi - 1));
        crate::tables::lemma_cell_count_prefix(cells, hi);
        lemma_cell_count_split(cells.take(hi));
        assert(cells.take(hi).drop_first() =~= cells.subrange(1, hi));
    }
}

proof fn lemma_cell_count_split(cells: Seq<Vec<String>>)
    requires
        cells.len() >= 1,
    ensures
        cell_count(cells) == cells[0]@.len() + cell_count(cells.drop_first()),
    decreases cells.len(),
{
    if cells.len() > 1 {
        lemma_cell_count_split(cells.drop_last());
        assert(cells.drop_last().drop_first() =~= cells.drop_first().drop_last());
    } else {
        assert(cells.drop_first() =~= Seq::<Vec<String>>::empty());
        assert(cells.drop_last() =~= Seq::<Vec<String>>::empty());
    }
}

/// Whether the cells' content looks like a table's.
pub fn has_table_like_content(cells: &[Vec<String>], mode: Mode) -> (r: bool)
    requires
        cell_count(cells@) * 100 <= usize::MAX,
    ensures
        r == table_like_content(cells@, mode),
{
    if cells.len() <= 1 {
        proof {
            assert(cells@.len() == 1 ==> body_rows(cells@) =~= Seq::<Vec<String>>::empty());
        }
        return false;
    }
    let ghost filled_p = |c: Seq<char>| filled(c);
    let ghost data_p = |c: Seq<char>| data_cell(c);
    let ghost len_f = |c: Seq<char>| filled_len(c);
    let ghost cc = cell_count(cells@);
    // Sums of byte lengths are kept up to `cap`: past it the average is
    // over 25 bytes whatever follows.
    let cap: usize = 26 * crate::tables::count_cells(cells);
    let mut data_like: usize = 0;
    let mut total: usize = 0;
    let mut sum: usize = 0;
    let mut r: usize = 1;
    proof {
        assert(cells@.subrange(1, 1) =~= Seq::<Vec<String>>::empty());
    }
    while r < cells.len()
        invariant
            1 <= r <= cells@.len(),
            filled_p == (|c: Seq<char>| filled(c)),
            data_p == (|c: Seq<char>| data_cell(c)),
            len_f == (|c: Seq<char>| filled_len(c)),
            cc == cell_count(cells@),
            cc * 100 <= usize::MAX,
            cap == 26 * cc,
            total == grid_count(cells@.subrange(1, r as int), filled_p),
            data_like == grid_count(cells@.subrange(1, r as int), data_p),
            sum as int == if grid_sum(cells@.subrange(1, r as int), len_f) < cap {
                grid_sum(cells@.subrange(1, r as int), len_f) as int
            } else {
                cap as int
            },
        decreases cells@.len() - r,
    {
        let row = &cells[r];
        let ghost prefix = cells@.subrange(1, r as int);
        let mut c: usize = 0;
        let mut row_total: usize = 0;
        let mut row_data: usize = 0;
        proof {
            lemma_cell_count_range(cells@, r + 1);
            assert(cells@.subrange(1, r + 1) =~= prefix.push(cells@[r as int]));
            assert(cells@.subrange(1, r + 1).drop_last() =~= prefix);
            crate::tables::lemma_grid_count_bound(cells@.subrange(1, r + 1), filled_p);
            crate::tables::lemma_grid_count_bound(cells@.subrange(1, r + 1), data_p);
            assert(row@.take(0) =~= Seq::<String>::empty());
        }
        while c < row.len()
            invariant
                *row == cells@[r as int],
                c <= row@.len(),
                filled_p == (|c: Seq<char>| filled(c)),
                data_p == (|c: Seq<char>| data_cell(c)),
                len_f == (|c: Seq<char>| filled_len(c)),
                total + row_count(row@, filled_p) <= cc,
                data_like + row_count(row@, data_p) <= cc,
                cap == 26 * cc,
                cc * 100 <= usize::MAX,
                row_total == row_count(row@.take(c as int), filled_p),
                row_data == row_count(row@.take(c as int), data_p),
                sum as int == if grid_sum(prefix, len_f) + row_sum(row@.take(c as int), len_f)
                    < cap {
                    (grid_sum(prefix, len_f) + row_sum(row@.take(c as int), len_f)) as int
                } else {
                    cap as int
                },
            decreases row@.len() - c,
        {
            proof {
                assert(row@.take(c + 1).drop_last() =~= row@.take(c as int));
                crate::tables::lemma_row_count_bound(row@.take(c as int), filled_p);
                crate::tables::lemma_row_count_bound(row@.take(c as int), data_p);
                lemma_row_count_prefix(row@, c + 1, filled_p);
                lemma_row_count_prefix(row@, c + 1, data_p);
            }
            let v = str_chars(row[c].as_str());
            let t = trim_exec(v.as_slice());
            if t.len() > 0 {
                row_total += 1;
                if table_data_chars(t.as_slice()) {
                    row_data += 1;
                }
                let bl = chars_byte_len(t.as_slice());
                if bl >= cap - sum {
                    sum = cap;
                } else {
                    sum = sum + bl;
                }
            }
            c += 1;
        }
        proof {
            assert(row@.take(row@.len() as int) =~= row@);
        }
        total = total + row_total;
        data_like = data_like + row_data;
        r += 1;
    }
    proof {
        assert(cells@.subrange(1, cells@.len() as int) =~= body_rows(cells@));
        crate::tables::lemma_grid_count_bound(body_rows(cells@), filled_p);
        lemma_cell_count_range(cells@, cells@.len() as int);
    }
    if total == 0 {
        return false;
    }
    let num_cols = cells[0].len();
    let d = data_like as u128;
    let t = total as u128;
    let above = match mode {
        Mode::SmallFont => d * 5 > t,
        Mode::BodyFont => d * 10 > 3 * t,
    };
    if above || num_cols >= 3 {
        return true;
    }
    if num_cols == 2 && mode == Mode::BodyFont {
        proof {
            let gs = grid_sum(body_rows(cells@), len_f);
            if gs >= cap {
                assert(26 * total <= cap);
                assert(gs / (total as nat) >= 26) by (nonlinear_arith)
                    requires
                        gs >= 26 * total,
                        total > 0,
                ;
                assert((cap as nat) / (total as nat) >= 26) by (nonlinear_arith)
                    requires
                        cap >= 26 * total,
                        total > 0,
                ;
            }
        }
        return sum / total <= 25;
    }
    false
}

proof fn lemma_row_count_prefix(row: Seq<String>, k: int, p: spec_fn(Seq<char>) -> bool)
    requires
        0 <= k <= row.len(),
    ensures
        row_count(row.take(k), p) <= row_count(row, p),
    decreases row.len() - k,
{
    if k < row.len() {
        assert(row.drop_last().take(k) =~= row.take(k));
        lemma_row_count_prefix(row.drop_last(), k, p);
    } else {
        assert(row.take(k) =~= row);
    }
}

// ── Tables of contents ─────────────────────────────────────────────

/// The characters of `t` that are not white space.
pub open spec fn without_white_space(t: Seq<char>) -> Seq<char>
    decreases t.len(),
{
    if t.len() == 0 {
        seq![]
    } else {
        let prev = without_white_space(t.drop_last());
        if white_space(t.last()) {
            prev
        } else {
            prev.push(t.last())
        }
    }
}

/// A cell of dot leaders: its trimmed text is mostly dots (more than half
/// its bytes), with at least three.
pub open spec fn dot_cell(c: Seq<char>) -> bool {
    let t = trim(c);
    let dots = count(t, |x: char| x == '.');
    t.len() > 0 && dots > byte_len(t) / 2 && dots >= 3
}

/// A page-number cell: without white space, one to four ASCII digits.
pub open spec fn page_cell(c: Seq<char>) -> bool {
    let t = trim(c);
    let d = without_white_space(t);
    t.len() > 0 && byte_len(d) <= 4 && d.len() > 0 && forall|i: int|
        0 <= i < d.len() ==> ascii_digit(#[trigger] d[i])
}

/// Among the first `k` rows: those whose cell in column `c` satisfies `p`.
pub open spec fn column_count(
    cells: Seq<Vec<String>>,
    c: int,
    p: spec_fn(Seq<char>) -> bool,
    k: nat,
) -> nat
    decreases k,
{
    if k == 0 {
        0
    } else {
        let row = cells[k - 1]@;
        column_count(cells, c, p, (k - 1) as nat) + if 0 <= c < row.len() && p(row[c]@) {
            1nat
        } else {
            0nat
        }
    }
}

/// Among the first `k` columns: those with at least two cells satisfying `p`.
pub open spec fn columns_with_two(cells: Seq<Vec<String>>, p: spec_fn(Seq<char>) -> bool, k: nat) -> nat
    decreases k,
{
    if k == 0 {
        0
    } else {
        columns_with_two(cells, p, (k - 1) as nat) + if column_count(
            cells,
            k - 1,
            p,
            cells.len(),
        ) >= 2 {
            1nat
        } else {
            0nat
        }
    }
}

/// A table of contents: more than 15% of the filled cells are dot
/// leaders, or more than 5% are and more than 15% are page numbers; but
/// not a grid with at most one column of dot leaders and three or more
/// columns of numbers.
pub open spec fn table_of_contents(cells: Seq<Vec<String>>) -> bool {
    cells.len() > 0 && {
        let nc = cells[0]@.len();
        let total = grid_count(cells, |c: Seq<char>| filled(c));
        let dots = grid_count(cells, |c: Seq<char>| dot_cell(c));
        let pages = grid_count(cells, |c: Seq<char>| page_cell(c));
        total > 0 && !(columns_with_two(cells, |c: Seq<char>| dot_cell(c), nc) <= 1
            && columns_with_two(cells, |c: Seq<char>| page_cell(c), nc) >= 3) && (20 * dots > 3
            * total || (20 * dots > total && 20 * pages > 3 * total))
    }
}

fn without_white_space_exec(t: &[char]) -> (r: Vec<char>)
    ensures
        r@ == without_white_space(t@),
{
    let mut out: Vec<char> = Vec::new();
    let mut i: usize = 0;
    while i < t.len()
        invariant
            i <= t@.len(),
            out@ == without_white_space(t@.take(i as int)),
        decreases t@.len() - i,
    {
        assert(t@.take(i + 1).drop_last() =~= t@.take(i as int));
        if !is_whitespace(t[i]) {
            out.push(t[i]);
        }
        i += 1;
    }
    assert(t@.take(t@.len() as int) =~= t@);
    out
}

fn all_digits(d: &[char]) -> (r: bool)
    ensures
        r == forall|i: int| 0 <= i < d@.len() ==> ascii_digit(#[trigger] d@[i]),
{
    let mut i: usize = 0;
    while i < d.len()
        invariant
            i <= d@.len(),
            forall|j: int| 0 <= j < i ==> ascii_digit(#[trigger] d@[j]),
        decreases d@.len() - i,
    {
        if !is_ascii_digit(d[i]) {
            return false;
        }
        i += 1;
    }
    true
}

/// The trimmed text, and whether the cell is filled, dot leaders, or a
/// page number.
fn classify_toc_cell(cell: &str) -> (r: (bool, bool, bool))
    ensures
        r.0 == filled(cell@),
        r.1 == dot_cell(cell@),
        r.2 == page_cell(cell@),
{
    let v = str_chars(cell);
    let t = trim_exec(v.as_slice());
    if t.len() == 0 {
        return (false, false, false);
    }
    let dots = count_char(t.as_slice(), '.');
    let bl = chars_byte_len(t.as_slice());
    let is_dots = dots > bl / 2 && dots >= 3;
    let d = without_white_space_exec(t.as_slice());
    let is_page = chars_byte_len(d.as_slice()) <= 4 && d.len() > 0 && all_digits(d.as_slice());
    (true, is_dots, is_page)
}

proof fn lemma_column_count_bound(
    cells: Seq<Vec<String>>,
    c: int,
    p: spec_fn(Seq<char>) -> bool,
    k: nat,
)
    ensures
        column_count(cells, c, p, k) <= k,
    decreases k,
{
    if k > 0 {
        lemma_column_count_bound(cells, c, p, (k - 1) as nat);
    }
}

proof fn lemma_columns_with_two_bound(cells: Seq<Vec<String>>, p: spec_fn(Seq<char>) -> bool, k: nat)
    ensures
        columns_with_two(cells, p, k) <= k,
    decreases k,
{
    if k > 0 {
        lemma_columns_with_two_bound(cells, p, (k - 1) as nat);
    }
}

/// Whether the grid is a table of contents.
pub fn is_table_of_contents(cells: &[Vec<String>]) -> (r: bool)
    requires
        cell_count(cells@) * 100 <= usize::MAX,
        cells@.len() <= u32::MAX,
    ensures
        r == table_of_contents(cells@),
{
    if cells.len() == 0 {
        return false;
    }
    let ghost filled_p = |c: Seq<char>| filled(c);
    let ghost dot_p = |c: Seq<char>| dot_cell(c);
    let ghost page_p = |c: Seq<char>| page_cell(c);
    let ghost cc = cell_count(cells@);
    let num_cols = cells[0].len();
    let mut dot_cols: Vec<u32> = Vec::new();
    let mut numeric_cols: Vec<u32> = Vec::new();
    while dot_cols.len() < num_cols
        invariant
            dot_cols@.len() == numeric_cols@.len(),
            dot_cols@.len() <= num_cols,
            forall|c: int| 0 <= c < dot_cols@.len() ==> #[trigger] dot_cols@[c] == 0,
            forall|c: int| 0 <= c < numeric_cols@.len() ==> #[trigger] numeric_cols@[c] == 0,
        decreases num_cols - dot_cols@.len(),
    {
        dot_cols.push(0);
        numeric_cols.push(0);
    }
    let mut total: usize = 0;
    let mut dot_cells: usize = 0;
    let mut page_cells: usize = 0;
    let mut r: usize = 0;
    while r < cells.len()
        invariant
            r <= cells@.len(),
            cells@.len() <= u32::MAX,
            num_cols == cells@[0]@.len(),
            filled_p == (|c: Seq<char>| filled(c)),
            dot_p == (|c: Seq<char>| dot_cell(c)),
            page_p == (|c: Seq<char>| page_cell(c)),
            cc == cell_count(cells@),
            cc * 100 <= usize::MAX,
            dot_cols@.len() == num_cols,
            numeric_cols@.len() == num_cols,
            forall|c: int|
                0 <= c < num_cols ==> #[trigger] dot_cols@[c] as nat == column_count(
                    cells@,
                    c,
                    dot_p,
                    r as nat,
                ),
            forall|c: int|
                0 <= c < num_cols ==> #[trigger] numeric_cols@[c] as nat == column_count(
                    cells@,
                    c,
                    page_p,
                    r as nat,
                ),
            total == grid_count(cells@.take(r as int), filled_p),
            dot_cells == grid_count(cells@.take(r as int), dot_p),
            page_cells == grid_count(cells@.take(r as int), page_p),
        decreases cells@.len() - r,
    {
        let row = &cells[r];
        let ghost prefix = cells@.take(r as int);
        proof {
            assert(cells@.take(r + 1) =~= prefix.push(cells@[r as int]));
            assert(cells@.take(r + 1).drop_last() =~= prefix);
            crate::tables::lemma_cell_count_prefix(cells@, r + 1);
            crate::tables::lemma_grid_count_bound(cells@.take(r + 1), filled_p);
            crate::tables::lemma_grid_count_bound(cells@.take(r + 1), dot_p);
            crate::tables::lemma_grid_count_bound(cells@.take(r + 1), page_p);
        }
        let mut row_total: usize = 0;
        let mut row_dots: usize = 0;
        let mut row_pages: usize = 0;
        let mut ci: usize = 0;
        while ci < row.len()
            invariant
                *row == cells@[r as int],
                r < cells@.len(),
                cells@.len() <= u32::MAX,
                ci <= row@.len(),
                filled_p == (|c: Seq<char>| filled(c)),
                dot_p == (|c: Seq<char>| dot_cell(c)),
                page_p == (|c: Seq<char>| page_cell(c)),
                cc * 100 <= usize::MAX,
                total + row_count(row@, filled_p) <= cc,
                dot_cells + row_count(row@, dot_p) <= cc,
                page_cells + row_count(row@, page_p) <= cc,
                row_total == row_count(row@.take(ci as int), filled_p),
                row_dots == row_count(row@.take(ci as int), dot_p),
                row_pages == row_count(row@.take(ci as int), page_p),
                dot_cols@.len() == num_cols,
                numeric_cols@.len() == num_cols,
                forall|c: int|
                    0 <= c < num_cols ==> #[trigger] dot_cols@[c] as nat == if c < ci {
                        column_count(cells@, c, dot_p, (r + 1) as nat)
                    } else {
                        column_count(cells@, c, dot_p, r as nat)
                    },
                forall|c: int|
                    0 <= c < num_cols ==> #[trigger] numeric_cols@[c] as nat == if c < ci {
                        column_count(cells@, c, page_p, (r + 1) as nat)
                    } else {
                        column_count(cells@, c, page_p, r as nat)
                    },
            decreases row@.len() - ci,
        {
            proof {
                assert(row@.take(ci + 1).drop_last() =~= row@.take(ci as int));
                assert(row@.take(ci + 1).last() == row@[ci as int]);
                lemma_row_count_prefix(row@, ci + 1, filled_p);
                lemma_row_count_prefix(row@, ci + 1, dot_p);
                lemma_row_count_prefix(row@, ci + 1, page_p);
                lemma_column_count_bound(cells@, ci as int, dot_p, r as nat);
                lemma_column_count_bound(cells@, ci as int, page_p, r as nat);
            }
            let (is_filled, is_dots, is_page) = classify_toc_cell(row[ci].as_str());
            if is_filled {
                row_total += 1;
            }
            if is_dots {
                row_dots += 1;
                if ci < num_cols {
                    let v = dot_cols[ci] + 1;
                    dot_cols.set(ci, v);
                }
            }
            if is_page {
                row_pages += 1;
                if ci < num_cols {
                    let v = numeric_cols[ci] + 1;
                    numeric_cols.set(ci, v);
                }
            }
            ci += 1;
        }
        proof {
            assert(row@.take(row@.len() as int) =~= row@);
            assert forall|c: int| 0 <= c < num_cols implies #[trigger] dot_cols@[c] as nat
                == column_count(cells@, c, dot_p, (r + 1) as nat) by {}
            assert forall|c: int| 0 <= c < num_cols implies #[trigger] numeric_cols@[c] as nat
                == column_count(cells@, c, page_p, (r + 1) as nat) by {}
        }
        total = total + row_total;
        dot_cells = dot_cells + row_dots;
        page_cells = page_cells + row_pages;
        r += 1;
    }
    proof {
        assert(cells@.take(cells@.len() as int) =~= cells@);
    }
    if total == 0 {
        return false;
    }
    let mut cols_with_dots: usize = 0;
    let mut cols_with_numbers: usize = 0;
    let mut c: usize = 0;
    while c < num_cols
        invariant
            c <= num_cols,
            num_cols == cells@[0]@.len(),
            dot_p == (|c: Seq<char>| dot_cell(c)),
            page_p == (|c: Seq<char>| page_cell(c)),
            dot_cols@.len() == num_cols,
            numeric_cols@.len() == num_cols,
            forall|j: int|
                0 <= j < num_cols ==> #[trigger] dot_cols@[j] as nat == column_count(
                    cells@,
                    j,
                    dot_p,
                    cells@.len(),
                ),
            forall|j: int|
                0 <= j < num_cols ==> #[trigger] numeric_cols@[j] as nat == column_count(
                    cells@,
                    j,
                    page_p,
                    cells@.len(),
                ),
            cols_with_dots == columns_with_two(cells@, dot_p, c as nat),
            cols_with_numbers == columns_with_two(cells@, page_p, c as nat),
        decreases num_cols - c,
    {
        proof {
            lemma_columns_with_two_bound(cells@, dot_p, c as nat);
            lemma_columns_with_two_bound(cells@, page_p, c as nat);
        }
        if dot_cols[c] >= 2 {
            cols_with_dots += 1;
        }
        if numeric_cols[c] >= 2 {
            cols_with_numbers += 1;
        }
        c += 1;
    }
    if cols_with_dots <= 1 && cols_with_numbers >= 3 {
        return false;
    }
    let d = dot_cells as u128;
    let p = page_cells as u128;
    let t = total as u128;
    d * 20 > 3 * t || (d * 20 > t && p * 20 > 3 * t)
}

// ── Running text ───────────────────────────────────────────────────

/// A cell ending in a word broken by a hyphen: its trimmed text ends with
/// `-` after a letter.
pub open spec fn hyphen_break(c: Seq<char>) -> bool {
    let t = trim(c);
    t.len() >= 2 && t.last() == '-' && byte_len(t) > 1 && unicode_alphabetic(t[t.len() - 2])
}

/// Four characters from `i` alternate letter and space.
pub open spec fn spaced_window(t: Seq<char>, i: int) -> bool {
    (unicode_alphabetic(t[i]) && t[i + 1] == ' ' && unicode_alphabetic(t[i + 2]) && t[i + 3] == ' ')
        || (t[i] == ' ' && unicode_alphabetic(t[i + 1]) && t[i + 2] == ' ' && unicode_alphabetic(
        t[i + 3],
    ))
}

/// A letter-spaced cell ("T h e  w o r d"): at least nine characters, each
/// run of four alternating letter and space.
pub open spec fn letter_spaced(c: Seq<char>) -> bool {
    let t = trim(c);
    t.len() >= 9 && forall|i: int| 0 <= i && i + 4 <= t.len() ==> #[trigger] spaced_window(t, i)
}

/// A filled cell of more than 60 bytes.
pub open spec fn long_cell(c: Seq<char>) -> bool {
    filled(c) && byte_len(trim(c)) > 60
}

/// The grid holds running text rather than a table: at least four filled
/// cells, and more than 3% hyphen breaks, or more than 55% empty cells in
/// a grid of more than ten rows, or more than 8% letter-spaced cells, or
/// long cells (more than 20% with an average over 40 bytes, or more than
/// 30%).
pub open spec fn paragraph_content(cells: Seq<Vec<String>>) -> bool {
    cells.len() > 0 && {
        let total_cells = cells.len() * cells[0]@.len();
        let f = grid_count(cells, |c: Seq<char>| filled(c));
        let h = grid_count(cells, |c: Seq<char>| hyphen_break(c));
        let ls = grid_count(cells, |c: Seq<char>| letter_spaced(c));
        let long = grid_count(cells, |c: Seq<char>| long_cell(c));
        let sum = grid_sum(cells, |c: Seq<char>| filled_len(c));
        total_cells > 0 && f >= 4 && (100 * h > 3 * f || (20 * f < 9 * total_cells && cells.len()
            > 10) || (ls > 0 && 25 * ls > 2 * f) || (sum > 40 * f && 5 * long > f) || 10 * long > 3
            * f)
    }
}

fn letter_spaced_chars(t: &[char]) -> (r: bool)
    ensures
        r == (t@.len() >= 9 && forall|i: int|
            0 <= i && i + 4 <= t@.len() ==> #[trigger] spaced_window(t@, i)),
{
    if t.len() < 9 {
        return false;
    }
    let mut i: usize = 0;
    let last = t.len() - 3;
    while i < last
        invariant
            t@.len() >= 9,
            last == t@.len() - 3,
            i <= last,
            forall|j: int| 0 <= j < i ==> #[trigger] spaced_window(t@, j),
        decreases t@.len() - i,
    {
        let a = is_alphabetic(t[i]);
        let b = is_alphabetic(t[i + 1]);
        let c = is_alphabetic(t[i + 2]);
        let d = is_alphabetic(t[i + 3]);
        let ok = (a && t[i + 1] == ' ' && c && t[i + 3] == ' ') || (t[i] == ' ' && b && t[i + 2]
            == ' ' && d);
        if !ok {
            assert(!spaced_window(t@, i as int));
            return false;
        }
        i += 1;
    }
    true
}

/// Whether the cell is filled, a hyphen break, letter-spaced, long, and
/// its filled length.
fn classify_text_cell(cell: &str) -> (r: (bool, bool, bool, bool, usize))
    ensures
        r.0 == filled(cell@),
        r.1 == hyphen_break(cell@),
        r.2 == letter_spaced(cell@),
        r.3 == long_cell(cell@),
        r.4 == filled_len(cell@),
{
    let v = str_chars(cell);
    let t = trim_exec(v.as_slice());
    let spaced = letter_spaced_chars(t.as_slice());
    if t.len() == 0 {
        return (false, false, spaced, false, 0);
    }
    let n = t.len();
    let bl = chars_byte_len(t.as_slice());
    let hyphen = n >= 2 && t[n - 1] == '-' && bl > 1 && is_alphabetic(t[n - 2]);
    (true, hyphen, spaced, bl > 60, bl)
}

/// Whether the grid is running text split into cells.
pub fn is_paragraph_content(cells: &[Vec<String>]) -> (r: bool)
    requires
        grid_size_ok(cells@),
    ensures
        r == paragraph_content(cells@),
{
    if cells.len() == 0 {
        return false;
    }
    let num_cols = cells[0].len();
    let total_cells = cells.len() * num_cols;
    if total_cells == 0 {
        return false;
    }
    let ghost filled_p = |c: Seq<char>| filled(c);
    let ghost hyphen_p = |c: Seq<char>| hyphen_break(c);
    let ghost spaced_p = |c: Seq<char>| letter_spaced(c);
    let ghost long_p = |c: Seq<char>| long_cell(c);
    let ghost len_f = |c: Seq<char>| filled_len(c);
    let ghost cc = cell_count(cells@);
    // Byte sums are kept up to `cap`: past it the average is over 40 bytes
    // whatever the count.
    let cap: usize = 40 * crate::tables::count_cells(cells) + 1;
    let mut f: usize = 0;
    let mut h: usize = 0;
    let mut ls: usize = 0;
    let mut long: usize = 0;
    let mut sum: usize = 0;
    let mut r: usize = 0;
    while r < cells.len()
        invariant
            r <= cells@.len(),
            filled_p == (|c: Seq<char>| filled(c)),
            hyphen_p == (|c: Seq<char>| hyphen_break(c)),
            spaced_p == (|c: Seq<char>| letter_spaced(c)),
            long_p == (|c: Seq<char>| long_cell(c)),
            len_f == (|c: Seq<char>| filled_len(c)),
            cc == cell_count(cells@),
            cc * 100 <= usize::MAX,
            cap == 40 * cc + 1,
            f == grid_count(cells@.take(r as int), filled_p),
            h == grid_count(cells@.take(r as int), hyphen_p),
            ls == grid_count(cells@.take(r as int), spaced_p),
            long == grid_count(cells@.take(r as int), long_p),
            sum as int == if grid_sum(cells@.take(r as int), len_f) < cap {
                grid_sum(cells@.take(r as int), len_f) as int
            } else {
                cap as int
            },
        decreases cells@.len() - r,
    {
        let row = &cells[r];
        let ghost prefix = cells@.take(r as int);
        proof {
            assert(cells@.take(r + 1) =~= prefix.push(cells@[r as int]));
            assert(cells@.take(r + 1).drop_last() =~= prefix);
            crate::tables::lemma_cell_count_prefix(cells@, r + 1);
            crate::tables::lemma_grid_count_bound(cells@.take(r + 1), filled_p);
            crate::tables::lemma_grid_count_bound(cells@.take(r + 1), hyphen_p);
            crate::tables::lemma_grid_count_bound(cells@.take(r + 1), spaced_p);
            crate::tables::lemma_grid_count_bound(cells@.take(r + 1), long_p);
        }
        let mut rf: usize = 0;
        let mut rh: usize = 0;
        let mut rls: usize = 0;
        let mut rlong: usize = 0;
        let mut ci: usize = 0;
        while ci < row.len()
            invariant
                *row == cells@[r as int],
                ci <= row@.len(),
                filled_p == (|c: Seq<char>| filled(c)),
                hyphen_p == (|c: Seq<char>| hyphen_break(c)),
                spaced_p == (|c: Seq<char>| letter_spaced(c)),
                long_p == (|c: Seq<char>| long_cell(c)),
                len_f == (|c: Seq<char>| filled_len(c)),
                cc * 100 <= usize::MAX,
                cap == 40 * cc + 1,
                f + row_count(row@, filled_p) <= cc,
                h + row_count(row@, hyphen_p) <= cc,
                ls + row_count(row@, spaced_p) <= cc,
                long + row_count(row@, long_p) <= cc,
                rf == row_count(row@.take(ci as int), filled_p),
                rh == row_count(row@.take(ci as int), hyphen_p),
                rls == row_count(row@.take(ci as int), spaced_p),
                rlong == row_count(row@.take(ci as int), long_p),
                sum as int == if grid_sum(prefix, len_f) + row_sum(row@.take(ci as int), len_f)
                    < cap {
                    (grid_sum(prefix, len_f) + row_sum(row@.take(ci as int), len_f)) as int
                } else {
                    cap as int
                },
            decreases row@.len() - ci,
        {
            proof {
                assert(row@.take(ci + 1).drop_last() =~= row@.take(ci as int));
                assert(row@.take(ci + 1).last() == row@[ci as int]);
                lemma_row_count_prefix(row@, ci + 1, filled_p);
                lemma_row_count_prefix(row@, ci + 1, hyphen_p);
                lemma_row_count_prefix(row@, ci + 1, spaced_p);
                lemma_row_count_prefix(row@, ci + 1, long_p);
            }
            let (is_f, is_h, is_ls, is_long, bl) = classify_text_cell(row[ci].as_str());
            if is_f {
                rf += 1;
            }
            if is_h {
                rh += 1;
            }
            if is_ls {
                rls += 1;
            }
            if is_long {
                rlong += 1;
            }
            if bl >= cap - sum {
                sum = cap;
            } else {
                sum = sum + bl;
            }
            ci += 1;
        }
        proof {
            assert(row@.take(row@.len() as int) =~= row@);
        }
        f = f + rf;
        h = h + rh;
        ls = ls + rls;
        long = long + rlong;
        r += 1;
    }
    proof {
        assert(cells@.take(cells@.len() as int) =~= cells@);
        crate::tables::lemma_grid_count_bound(cells@, filled_p);
    }
    if f < 4 {
        return false;
    }
    let filled_wide = f as u128;
    let total_wide = total_cells as u128;
    if (h as u128) * 100 > 3 * filled_wide {
        return true;
    }
    if filled_wide * 20 < 9 * total_wide && cells.len() > 10 {
        return true;
    }
    if ls > 0 && (ls as u128) * 25 > 2 * filled_wide {
        return true;
    }
    let long_wide = long as u128;
    proof {
        let gs = grid_sum(cells@, len_f);
        assert(gs > 40 * f <==> (sum as nat) > 40 * f);
    }
    if (sum as u128) > 40 * filled_wide && long_wide * 5 > filled_wide {
        return true;
    }
    long_wide * 10 > 3 * filled_wide
}

// ── Where the table starts ─────────────────────────────────────────

/// A form field: its trimmed text ends with `:` (and is longer than one
/// byte), or holds `": "` and is not a number.
pub open spec fn form_cell(c: Seq<char>) -> bool {
    let t = trim(c);
    (t.len() > 0 && t.last() == ':' && byte_len(t) > 1) || (contains_seq(t, ": "@) && !number_like(
        t,
    ))
}

/// A cell whose trimmed text looks like a number.
pub open spec fn number_cell(c: Seq<char>) -> bool {
    number_like(trim(c))
}

/// `f` of `tc` columns is under 30% (never, without columns).
pub open spec fn below_three_tenths(f: nat, tc: nat) -> bool {
    tc > 0 && 10 * f < 3 * tc
}

/// `f` of `tc` columns is at least 40% (any filled cell, without columns).
pub open spec fn at_least_two_fifths(f: nat, tc: nat) -> bool {
    if tc == 0 {
        f > 0
    } else {
        5 * f >= 2 * tc
    }
}

/// Row `r` starts the table: it is not a form row, and it has two numbers
/// or at least 40% of the columns filled, or (at least 30% filled) the
/// next row has 40% filled or two numbers and no form field.
pub open spec fn starts_table(cells: Seq<Vec<String>>, r: int) -> bool {
    let tc = cells[0]@.len();
    let row = cells[r]@;
    let f = row_count(row, |c: Seq<char>| filled(c));
    let fc = row_count(row, |c: Seq<char>| form_cell(c));
    let nc = row_count(row, |c: Seq<char>| number_cell(c));
    let has_form = fc > 0 && (2 * fc >= f || below_three_tenths(f, tc));
    !has_form && (nc >= 2 || at_least_two_fifths(f, tc) || (!below_three_tenths(f, tc) && r + 1
        < cells.len() && {
        let next = cells[r + 1]@;
        (at_least_two_fifths(row_count(next, |c: Seq<char>| filled(c)), tc) || row_count(
            next,
            |c: Seq<char>| number_cell(c),
        ) >= 2) && row_count(next, |c: Seq<char>| form_cell(c)) == 0
    }))
}

/// The first row from `r` on that starts the table, or 0.
pub open spec fn first_table_row_from(cells: Seq<Vec<String>>, r: int) -> nat
    decreases cells.len() - r,
{
    if r < 0 || r >= cells.len() {
        0
    } else if starts_table(cells, r) {
        r as nat
    } else {
        first_table_row_from(cells, r + 1)
    }
}

/// The index of the first row of the table proper, after any title or form
/// rows (0 when no row qualifies).
pub open spec fn first_table_row(cells: Seq<Vec<String>>) -> nat {
    first_table_row_from(cells, 0)
}

/// Counts of filled, form and number cells of a row.
fn row_profile(row: &[String]) -> (r: (usize, usize, usize))
    ensures
        r.0 == row_count(row@, |c: Seq<char>| filled(c)),
        r.1 == row_count(row@, |c: Seq<char>| form_cell(c)),
        r.2 == row_count(row@, |c: Seq<char>| number_cell(c)),
{
    let ghost filled_p = |c: Seq<char>| filled(c);
    let ghost form_p = |c: Seq<char>| form_cell(c);
    let ghost number_p = |c: Seq<char>| number_cell(c);
    let colon_space = str_chars(": ");
    let mut f: usize = 0;
    let mut fc: usize = 0;
    let mut nc: usize = 0;
    let mut i: usize = 0;
    while i < row.len()
        invariant
            colon_space@ == ": "@,
            filled_p == (|c: Seq<char>| filled(c)),
            form_p == (|c: Seq<char>| form_cell(c)),
            number_p == (|c: Seq<char>| number_cell(c)),
            i <= row@.len(),
            f == row_count(row@.take(i as int), filled_p),
            fc == row_count(row@.take(i as int), form_p),
            nc == row_count(row@.take(i as int), number_p),
        decreases row@.len() - i,
    {
        proof {
            assert(row@.take(i + 1).drop_last() =~= row@.take(i as int));
            assert(row@.take(i + 1).last() == row@[i as int]);
            crate::tables::lemma_row_count_bound(row@.take(i as int), filled_p);
            crate::tables::lemma_row_count_bound(row@.take(i as int), form_p);
            crate::tables::lemma_row_count_bound(row@.take(i as int), number_p);
        }
        let v = str_chars(row[i].as_str());
        let t = trim_exec(v.as_slice());
        let n = t.len();
        if n > 0 {
            f += 1;
        }
        let is_number = number_like_chars(t.as_slice());
        let is_form = (n > 0 && t[n - 1] == ':' && chars_byte_len(t.as_slice()) > 1) || (
        contains_exec(t.as_slice(), colon_space.as_slice()) && !is_number);
        if is_form {
            fc += 1;
        }
        if is_number {
            nc += 1;
        }
        i += 1;
    }
    assert(row@.take(row@.len() as int) =~= row@);
    (f, fc, nc)
}

fn below_three_tenths_exec(f: usize, tc: usize) -> (r: bool)
    ensures
        r == below_three_tenths(f as nat, tc as nat),
{
    tc > 0 && (f as u128) * 10 < 3 * (tc as u128)
}

fn at_least_two_fifths_exec(f: usize, tc: usize) -> (r: bool)
    ensures
        r == at_least_two_fifths(f as nat, tc as nat),
{
    if tc == 0 {
        f > 0
    } else {
        (f as u128) * 5 >= 2 * (tc as u128)
    }
}

/// Find the first row of the table proper.
pub fn find_first_table_row(cells: &[Vec<String>]) -> (r: usize)
    ensures
        r == first_table_row(cells@),
{
    if cells.len() == 0 {
        return 0;
    }
    let total_cols = cells[0].len();
    let mut row_idx: usize = 0;
    while row_idx < cells.len()
        invariant
            cells@.len() > 0,
            total_cols == cells@[0]@.len(),
            row_idx <= cells@.len(),
            first_table_row(cells@) == first_table_row_from(cells@, row_idx as int),
        decreases cells@.len() - row_idx,
    {
        let (f, fc, nc) = row_profile(cells[row_idx].as_slice());
        let low = below_three_tenths_exec(f, total_cols);
        let has_form = fc > 0 && ((fc as u128) * 2 >= f as u128 || low);
        let mut starts = false;
        if !has_form {
            if nc >= 2 || at_least_two_fifths_exec(f, total_cols) {
                starts = true;
            } else if !low && row_idx + 1 < cells.len() {
                let (nf, nfc, nnc) = row_profile(cells[row_idx + 1].as_slice());
                if (at_least_two_fifths_exec(nf, total_cols) || nnc >= 2) && nfc == 0 {
                    starts = true;
                }
            }
        }
        assert(starts == starts_table(cells@, row_idx as int));
        if starts {
            return row_idx;
        }
        row_idx += 1;
    }
    0
}

// ── Cell text ──────────────────────────────────────────────────────

/// The text of a cell from its first `k` items: the trimmed texts of the
/// non-blank items, separated by a space except after a hyphen, before a
/// hyphen or an item starting with one, and where an item is attached to
/// the one before it.
pub open spec fn cell_text(items: Seq<LineItem>, k: nat) -> Seq<char>
    decreases k,
{
    if k == 0 {
        seq![]
    } else {
        let r = cell_text(items, (k - 1) as nat);
        let it = items[k - 1];
        let t = trim(it.text@);
        if t.len() == 0 {
            r
        } else if r.len() == 0 {
            t
        } else if ends_with_char(r, '-') || t == seq!['-'] || t[0] == '-' || it.attached {
            r + t
        } else {
            r.push(' ') + t
        }
    }
}

/// Join the items of a table cell into its text. An item's `attached`
/// marks a sub- or superscript step from the item before it (a change of
/// font size with a vertical offset), across which no space is put.
pub fn join_cell_items(items: &[LineItem]) -> (r: String)
    ensures
        r@ == cell_text(items@, items@.len()),
{
    let mut result: Vec<char> = Vec::new();
    let mut i: usize = 0;
    while i < items.len()
        invariant
            i <= items@.len(),
            result@ == cell_text(items@, i as nat),
        decreases items@.len() - i,
    {
        let item = &items[i];
        let chars = str_chars(item.text.as_str());
        let text = trim_exec(chars.as_slice());
        if text.len() > 0 {
            if result.len() == 0 {
                append_chars(&mut result, text.as_slice());
            } else {
                let prev_ends_hyphen = result[result.len() - 1] == '-';
                let curr_is_hyphen = text.len() == 1 && text[0] == '-';
                assert(curr_is_hyphen == (text@ == seq!['-'])) by {
                    if text@ == seq!['-'] {
                        assert(text@.len() == 1 && text@[0] == '-');
                    }
                    if curr_is_hyphen {
                        assert(text@ =~= seq!['-']);
                    }
                }
                let curr_starts_hyphen = text[0] == '-';
                if !(prev_ends_hyphen || curr_is_hyphen || curr_starts_hyphen || item.attached) {
                    result.push(' ');
                }
                append_chars(&mut result, text.as_slice());
            }
        }
        i += 1;
    }
    let mut out = String::new();
    push_chars(&mut out, result.as_slice());
    out
}

} // verus!
