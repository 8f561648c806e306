//! Table → Markdown rendering: compact tables with minimal padding and no
//! trailing white space.

use vstd::prelude::*;
use vstd::string::StringSliceAdditionalSpecFns;
use vstd::utf8::encode_utf8;

use crate::text::chars::{push_char, push_chars, str_chars};
use crate::text::words::{lemma_split_on_nonempty, split_on};

verus! {

/// The length of `s` in UTF-8 bytes.
pub open spec fn byte_len(s: Seq<char>) -> nat {
    encode_utf8(s).len()
}

/// `s` with each `|` written as `\|`.
pub open spec fn escape_pipes(s: Seq<char>) -> Seq<char>
    decreases s.len(),
{
    if s.len() == 0 {
        seq![]
    } else {
        escape_pipes(s.drop_last()) + if s.last() == '|' {
            seq!['\\', '|']
        } else {
            seq![s.last()]
        }
    }
}

/// `n` spaces.
pub open spec fn spaces(n: nat) -> Seq<char> {
    Seq::new(n, |_i: int| ' ')
}

/// `n` dashes.
pub open spec fn dashes(n: nat) -> Seq<char> {
    Seq::new(n, |_i: int| '-')
}

/// The width of column `c`: the width given for it, or 3 past the end.
pub open spec fn col_width(widths: Seq<usize>, c: int) -> nat {
    if 0 <= c < widths.len() {
        widths[c] as nat
    } else {
        3
    }
}

/// A cell escaped, padded with spaces to `w` bytes, and closed by `|`.
pub open spec fn padded_cell(cell: Seq<char>, w: nat) -> Seq<char> {
    let e = escape_pipes(cell);
    e + spaces(
        if w > byte_len(e) {
            (w - byte_len(e)) as nat
        } else {
            0
        },
    ) + seq!['|']
}

/// The first `k` cells of a row, each padded and closed.
pub open spec fn row_cells(row: Seq<String>, widths: Seq<usize>, k: nat) -> Seq<char>
    decreases k,
{
    if k == 0 {
        seq![]
    } else {
        row_cells(row, widths, (k - 1) as nat) + padded_cell(row[k - 1]@, col_width(widths, k - 1))
    }
}

/// A table row: `|`, the padded cells, and a line feed.
pub open spec fn row_text(row: Seq<String>, widths: Seq<usize>) -> Seq<char> {
    seq!['|'] + row_cells(row, widths, row.len()) + seq!['\n']
}

fn escape_pipes_exec(s: &str) -> (r: Vec<char>)
    ensures
        r@ == escape_pipes(s@),
{
    let v = str_chars(s);
    let mut out: Vec<char> = Vec::new();
    let mut i: usize = 0;
    while i < v.len()
        invariant
            v@ == s@,
            i <= v@.len(),
            out@ == escape_pipes(v@.take(i as int)),
        decreases v@.len() - i,
    {
        assert(v@.take(i + 1).drop_last() =~= v@.take(i as int));
        if v[i] == '|' {
            out.push('\\');
            out.push('|');
        } else {
            out.push(v[i]);
        }
        i += 1;
        assert(out@ =~= escape_pipes(v@.take(i as int)));
    }
    assert(v@.take(v@.len() as int) =~= v@);
    out
}

/// The UTF-8 length of `s`.
fn byte_len_exec(s: &str) -> (r: usize)
    ensures
        r == byte_len(s@),
{
    s.as_bytes().len()
}

/// The UTF-8 length of the characters `v`.
pub fn chars_byte_len(v: &[char]) -> (r: usize)
    ensures
        r == byte_len(v@),
{
    let s = crate::text::chars::string_from_chars(v);
    byte_len_exec(s.as_str())
}

/// Write a single table row.
pub fn write_row(out: &mut String, row: &[String], col_widths: &[usize])
    ensures
        final(out)@ == old(out)@ + row_text(row@, col_widths@),
{
    push_char(out, '|');
    let ghost start = out@;
    let mut c: usize = 0;
    while c < row.len()
        invariant
            c <= row@.len(),
            out@ == start + row_cells(row@, col_widths@, c as nat),
        decreases row@.len() - c,
    {
        let w = if c < col_widths.len() {
            col_widths[c]
        } else {
            3
        };
        let escaped = escape_pipes_exec(row[c].as_str());
        let es = crate::text::chars::string_from_chars(escaped.as_slice());
        let elen = byte_len_exec(es.as_str());
        let pad = if w > elen {
            w - elen
        } else {
            0
        };
        let ghost before = out@;
        push_chars(out, escaped.as_slice());
        let mut k: usize = 0;
        while k < pad
            invariant
                k <= pad,
                out@ == before + escaped@ + spaces(k as nat),
            decreases pad - k,
        {
            push_char(out, ' ');
            k += 1;
            assert(out@ =~= before + escaped@ + spaces(k as nat));
        }
        push_char(out, '|');
        c += 1;
        assert(out@ =~= start + row_cells(row@, col_widths@, c as nat));
    }
    push_char(out, '\n');
    assert(out@ =~= old(out)@ + row_text(row@, col_widths@));
}

/// The widest of 3 and the byte lengths of column `c` in the first `k` rows.
pub open spec fn column_width(cells: Seq<Vec<String>>, c: int, k: nat) -> nat
    decreases k,
{
    if k == 0 {
        3
    } else {
        let w = column_width(cells, c, (k - 1) as nat);
        let row = cells[k - 1]@;
        if 0 <= c < row.len() && byte_len(row[c]@) > w {
            byte_len(row[c]@)
        } else {
            w
        }
    }
}

/// The widths of the columns that the first row has.
pub open spec fn column_widths(cells: Seq<Vec<String>>) -> Seq<usize> {
    Seq::new(cells[0]@.len(), |c: int| column_width(cells, c, cells.len()) as usize)
}

/// The separator cells for the first `k` widths: dashes closed by `|`.
pub open spec fn separator_cells(widths: Seq<usize>, k: nat) -> Seq<char>
    decreases k,
{
    if k == 0 {
        seq![]
    } else {
        separator_cells(widths, (k - 1) as nat) + dashes(widths[k - 1] as nat) + seq!['|']
    }
}

/// The rows from the second to the `k`-th.
pub open spec fn data_rows(cells: Seq<Vec<String>>, widths: Seq<usize>, k: nat) -> Seq<char>
    decreases k,
{
    if k <= 1 {
        seq![]
    } else {
        data_rows(cells, widths, (k - 1) as nat) + row_text(cells[k - 1]@, widths)
    }
}

/// The markdown table: the first row as header, a separator of dashes, and
/// the other rows; nothing for a table without rows or columns.
pub open spec fn table_markdown(cells: Seq<Vec<String>>) -> Seq<char> {
    if cells.len() == 0 || cells[0]@.len() == 0 {
        seq![]
    } else {
        let widths = column_widths(cells);
        row_text(cells[0]@, widths) + seq!['|'] + separator_cells(widths, widths.len()) + seq!['\n']
            + data_rows(cells, widths, cells.len())
    }
}

proof fn lemma_column_width_grows(cells: Seq<Vec<String>>, c: int, k: nat)
    ensures
        column_width(cells, c, k) >= 3,
    decreases k,
{
    if k > 0 {
        lemma_column_width_grows(cells, c, (k - 1) as nat);
    }
}

/// Render a table's cells (row by row) as a Markdown table string.
pub fn table_to_markdown(cells: &[Vec<String>]) -> (r: String)
    ensures
        r@ == table_markdown(cells@),
{
    if cells.len() == 0 {
        return String::new();
    }
    let cols = cells[0].len();
    if cols == 0 {
        return String::new();
    }
    let n = cells.len();
    let mut col_widths: Vec<usize> = Vec::new();
    while col_widths.len() < cols
        invariant
            col_widths@.len() <= cols,
            forall|c: int| 0 <= c < col_widths@.len() ==> #[trigger] col_widths@[c] == 3,
        decreases cols - col_widths@.len(),
    {
        col_widths.push(3);
    }
    let mut r: usize = 0;
    while r < n
        invariant
            n == cells@.len(),
            cols == cells@[0]@.len(),
            r <= n,
            col_widths@.len() == cols,
            forall|c: int|
                0 <= c < cols ==> #[trigger] col_widths@[c] as nat == column_width(
                    cells@,
                    c,
                    r as nat,
                ),
        decreases n - r,
    {
        let row = &cells[r];
        let mut c: usize = 0;
        while c < row.len() && c < cols
            invariant
                n == cells@.len(),
                r < n,
                *row == cells@[r as int],
                c <= cols,
                col_widths@.len() == cols,
                forall|j: int|
                    0 <= j < c ==> #[trigger] col_widths@[j] as nat == column_width(
                        cells@,
                        j,
                        (r + 1) as nat,
                    ),
                forall|j: int|
                    c <= j < cols ==> #[trigger] col_widths@[j] as nat == column_width(
                        cells@,
                        j,
                        r as nat,
                    ),
            decreases cols - c,
        {
            let len = byte_len_exec(row[c].as_str());
            if len > col_widths[c] {
                col_widths.set(c, len);
            }
            c += 1;
        }
        assert forall|j: int| c <= j < cols implies #[trigger] col_widths@[j] as nat
            == column_width(cells@, j, (r + 1) as nat) by {}
        r += 1;
    }
    assert(col_widths@ =~= column_widths(cells@));
    let mut out = String::new();
    write_row(&mut out, cells[0].as_slice(), col_widths.as_slice());
    push_char(&mut out, '|');
    let ghost base = out@;
    let mut k: usize = 0;
    while k < cols
        invariant
            col_widths@.len() == cols,
            k <= cols,
            out@ == base + separator_cells(col_widths@, k as nat),
        decreases cols - k,
    {
        let w = col_widths[k];
        let ghost before = out@;
        let mut d: usize = 0;
        while d < w
            invariant
                d <= w,
                out@ == before + dashes(d as nat),
            decreases w - d,
        {
            push_char(&mut out, '-');
            d += 1;
            assert(out@ =~= before + dashes(d as nat));
        }
        push_char(&mut out, '|');
        k += 1;
        assert(out@ =~= base + separator_cells(col_widths@, k as nat));
    }
    push_char(&mut out, '\n');
    let ghost head = out@;
    let mut i: usize = 1;
    while i < n
        invariant
            n == cells@.len(),
            1 <= i <= n,
            out@ == head + data_rows(cells@, col_widths@, i as nat),
        decreases n - i,
    {
        write_row(&mut out, cells[i].as_slice(), col_widths.as_slice());
        i += 1;
        assert(out@ =~= head + data_rows(cells@, col_widths@, i as nat));
    }
    assert(out@ =~= table_markdown(cells@));
    out
}

// ── No trailing white space ────────────────────────────────────────

/// `t` holds no line feed.
pub open spec fn no_line_feed(t: Seq<char>) -> bool {
    forall|k: int| 0 <= k < t.len() ==> #[trigger] t[k] != '\n'
}

/// Every line feed of `t` comes right after a `|`.
pub open spec fn lines_end_in_pipe(t: Seq<char>) -> bool {
    forall|k: int| 0 <= k < t.len() && #[trigger] t[k] == '\n' ==> k > 0 && t[k - 1] == '|'
}

/// No cell of the grid holds a line feed.
pub open spec fn single_line_cells(cells: Seq<Vec<String>>) -> bool {
    forall|r: int, c: int|
        0 <= r < cells.len() && 0 <= c < cells[r]@.len() ==> no_line_feed(#[trigger] cells[r]@[c]@)
}

proof fn lemma_escape_no_line_feed(s: Seq<char>)
    requires
        no_line_feed(s),
    ensures
        no_line_feed(escape_pipes(s)),
    decreases s.len(),
{
    if s.len() > 0 {
        assert(no_line_feed(s.drop_last())) by {
            assert forall|k: int| 0 <= k < s.drop_last().len() implies #[trigger] s.drop_last()[k]
                != '\n' by {
                assert(s.drop_last()[k] == s[k]);
            }
        }
        lemma_escape_no_line_feed(s.drop_last());
        assert(s[s.len() - 1] != '\n');
        let prev = escape_pipes(s.drop_last());
        let tail = if s.last() == '|' {
            seq!['\\', '|']
        } else {
            seq![s.last()]
        };
        assert forall|k: int| 0 <= k < (prev + tail).len() implies #[trigger] (prev + tail)[k]
            != '\n' by {
            if k < prev.len() {
                assert((prev + tail)[k] == prev[k]);
            } else {
                assert((prev + tail)[k] == tail[k - prev.len()]);
            }
        }
    }
}

proof fn lemma_row_cells_shape(row: Seq<String>, widths: Seq<usize>, k: nat)
    requires
        k <= row.len(),
        forall|c: int| 0 <= c < row.len() ==> no_line_feed(#[trigger] row[c]@),
    ensures
        no_line_feed(row_cells(row, widths, k)),
        k > 0 ==> row_cells(row, widths, k).len() > 0 && row_cells(row, widths, k).last() == '|',
    decreases k,
{
    if k > 0 {
        lemma_row_cells_shape(row, widths, (k - 1) as nat);
        let prev = row_cells(row, widths, (k - 1) as nat);
        let cell = row[k - 1]@;
        assert(no_line_feed(cell));
        lemma_escape_no_line_feed(cell);
        let e = escape_pipes(cell);
        let w = col_width(widths, k - 1);
        let pad = spaces(
            if w > byte_len(e) {
                (w - byte_len(e)) as nat
            } else {
                0
            },
        );
        let p = e + pad + seq!['|'];
        assert(p == padded_cell(cell, w));
        let all = prev + p;
        assert forall|j: int| 0 <= j < all.len() implies #[trigger] all[j] != '\n' by {
            if j < prev.len() {
                assert(all[j] == prev[j]);
            } else if j < prev.len() + e.len() {
                assert(all[j] == e[j - prev.len()]);
            } else if j < prev.len() + e.len() + pad.len() {
                assert(all[j] == pad[j - prev.len() - e.len()]);
            } else {
                assert(all[j] == '|');
            }
        }
        assert(all.last() == '|');
    }
}

proof fn lemma_row_text_shape(row: Seq<String>, widths: Seq<usize>)
    requires
        forall|c: int| 0 <= c < row.len() ==> no_line_feed(#[trigger] row[c]@),
    ensures
        lines_end_in_pipe(row_text(row, widths)),
        row_text(row, widths)[0] == '|',
        row_text(row, widths).last() == '\n',
{
    lemma_row_cells_shape(row, widths, row.len());
    let cells = row_cells(row, widths, row.len());
    let t = row_text(row, widths);
    assert forall|k: int| 0 <= k < t.len() && #[trigger] t[k] == '\n' implies k > 0 && t[k - 1]
        == '|' by {
        if k == 0 {
            assert(t[0] == '|');
        } else if k <= cells.len() {
            assert(t[k] == cells[k - 1]);
        } else {
            assert(k == t.len() - 1);
            if cells.len() > 0 {
                assert(t[k - 1] == cells.last());
            } else {
                assert(t[k - 1] == '|');
            }
        }
    }
}

proof fn lemma_separator_shape(widths: Seq<usize>, k: nat)
    requires
        k <= widths.len(),
    ensures
        no_line_feed(separator_cells(widths, k)),
        k > 0 ==> separator_cells(widths, k).len() > 0 && separator_cells(widths, k).last() == '|',
    decreases k,
{
    if k > 0 {
        lemma_separator_shape(widths, (k - 1) as nat);
        let prev = separator_cells(widths, (k - 1) as nat);
        let d = dashes(widths[k - 1] as nat);
        let all = prev + d + seq!['|'];
        assert forall|j: int| 0 <= j < all.len() implies #[trigger] all[j] != '\n' by {
            if j < prev.len() {
                assert(all[j] == prev[j]);
            } else if j < prev.len() + d.len() {
                assert(all[j] == d[j - prev.len()]);
            } else {
                assert(all[j] == '|');
            }
        }
    }
}

proof fn lemma_concat_lines(a: Seq<char>, b: Seq<char>)
    requires
        lines_end_in_pipe(a),
        lines_end_in_pipe(b),
        b.len() > 0 ==> b[0] != '\n',
    ensures
        lines_end_in_pipe(a + b),
{
    let t = a + b;
    assert forall|k: int| 0 <= k < t.len() && #[trigger] t[k] == '\n' implies k > 0 && t[k - 1]
        == '|' by {
        if k < a.len() {
            assert(t[k] == a[k]);
            assert(t[k - 1] == a[k - 1]);
        } else {
            assert(t[k] == b[k - a.len()]);
            assert(k - a.len() > 0);
            assert(t[k - 1] == b[k - a.len() - 1]);
        }
    }
}

proof fn lemma_data_rows_shape(cells: Seq<Vec<String>>, widths: Seq<usize>, k: nat)
    requires
        k <= cells.len(),
        single_line_cells(cells),
    ensures
        lines_end_in_pipe(data_rows(cells, widths, k)),
        data_rows(cells, widths, k).len() > 0 ==> data_rows(cells, widths, k)[0] == '|',
    decreases k,
{
    if k > 1 {
        lemma_data_rows_shape(cells, widths, (k - 1) as nat);
        let row = cells[k - 1]@;
        assert forall|c: int| 0 <= c < row.len() implies no_line_feed(#[trigger] row[c]@) by {
            assert(no_line_feed(cells[k - 1]@[c]@));
        }
        lemma_row_text_shape(row, widths);
        let prev = data_rows(cells, widths, (k - 1) as nat);
        lemma_concat_lines(prev, row_text(row, widths));
        if prev.len() > 0 {
            assert((prev + row_text(row, widths))[0] == prev[0]);
        }
    }
}

/// A table of single-line cells has no trailing white space: every line
/// of the rendered table ends with `|`.
pub proof fn lemma_table_lines_end_in_pipe(cells: Seq<Vec<String>>)
    requires
        single_line_cells(cells),
    ensures
        lines_end_in_pipe(table_markdown(cells)),
{
    if cells.len() > 0 && cells[0]@.len() > 0 {
        let widths = column_widths(cells);
        let row0 = cells[0]@;
        assert forall|c: int| 0 <= c < row0.len() implies no_line_feed(#[trigger] row0[c]@) by {
            assert(no_line_feed(cells[0]@[c]@));
        }
        lemma_row_text_shape(row0, widths);
        lemma_separator_shape(widths, widths.len());
        let sep = seq!['|'] + separator_cells(widths, widths.len()) + seq!['\n'];
        let sc = separator_cells(widths, widths.len());
        assert(lines_end_in_pipe(sep)) by {
            assert forall|k: int| 0 <= k < sep.len() && #[trigger] sep[k] == '\n' implies k > 0
                && sep[k - 1] == '|' by {
                if k == 0 {
                } else if k <= sc.len() {
                    assert(sep[k] == sc[k - 1]);
                } else {
                    if sc.len() > 0 {
                        assert(sep[k - 1] == sc.last());
                    }
                }
            }
        }
        lemma_concat_lines(row_text(row0, widths), sep);
        lemma_data_rows_shape(cells, widths, cells.len());
        lemma_concat_lines(row_text(row0, widths) + sep, data_rows(cells, widths, cells.len()));
        assert(table_markdown(cells) == row_text(row0, widths) + sep + data_rows(
            cells,
            widths,
            cells.len(),
        ));
    }
}

// ── One line per row ───────────────────────────────────────────────

/// A row's line without its line feed: `|` and the padded cells.
pub open spec fn row_line(row: Seq<String>, widths: Seq<usize>) -> Seq<char> {
    seq!['|'] + row_cells(row, widths, row.len())
}

/// Text without the separator splits into itself alone.
proof fn lemma_split_whole(l: Seq<char>, sep: char)
    requires
        forall|k: int| 0 <= k < l.len() ==> #[trigger] l[k] != sep,
    ensures
        split_on(l, sep) == seq![l],
    decreases l.len(),
{
    if l.len() > 0 {
        assert forall|k: int| 0 <= k < l.drop_last().len() implies #[trigger] l.drop_last()[k]
            != sep by {
            assert(l.drop_last()[k] == l[k]);
        }
        lemma_split_whole(l.drop_last(), sep);
        assert(l[l.len() - 1] != sep);
        assert(l.drop_last().push(l.last()) =~= l);
        let prev = split_on(l.drop_last(), sep);
        assert(prev.len() == 1 && prev.last() == l.drop_last());
        assert(split_on(l, sep) == prev.update(0, prev.last().push(l.last())));
        assert(prev.update(0, l.drop_last().push(l.last())) =~= seq![l]);
    } else {
        assert(l =~= Seq::<char>::empty());
        assert(split_on(l, sep) =~= seq![l]);
    }
}

/// Splitting text that follows a separator-ended piece: the pieces of the
/// first part (its last, empty piece dropped) and then those of the rest.
proof fn lemma_split_after(a: Seq<char>, b: Seq<char>, sep: char)
    requires
        a.len() > 0,
        a.last() == sep,
    ensures
        split_on(a + b, sep) == split_on(a, sep).drop_last() + split_on(b, sep),
    decreases b.len(),
{
    if b.len() == 0 {
        assert(a + b =~= a);
        assert(a.drop_last().push(a.last()) =~= a);
        assert(split_on(a, sep) == split_on(a.drop_last(), sep).push(seq![]));
        assert(split_on(a, sep).drop_last() + seq![Seq::<char>::empty()] =~= split_on(a, sep));
    } else {
        lemma_split_after(a, b.drop_last(), sep);
        lemma_split_on_nonempty(b.drop_last(), sep);
        assert((a + b).drop_last() =~= a + b.drop_last());
        assert((a + b).last() == b.last());
        let p = split_on(a, sep).drop_last();
        let q = split_on(b.drop_last(), sep);
        if b.last() == sep {
            assert((p + q).push(seq![]) =~= p + q.push(seq![]));
        } else {
            assert((p + q).update((p + q).len() - 1, (p + q).last().push(b.last())) =~= p + q.update(
                q.len() - 1,
                q.last().push(b.last()),
            ));
        }
    }
}

/// A line of text followed by a line feed splits into the line and an
/// empty rest.
proof fn lemma_split_line(l: Seq<char>)
    requires
        no_line_feed(l),
    ensures
        split_on(l.push('\n'), '\n') == seq![l, seq![]],
{
    lemma_split_whole(l, '\n');
    assert(l.push('\n').drop_last() =~= l);
}

proof fn lemma_row_line_shape(row: Seq<String>, widths: Seq<usize>)
    requires
        forall|c: int| 0 <= c < row.len() ==> no_line_feed(#[trigger] row[c]@),
    ensures
        no_line_feed(row_line(row, widths)),
        row_text(row, widths) == row_line(row, widths).push('\n'),
{
    lemma_row_cells_shape(row, widths, row.len());
    let rc = row_cells(row, widths, row.len());
    assert forall|k: int| 0 <= k < row_line(row, widths).len() implies #[trigger] row_line(
        row,
        widths,
    )[k] != '\n' by {
        if k > 0 {
            assert(row_line(row, widths)[k] == rc[k - 1]);
        }
    }
    assert(row_text(row, widths) =~= row_line(row, widths).push('\n'));
}

/// The lines of the data rows: one per row after the first, then the empty
/// rest after the last line feed.
proof fn lemma_data_rows_lines(cells: Seq<Vec<String>>, widths: Seq<usize>, k: nat)
    requires
        1 <= k <= cells.len(),
        single_line_cells(cells),
    ensures
        split_on(data_rows(cells, widths, k), '\n') == Seq::new(
            (k - 1) as nat,
            |i: int| row_line(cells[i + 1]@, widths),
        ) + seq![Seq::<char>::empty()],
        data_rows(cells, widths, k).len() > 0 ==> data_rows(cells, widths, k).last() == '\n',
    decreases k,
{
    if k == 1 {
        assert(Seq::new(0, |i: int| row_line(cells[i + 1]@, widths)) + seq![Seq::<char>::empty()] =~= seq![Seq::<char>::empty()]);
    } else {
        lemma_data_rows_lines(cells, widths, (k - 1) as nat);
        let row = cells[k - 1]@;
        assert forall|c: int| 0 <= c < row.len() implies no_line_feed(#[trigger] row[c]@) by {
            assert(no_line_feed(cells[k - 1]@[c]@));
        }
        lemma_row_line_shape(row, widths);
        let line = row_line(row, widths);
        lemma_split_line(line);
        let d = data_rows(cells, widths, (k - 1) as nat);
        let want = Seq::new((k - 1) as nat, |i: int| row_line(cells[i + 1]@, widths)) + seq![Seq::<char>::empty()];
        let prev = Seq::new((k - 2) as nat, |i: int| row_line(cells[i + 1]@, widths));
        if d.len() > 0 {
            lemma_split_after(d, line.push('\n'), '\n');
            assert((prev + seq![Seq::<char>::empty()]).drop_last() =~= prev);
        } else {
            assert(d + line.push('\n') =~= line.push('\n'));
            assert(split_on(d, '\n') == seq![Seq::<char>::empty()]);
            assert(prev.len() == 0) by {
                if prev.len() > 0 {
                    assert((prev + seq![Seq::<char>::empty()]).len() == split_on(d, '\n').len());
                }
            }
        }
        assert(want =~= prev + seq![line, seq![]]);
        assert((d + row_text(row, widths)).last() == '\n');
    }
}

/// The rendered table has one line per row of cells plus the separator
/// line: for a table of single-line cells with at least one row and a
/// non-empty first row, its text splits at line feeds into the header
/// row's line, the separator line, the line of each further row in order,
/// and the empty rest after the final line feed.
#[verifier::spinoff_prover]
#[verifier::rlimit(40)]
pub proof fn lemma_table_one_line_per_row(cells: Seq<Vec<String>>)
    requires
        single_line_cells(cells),
        cells.len() >= 1,
        cells[0]@.len() > 0,
    ensures
        ({
            let ls = split_on(table_markdown(cells), '\n');
            let w = column_widths(cells);
            &&& ls.len() == cells.len() + 2
            &&& ls[0] == row_line(cells[0]@, w)
            &&& ls[1] == seq!['|'] + separator_cells(w, w.len())
            &&& forall|k: int| 1 <= k < cells.len() ==> #[trigger] ls[k + 1] == row_line(
                cells[k]@,
                w,
            )
            &&& ls[cells.len() as int + 1] == Seq::<char>::empty()
        }),
{
    let w = column_widths(cells);
    let row0 = cells[0]@;
    assert forall|c: int| 0 <= c < row0.len() implies no_line_feed(#[trigger] row0[c]@) by {
        assert(no_line_feed(cells[0]@[c]@));
    }
    lemma_row_line_shape(row0, w);
    lemma_separator_shape(w, w.len());
    let sl = seq!['|'] + separator_cells(w, w.len());
    assert(no_line_feed(sl)) by {
        assert forall|k: int| 0 <= k < sl.len() implies #[trigger] sl[k] != '\n' by {
            if k > 0 {
                assert(sl[k] == separator_cells(w, w.len())[k - 1]);
            }
        }
    }
    let h = row_line(row0, w).push('\n');
    let sp = sl.push('\n');
    assert(seq!['|'] + separator_cells(w, w.len()) + seq!['\n'] =~= sp);
    lemma_split_line(row_line(row0, w));
    lemma_split_line(sl);
    lemma_split_after(h, sp, '\n');
    assert(split_on(h + sp, '\n') =~= seq![row_line(row0, w), sl, seq![]]);
    lemma_data_rows_lines(cells, w, cells.len());
    let d = data_rows(cells, w, cells.len());
    assert((h + sp).last() == '\n');
    lemma_split_after(h + sp, d, '\n');
    assert(table_markdown(cells) == h + sp + d);
    let ls = split_on(table_markdown(cells), '\n');
    let rows = Seq::new((cells.len() - 1) as nat, |i: int| row_line(cells[i + 1]@, w));
    assert(ls =~= seq![row_line(row0, w), sl] + rows + seq![Seq::<char>::empty()]);
}

/// `s` holds no `|`.
pub open spec fn no_pipe(s: Seq<char>) -> bool {
    forall|k: int| 0 <= k < s.len() ==> #[trigger] s[k] != '|'
}

proof fn lemma_escape_no_pipe(s: Seq<char>)
    requires
        no_pipe(s),
    ensures
        escape_pipes(s) == s,
    decreases s.len(),
{
    if s.len() > 0 {
        assert(no_pipe(s.drop_last())) by {
            assert forall|k: int| 0 <= k < s.drop_last().len() implies #[trigger] s.drop_last()[k]
                != '|' by {
                assert(s.drop_last()[k] == s[k]);
            }
        }
        lemma_escape_no_pipe(s.drop_last());
        assert(s[s.len() - 1] != '|');
        assert(s.drop_last() + seq![s.last()] =~= s);
    }
}

proof fn lemma_split_piece(l: Seq<char>, sep: char)
    requires
        forall|k: int| 0 <= k < l.len() ==> #[trigger] l[k] != sep,
    ensures
        split_on(l.push(sep), sep) == seq![l, Seq::<char>::empty()],
{
    lemma_split_whole(l, sep);
    assert(l.push(sep).drop_last() =~= l);
}

/// The text of cell `c` of a row padded with spaces to its column's width.
pub open spec fn cell_with_padding(row: Seq<String>, widths: Seq<usize>, c: int) -> Seq<char> {
    let w = col_width(widths, c);
    row[c]@ + spaces(
        if w > byte_len(row[c]@) {
            (w - byte_len(row[c]@)) as nat
        } else {
            0
        },
    )
}

proof fn lemma_row_cells_split(row: Seq<String>, widths: Seq<usize>, k: nat)
    requires
        k <= row.len(),
        forall|c: int| 0 <= c < row.len() ==> no_pipe(#[trigger] row[c]@),
    ensures
        split_on(seq!['|'] + row_cells(row, widths, k), '|') == seq![Seq::<char>::empty()]
            + Seq::new(k, |c: int| cell_with_padding(row, widths, c)) + seq![
            Seq::<char>::empty(),
        ],
        (seq!['|'] + row_cells(row, widths, k)).last() == '|',
    decreases k,
{
    if k == 0 {
        assert(seq!['|'] + row_cells(row, widths, 0) =~= Seq::<char>::empty().push('|'));
        lemma_split_piece(Seq::<char>::empty(), '|');
        assert(seq![Seq::<char>::empty()] + Seq::new(0, |c: int| cell_with_padding(row, widths, c))
            + seq![Seq::<char>::empty()] =~= seq![Seq::<char>::empty(), Seq::<char>::empty()]);
    } else {
        lemma_row_cells_split(row, widths, (k - 1) as nat);
        let cell = row[k - 1]@;
        assert(no_pipe(cell));
        lemma_escape_no_pipe(cell);
        let piece = cell_with_padding(row, widths, k - 1);
        assert forall|j: int| 0 <= j < piece.len() implies #[trigger] piece[j] != '|' by {
            if j < cell.len() {
                assert(piece[j] == cell[j]);
            } else {
                assert(piece[j] == ' ');
            }
        }
        assert(padded_cell(cell, col_width(widths, k - 1)) =~= piece.push('|'));
        lemma_split_piece(piece, '|');
        let a = seq!['|'] + row_cells(row, widths, (k - 1) as nat);
        lemma_split_after(a, piece.push('|'), '|');
        assert(seq!['|'] + row_cells(row, widths, k) =~= a + piece.push('|'));
        let prev = Seq::new((k - 1) as nat, |c: int| cell_with_padding(row, widths, c));
        assert((seq![Seq::<char>::empty()] + prev + seq![Seq::<char>::empty()]).drop_last()
            =~= seq![Seq::<char>::empty()] + prev);
        assert(seq![Seq::<char>::empty()] + Seq::new(k, |c: int| cell_with_padding(row, widths, c))
            + seq![Seq::<char>::empty()] =~= seq![Seq::<char>::empty()] + prev + seq![
            piece,
            Seq::<char>::empty(),
        ]);
    }
}

/// A row's line holds its cells in order and nothing else: for cells
/// without `|`, splitting the line at `|` gives an empty piece, each cell
/// padded with spaces to its column's width, and an empty piece.
pub proof fn lemma_row_line_cells(row: Seq<String>, widths: Seq<usize>)
    requires
        forall|c: int| 0 <= c < row.len() ==> no_pipe(#[trigger] row[c]@),
    ensures
        split_on(row_line(row, widths), '|') == seq![Seq::<char>::empty()] + Seq::new(
            row.len(),
            |c: int| cell_with_padding(row, widths, c),
        ) + seq![Seq::<char>::empty()],
{
    lemma_row_cells_split(row, widths, row.len());
}

} // verus!
