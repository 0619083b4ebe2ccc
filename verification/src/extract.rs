//! Reading a rendered grid back.
//!
//! `extract_entries` splits a text produced by `layout::format_columns` into
//! rows at the newlines, cuts each row into cells at multiples of the cell
//! width, strips the padding, and reads the cells column-major — and
//! `lemma_grid_round_trip` proves that this reproduces exactly the entry
//! sequence the grid was rendered from, in order.
//!
//! The guarantee asks of the entries only what a grid can faithfully carry:
//! each entry has at least one character, contains no newline, and does not
//! end in a space (`well_formed_entry`). An entry such as `"a "` or `"a\nb"`
//! would be confused with the padding or the row breaks of the grid itself.

use vstd::prelude::*;

use crate::layout::cell_index;
use crate::layout::grid_cell;
use crate::layout::grid_columns;
use crate::layout::grid_entry_width;
use crate::layout::grid_row;
use crate::layout::grid_row_from;
use crate::layout::grid_rows;
use crate::layout::grid_rows_from;
use crate::layout::grid_text;
use crate::layout::lemma_grid_dimensions;
use crate::layout::lemma_max_entry_len_bound;
use crate::layout::max_entry_len;
use crate::layout::spaces;

verus! {

/// An entry the grid can faithfully carry: at least one character, no
/// newline, no trailing space.
pub open spec fn well_formed_entry(e: Seq<char>) -> bool {
    &&& e.len() >= 1
    &&& forall|i: int| 0 <= i < e.len() ==> e[i] != '\n'
    &&& e.last() != ' '
}

/// `s` with its trailing spaces removed.
pub open spec fn strip_trailing_spaces(s: Seq<char>) -> Seq<char>
    decreases s.len(),
{
    if s.len() == 0 {
        s
    } else if s.last() == ' ' {
        strip_trailing_spaces(s.drop_last())
    } else {
        s
    }
}

/// `s` split at every newline: one (possibly empty) piece more than there
/// are newlines.
pub open spec fn split_lines(s: Seq<char>) -> Seq<Seq<char>>
    decreases s.len(),
{
    if s.len() == 0 {
        seq![Seq::<char>::empty()]
    } else if s[0] == '\n' {
        seq![Seq::<char>::empty()] + split_lines(s.drop_first())
    } else {
        let rest = split_lines(s.drop_first());
        seq![seq![s[0]] + rest[0]] + rest.drop_first()
    }
}

/// `line` cut into chunks of `ew` characters each, the last chunk shorter
/// or equal.
pub open spec fn row_chunks(line: Seq<char>, ew: nat) -> Seq<Seq<char>>
    decreases line.len(),
{
    if line.len() <= ew || ew == 0 {
        seq![line]
    } else {
        seq![line.take(ew as int)] + row_chunks(line.skip(ew as int), ew)
    }
}

/// The cells read from one rendered row: its chunks with the padding
/// stripped.
pub open spec fn line_cells(line: Seq<char>, ew: nat) -> Seq<Seq<char>> {
    row_chunks(line, ew).map_values(|c: Seq<char>| strip_trailing_spaces(c))
}

/// The ragged cell grid read from a rendered text.
pub open spec fn text_cells(out: Seq<char>, ew: nat) -> Seq<Seq<Seq<char>>> {
    split_lines(out).map_values(|line: Seq<char>| line_cells(line, ew))
}

/// The cells of column `c` of a ragged grid, top to bottom: one from every
/// row that reaches that column.
pub open spec fn column_cells(grid: Seq<Seq<Seq<char>>>, c: int) -> Seq<Seq<char>>
    decreases grid.len(),
{
    if grid.len() == 0 {
        Seq::empty()
    } else if 0 <= c < grid.first().len() {
        seq![grid.first()[c]] + column_cells(grid.drop_first(), c)
    } else {
        column_cells(grid.drop_first(), c)
    }
}

/// The columns of a ragged grid from `c` up to `w`, left to right, each read
/// top to bottom.
pub open spec fn column_major_from(grid: Seq<Seq<Seq<char>>>, c: int, w: int) -> Seq<Seq<char>>
    decreases w - c,
{
    if c < w {
        column_cells(grid, c) + column_major_from(grid, c + 1, w)
    } else {
        Seq::empty()
    }
}

/// Length of the longest row of a ragged grid.
pub open spec fn max_row_len(grid: Seq<Seq<Seq<char>>>) -> nat
    decreases grid.len(),
{
    if grid.len() == 0 {
        0
    } else {
        let rest = max_row_len(grid.drop_first());
        if grid.first().len() > rest {
            grid.first().len()
        } else {
            rest
        }
    }
}

/// Column-major read-out of a ragged grid.
pub open spec fn column_major(grid: Seq<Seq<Seq<char>>>) -> Seq<Seq<char>> {
    column_major_from(grid, 0, max_row_len(grid) as int)
}

/// The entries read back from a rendered grid with cell width `ew`.
pub open spec fn extract_entries(out: Seq<char>, ew: nat) -> Seq<Seq<char>> {
    column_major(text_cells(out, ew))
}

/// Splitting produces at least one piece.
proof fn lemma_split_lines_len(s: Seq<char>)
    ensures
        split_lines(s).len() >= 1,
    decreases s.len(),
{
    if s.len() != 0 {
        lemma_split_lines_len(s.drop_first());
    }
}

/// A piece without newlines is not split.
proof fn lemma_split_lines_whole(a: Seq<char>)
    requires
        forall|i: int| 0 <= i < a.len() ==> a[i] != '\n',
    ensures
        split_lines(a) == seq![a],
    decreases a.len(),
{
    if a.len() == 0 {
        assert(split_lines(a) =~~= seq![a]);
    } else {
        lemma_split_lines_whole(a.drop_first());
        let rest = split_lines(a.drop_first());
        assert(rest == seq![a.drop_first()]);
        assert(seq![a[0]] + rest[0] =~= a);
        assert(split_lines(a) =~~= seq![a]);
    }
}

/// Splitting takes off a newline-free piece in front of a newline.
proof fn lemma_split_lines_step(a: Seq<char>, b: Seq<char>)
    requires
        forall|i: int| 0 <= i < a.len() ==> a[i] != '\n',
    ensures
        split_lines(a + seq!['\n'] + b) == seq![a] + split_lines(b),
    decreases a.len(),
{
    let s = a + seq!['\n'] + b;
    if a.len() == 0 {
        assert(s[0] == '\n');
        assert(s.drop_first() =~= b);
        assert(a =~= Seq::<char>::empty());
        assert(split_lines(s) =~~= seq![a] + split_lines(b));
    } else {
        assert(s[0] == a[0]);
        assert(s[0] != '\n');
        assert(s.drop_first() =~= a.drop_first() + seq!['\n'] + b);
        lemma_split_lines_step(a.drop_first(), b);
        let rest = split_lines(s.drop_first());
        assert(rest == seq![a.drop_first()] + split_lines(b));
        lemma_split_lines_len(b);
        assert(rest[0] == a.drop_first());
        assert(seq![s[0]] + rest[0] =~= a);
        assert(rest.drop_first() =~= split_lines(b));
        assert(split_lines(s) =~~= seq![a] + split_lines(b));
    }
}

/// Stripping leaves a piece without trailing spaces alone.
proof fn lemma_strip_no_trailing(e: Seq<char>)
    requires
        e.len() == 0 || e.last() != ' ',
    ensures
        strip_trailing_spaces(e) == e,
{
}

/// Stripping removes exactly the padding.
proof fn lemma_strip_pad(e: Seq<char>, k: nat)
    requires
        e.len() >= 1,
        e.last() != ' ',
    ensures
        strip_trailing_spaces(e + spaces(k)) == e,
    decreases k,
{
    if k == 0 {
        assert(e + spaces(0) =~= e);
    } else {
        let s = e + spaces(k);
        assert(s.last() == ' ');
        assert(s.drop_last() =~= e + spaces((k - 1) as nat));
        lemma_strip_pad(e, (k - 1) as nat);
    }
}

/// The populated cells of row `r` from column `c` on, each as rendered
/// (padding included).
pub open spec fn row_cells_from(
    entries: Seq<Seq<char>>,
    r: nat,
    c: nat,
    rows: nat,
    cols: nat,
    ew: nat,
) -> Seq<Seq<char>>
    decreases cols - c,
{
    if c < cols && cell_index(r, c, rows) < entries.len() {
        seq![grid_cell(entries, r, c, rows, cols, ew)] + row_cells_from(
            entries,
            r,
            c + 1,
            rows,
            cols,
            ew,
        )
    } else {
        Seq::empty()
    }
}

/// Walking one column to the right moves `rows` entries further.
proof fn lemma_cell_index_step(r: nat, c: nat, rows: nat)
    ensures
        cell_index(r, (c + 1) as nat, rows) == cell_index(r, c, rows) + rows,
{
    assert((c + 1) * rows == c * rows + rows) by (nonlinear_arith);
}

/// Positions only grow to the right.
proof fn lemma_cell_index_mono(r: nat, c1: nat, c2: nat, rows: nat)
    requires
        c1 <= c2,
    ensures
        cell_index(r, c1, rows) <= cell_index(r, c2, rows),
{
    vstd::arithmetic::mul::lemma_mul_inequality(c1 as int, c2 as int, rows as int);
}

/// A row holds nothing from its first unpopulated column on.
proof fn lemma_row_tail_empty(
    entries: Seq<Seq<char>>,
    r: nat,
    c: nat,
    rows: nat,
    cols: nat,
    ew: nat,
)
    requires
        cell_index(r, c, rows) >= entries.len(),
    ensures
        grid_row_from(entries, r, c, rows, cols, ew) == Seq::<char>::empty(),
    decreases cols - c,
{
    if c < cols {
        lemma_cell_index_step(r, c, rows);
        lemma_row_tail_empty(entries, r, (c + 1) as nat, rows, cols, ew);
        assert(grid_row_from(entries, r, c, rows, cols, ew) =~= Seq::<char>::empty());
    }
}

/// Cutting a rendered row at multiples of the cell width recovers exactly
/// its rendered cells: every cell but the last is padded to width `ew`, and
/// the last is shorter.
proof fn lemma_row_chunks_cells(
    entries: Seq<Seq<char>>,
    r: nat,
    c: nat,
    rows: nat,
    cols: nat,
    ew: nat,
)
    requires
        rows >= 1,
        r < rows,
        c < cols,
        cell_index(r, c, rows) < entries.len(),
        ew == max_entry_len(entries) + 2,
        forall|i: int| 0 <= i < entries.len() ==> well_formed_entry(#[trigger] entries[i]),
    ensures
        row_chunks(grid_row_from(entries, r, c, rows, cols, ew), ew) == row_cells_from(
            entries,
            r,
            c,
            rows,
            cols,
            ew,
        ),
    decreases cols - c,
{
    let n = entries.len() as int;
    let idx = cell_index(r, c, rows);
    let e = entries[idx as int];
    lemma_max_entry_len_bound(entries, idx as int);
    assert(e.len() >= 1);
    let cell = grid_cell(entries, r, c, rows, cols, ew);
    let line = grid_row_from(entries, r, c, rows, cols, ew);
    let rest_line = grid_row_from(entries, r, (c + 1) as nat, rows, cols, ew);
    lemma_cell_index_step(r, c, rows);
    if c + 1 < cols && cell_index(r, (c + 1) as nat, rows) < n {
        assert(cell == e + spaces((ew - e.len()) as nat));
        assert(cell.len() == ew);
        lemma_row_chunks_cells(entries, r, (c + 1) as nat, rows, cols, ew);
        let idx2 = cell_index(r, (c + 1) as nat, rows);
        lemma_max_entry_len_bound(entries, idx2 as int);
        assert(grid_cell(entries, r, (c + 1) as nat, rows, cols, ew).len() >= 1);
        assert(rest_line.len() >= 1);
        assert(line.len() > ew);
        assert(line.take(ew as int) =~= cell);
        assert(line.skip(ew as int) =~= rest_line);
        assert(row_chunks(line, ew) =~~= seq![cell] + row_chunks(rest_line, ew));
        assert(row_chunks(line, ew) =~~= row_cells_from(entries, r, c, rows, cols, ew));
    } else {
        assert(cell == e);
        if c + 1 < cols {
            lemma_row_tail_empty(entries, r, (c + 1) as nat, rows, cols, ew);
        } else {
            assert(rest_line =~= Seq::<char>::empty());
        }
        assert(line =~= e);
        assert(line.len() < ew);
        assert(row_chunks(line, ew) =~~= seq![cell]);
        assert(row_cells_from(entries, r, (c + 1) as nat, rows, cols, ew) =~~= Seq::<Seq<
            char,
        >>::empty());
        assert(row_cells_from(entries, r, c, rows, cols, ew) =~~= seq![cell]);
    }
}

/// The cells read back from one row, padding stripped.
pub open spec fn stripped_row(
    entries: Seq<Seq<char>>,
    r: nat,
    rows: nat,
    cols: nat,
    ew: nat,
) -> Seq<Seq<char>> {
    row_cells_from(entries, r, 0, rows, cols, ew).map_values(
        |s: Seq<char>| strip_trailing_spaces(s),
    )
}

/// Which cells a row has, and what each one is.
proof fn lemma_row_cells_char(
    entries: Seq<Seq<char>>,
    r: nat,
    c: nat,
    rows: nat,
    cols: nat,
    ew: nat,
)
    requires
        rows >= 1,
        r < rows,
        c <= cols,
    ensures
        ({
            let s = row_cells_from(entries, r, c, rows, cols, ew);
            &&& forall|k: nat| k < s.len() ==> #[trigger] cell_index(r, c + k, rows) < entries.len()
            &&& forall|k: nat|
                k < s.len() ==> #[trigger] s[k as int] == grid_cell(
                    entries,
                    r,
                    c + k,
                    rows,
                    cols,
                    ew,
                )
            &&& forall|k: nat|
                #[trigger] cell_index(r, c + k, rows) < entries.len() && c + k < cols ==> k
                    < s.len()
        }),
    decreases cols - c,
{
    let n = entries.len() as int;
    let s = row_cells_from(entries, r, c, rows, cols, ew);
    if c < cols && cell_index(r, c, rows) < n {
        lemma_row_cells_char(entries, r, (c + 1) as nat, rows, cols, ew);
        let s2 = row_cells_from(entries, r, (c + 1) as nat, rows, cols, ew);
        assert(s == seq![grid_cell(entries, r, c, rows, cols, ew)] + s2);
        assert forall|k: nat| k < s.len() implies #[trigger] cell_index(r, c + k, rows)
            < entries.len() by {
            if k > 0 {
                let kk = (k - 1) as nat;
                assert(kk < s2.len());
                assert(cell_index(r, (c + 1) + kk, rows) == cell_index(r, c + k, rows));
            }
        }
        assert forall|k: nat| k < s.len() implies #[trigger] s[k as int] == grid_cell(
            entries,
            r,
            c + k,
            rows,
            cols,
            ew,
        ) by {
            if k > 0 {
                let kk = (k - 1) as nat;
                assert(s[k as int] == s2[kk as int]);
                assert(cell_index(r, (c + 1) + kk, rows) == cell_index(r, c + k, rows));
            }
        }
        assert forall|k: nat|
            #[trigger] cell_index(r, c + k, rows) < entries.len() && c + k < cols implies k
                < s.len() by {
            if k > 0 {
                let kk = (k - 1) as nat;
                assert(cell_index(r, (c + 1) + kk, rows) == cell_index(r, c + k, rows));
            }
        }
    } else {
        assert(s =~~= Seq::<Seq<char>>::empty());
        assert forall|k: nat|
            #[trigger] cell_index(r, c + k, rows) < entries.len() && c + k < cols implies k
                < s.len() by {
            assert(c < cols);
            lemma_cell_index_mono(r, c, c + k, rows);
            assert(cell_index(r, c, rows) < n);
        }
    }
}

/// Which cells a row's read-back has, and that each is exactly its entry.
proof fn lemma_stripped_row_char(entries: Seq<Seq<char>>, r: nat, rows: nat, cols: nat, ew: nat)
    requires
        rows >= 1,
        r < rows,
        entries.len() <= cols * rows,
        ew == max_entry_len(entries) + 2,
        forall|i: int| 0 <= i < entries.len() ==> well_formed_entry(#[trigger] entries[i]),
    ensures
        ({
            let t = stripped_row(entries, r, rows, cols, ew);
            &&& forall|c: nat| c < t.len() ==> #[trigger] cell_index(r, c, rows) < entries.len()
            &&& forall|c: nat|
                c < t.len() ==> #[trigger] t[c as int] == entries[cell_index(r, c, rows) as int]
            &&& forall|c: nat| #[trigger] cell_index(r, c, rows) < entries.len() ==> c < t.len()
        }),
{
    let n = entries.len() as int;
    let s = row_cells_from(entries, r, 0, rows, cols, ew);
    let t = stripped_row(entries, r, rows, cols, ew);
    lemma_row_cells_char(entries, r, 0, rows, cols, ew);
    assert(t.len() == s.len());
    assert forall|c: nat| c < t.len() implies #[trigger] cell_index(r, c, rows)
        < entries.len() by {
        assert(cell_index(r, 0 + c, rows) == cell_index(r, c, rows));
    }
    assert forall|c: nat| c < t.len() implies #[trigger] t[c as int] == entries[cell_index(
        r,
        c,
        rows,
    ) as int] by {
        assert(cell_index(r, 0 + c, rows) == cell_index(r, c, rows));
        let idx = cell_index(r, c, rows);
        assert(idx < n);
        assert(s[c as int] == grid_cell(entries, r, 0 + c, rows, cols, ew));
        let e = entries[idx as int];
        lemma_max_entry_len_bound(entries, idx as int);
        let cell = grid_cell(entries, r, c, rows, cols, ew);
        assert(s[c as int] == cell);
        assert(t[c as int] == strip_trailing_spaces(cell));
        if c + 1 < cols && cell_index(r, (c + 1) as nat, rows) < n {
            assert(cell == e + spaces((ew - e.len()) as nat));
            lemma_strip_pad(e, (ew - e.len()) as nat);
        } else {
            assert(cell == e);
            lemma_strip_no_trailing(e);
        }
    }
    assert forall|c: nat| #[trigger] cell_index(r, c, rows) < entries.len() implies c
        < t.len() by {
        assert(c * rows < cols * rows);
        assert(c < cols) by (nonlinear_arith)
            requires
                rows >= 1,
                c * rows < cols * rows,
        ;
        assert(cell_index(r, 0 + c, rows) == cell_index(r, c, rows));
    }
}

/// A rendered row holds no newline.
proof fn lemma_row_no_newline(
    entries: Seq<Seq<char>>,
    r: nat,
    c: nat,
    rows: nat,
    cols: nat,
    ew: nat,
)
    requires
        forall|i: int| 0 <= i < entries.len() ==> well_formed_entry(#[trigger] entries[i]),
    ensures
        forall|i: int|
            0 <= i < grid_row_from(entries, r, c, rows, cols, ew).len()
                ==> #[trigger] grid_row_from(entries, r, c, rows, cols, ew)[i] != '\n',
    decreases cols - c,
{
    if c < cols {
        lemma_row_no_newline(entries, r, (c + 1) as nat, rows, cols, ew);
        let cell = grid_cell(entries, r, c, rows, cols, ew);
        let rest = grid_row_from(entries, r, (c + 1) as nat, rows, cols, ew);
        let line = grid_row_from(entries, r, c, rows, cols, ew);
        assert(line == cell + rest);
        assert forall|i: int| 0 <= i < cell.len() implies cell[i] != '\n' by {
            let idx = cell_index(r, c, rows);
            if idx < entries.len() {
                let e = entries[idx as int];
                if i < e.len() {
                    assert(cell[i] == e[i]);
                } else {
                    assert(cell[i] == ' ');
                }
            }
        }
        assert forall|i: int| 0 <= i < line.len() implies line[i] != '\n' by {
            if i < cell.len() {
                assert(line[i] == cell[i]);
            } else {
                assert(line[i] == rest[i - cell.len()]);
            }
        }
    }
}

/// Splitting the rendered grid at its newlines gives back exactly its rows.
proof fn lemma_split_grid_rows(entries: Seq<Seq<char>>, r: nat, rows: nat, cols: nat, ew: nat)
    requires
        rows >= 1,
        r < rows,
        forall|i: int| 0 <= i < entries.len() ==> well_formed_entry(#[trigger] entries[i]),
    ensures
        split_lines(grid_rows_from(entries, r, rows, cols, ew)) == Seq::new(
            (rows - r) as nat,
            |j: int| grid_row(entries, (r + j) as nat, rows, cols, ew),
        ),
    decreases rows - r,
{
    let text = grid_rows_from(entries, r, rows, cols, ew);
    let row = grid_row(entries, r, rows, cols, ew);
    lemma_row_no_newline(entries, r, 0, rows, cols, ew);
    if r + 1 < rows {
        lemma_split_grid_rows(entries, (r + 1) as nat, rows, cols, ew);
        let rest = grid_rows_from(entries, (r + 1) as nat, rows, cols, ew);
        assert(text == (row + seq!['\n']) + rest);
        assert(text =~= row + seq!['\n'] + rest);
        lemma_split_lines_step(row, rest);
        assert(split_lines(text) == seq![row] + split_lines(rest));
        assert(split_lines(text) =~~= Seq::new(
            (rows - r) as nat,
            |j: int| grid_row(entries, (r + j) as nat, rows, cols, ew),
        ));
    } else {
        assert(text == row);
        lemma_split_lines_whole(row);
        assert(split_lines(text) =~~= Seq::new(
            (rows - r) as nat,
            |j: int| grid_row(entries, (r + j) as nat, rows, cols, ew),
        ));
    }
}

/// Index just past the last entry of column `c`.
spec fn col_hi(c: nat, rows: nat, n: nat) -> int {
    if (c + 1) * rows < n {
        ((c + 1) * rows) as int
    } else {
        n as int
    }
}

/// Index of the entry of column `c` at row `r0`, clamped to the column end.
spec fn col_lo(r0: nat, c: nat, rows: nat, n: nat) -> int {
    if r0 + c * rows < col_hi(c, rows, n) {
        (r0 + c * rows) as int
    } else {
        col_hi(c, rows, n)
    }
}

/// Column `c` of the read-back grid, from row `r0` down, is a consecutive
/// run of the entries.
proof fn lemma_column_cells(
    grid: Seq<Seq<Seq<char>>>,
    entries: Seq<Seq<char>>,
    r0: nat,
    c: nat,
    rows: nat,
    cols: nat,
    ew: nat,
)
    requires
        rows >= 1,
        rows <= entries.len(),
        entries.len() <= cols * rows,
        ew == max_entry_len(entries) + 2,
        forall|i: int| 0 <= i < entries.len() ==> well_formed_entry(#[trigger] entries[i]),
        grid.len() == rows,
        forall|j: int|
            0 <= j < rows ==> #[trigger] grid[j] == stripped_row(entries, j as nat, rows, cols, ew),
        r0 <= rows,
    ensures
        column_cells(grid.skip(r0 as int), c as int) == entries.subrange(
            col_lo(r0, c, rows, entries.len()),
            col_hi(c, rows, entries.len()),
        ),
    decreases rows - r0,
{
    let n = entries.len();
    let hi = col_hi(c, rows, n);
    let lo = col_lo(r0, c, rows, n);
    assert((c + 1) * rows == c * rows + rows) by (nonlinear_arith);
    if r0 == rows {
        assert(grid.skip(r0 as int) =~~= Seq::<Seq<Seq<char>>>::empty());
        assert(r0 + c * rows == (c + 1) * rows);
        assert(lo == hi);
        assert(column_cells(grid.skip(r0 as int), c as int) =~~= entries.subrange(lo, hi));
    } else {
        let g = grid.skip(r0 as int);
        assert(g.first() == grid[r0 as int]);
        assert(g.drop_first() =~~= grid.skip(r0 as int + 1));
        lemma_stripped_row_char(entries, r0, rows, cols, ew);
        let t = stripped_row(entries, r0, rows, cols, ew);
        assert(g.first() == t);
        lemma_column_cells(grid, entries, (r0 + 1) as nat, c, rows, cols, ew);
        let lo2 = col_lo((r0 + 1) as nat, c, rows, n);
        assert(cell_index(r0, c, rows) == r0 + c * rows);
        if r0 + c * rows < n {
            assert(c < t.len());
            assert(t[c as int] == entries[(r0 + c * rows) as int]);
            assert(r0 + c * rows < (c + 1) * rows);
            assert(lo == r0 + c * rows);
            assert(lo < hi);
            assert(lo2 == lo + 1);
            assert(column_cells(g, c as int) == seq![t[c as int]] + column_cells(
                g.drop_first(),
                c as int,
            ));
            assert(column_cells(g, c as int) =~~= entries.subrange(lo, hi));
        } else {
            assert(!(c < t.len()));
            assert(column_cells(g, c as int) == column_cells(g.drop_first(), c as int));
            assert(hi <= r0 + c * rows);
            assert(lo == hi);
            assert(lo2 == hi);
            assert(column_cells(g, c as int) =~~= entries.subrange(lo, hi));
        }
    }
}

/// The columns of the read-back grid from `c` on, read left to right,
/// are the entries from position `c * rows` on.
proof fn lemma_column_major_from(
    grid: Seq<Seq<Seq<char>>>,
    entries: Seq<Seq<char>>,
    c: nat,
    w: nat,
    rows: nat,
    cols: nat,
    ew: nat,
)
    requires
        rows >= 1,
        rows <= entries.len(),
        entries.len() <= cols * rows,
        entries.len() <= w * rows,
        ew == max_entry_len(entries) + 2,
        forall|i: int| 0 <= i < entries.len() ==> well_formed_entry(#[trigger] entries[i]),
        grid.len() == rows,
        forall|j: int|
            0 <= j < rows ==> #[trigger] grid[j] == stripped_row(entries, j as nat, rows, cols, ew),
    ensures
        column_major_from(grid, c as int, w as int) == entries.skip(
            if c * rows < entries.len() {
                (c * rows) as int
            } else {
                entries.len() as int
            },
        ),
    decreases w - c,
{
    let n = entries.len();
    let start: int = if c * rows < n {
        (c * rows) as int
    } else {
        n as int
    };
    if c >= w {
        vstd::arithmetic::mul::lemma_mul_inequality(w as int, c as int, rows as int);
        assert(c * rows >= n);
        assert(start == n);
        assert(column_major_from(grid, c as int, w as int) =~~= entries.skip(start));
    } else {
        assert((c + 1) * rows == c * rows + rows) by (nonlinear_arith);
        lemma_column_cells(grid, entries, 0, c, rows, cols, ew);
        assert(grid.skip(0) =~~= grid);
        lemma_column_major_from(grid, entries, (c + 1) as nat, w, rows, cols, ew);
        let hi = col_hi(c, rows, n);
        let lo = col_lo(0, c, rows, n);
        let start2: int = if (c + 1) * rows < n {
            ((c + 1) * rows) as int
        } else {
            n as int
        };
        assert(start2 == hi);
        if c * rows < n {
            assert(lo == c * rows);
        } else {
            assert(lo == hi);
        }
        assert(column_major_from(grid, c as int, w as int) == entries.subrange(lo, hi)
            + entries.skip(start2));
        assert(entries.subrange(lo, hi) + entries.skip(hi) =~~= entries.skip(start));
    }
}

/// The round trip: reading a rendered grid back — splitting it into rows at
/// the newlines, cutting each row into cells at multiples of the cell width,
/// stripping the padding, and reading the cells column-major — reproduces
/// exactly the entry sequence it was rendered from, in the same order.
pub proof fn lemma_grid_round_trip(entries: Seq<Seq<char>>, width: nat)
    requires
        entries.len() >= 1,
        width >= 1,
        forall|i: int| 0 <= i < entries.len() ==> well_formed_entry(#[trigger] entries[i]),
    ensures
        extract_entries(grid_text(entries, width), grid_entry_width(entries)) == entries,
{
    let n = entries.len();
    let ew = grid_entry_width(entries);
    let cols = grid_columns(entries, width);
    let rows = grid_rows(entries, width);
    lemma_grid_dimensions(entries, width);
    let out = grid_text(entries, width);
    assert(out == grid_rows_from(entries, 0, rows, cols, ew));
    lemma_split_grid_rows(entries, 0, rows, cols, ew);
    let grid = text_cells(out, ew);
    assert(grid.len() == rows);
    assert forall|j: int| 0 <= j < rows implies #[trigger] grid[j] == stripped_row(
        entries,
        j as nat,
        rows,
        cols,
        ew,
    ) by {
        let row = grid_row(entries, j as nat, rows, cols, ew);
        assert(grid[j] == line_cells(row, ew));
        assert(cell_index(j as nat, 0, rows) == j);
        lemma_row_chunks_cells(entries, j as nat, 0, rows, cols, ew);
        assert(line_cells(row, ew) == stripped_row(entries, j as nat, rows, cols, ew));
    }
    lemma_stripped_row_char(entries, 0, rows, cols, ew);
    let t0 = stripped_row(entries, 0, rows, cols, ew);
    let m0 = t0.len();
    if m0 * rows < n {
        assert(cell_index(0, m0, rows) == m0 * rows);
        assert(m0 < t0.len());
        assert(false);
    }
    let w = max_row_len(grid);
    assert(grid[0] == t0);
    assert(grid.first() == t0);
    assert(w >= m0);
    vstd::arithmetic::mul::lemma_mul_inequality(m0 as int, w as int, rows as int);
    assert(n <= w * rows);
    lemma_column_major_from(grid, entries, 0, w, rows, cols, ew);
    assert(0 * rows == 0);
    assert(n >= 1);
    assert(extract_entries(out, ew) == entries.skip(0));
    assert(entries.skip(0) =~~= entries);
}

} // verus!
