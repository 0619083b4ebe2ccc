//! Column-major grid layout for terminal listings.
//!
//! Given an already-sorted list of entry names and a terminal width in
//! character cells, `format_columns` renders the names in as many columns as
//! fit, filling each column top to bottom before moving right, the way
//! traditional `ls` lays out a directory.
//!
//! Conventions, fixed here once:
//! - every cell except the last populated one of a row is padded with spaces
//!   to the common cell width (the longest name plus two);
//! - no padding follows the last populated cell of a row;
//! - rows are separated by a single newline and no newline follows the last
//!   row (the caller appends one when printing).
//! - lengths and widths are counted in characters.

use vstd::prelude::*;

verus! {

/// Character-sequence views of a vector of strings.
pub open spec fn views(entries: Seq<String>) -> Seq<Seq<char>> {
    entries.map_values(|s: String| s@)
}

/// A run of `n` space characters.
pub open spec fn spaces(n: nat) -> Seq<char> {
    Seq::new(n, |i: int| ' ')
}

/// Length of the longest entry; 0 when there are none.
pub open spec fn max_entry_len(entries: Seq<Seq<char>>) -> nat
    decreases entries.len(),
{
    if entries.len() == 0 {
        0
    } else {
        let rest = max_entry_len(entries.drop_last());
        if entries.last().len() > rest {
            entries.last().len()
        } else {
            rest
        }
    }
}

/// Width of one grid cell: the longest entry plus two cells of padding.
pub open spec fn grid_entry_width(entries: Seq<Seq<char>>) -> nat {
    max_entry_len(entries) + 2
}

/// Number of columns: as many cells as fit in the width, but at least 1.
pub open spec fn grid_columns(entries: Seq<Seq<char>>, width: nat) -> nat {
    let c = width / grid_entry_width(entries);
    if c < 1 {
        1
    } else {
        c
    }
}

/// Number of rows: the entry count divided by the column count, rounded up.
pub open spec fn grid_rows(entries: Seq<Seq<char>>, width: nat) -> nat {
    let cols = grid_columns(entries, width) as int;
    ((entries.len() + cols - 1) / cols) as nat
}

/// Column-major position: the entry shown at grid position (row, column).
pub open spec fn cell_index(row: nat, column: nat, rows: nat) -> nat {
    row + column * rows
}

/// The text of one grid cell: the entry at its position, padded with spaces
/// to `ew` cells when another entry follows it on the same row; empty when
/// the position is beyond the entry count.
pub open spec fn grid_cell(
    entries: Seq<Seq<char>>,
    r: nat,
    c: nat,
    rows: nat,
    cols: nat,
    ew: nat,
) -> Seq<char> {
    let i = cell_index(r, c, rows);
    if i < entries.len() {
        if c + 1 < cols && cell_index(r, c + 1, rows) < entries.len() {
            entries[i as int] + spaces((ew - entries[i as int].len()) as nat)
        } else {
            entries[i as int]
        }
    } else {
        Seq::empty()
    }
}

/// The text of row `r` from column `c` on.
pub open spec fn grid_row_from(
    entries: Seq<Seq<char>>,
    r: nat,
    c: nat,
    rows: nat,
    cols: nat,
    ew: nat,
) -> Seq<char>
    decreases cols - c,
{
    if c < cols {
        grid_cell(entries, r, c, rows, cols, ew) + grid_row_from(
            entries,
            r,
            c + 1,
            rows,
            cols,
            ew,
        )
    } else {
        Seq::empty()
    }
}

/// The text of row `r`.
pub open spec fn grid_row(
    entries: Seq<Seq<char>>,
    r: nat,
    rows: nat,
    cols: nat,
    ew: nat,
) -> Seq<char> {
    grid_row_from(entries, r, 0, rows, cols, ew)
}

/// The rows from `r` on, joined by single newlines, with no trailing newline.
pub open spec fn grid_rows_from(
    entries: Seq<Seq<char>>,
    r: nat,
    rows: nat,
    cols: nat,
    ew: nat,
) -> Seq<char>
    decreases rows - r,
{
    if r < rows {
        if r + 1 < rows {
            grid_row(entries, r, rows, cols, ew) + seq!['\n'] + grid_rows_from(
                entries,
                r + 1,
                rows,
                cols,
                ew,
            )
        } else {
            grid_row(entries, r, rows, cols, ew)
        }
    } else {
        Seq::empty()
    }
}

/// The whole grid: empty for no entries, else all rows under the widths and
/// counts that the entry lengths and the terminal width determine.
pub open spec fn grid_text(entries: Seq<Seq<char>>, width: nat) -> Seq<char> {
    if entries.len() == 0 {
        Seq::empty()
    } else {
        grid_rows_from(
            entries,
            0,
            grid_rows(entries, width),
            grid_columns(entries, width),
            grid_entry_width(entries),
        )
    }
}

/// Every entry is at most the maximum long.
pub proof fn lemma_max_entry_len_bound(entries: Seq<Seq<char>>, i: int)
    requires
        0 <= i < entries.len(),
    ensures
        entries[i].len() <= max_entry_len(entries),
    decreases entries.len(),
{
    if i == entries.len() - 1 {
        assert(entries.last() == entries[i]);
    } else {
        lemma_max_entry_len_bound(entries.drop_last(), i);
        assert(entries.drop_last()[i] == entries[i]);
    }
}

/// Basic facts about the grid dimensions: at least one column and one row,
/// no more rows than entries, and enough cells for every entry but not a
/// whole spare row of them.
pub proof fn lemma_grid_dimensions(entries: Seq<Seq<char>>, width: nat)
    requires
        entries.len() >= 1,
    ensures
        ({
            let cols = grid_columns(entries, width) as int;
            let rows = grid_rows(entries, width) as int;
            &&& cols >= 1
            &&& rows >= 1
            &&& rows <= entries.len()
            &&& entries.len() <= cols * rows
            &&& cols * rows <= entries.len() + cols - 1
        }),
{
    let n = entries.len() as int;
    let c = grid_columns(entries, width) as int;
    let d = n + c - 1;
    let r = grid_rows(entries, width) as int;
    assert(c >= 1);
    assert(r == d / c);
    vstd::arithmetic::div_mod::lemma_fundamental_div_mod(d, c);
    vstd::arithmetic::div_mod::lemma_mod_division_less_than_divisor(d, c);
    assert(c * r == d - d % c);
    assert(n <= c * r);
    assert(c * r <= d);
    assert(r >= 1) by (nonlinear_arith)
        requires
            c >= 1,
            c * r >= n,
            n >= 1,
    ;
    assert(r <= n) by (nonlinear_arith)
        requires
            c >= 1,
            n >= 1,
            c * r <= n + c - 1,
    ;
}

/// Appends `k` spaces to `out`.
pub fn pad_spaces(out: &mut String, k: usize)
    ensures
        final(out)@ == old(out)@ + spaces(k as nat),
{
    let ghost base = out@;
    let mut j: usize = 0;
    while j < k
        invariant
            j <= k,
            out@ == base + spaces(j as nat),
        decreases k - j,
    {
        out.append(" ");
        proof {
            reveal_strlit(" ");
            assert(spaces((j + 1) as nat) =~= spaces(j as nat) + " "@);
            assert(base + spaces((j + 1) as nat) =~= (base + spaces(j as nat)) + " "@);
        }
        j += 1;
    }
}

/// Length in characters of the longest entry of `entries`.
pub fn max_len_of(entries: &Vec<String>) -> (m: usize)
    ensures
        m == max_entry_len(views(entries@)),
{
    let mut m: usize = 0;
    let mut i: usize = 0;
    while i < entries.len()
        invariant
            i <= entries.len(),
            m == max_entry_len(views(entries@).take(i as int)),
        decreases entries.len() - i,
    {
        let l = entries[i].as_str().unicode_len();
        proof {
            let vs = views(entries@);
            assert(vs.take(i + 1).drop_last() =~= vs.take(i as int));
            assert(vs.take(i + 1).last() == vs[i as int]);
        }
        if l > m {
            m = l;
        }
        i += 1;
    }
    proof {
        assert(views(entries@).take(entries@.len() as int) =~= views(entries@));
    }
    m
}

/// Renders `entries` as a column-major grid for a terminal `terminal_width`
/// character cells wide. The entries are taken as the caller hands them, in
/// order; callers that want the traditional sorted listing sort first.
///
/// The two arithmetic bounds in the `requires` only keep the cell width and
/// the cell count inside `usize`; any realistic listing satisfies them.
pub fn format_columns(entries: &Vec<String>, terminal_width: usize) -> (out: String)
    requires
        terminal_width >= 1,
        max_entry_len(views(entries@)) + 2 <= usize::MAX,
        entries@.len() + terminal_width <= usize::MAX,
    ensures
        out@ == grid_text(views(entries@), terminal_width as nat),
{
    let ghost vs = views(entries@);
    let ghost w = terminal_width as nat;
    if entries.len() == 0 {
        let out = String::new();
        assert(out@ =~= grid_text(vs, w));
        return out;
    }
    let n = entries.len();
    let m = max_len_of(entries);
    let ew = m + 2;
    let mut cols = terminal_width / ew;
    if cols < 1 {
        cols = 1;
    }
    let rows = (n + cols - 1) / cols;
    proof {
        assert(ew == grid_entry_width(vs));
        assert(cols == grid_columns(vs, w));
        assert(rows == grid_rows(vs, w));
        lemma_grid_dimensions(vs, w);
    }
    let mut out = String::new();
    let mut r: usize = 0;
    while r < rows
        invariant
            r <= rows,
            n == vs.len(),
            n == entries@.len(),
            vs == views(entries@),
            1 <= cols,
            1 <= rows <= n,
            n <= cols * rows,
            cols * rows <= n + cols - 1,
            n + cols <= usize::MAX,
            ew == grid_entry_width(vs),
            cols == grid_columns(vs, w),
            rows == grid_rows(vs, w),
            out@ + grid_rows_from(vs, r as nat, rows as nat, cols as nat, ew as nat) == grid_text(
                vs,
                w,
            ),
        decreases rows - r,
    {
        let ghost row_base = out@;
        let mut c: usize = 0;
        while c < cols
            invariant
                c <= cols,
                r < rows,
                n == vs.len(),
                n == entries@.len(),
                vs == views(entries@),
                1 <= cols,
                1 <= rows <= n,
                n <= cols * rows,
                cols * rows <= n + cols - 1,
                n + cols <= usize::MAX,
                ew == grid_entry_width(vs),
                out@ + grid_row_from(vs, r as nat, c as nat, rows as nat, cols as nat, ew as nat)
                    == row_base + grid_row(vs, r as nat, rows as nat, cols as nat, ew as nat),
            decreases cols - c,
        {
            proof {
                vstd::arithmetic::mul::lemma_mul_inequality((c + 1) as int, cols as int, rows as int);
                assert((c + 1) as int * rows as int == c as int * rows as int + rows as int)
                    by (nonlinear_arith);
            }
            let idx = r + c * rows;
            let ghost pre_cell = out@;
            if idx < n {
                out.append(entries[idx].as_str());
                proof {
                    assert(vs[idx as int] == entries@[idx as int]@);
                }
                if c + 1 < cols && rows < n - idx {
                    let l = entries[idx].as_str().unicode_len();
                    proof {
                        lemma_max_entry_len_bound(vs, idx as int);
                    }
                    pad_spaces(&mut out, ew - l);
                    proof {
                        assert(cell_index(r as nat, (c + 1) as nat, rows as nat) == idx + rows);
                        assert(out@ =~= pre_cell + grid_cell(
                            vs,
                            r as nat,
                            c as nat,
                            rows as nat,
                            cols as nat,
                            ew as nat,
                        ));
                    }
                } else {
                    proof {
                        assert(cell_index(r as nat, (c + 1) as nat, rows as nat) == idx + rows);
                        assert(out@ =~= pre_cell + grid_cell(
                            vs,
                            r as nat,
                            c as nat,
                            rows as nat,
                            cols as nat,
                            ew as nat,
                        ));
                    }
                }
            } else {
                proof {
                    assert(out@ =~= pre_cell + grid_cell(
                        vs,
                        r as nat,
                        c as nat,
                        rows as nat,
                        cols as nat,
                        ew as nat,
                    ));
                }
            }
            proof {
                let cell = grid_cell(vs, r as nat, c as nat, rows as nat, cols as nat, ew as nat);
                let rest = grid_row_from(
                    vs,
                    r as nat,
                    (c + 1) as nat,
                    rows as nat,
                    cols as nat,
                    ew as nat,
                );
                assert((pre_cell + cell) + rest =~= pre_cell + (cell + rest));
            }
            c += 1;
        }
        proof {
            assert(grid_row_from(vs, r as nat, cols as nat, rows as nat, cols as nat, ew as nat)
                =~= Seq::<char>::empty());
            assert(out@ + Seq::<char>::empty() =~= out@);
            assert(out@ == row_base + grid_row(vs, r as nat, rows as nat, cols as nat, ew as nat));
        }
        if r + 1 < rows {
            out.append("\n");
            proof {
                reveal_strlit("\n");
                assert("\n"@ =~= seq!['\n']);
                let row = grid_row(vs, r as nat, rows as nat, cols as nat, ew as nat);
                let rest = grid_rows_from(vs, (r + 1) as nat, rows as nat, cols as nat, ew as nat);
                assert(row_base + ((row + seq!['\n']) + rest) =~= ((row_base + row) + seq!['\n'])
                    + rest);
                assert(grid_rows_from(vs, r as nat, rows as nat, cols as nat, ew as nat) == (row
                    + seq!['\n']) + rest);
                assert(row_base + grid_rows_from(vs, r as nat, rows as nat, cols as nat, ew as nat)
                    =~= out@ + rest);
            }
        } else {
            proof {
                assert(grid_rows_from(vs, (r + 1) as nat, rows as nat, cols as nat, ew as nat)
                    =~= Seq::<char>::empty());
                assert(out@ + Seq::<char>::empty() =~= out@);
            }
        }
        r += 1;
    }
    proof {
        assert(grid_rows_from(vs, rows as nat, rows as nat, cols as nat, ew as nat)
            =~= Seq::<char>::empty());
        assert(out@ + Seq::<char>::empty() =~= out@);
    }
    out
}

/// No row is wider than its column budget from column `c` on: every cell is
/// at most one cell width, and at most one cell stands in each column.
proof fn lemma_row_width_from(
    entries: Seq<Seq<char>>,
    r: nat,
    c: nat,
    rows: nat,
    cols: nat,
    ew: nat,
)
    requires
        ew == grid_entry_width(entries),
        c <= cols,
    ensures
        grid_row_from(entries, r, c, rows, cols, ew).len() <= (cols - c) * ew,
    decreases cols - c,
{
    if c < cols {
        lemma_row_width_from(entries, r, (c + 1) as nat, rows, cols, ew);
        let cell = grid_cell(entries, r, c, rows, cols, ew);
        let i = cell_index(r, c, rows);
        if i < entries.len() {
            lemma_max_entry_len_bound(entries, i as int);
        }
        assert(cell.len() <= ew);
        assert(((cols - c) as nat) * ew == ((cols - (c + 1)) as nat) * ew + ew)
            by (nonlinear_arith)
            requires
                c < cols,
        ;
    } else {
        assert(((cols - c) as nat) * ew == 0) by (nonlinear_arith)
            requires
                c == cols,
        ;
    }
}

/// The grid's width guarantee: no rendered row is wider than the column
/// count times the cell width.
pub proof fn lemma_grid_row_width(entries: Seq<Seq<char>>, width: nat, r: nat)
    ensures
        grid_row(
            entries,
            r,
            grid_rows(entries, width),
            grid_columns(entries, width),
            grid_entry_width(entries),
        ).len() <= grid_columns(entries, width) * grid_entry_width(entries),
{
    let cols = grid_columns(entries, width);
    let ew = grid_entry_width(entries);
    lemma_row_width_from(entries, r, 0, grid_rows(entries, width), cols, ew);
    assert(((cols - 0) as nat) * ew == cols * ew);
}

/// The layout is deterministic: the output is a pure function of the entries
/// and the width, so byte-identical inputs give byte-identical output.
pub proof fn lemma_format_deterministic(
    entries: Seq<Seq<char>>,
    width: nat,
    a: Seq<char>,
    b: Seq<char>,
)
    requires
        a == grid_text(entries, width),
        b == grid_text(entries, width),
    ensures
        a == b,
{
}

} // verus!
