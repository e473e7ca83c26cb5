//! Aligned text tables.
use vstd::prelude::*;

use crate::doc::{lines_text, no_lines, own_line, render_lines};
use crate::num::{pad_right, padded_right};
use crate::split::{join, joined};
use crate::text::{chars_of, trim_back, trim_end, views};

verus! {

/// The contents of a grid of cells.
pub open spec fn grid_view(v: Seq<Vec<String>>) -> Seq<Seq<Seq<char>>> {
    Seq::new(v.len(), |i: int| views(v[i]@))
}

/// The width of the widest cell of column `j`.
pub open spec fn column_width(grid: Seq<Seq<Seq<char>>>, j: int) -> nat
    decreases grid.len(),
{
    if grid.len() == 0 {
        0
    } else {
        let before = column_width(grid.drop_last(), j);
        if grid.last()[j].len() > before {
            grid.last()[j].len()
        } else {
            before
        }
    }
}

/// The cells of a row, each but for its own width padded to that of its column.
pub open spec fn padded_cells(grid: Seq<Seq<Seq<char>>>, row: Seq<Seq<char>>) -> Seq<Seq<char>> {
    Seq::new(row.len(), |j: int| padded_right(row[j], column_width(grid, j)))
}

/// The text of a row: the padded cells with two spaces between them, and no white
/// space at the end.
pub open spec fn row_text(grid: Seq<Seq<Seq<char>>>, row: Seq<Seq<char>>) -> Seq<char> {
    trim_back(joined(padded_cells(grid, row), "  "@))
}

/// The lines of a table.
pub open spec fn table_lines(grid: Seq<Seq<Seq<char>>>) -> Seq<Seq<char>> {
    Seq::new(grid.len(), |i: int| row_text(grid, grid[i]))
}

fn width_of(grid: &Vec<Vec<String>>, j: usize) -> (w: usize)
    requires
        forall|i: int| 0 <= i < grid@.len() ==> j < (#[trigger] grid@[i])@.len(),
    ensures
        w == column_width(grid_view(grid@), j as int),
{
    let ghost gv = grid_view(grid@);
    let mut w: usize = 0;
    for i in 0..grid.len()
        invariant
            gv == grid_view(grid@),
            forall|k: int| 0 <= k < grid@.len() ==> j < (#[trigger] grid@[k])@.len(),
            w == column_width(gv.take(i as int), j as int),
    {
        proof {
            assert(gv.take(i + 1).drop_last() =~= gv.take(i as int));
            assert(gv.take(i + 1).last() == views(grid@[i as int]@));
            assert(views(grid@[i as int]@)[j as int] == grid@[i as int]@[j as int]@);
        }
        let row = &grid[i];
        let n: usize = chars_of(row[j].as_str()).len();
        if n > w {
            w = n;
        }
    }
    proof {
        assert(gv.take(gv.len() as int) =~= gv);
    }
    w
}

/// Renders rows of `columns` cells each as an aligned table.
pub fn render_grid(grid: &Vec<Vec<String>>, columns: usize) -> (out: String)
    requires
        forall|i: int| 0 <= i < grid@.len() ==> (#[trigger] grid@[i])@.len() == columns,
    ensures
        out@ == lines_text(table_lines(grid_view(grid@))),
{
    let ghost gv = grid_view(grid@);
    let mut widths: Vec<usize> = Vec::new();
    for j in 0..columns
        invariant
            gv == grid_view(grid@),
            forall|i: int| 0 <= i < grid@.len() ==> (#[trigger] grid@[i])@.len() == columns,
            widths@.len() == j,
            forall|k: int| 0 <= k < j ==> (#[trigger] widths@[k]) == column_width(gv, k),
    {
        widths.push(width_of(grid, j));
    }
    let mut all = no_lines();
    proof {
        assert(table_lines(gv).take(0) =~= Seq::<Seq<char>>::empty());
    }
    for i in 0..grid.len()
        invariant
            gv == grid_view(grid@),
            forall|k: int| 0 <= k < grid@.len() ==> (#[trigger] grid@[k])@.len() == columns,
            widths@.len() == columns,
            forall|k: int| 0 <= k < columns ==> (#[trigger] widths@[k]) == column_width(gv, k),
            views(all@) == table_lines(gv).take(i as int),
    {
        let row = &grid[i];
        let ghost rv = views(row@);
        let mut cells: Vec<String> = Vec::new();
        for j in 0..columns
            invariant
                rv == views(row@),
                row@.len() == columns,
                widths@.len() == columns,
                forall|k: int| 0 <= k < columns ==> (#[trigger] widths@[k]) == column_width(gv, k),
                cells@.len() == j,
                forall|k: int|
                    0 <= k < j ==> (#[trigger] cells@[k])@ == padded_right(
                        rv[k],
                        column_width(gv, k),
                    ),
        {
            let w: usize = widths[j];
            proof {
                assert(widths@[j as int] == column_width(gv, j as int));
            }
            cells.push(pad_right(row[j].as_str(), w));
        }
        proof {
            assert(views(cells@) =~= padded_cells(gv, rv));
            assert(gv[i as int] == rv);
        }
        own_line(&mut all, trim_end(join(&cells, "  ").as_str()));
        proof {
            assert(views(all@) =~= table_lines(gv).take(i + 1));
        }
    }
    proof {
        assert(table_lines(gv).take(gv.len() as int) =~= table_lines(gv));
    }
    render_lines(&all)
}

/// A column is as wide as its widest cell.
pub proof fn columns_fit_their_widest_cell(grid: Seq<Seq<Seq<char>>>, j: int)
    ensures
        forall|i: int| 0 <= i < grid.len() ==> (#[trigger] grid[i])[j].len() <= column_width(grid, j),
        column_width(grid, j) > 0 ==> exists|i: int|
            0 <= i < grid.len() && (#[trigger] grid[i])[j].len() == column_width(grid, j),
    decreases grid.len(),
{
    if grid.len() > 0 {
        let t = grid.drop_last();
        columns_fit_their_widest_cell(t, j);
        assert forall|i: int| 0 <= i < grid.len() implies (#[trigger] grid[i])[j].len()
            <= column_width(grid, j) by {
            if i < t.len() {
                assert(t[i] == grid[i]);
            }
        }
        if column_width(grid, j) > 0 {
            if grid.last()[j].len() > column_width(t, j) {
                assert(grid[grid.len() - 1][j].len() == column_width(grid, j));
            } else {
                let i = choose|i: int|
                    0 <= i < t.len() && (#[trigger] t[i])[j].len() == column_width(t, j);
                assert(grid[i] == t[i]);
            }
        }
    }
}

} // verus!
