use crate::chars::free_of;
use crate::chars::is_space;
use crate::chars::join;
use crate::chars::lemma_join_free_of;
use crate::chars::lemma_split_join;
use crate::chars::lemma_trim_fixed;
use crate::chars::split;
use crate::chars::trim;
use crate::decimal::decimal;
use crate::decimal::decimals;
use crate::decimal::is_digit;
use crate::decimal::lemma_decimal_shape;
use crate::decimal::lemma_number_of_decimal;
use crate::element::Element;
use crate::format::grid_text;
use crate::format::row_cells;
use crate::format::row_texts;
use crate::grid::lemma_offset_in_range;
use crate::grid::Grid;
use crate::matrix::Matrix;
use crate::parse::cell_tokens;
use crate::parse::filled;
use crate::parse::gather;
use crate::parse::has_gap;
use crate::parse::numbers;
use crate::parse::parse_grid;
use crate::parse::tokens;
use crate::parse::ParseMatrixError;
use vstd::prelude::*;

verus! {

/// A decimal form holds no separator and no white space.
proof fn lemma_decimal_clean(v: int)
    ensures
        free_of(decimal(v), ','),
        free_of(decimal(v), ';'),
        trim(decimal(v)) == decimal(v),
{
    lemma_decimal_shape(v);
    let text = decimal(v);
    assert forall|i: int| 0 <= i < text.len() implies #[trigger] text[i] != ',' && text[i]
        != ';' && !is_space(text[i]) by {
        assert(is_digit(text[i]) || text[i] == '-');
    }
    assert(!is_space(text[0]));
    assert(!is_space(text.last()));
    lemma_trim_fixed(text);
}

/// The text of a row holds no semicolon, and its cells are the decimal
/// forms that it was joined from.
proof fn lemma_row_tokens(grid: Grid<int>, i: int)
    requires
        grid.wf(),
        grid.cols >= 1,
        0 <= i < grid.rows,
    ensures
        row_cells(decimals(grid.cells), grid.cols, i).len() == grid.cols,
        free_of(join(row_cells(decimals(grid.cells), grid.cols, i), ','), ';'),
        cell_tokens(join(row_cells(decimals(grid.cells), grid.cols, i), ',')) == row_cells(
            decimals(grid.cells),
            grid.cols,
            i,
        ),
        forall|j: int|
            0 <= j < grid.cols ==> #[trigger] row_cells(decimals(grid.cells), grid.cols, i)[j]
                == decimal(grid.at(i, j)),
{
    let pieces = row_cells(decimals(grid.cells), grid.cols, i);
    lemma_offset_in_range(grid.rows as int, grid.cols as int, i, 0);
    assert((i + 1) * grid.cols == i * grid.cols + grid.cols) by (nonlinear_arith);
    assert forall|j: int| 0 <= j < grid.cols implies #[trigger] pieces[j] == decimal(
        grid.at(i, j),
    ) by {
        lemma_offset_in_range(grid.rows as int, grid.cols as int, i, j);
    }
    assert forall|j: int| 0 <= j < pieces.len() implies free_of(#[trigger] pieces[j], ';')
        && free_of(pieces[j], ',') && trim(pieces[j]) == pieces[j] by {
        assert(pieces[j] == decimal(grid.at(i, j)));
        lemma_decimal_clean(grid.at(i, j));
    }
    lemma_join_free_of(pieces, ',', ';');
    lemma_split_join(pieces, ',');
    assert(cell_tokens(join(pieces, ',')) =~= pieces);
}

/// Rows that hold the cells of a grid gather to its cells.
proof fn lemma_gather_grid(read: Seq<Seq<Option<int>>>, grid: Grid<int>, n: nat)
    requires
        grid.wf(),
        grid.cols >= 1,
        n <= grid.rows,
        read.len() == grid.rows,
        forall|i: int| 0 <= i < grid.rows ==> (#[trigger] read[i]).len() == grid.cols,
        forall|i: int, j: int|
            0 <= i < grid.rows && 0 <= j < grid.cols ==> #[trigger] read[i][j] == Some(
                grid.at(i, j),
            ),
    ensures
        gather(read, n) == Ok::<Seq<int>, ParseMatrixError>(grid.cells.take((n * grid.cols) as int)),
    decreases n,
{
    if n == 0 {
        assert(0 * grid.cols == 0) by (nonlinear_arith);
        assert(grid.cells.take(0) =~= Seq::<int>::empty());
    } else {
        lemma_gather_grid(read, grid, (n - 1) as nat);
        let row = read[n - 1];
        let start = (n - 1) * grid.cols;
        lemma_offset_in_range(grid.rows as int, grid.cols as int, n - 1, 0);
        assert(n * grid.cols == start + grid.cols) by (nonlinear_arith)
            requires
                start == (n - 1) * grid.cols,
        ;
        assert(read[0].len() == grid.cols);
        assert(!has_gap(row)) by {
            assert forall|j: int| 0 <= j < row.len() implies !(#[trigger] row[j] is None) by {
                assert(read[n - 1][j] == Some(grid.at(n - 1, j)));
            }
        }
        assert forall|j: int| 0 <= j < grid.cols implies #[trigger] filled(row)[j]
            == grid.cells[start + j] by {
            assert(read[n - 1][j] == Some(grid.at(n - 1, j)));
        }
        assert(grid.cells.take(start) + filled(row) =~= grid.cells.take((n * grid.cols) as int));
    }
}

/// Reading the text of a grid gives the grid back.
///
/// This holds of every grid that has a cell, with its cells between `lo`
/// and `hi`. A grid without cells has the text `[]`, which reads as one row
/// of one cell without a number in it.
pub proof fn lemma_round_trip(grid: Grid<int>, lo: int, hi: int)
    requires
        grid.wf(),
        grid.rows >= 1,
        grid.cols >= 1,
        grid.within(lo, hi),
    ensures
        parse_grid(grid_text(grid), lo, hi) == Ok::<Grid<int>, ParseMatrixError>(grid),
{
    let cells = decimals(grid.cells);
    let rows = row_texts(cells, grid.rows, grid.cols);
    let body = join(rows, ';');
    let text = grid_text(grid);
    assert(text =~= seq!['['] + body + seq![']']);
    assert(text[0] == '[');
    assert(text.last() == ']');
    lemma_trim_fixed(text);
    assert(text.subrange(1, text.len() - 1) =~= body);
    assert forall|i: int| 0 <= i < rows.len() implies free_of(#[trigger] rows[i], ';') by {
        lemma_row_tokens(grid, i);
    }
    lemma_split_join(rows, ';');
    assert(split(body, ';') == rows);
    let found = tokens(text)->Ok_0;
    assert(found.len() == grid.rows);
    assert forall|i: int| 0 <= i < grid.rows implies #[trigger] found[i] == row_cells(
        cells,
        grid.cols,
        i,
    ) by {
        lemma_row_tokens(grid, i);
    }
    let read = numbers(found, lo, hi);
    assert forall|i: int| 0 <= i < grid.rows implies (#[trigger] read[i]).len()
        == grid.cols by {
        lemma_row_tokens(grid, i);
    }
    assert forall|i: int, j: int| 0 <= i < grid.rows && 0 <= j < grid.cols implies #[trigger] read[i][j]
        == Some(grid.at(i, j)) by {
        lemma_row_tokens(grid, i);
        lemma_offset_in_range(grid.rows as int, grid.cols as int, i, j);
        assert(found[i][j] == decimal(grid.at(i, j)));
        assert(lo <= grid.cells[i * grid.cols + j] <= hi);
        lemma_number_of_decimal(grid.at(i, j), lo, hi);
    }
    lemma_gather_grid(read, grid, grid.rows);
    assert(grid.cells.take((grid.rows * grid.cols) as int) =~= grid.cells);
    assert(read[0].len() == grid.cols);
}

/// Reading the text of a matrix gives the matrix back: the text that
/// `to_string` writes for a matrix with at least one cell is read by
/// `parse` as a matrix with the same values.
pub proof fn lemma_parse_of_text<T: Element>(matrix: Matrix<T>)
    requires
        matrix@.wf(),
        matrix@.rows >= 1,
        matrix@.cols >= 1,
    ensures
        parse_grid(grid_text(matrix.values()), T::min_value(), T::max_value()) == Ok::<
            Grid<int>,
            ParseMatrixError,
        >(matrix.values()),
{
    let grid = matrix.values();
    assert forall|k: int| 0 <= k < grid.cells.len() implies T::min_value()
        <= #[trigger] grid.cells[k] <= T::max_value() by {
        matrix@.cells[k].lemma_value_in_range();
    }
    lemma_round_trip(grid, T::min_value(), T::max_value());
}

} // verus!
