use crate::chars::join;
use crate::chars::strings;
use crate::decimal::decimals;
use crate::decimal::element_text;
use crate::element::Element;
use crate::grid::lemma_offset_in_range;
use crate::grid::Grid;
use crate::matrix::Matrix;
use vstd::prelude::*;
use vstd::string::StringExecFns;

verus! {

/// The texts of the cells of row `i`, where `cells` holds the texts of all
/// cells in row-major order.
pub open spec fn row_cells(cells: Seq<Seq<char>>, cols: nat, i: int) -> Seq<Seq<char>> {
    cells.subrange(i * cols, i * cols + cols)
}

/// The text of each row: the texts of its cells with a comma between each
/// two neighbours.
pub open spec fn row_texts(cells: Seq<Seq<char>>, rows: nat, cols: nat) -> Seq<Seq<char>> {
    Seq::new(rows, |i: int| join(row_cells(cells, cols, i), ','))
}

/// The text of a matrix of `rows` rows and `cols` columns whose cells have
/// the texts `cells`, in row-major order: the rows with a semicolon between
/// each two neighbours, inside a pair of square brackets. A matrix without
/// cells has the text `[]`.
pub open spec fn render(cells: Seq<Seq<char>>, rows: nat, cols: nat) -> Seq<char> {
    let body = if cols == 0 {
        Seq::<char>::empty()
    } else {
        join(row_texts(cells, rows, cols), ';')
    };
    seq!['['] + body + seq![']']
}

/// The text of a grid of integers, each cell in its decimal form.
pub open spec fn grid_text(grid: Grid<int>) -> Seq<char> {
    render(decimals(grid.cells), grid.rows, grid.cols)
}

/// Joining one piece more appends it, after the separator unless it is the
/// first piece.
pub proof fn lemma_join_next(pieces: Seq<Seq<char>>, sep: char, n: int)
    requires
        0 <= n < pieces.len(),
    ensures
        join(pieces.take(n + 1), sep) == if n == 0 {
            pieces[0]
        } else {
            join(pieces.take(n), sep).push(sep) + pieces[n]
        },
{
    let longer = pieces.take(n + 1);
    assert(longer.last() == pieces[n]);
    if n > 0 {
        assert(longer.drop_last() =~= pieces.take(n));
    } else {
        assert(longer[0] == pieces[0]);
    }
}

/// Appends `c` to the end of `s`. This is `String::push` of the standard
/// library, which is documented to append the given character to the end
/// of the string and to do nothing else.
pub assume_specification[ String::push ](s: &mut String, c: char)
    ensures
        final(s)@ == old(s)@.push(c),
;

/// The string that holds the characters of `text`, in order.
pub fn string_of(text: &Vec<char>) -> (out: String)
    ensures
        out@ == text@,
{
    let mut out = String::new();
    let mut i: usize = 0;
    while i < text.len()
        invariant
            i <= text@.len(),
            out@ == text@.take(i as int),
        decreases text@.len() - i,
    {
        out.push(text[i]);
        i += 1;
        assert(out@ =~= text@.take(i as int));
    }
    assert(text@.take(text@.len() as int) =~= text@);
    out
}

impl<T> Matrix<T> {
    /// The text of this matrix, given the text of each of its cells in
    /// row-major order.
    pub fn format_cells(&self, cells: &Vec<String>) -> (out: String)
        requires
            cells@.len() == self@.cells.len(),
        ensures
            out@ == render(strings(cells@), self@.rows, self@.cols),
    {
        let (row, col) = self.shape();
        let ghost all = strings(cells@);
        let ghost rows = row_texts(all, row as nat, col as nat);
        let mut out = String::new();
        out.push('[');
        if col > 0 {
            let mut i: usize = 0;
            assert(rows.take(0) =~= Seq::<Seq<char>>::empty());
            assert(out@ =~= seq!['['] + join(rows.take(0), ';'));
            while i < row
                invariant
                    i <= row,
                    col > 0,
                    cells.len() == row * col,
                    all == strings(cells@),
                    rows == row_texts(all, row as nat, col as nat),
                    out@ == seq!['['] + join(rows.take(i as int), ';'),
                decreases row - i,
            {
                let ghost pieces = row_cells(all, col as nat, i as int);
                proof {
                    lemma_offset_in_range(row as int, col as int, i as int, 0);
                    assert((i + 1) * col == i * col + col) by (nonlinear_arith);
                }
                if i > 0 {
                    out.push(';');
                }
                let ghost stem = out@;
                let mut j: usize = 0;
                assert(pieces.take(0) =~= Seq::<Seq<char>>::empty());
                assert(out@ =~= stem + join(pieces.take(0), ','));
                while j < col
                    invariant
                        i < row,
                        j <= col,
                        cells.len() == row * col,
                        all == strings(cells@),
                        pieces == row_cells(all, col as nat, i as int),
                        pieces.len() == col,
                        out@ == stem + join(pieces.take(j as int), ','),
                    decreases col - j,
                {
                    proof {
                        lemma_offset_in_range(row as int, col as int, i as int, j as int);
                        lemma_join_next(pieces, ',', j as int);
                        assert((i + 1) * col == i * col + col) by (nonlinear_arith);
                        assert(pieces[j as int] == all[i * col + j]);
                        assert(all[i * col + j] == cells@[i * col + j]@);
                    }
                    if j > 0 {
                        out.push(',');
                    }
                    out.append(cells[i * col + j].as_str());
                    j += 1;
                    assert(out@ =~= stem + join(pieces.take(j as int), ','));
                }
                proof {
                    assert(pieces.take(col as int) =~= pieces);
                    lemma_join_next(rows, ';', i as int);
                    assert(rows[i as int] == join(pieces, ','));
                }
                i += 1;
                assert(out@ =~= seq!['['] + join(rows.take(i as int), ';'));
            }
            assert(rows.take(row as int) =~= rows);
        }
        let ghost body = out@;
        out.push(']');
        assert(out@ =~= body + seq![']']);
        out
    }
}

impl<T: Element> Matrix<T> {
    /// The text of this matrix: `[`, the rows separated by `;`, each row
    /// with its cells in decimal form separated by `,`, and `]`.
    pub fn to_string(&self) -> (out: String)
        ensures
            out@ == grid_text(self.values()),
    {
        let cells = self.as_slice();
        let ghost target = decimals(self.values().cells);
        let mut written: Vec<String> = Vec::new();
        let mut k: usize = 0;
        while k < cells.len()
            invariant
                k <= cells@.len(),
                cells@ == self@.cells,
                target == decimals(self.values().cells),
                written@.len() == k,
                forall|i: int| 0 <= i < k ==> #[trigger] written@[i]@ == target[i],
            decreases cells@.len() - k,
        {
            let text = element_text(cells[k]);
            written.push(string_of(&text));
            k += 1;
        }
        assert(strings(written@) =~= target);
        self.format_cells(&written)
    }
}

} // verus!
