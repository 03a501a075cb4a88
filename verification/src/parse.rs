use crate::chars::chars_of;
use crate::chars::slice_of;
use crate::chars::split;
use crate::chars::split_at;
use crate::chars::strings;
use crate::chars::texts;
use crate::chars::trim;
use crate::chars::trimmed;
use crate::decimal::number;
use crate::decimal::parse_element;
use crate::element::Element;
use crate::format::string_of;
use crate::grid::Grid;
use crate::matrix::Matrix;
use vstd::prelude::*;

verus! {

/// Why a text is not the text of a matrix.
#[derive(Debug, Clone, Copy, PartialEq, Eq, Structural)]
pub enum ParseMatrixError {
    /// The text, without the white space around it, is shorter than two
    /// characters, does not start with `[` or does not end with `]`.
    WrongBracketFormat,
    /// A row has another number of cells than the first row.
    ColumnsNotAligned,
    /// A cell is not the text of a number of the element kind.
    ParseNumberError,
}

/// Whether `text` starts with `[`, ends with `]` and holds both.
pub open spec fn bracketed(text: Seq<char>) -> bool {
    text.len() >= 2 && text[0] == '[' && text.last() == ']'
}

/// The cells of a row: the pieces between its commas, each without the
/// white space around it.
pub open spec fn cell_tokens(row: Seq<char>) -> Seq<Seq<char>> {
    Seq::new(split(row, ',').len(), |j: int| trim(split(row, ',')[j]))
}

/// The cells of the text of a matrix, row by row, or `WrongBracketFormat`.
///
/// The white space around the text is dropped, then the brackets; what is
/// left is cut into rows at each `;` and each row into cells at each `,`.
pub open spec fn tokens(text: Seq<char>) -> Result<Seq<Seq<Seq<char>>>, ParseMatrixError> {
    let inner = trim(text);
    if bracketed(inner) {
        let rows = split(inner.subrange(1, inner.len() - 1), ';');
        Ok(Seq::new(rows.len(), |i: int| cell_tokens(rows[i])))
    } else {
        Err(ParseMatrixError::WrongBracketFormat)
    }
}

/// Whether some cell of the row could not be read.
pub open spec fn has_gap<T>(row: Seq<Option<T>>) -> bool {
    exists|j: int| 0 <= j < row.len() && #[trigger] row[j] is None
}

/// What the cells of a row without a gap hold.
pub open spec fn filled<T>(row: Seq<Option<T>>) -> Seq<T> {
    Seq::new(row.len(), |j: int| row[j]->Some_0)
}

/// The cells of the first `n` rows in row-major order, or the first
/// failure met on the way. The rows are taken in order, and of each row
/// first its length is held against that of the first row, then its cells
/// are looked at.
pub open spec fn gather<T>(rows: Seq<Seq<Option<T>>>, n: nat) -> Result<Seq<T>, ParseMatrixError>
    decreases n,
{
    if n == 0 {
        Ok(Seq::<T>::empty())
    } else {
        match gather(rows, (n - 1) as nat) {
            Err(e) => Err(e),
            Ok(cells) => {
                let row = rows[n - 1];
                if row.len() != rows[0].len() {
                    Err(ParseMatrixError::ColumnsNotAligned)
                } else if has_gap(row) {
                    Err(ParseMatrixError::ParseNumberError)
                } else {
                    Ok(cells + filled(row))
                }
            },
        }
    }
}

/// The grid that the rows of read cells make up, or the first failure met
/// in reading order. The grid has as many rows as there are, and as many
/// columns as the first row has cells.
pub open spec fn assemble<T>(rows: Seq<Seq<Option<T>>>) -> Result<Grid<T>, ParseMatrixError> {
    match gather(rows, rows.len()) {
        Ok(cells) => Ok(
            Grid {
                rows: rows.len(),
                cols: if rows.len() > 0 {
                    rows[0].len()
                } else {
                    0
                },
                cells,
            },
        ),
        Err(e) => Err(e),
    }
}

/// Each cell read as an integer between `lo` and `hi`.
pub open spec fn numbers(cells: Seq<Seq<Seq<char>>>, lo: int, hi: int) -> Seq<Seq<Option<int>>> {
    Seq::new(
        cells.len(),
        |i: int| Seq::new(cells[i].len(), |j: int| number(cells[i][j], lo, hi)),
    )
}

/// The grid of integers between `lo` and `hi` that `text` stands for, or
/// the first failure met in reading it from left to right.
pub open spec fn parse_grid(text: Seq<char>, lo: int, hi: int) -> Result<
    Grid<int>,
    ParseMatrixError,
> {
    match tokens(text) {
        Ok(cells) => assemble(numbers(cells, lo, hi)),
        Err(e) => Err(e),
    }
}

/// What the vectors of a vector of rows hold.
pub open spec fn nested(rows: Seq<Vec<Vec<char>>>) -> Seq<Seq<Seq<char>>> {
    Seq::new(rows.len(), |i: int| texts(rows[i]@))
}

/// What the strings of a vector of rows hold.
pub open spec fn nested_strings(rows: Seq<Vec<String>>) -> Seq<Seq<Seq<char>>> {
    Seq::new(rows.len(), |i: int| strings(rows[i]@))
}

/// What the rows of a vector of rows hold.
pub open spec fn options<T>(rows: Seq<Vec<Option<T>>>) -> Seq<Seq<Option<T>>> {
    Seq::new(rows.len(), |i: int| rows[i]@)
}

/// Whether `read` is the element whose value is `expected`, or both are
/// missing.
pub open spec fn reads<T: Element>(read: Option<T>, expected: Option<int>) -> bool {
    match read {
        Some(element) => expected == Some(element.value()),
        None => expected is None,
    }
}

/// The integers that the elements stand for.
pub open spec fn values_of<T: Element>(cells: Seq<T>) -> Seq<int> {
    Seq::new(cells.len(), |k: int| cells[k].value())
}

/// Once a failure is met, more rows do not change it.
pub proof fn lemma_gather_fails<T>(rows: Seq<Seq<Option<T>>>, m: nat, n: nat)
    requires
        m <= n,
        gather(rows, m) is Err,
    ensures
        gather(rows, n) == gather(rows, m),
    decreases n,
{
    if m < n {
        lemma_gather_fails(rows, m, (n - 1) as nat);
    }
}

/// Reading elements and reading their values fail alike, and where they
/// succeed the one gives the values of the other.
pub proof fn lemma_gather_values<T: Element>(
    read: Seq<Seq<Option<T>>>,
    expected: Seq<Seq<Option<int>>>,
    n: nat,
)
    requires
        n <= read.len() == expected.len(),
        forall|i: int| 0 <= i < read.len() ==> (#[trigger] read[i]).len() == expected[i].len(),
        forall|i: int, j: int|
            0 <= i < read.len() && 0 <= j < read[i].len() ==> reads(
                #[trigger] read[i][j],
                expected[i][j],
            ),
    ensures
        match gather(read, n) {
            Ok(cells) => gather(expected, n) == Ok::<Seq<int>, ParseMatrixError>(values_of(cells)),
            Err(e) => gather(expected, n) == Err::<Seq<int>, ParseMatrixError>(e),
        },
    decreases n,
{
    if n == 0 {
        assert(values_of(Seq::<T>::empty()) =~= Seq::<int>::empty());
    } else {
        lemma_gather_values(read, expected, (n - 1) as nat);
        let row = read[n - 1];
        let wanted = expected[n - 1];
        assert(row.len() == wanted.len());
        assert(read[0].len() == expected[0].len());
        if gather(read, (n - 1) as nat) is Ok && row.len() == read[0].len() {
            if has_gap(row) {
                let j = choose|j: int| 0 <= j < row.len() && #[trigger] row[j] is None;
                assert(reads(read[n - 1][j], expected[n - 1][j]));
                assert(wanted[j] is None);
            } else {
                assert forall|j: int| 0 <= j < wanted.len() implies !(#[trigger] wanted[j] is None) by {
                    assert(reads(read[n - 1][j], expected[n - 1][j]));
                    assert(!(row[j] is None));
                }
                let cells = gather(read, (n - 1) as nat)->Ok_0;
                assert forall|j: int| 0 <= j < row.len() implies #[trigger] filled(wanted)[j]
                    == filled(row)[j].value() by {
                    assert(reads(read[n - 1][j], expected[n - 1][j]));
                    assert(!(row[j] is None));
                }
                assert(values_of(cells + filled(row)) =~= values_of(cells) + filled(wanted));
            }
        }
    }
}

/// Cuts the text of a matrix into the texts of its cells, row by row.
pub fn tokenize_chars(text: &Vec<char>) -> (out: Result<Vec<Vec<Vec<char>>>, ParseMatrixError>)
    ensures
        match out {
            Ok(rows) => tokens(text@) == Ok::<Seq<Seq<Seq<char>>>, ParseMatrixError>(
                nested(rows@),
            ),
            Err(e) => tokens(text@) == Err::<Seq<Seq<Seq<char>>>, ParseMatrixError>(e),
        },
{
    let inner = trimmed(text);
    let n: usize = inner.len();
    if n < 2 || inner[0] != '[' || inner[n - 1] != ']' {
        return Err(ParseMatrixError::WrongBracketFormat);
    }
    let content = slice_of(&inner, 1, n - 1);
    let rows = split_at(&content, ';');
    let ghost pieces = split(content@, ';');
    let mut out: Vec<Vec<Vec<char>>> = Vec::new();
    let mut i: usize = 0;
    while i < rows.len()
        invariant
            i <= rows@.len(),
            texts(rows@) == pieces,
            out@.len() == i,
            forall|p: int| 0 <= p < i ==> texts(#[trigger] out@[p]@) == cell_tokens(pieces[p]),
        decreases rows@.len() - i,
    {
        let cells = split_at(&rows[i], ',');
        assert(rows@[i as int]@ == pieces[i as int]);
        let ghost parts = split(pieces[i as int], ',');
        let mut row: Vec<Vec<char>> = Vec::new();
        let mut j: usize = 0;
        while j < cells.len()
            invariant
                j <= cells@.len(),
                texts(cells@) == parts,
                row@.len() == j,
                forall|q: int| 0 <= q < j ==> (#[trigger] row@[q])@ == trim(parts[q]),
            decreases cells@.len() - j,
        {
            assert(cells@[j as int]@ == parts[j as int]);
            row.push(trimmed(&cells[j]));
            j += 1;
        }
        assert(texts(row@) =~= cell_tokens(pieces[i as int]));
        out.push(row);
        i += 1;
    }
    assert(nested(out@) =~= Seq::new(pieces.len(), |i: int| cell_tokens(pieces[i])));
    Ok(out)
}

/// Cuts the text of a matrix into the texts of its cells, row by row,
/// without reading the cells. The text must stand in brackets, else the
/// result is `WrongBracketFormat`; rows of unequal length are not refused
/// here.
pub fn tokenize(s: &str) -> (out: Result<Vec<Vec<String>>, ParseMatrixError>)
    ensures
        match out {
            Ok(rows) => tokens(s@) == Ok::<Seq<Seq<Seq<char>>>, ParseMatrixError>(
                nested_strings(rows@),
            ),
            Err(e) => tokens(s@) == Err::<Seq<Seq<Seq<char>>>, ParseMatrixError>(e),
        },
{
    let text = chars_of(s);
    match tokenize_chars(&text) {
        Err(e) => Err(e),
        Ok(rows) => {
            let mut out: Vec<Vec<String>> = Vec::new();
            let mut i: usize = 0;
            while i < rows.len()
                invariant
                    i <= rows@.len(),
                    out@.len() == i,
                    forall|p: int|
                        0 <= p < i ==> strings(#[trigger] out@[p]@) == texts(rows@[p]@),
                decreases rows@.len() - i,
            {
                let mut row: Vec<String> = Vec::new();
                let mut j: usize = 0;
                while j < rows[i].len()
                    invariant
                        i < rows@.len(),
                        j <= rows@[i as int]@.len(),
                        row@.len() == j,
                        forall|q: int|
                            0 <= q < j ==> (#[trigger] row@[q])@ == rows@[i as int]@[q]@,
                    decreases rows@[i as int]@.len() - j,
                {
                    row.push(string_of(&rows[i][j]));
                    j += 1;
                }
                assert(strings(row@) =~= texts(rows@[i as int]@));
                out.push(row);
                i += 1;
            }
            assert(nested_strings(out@) =~= nested(rows@));
            Ok(out)
        },
    }
}

impl<T: Copy> Matrix<T> {
    /// Builds a matrix from rows of cells that were read one by one, where
    /// `None` stands for a cell that could not be read.
    ///
    /// The rows are taken in order. A row of another length than the first
    /// gives `ColumnsNotAligned`, a cell that could not be read gives
    /// `ParseNumberError`, and the first of these in reading order decides.
    pub fn from_rows(rows: &Vec<Vec<Option<T>>>) -> (out: Result<Matrix<T>, ParseMatrixError>)
        ensures
            match out {
                Ok(matrix) => assemble(options(rows@)) == Ok::<Grid<T>, ParseMatrixError>(
                    matrix@,
                ),
                Err(e) => assemble(options(rows@)) == Err::<Grid<T>, ParseMatrixError>(e),
            },
    {
        let count: usize = rows.len();
        let cols: usize = if count > 0 {
            rows[0].len()
        } else {
            0
        };
        let ghost all = options(rows@);
        let mut data: Vec<T> = Vec::new();
        let mut i: usize = 0;
        assert(0 * cols == 0) by (nonlinear_arith);
        while i < count
            invariant
                i <= count,
                count == rows@.len(),
                all == options(rows@),
                count > 0 ==> cols == all[0].len(),
                gather(all, i as nat) == Ok::<Seq<T>, ParseMatrixError>(data@),
                data@.len() == i * cols,
            decreases count - i,
        {
            let row = &rows[i];
            assert(row@ == all[i as int]);
            if row.len() != cols {
                proof {
                    assert(gather(all, (i + 1) as nat) == Err::<Seq<T>, ParseMatrixError>(
                        ParseMatrixError::ColumnsNotAligned,
                    ));
                    lemma_gather_fails(all, (i + 1) as nat, count as nat);
                }
                return Err(ParseMatrixError::ColumnsNotAligned);
            }
            let ghost before = data@;
            let mut j: usize = 0;
            assert(data@ =~= before + filled(row@).take(0));
            while j < cols
                invariant
                    i < count,
                    j <= cols,
                    count == rows@.len(),
                    all == options(rows@),
                    cols == all[0].len(),
                    row@ == all[i as int],
                    row@.len() == cols,
                    gather(all, i as nat) == Ok::<Seq<T>, ParseMatrixError>(before),
                    forall|q: int| 0 <= q < j ==> !(#[trigger] row@[q] is None),
                    data@ == before + filled(row@).take(j as int),
                decreases cols - j,
            {
                match row[j] {
                    Some(cell) => {
                        data.push(cell);
                        assert(data@ =~= before + filled(row@).take(j + 1));
                    },
                    None => {
                        proof {
                            assert(row@[j as int] is None);
                            assert(has_gap(row@));
                            assert(gather(all, (i + 1) as nat) == Err::<Seq<T>, ParseMatrixError>(
                                ParseMatrixError::ParseNumberError,
                            ));
                            lemma_gather_fails(all, (i + 1) as nat, count as nat);
                        }
                        return Err(ParseMatrixError::ParseNumberError);
                    },
                }
                j += 1;
            }
            proof {
                assert(filled(row@).take(cols as int) =~= filled(row@));
                assert(!has_gap(row@));
                assert(gather(all, (i + 1) as nat) == Ok::<Seq<T>, ParseMatrixError>(data@));
                assert((i + 1) * cols == i * cols + cols) by (nonlinear_arith);
            }
            i += 1;
        }
        Ok(Matrix::from_vec(count, cols, data))
    }
}

impl<T: Element> Matrix<T> {
    /// Reads the text of a matrix.
    ///
    /// White space around the text and around each cell is ignored. The
    /// result is the matrix that the text stands for, or the first failure
    /// met in reading the text from left to right.
    pub fn parse(s: &str) -> (out: Result<Matrix<T>, ParseMatrixError>)
        ensures
            match out {
                Ok(matrix) => parse_grid(s@, T::min_value(), T::max_value()) == Ok::<
                    Grid<int>,
                    ParseMatrixError,
                >(matrix.values()),
                Err(e) => parse_grid(s@, T::min_value(), T::max_value()) == Err::<
                    Grid<int>,
                    ParseMatrixError,
                >(e),
            },
    {
        let text = chars_of(s);
        match tokenize_chars(&text) {
            Err(e) => Err(e),
            Ok(cells) => {
                let ghost wanted = numbers(nested(cells@), T::min_value(), T::max_value());
                let mut rows: Vec<Vec<Option<T>>> = Vec::new();
                let mut i: usize = 0;
                while i < cells.len()
                    invariant
                        i <= cells@.len(),
                        wanted == numbers(nested(cells@), T::min_value(), T::max_value()),
                        rows@.len() == i,
                        forall|p: int|
                            0 <= p < i ==> (#[trigger] rows@[p])@.len() == wanted[p].len(),
                        forall|p: int, q: int|
                            0 <= p < i && 0 <= q < rows@[p]@.len() ==> reads(
                                #[trigger] rows@[p]@[q],
                                wanted[p][q],
                            ),
                    decreases cells@.len() - i,
                {
                    let mut row: Vec<Option<T>> = Vec::new();
                    let mut j: usize = 0;
                    while j < cells[i].len()
                        invariant
                            i < cells@.len(),
                            j <= cells@[i as int]@.len(),
                            wanted == numbers(nested(cells@), T::min_value(), T::max_value()),
                            row@.len() == j,
                            forall|q: int|
                                0 <= q < j ==> reads(#[trigger] row@[q], wanted[i as int][q]),
                        decreases cells@[i as int]@.len() - j,
                    {
                        let cell: Option<T> = parse_element(&cells[i][j]);
                        assert(wanted[i as int][j as int] == number(
                            cells@[i as int]@[j as int]@,
                            T::min_value(),
                            T::max_value(),
                        ));
                        row.push(cell);
                        j += 1;
                    }
                    rows.push(row);
                    i += 1;
                }
                let out = Matrix::from_rows(&rows);
                proof {
                    let read = options(rows@);
                    assert forall|p: int, q: int|
                        0 <= p < read.len() && 0 <= q < read[p].len() implies reads(
                        #[trigger] read[p][q],
                        wanted[p][q],
                    ) by {
                        assert(reads(rows@[p]@[q], wanted[p][q]));
                    }
                    lemma_gather_values(read, wanted, read.len());
                    if out is Ok {
                        let matrix = out->Ok_0;
                        assert(matrix.values().cells =~= values_of(matrix@.cells));
                    }
                }
                out
            },
        }
    }
}

impl<T: Element> std::str::FromStr for Matrix<T> {
    type Err = ParseMatrixError;

    /// Reads the text of a matrix, as `Matrix::parse` does.
    fn from_str(s: &str) -> (out: Result<Matrix<T>, ParseMatrixError>)
        ensures
            match out {
                Ok(matrix) => parse_grid(s@, T::min_value(), T::max_value()) == Ok::<
                    Grid<int>,
                    ParseMatrixError,
                >(matrix.values()),
                Err(e) => parse_grid(s@, T::min_value(), T::max_value()) == Err::<
                    Grid<int>,
                    ParseMatrixError,
                >(e),
            },
    {
        Matrix::parse(s)
    }
}

} // verus!
