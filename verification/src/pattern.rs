//! The finished pattern: a flat grid in row-major order, and a cursor over its rows.

use vstd::prelude::*;
use vstd::seq_lib::lemma_flatten_concat;
use vstd::slice::{slice_subrange, slice_to_vec};
use crate::error::ParseError;
use crate::state::{binary, DecoderState};

verus! {

/// A rectangle of cells, stored row after row, top row first.
#[verifier::ext_equal]
pub struct Grid {
    /// The number of cells in a row.
    pub width: nat,
    /// The number of rows.
    pub height: nat,
    /// All cells: the rows one after the other.
    pub cells: Seq<u8>,
}

impl Grid {
    /// The grid of no cells.
    pub open spec fn empty() -> Grid {
        Grid { width: 0, height: 0, cells: Seq::empty() }
    }

    /// There are exactly `width * height` cells, and each is 0 or 1.
    pub open spec fn wf(self) -> bool {
        &&& self.cells.len() == self.width * self.height
        &&& binary(self.cells)
    }

    /// The cells of row `i`, counted from the top.
    pub open spec fn row(self, i: int) -> Seq<u8> {
        self.cells.subrange(i * self.width, i * self.width + self.width)
    }
}

/// The views of a list of rows, in the same order.
pub open spec fn rows_view(rows: Seq<Vec<u8>>) -> Seq<Seq<u8>> {
    Seq::new(rows.len(), |i: int| rows[i]@)
}

/// Packing rows into a grid of the declared size: the cells are the rows laid end to
/// end, whatever the lengths of the single rows, and their number has to be exactly
/// `width * height`.
pub open spec fn assemble(width: nat, height: nat, rows: Seq<Seq<u8>>) -> Result<
    Grid,
    ParseError,
> {
    if rows.flatten().len() == width * height {
        Ok(Grid { width, height, cells: rows.flatten() })
    } else {
        Err(ParseError::DimensionMismatch)
    }
}

/// What a text decodes to: the rows that reading it from the initial state leaves,
/// packed into a grid of the dimensions that it declares.
pub open spec fn decode(text: Seq<char>) -> Result<Grid, ParseError> {
    match DecoderState::initial().decode_text(text) {
        Ok(state) => assemble(state.width, state.height, state.rows),
        Err(e) => Err(e),
    }
}

/// Laying rows end to end, a further row lands behind all the others.
pub proof fn lemma_flatten_push(rows: Seq<Seq<u8>>, row: Seq<u8>)
    ensures
        rows.push(row).flatten() == rows.flatten() + row,
{
    seq![row].lemma_flatten_one_element();
    lemma_flatten_concat(rows, seq![row]);
    assert(rows.push(row) =~= rows + seq![row]);
}

/// Rows of binary cells, laid end to end, are binary cells.
pub proof fn lemma_flatten_binary(rows: Seq<Seq<u8>>)
    requires
        forall|i: int| 0 <= i < rows.len() ==> binary(#[trigger] rows[i]),
    ensures
        binary(rows.flatten()),
    decreases rows.len(),
{
    if rows.len() > 0 {
        lemma_flatten_binary(rows.drop_first());
    }
}

/// Every row of a well-formed grid lies inside the cells, has the width of the grid
/// and holds zeros and ones only.
pub proof fn lemma_row_shape(grid: Grid, i: int)
    requires
        grid.wf(),
        0 <= i < grid.height,
    ensures
        0 <= i * grid.width,
        i * grid.width + grid.width <= grid.cells.len(),
        grid.row(i).len() == grid.width,
        binary(grid.row(i)),
{
    let w = grid.width as int;
    let h = grid.height as int;
    assert(0 <= i * w && i * w + w <= w * h) by (nonlinear_arith)
        requires
            0 <= i < h,
            0 <= w,
    ;
}

/// A decoded pattern. Its dimensions and cells cannot be changed once it exists.
#[derive(Debug)]
pub struct Pattern {
    grid: Vec<u8>,
    width: usize,
    height: usize,
}

impl View for Pattern {
    type V = Grid;

    closed spec fn view(&self) -> Grid {
        Grid { width: self.width as nat, height: self.height as nat, cells: self.grid@ }
    }
}

impl Pattern {
    #[verifier::type_invariant]
    closed spec fn inv(self) -> bool {
        self@.wf()
    }

    /// The pattern without cells, of width and height zero.
    pub fn new() -> (p: Pattern)
        ensures
            p@ == Grid::empty(),
    {
        Pattern { grid: Vec::new(), width: 0, height: 0 }
    }

    /// Packs `rows` into a pattern of the declared size, top row first.
    ///
    /// The cells are written one after the other and wrap to a new grid row whenever
    /// `width` cells were written, so only their total number matters: it has to be
    /// `width * height`, else the result is `DimensionMismatch`.
    pub fn from_rows(width: usize, height: usize, rows: &Vec<Vec<u8>>) -> (r: Result<
        Pattern,
        ParseError,
    >)
        requires
            forall|i: int| 0 <= i < rows@.len() ==> binary(#[trigger] rows@[i]@),
        ensures
            (match assemble(width as nat, height as nat, rows_view(rows@)) {
                Ok(grid) => r is Ok && r->Ok_0@ == grid && grid.wf(),
                Err(e) => r is Err && r->Err_0 == e,
            }),
    {
        let ghost all = rows_view(rows@);
        let mut grid: Vec<u8> = Vec::new();
        let mut i: usize = 0;
        while i < rows.len()
            invariant
                i <= rows.len(),
                all == rows_view(rows@),
                grid@ == all.take(i as int).flatten(),
            decreases rows.len() - i,
        {
            let row = &rows[i];
            let ghost done = grid@;
            let mut j: usize = 0;
            while j < row.len()
                invariant
                    j <= row.len(),
                    grid@ == done + row@.take(j as int),
                decreases row.len() - j,
            {
                grid.push(row[j]);
                j += 1;
            }
            proof {
                assert(all.take(i + 1) =~= all.take(i as int).push(row@));
                lemma_flatten_push(all.take(i as int), row@);
            }
            i += 1;
        }
        proof {
            assert(all.take(i as int) =~= all);
            lemma_flatten_binary(all);
        }
        let total = grid.len();
        match width.checked_mul(height) {
            Some(n) => {
                if n == total {
                    Ok(Pattern { grid, width, height })
                } else {
                    Err(ParseError::DimensionMismatch)
                }
            },
            None => Err(ParseError::DimensionMismatch),
        }
    }

    /// The number of cells in a row.
    pub fn width(&self) -> (w: usize)
        ensures
            w == self@.width,
    {
        self.width
    }

    /// The number of rows.
    pub fn height(&self) -> (h: usize)
        ensures
            h == self@.height,
    {
        self.height
    }

    /// A copy of all cells, row after row.
    pub fn get_grid(&self) -> (g: Vec<u8>)
        ensures
            g@ == self@.cells,
            self@.wf(),
    {
        proof {
            use_type_invariant(self);
        }
        slice_to_vec(self.grid.as_slice())
    }
}

impl Clone for Pattern {
    /// A second pattern with the same dimensions and cells.
    fn clone(&self) -> (copy: Pattern)
        ensures
            copy@ == self@,
    {
        proof {
            use_type_invariant(self);
        }
        Pattern {
            grid: slice_to_vec(self.grid.as_slice()),
            width: self.width,
            height: self.height,
        }
    }
}

/// Where a row cursor stands: the grid it walks, and the index of the row that the
/// next pull hands out.
#[verifier::ext_equal]
pub struct Cursor {
    /// The grid under the cursor.
    pub grid: Grid,
    /// The number of rows handed out so far.
    pub index: nat,
}

impl Cursor {
    /// The cursor before the first row of `grid`.
    pub open spec fn start(grid: Grid) -> Cursor {
        Cursor { grid, index: 0 }
    }

    /// All rows were handed out.
    pub open spec fn exhausted(self) -> bool {
        self.index >= self.grid.height
    }

    /// What the next pull hands out: the row under the cursor, or nothing at the end.
    pub open spec fn item(self) -> Option<Seq<u8>> {
        if self.exhausted() {
            None
        } else {
            Some(self.grid.row(self.index as int))
        }
    }

    /// The cursor after a pull: one row further, or unmoved at the end.
    pub open spec fn advance(self) -> Cursor {
        if self.exhausted() {
            self
        } else {
            Cursor { index: self.index + 1, ..self }
        }
    }
}

/// A single pass over the rows of a pattern, top row first.
#[derive(Debug)]
pub struct PatternIter {
    pattern: Pattern,
    row_index: usize,
}

impl View for PatternIter {
    type V = Cursor;

    closed spec fn view(&self) -> Cursor {
        Cursor { grid: self.pattern@, index: self.row_index as nat }
    }
}

impl PatternIter {
    #[verifier::type_invariant]
    closed spec fn inv(self) -> bool {
        &&& self.pattern@.wf()
        &&& self.row_index <= self.pattern.height
    }

    /// A cursor before the first row of `pattern`.
    pub fn new(pattern: Pattern) -> (it: PatternIter)
        ensures
            it@ == Cursor::start(pattern@),
    {
        proof {
            use_type_invariant(&pattern);
        }
        PatternIter { pattern, row_index: 0 }
    }

    /// Hands out a copy of the next row and moves on; nothing once every row was
    /// handed out, however often it is asked.
    pub fn next(&mut self) -> (r: Option<Vec<u8>>)
        ensures
            final(self)@ == old(self)@.advance(),
            (match old(self)@.item() {
                Some(row) => r is Some && r->Some_0@ == row && row.len() == old(self)@.grid.width
                    && binary(row),
                None => r is None,
            }),
    {
        proof {
            use_type_invariant(&*self);
        }
        if self.row_index < self.pattern.height {
            let width = self.pattern.width;
            let cells = self.pattern.grid.as_slice();
            proof {
                lemma_row_shape(self.pattern@, self.row_index as int);
                assert(cells@.len() == cells.len());
            }
            let i = self.row_index * width;
            let v = slice_to_vec(slice_subrange(cells, i, i + width));
            self.row_index += 1;
            Some(v)
        } else {
            None
        }
    }
}

} // verus!
