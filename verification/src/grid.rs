//! The mathematical model of a grid and what holds of it.

use vstd::arithmetic::div_mod::lemma_fundamental_div_mod;
use vstd::arithmetic::div_mod::lemma_fundamental_div_mod_converse;
use vstd::prelude::*;

verus! {

/// Flat offset of the cell in column `x` of row `y` in a row-major buffer whose
/// rows hold `width` cells.
pub open spec fn offset(x: int, y: int, width: int) -> int {
    x + y * width
}

/// The column that cell `x` of a row comes from once the cell in column
/// `removed` has left that row: cells left of it stay, the others move up by one.
pub open spec fn skip_column(x: int, removed: int) -> int {
    if x < removed {
        x
    } else {
        x + 1
    }
}

/// The mathematical value of a grid: its dimensions and its cells in row-major order.
pub struct GridView<T> {
    pub width: nat,
    pub height: nat,
    pub cells: Seq<T>,
}

impl<T> GridView<T> {
    /// The buffer holds exactly one cell per coordinate, and the dimensions are
    /// such as a machine can hold.
    pub open spec fn wf(self) -> bool {
        &&& self.cells.len() == self.width * self.height
        &&& self.width <= usize::MAX
        &&& self.height <= usize::MAX
    }

    /// Whether the grid has a cell in column `x` of row `y`.
    pub open spec fn in_bounds(self, x: int, y: int) -> bool {
        0 <= x < self.width && 0 <= y < self.height
    }

    /// The cell in column `x` of row `y`.
    pub open spec fn at(self, x: int, y: int) -> T {
        self.cells[offset(x, y, self.width as int)]
    }

    /// The grid with one cell written.
    pub open spec fn with_cell(self, x: int, y: int, value: T) -> GridView<T> {
        GridView {
            width: self.width,
            height: self.height,
            cells: self.cells.update(offset(x, y, self.width as int), value),
        }
    }

    /// The grid with the roles of columns and rows exchanged.
    pub open spec fn transposed(self) -> GridView<T> {
        GridView {
            width: self.height,
            height: self.width,
            cells: Seq::new(
                self.cells.len(),
                |i: int| self.at(i / (self.height as int), i % (self.height as int)),
            ),
        }
    }

    /// One column per row, each inside the grid; the grid has a column to lose.
    pub open spec fn valid_seam(self, seam: Seq<usize>) -> bool {
        &&& seam.len() == self.height
        &&& self.width >= 1
        &&& forall|y: int| 0 <= y < seam.len() ==> (#[trigger] seam[y]) < self.width
    }

    /// The grid that is left when each row `y` loses its cell in column `seam[y]`.
    pub open spec fn without_seam(self, seam: Seq<usize>) -> GridView<T> {
        let w = self.width - 1;
        GridView {
            width: w as nat,
            height: self.height,
            cells: Seq::new(
                (w * self.height) as nat,
                |i: int| self.at(skip_column(i % w, seam[i / w] as int), i / w),
            ),
        }
    }

    /// The grid that is left when the seams leave it one after the other.
    pub open spec fn without_seams(self, seams: Seq<Seq<usize>>) -> GridView<T>
        decreases seams.len(),
    {
        if seams.len() == 0 {
            self
        } else {
            self.without_seams(seams.drop_last()).without_seam(seams.last())
        }
    }

    /// Each seam fits the grid that the seams before it have left.
    pub open spec fn valid_seams(self, seams: Seq<Seq<usize>>) -> bool
        decreases seams.len(),
    {
        seams.len() == 0 || (self.valid_seams(seams.drop_last()) && self.without_seams(
            seams.drop_last(),
        ).valid_seam(seams.last()))
    }
}

/// A cell inside a `width` by `height` grid lies inside its row-major buffer.
pub proof fn lemma_offset_in_range(x: int, y: int, width: int, height: int)
    requires
        0 <= x < width,
        0 <= y < height,
    ensures
        0 <= y * width <= offset(x, y, width) < width * height,
        offset(x, y, width) < height * width,
        offset(x, y, width) / width == y,
        offset(x, y, width) % width == x,
{
    assert(0 <= y * width && y * width + width <= width * height && width * height == height
        * width) by (nonlinear_arith)
        requires
            0 <= y < height,
            0 < width,
    ;
    lemma_fundamental_div_mod_converse(offset(x, y, width), width, y, x);
}

/// Every offset inside the buffer is the offset of exactly one cell of the grid.
pub proof fn lemma_offset_cell(i: int, width: int, height: int)
    requires
        0 <= i < width * height,
        0 <= width,
        0 <= height,
    ensures
        0 <= i % width < width,
        0 <= i / width < height,
        offset(i % width, i / width, width) == i,
{
    assert(width > 0) by (nonlinear_arith)
        requires
            0 <= i < width * height,
            0 <= width,
    ;
    lemma_fundamental_div_mod(i, width);
    assert(width * (i / width) == (i / width) * width) by (nonlinear_arith);
    assert(0 <= i / width < height) by (nonlinear_arith)
        requires
            0 <= i < width * height,
            0 < width,
            i == (i / width) * width + i % width,
            0 <= i % width < width,
    ;
}

impl<T> GridView<T> {
    /// Two grids of the same dimensions that agree cell by cell are the same grid.
    pub proof fn lemma_equal_by_cells(self, other: GridView<T>)
        requires
            self.wf(),
            other.wf(),
            self.width == other.width,
            self.height == other.height,
            forall|x: int, y: int| self.in_bounds(x, y) ==> self.at(x, y) == other.at(x, y),
        ensures
            self == other,
    {
        assert forall|i: int| 0 <= i < self.cells.len() implies self.cells[i] == other.cells[i] by {
            lemma_offset_cell(i, self.width as int, self.height as int);
            let x = i % (self.width as int);
            let y = i / (self.width as int);
            assert(self.at(x, y) == other.at(x, y));
        }
        assert(self.cells =~= other.cells);
    }

    /// Transposing keeps the cell count and puts cell `(y, x)` at `(x, y)`.
    pub proof fn lemma_transposed(self)
        requires
            self.wf(),
        ensures
            self.transposed().wf(),
            self.transposed().width == self.height,
            self.transposed().height == self.width,
            forall|x: int, y: int| #[trigger]
                self.transposed().in_bounds(x, y) ==> self.transposed().at(x, y) == self.at(y, x),
    {
        let t = self.transposed();
        assert(self.width * self.height == self.height * self.width) by (nonlinear_arith);
        assert forall|x: int, y: int| #[trigger] t.in_bounds(x, y) implies t.at(x, y) == self.at(
            y,
            x,
        ) by {
            lemma_offset_in_range(x, y, self.height as int, self.width as int);
        }
    }

    /// Removing a seam takes one column away and shifts the cells behind it.
    pub proof fn lemma_without_seam(self, seam: Seq<usize>)
        requires
            self.wf(),
            self.valid_seam(seam),
        ensures
            self.without_seam(seam).wf(),
            self.without_seam(seam).width == self.width - 1,
            self.without_seam(seam).height == self.height,
            forall|x: int, y: int| #[trigger]
                self.without_seam(seam).in_bounds(x, y) ==> self.without_seam(seam).at(x, y)
                    == self.at(skip_column(x, seam[y] as int), y),
    {
        let r = self.without_seam(seam);
        assert forall|x: int, y: int| #[trigger] r.in_bounds(x, y) implies r.at(x, y) == self.at(
            skip_column(x, seam[y] as int),
            y,
        ) by {
            lemma_offset_in_range(x, y, self.width - 1, self.height as int);
        }
    }

    /// Every seam that leaves takes one column away and keeps the rows: after
    /// one seam fewer than the grid has columns, one column is left.
    pub proof fn lemma_without_seams(self, seams: Seq<Seq<usize>>)
        requires
            self.wf(),
            self.valid_seams(seams),
        ensures
            self.without_seams(seams).wf(),
            self.without_seams(seams).width == self.width - seams.len(),
            self.without_seams(seams).height == self.height,
            seams.len() == self.width - 1 ==> self.without_seams(seams).width == 1,
        decreases seams.len(),
    {
        if seams.len() > 0 {
            self.lemma_without_seams(seams.drop_last());
            self.without_seams(seams.drop_last()).lemma_without_seam(seams.last());
        }
    }

    /// Writing one cell changes that cell and no other.
    pub proof fn lemma_with_cell(self, x: int, y: int, value: T)
        requires
            self.wf(),
            self.in_bounds(x, y),
        ensures
            self.with_cell(x, y, value).wf(),
            self.with_cell(x, y, value).at(x, y) == value,
            forall|i: int, j: int| #[trigger]
                self.in_bounds(i, j) && (i != x || j != y) ==> self.with_cell(x, y, value).at(i, j)
                    == self.at(i, j),
    {
        lemma_offset_in_range(x, y, self.width as int, self.height as int);
        assert forall|i: int, j: int| #[trigger]
            self.in_bounds(i, j) && (i != x || j != y) implies self.with_cell(x, y, value).at(
            i,
            j,
        ) == self.at(i, j) by {
            lemma_offset_in_range(i, j, self.width as int, self.height as int);
        }
    }

    /// Transposing twice gives the grid back.
    pub proof fn lemma_transpose_involution(self)
        requires
            self.wf(),
        ensures
            self.transposed().transposed() == self,
    {
        let t = self.transposed();
        self.lemma_transposed();
        t.lemma_transposed();
        let tt = t.transposed();
        assert forall|x: int, y: int| tt.in_bounds(x, y) implies tt.at(x, y) == self.at(x, y) by {
            assert(t.in_bounds(y, x));
        }
        tt.lemma_equal_by_cells(self);
    }
}

} // verus!
