//! A dense two-dimensional grid over a flat row-major buffer.

use crate::error::CarveError;
use crate::grid::GridView;
use crate::grid::lemma_offset_in_range;
use crate::grid::offset;
use crate::grid::skip_column;
use crate::pixel::Pixel;
use crate::raster::Raster;
use crate::raster::fits_raster;
use core::ops::IndexMut;
use vstd::arithmetic::div_mod::lemma_fundamental_div_mod;
use vstd::prelude::*;
use vstd::string::*;

verus! {

/// A dense two-dimensional grid over a flat row-major buffer.
#[derive(Debug, PartialEq, Eq)]
pub struct Array2d<T> {
    width: usize,
    height: usize,
    data: Vec<T>,
}

impl<T> View for Array2d<T> {
    type V = GridView<T>;

    closed spec fn view(&self) -> GridView<T> {
        GridView { width: self.width as nat, height: self.height as nat, cells: self.data@ }
    }
}

/// `Vec::as_mut_slice`: the slice holds the vector's items in order, what is
/// written through it is what the vector holds afterwards, and the vector keeps
/// its length. The call cannot panic.
#[verifier::external_body]
fn vec_as_mut_slice<T>(v: &mut Vec<T>) -> (s: &mut [T])
    ensures
        s@ == old(v)@,
        final(s)@ == final(v)@,
        final(v)@.len() == old(v)@.len(),
    no_unwind
{
    v.as_mut_slice()
}

impl<T> Array2d<T> {
    /// Every grid of this type holds one cell per coordinate.
    #[verifier::type_invariant]
    pub open spec fn well_formed(&self) -> bool {
        self@.wf()
    }

    /// Cuts `data` into rows of `width` cells.
    pub fn new(width: usize, data: Vec<T>) -> (r: Result<Self, CarveError>)
        ensures
            r is Ok <==> width > 0 && data@.len() % (width as nat) == 0,
            r matches Ok(grid) ==> grid@ == (GridView {
                width: width as nat,
                height: data@.len() / (width as nat),
                cells: data@,
            }) && grid@.wf(),
            r matches Err(e) ==> e == (CarveError::Construction { len: data.len(), width }),
    {
        if width == 0 || data.len() % width != 0 {
            Err(CarveError::Construction { len: data.len(), width })
        } else {
            let height = data.len() / width;
            proof {
                lemma_fundamental_div_mod(data.len() as int, width as int);
            }
            Ok(Array2d { width, height, data })
        }
    }

    /// The number of columns.
    pub fn width(&self) -> (w: usize)
        ensures
            w == self@.width,
    {
        self.width
    }

    /// The number of rows.
    pub fn height(&self) -> (h: usize)
        ensures
            h == self@.height,
    {
        self.height
    }

    /// The number of cells.
    pub fn size(&self) -> (n: usize)
        ensures
            n == self@.width * self@.height,
            n == self@.cells.len(),
    {
        proof {
            use_type_invariant(self);
        }
        self.data.len()
    }

    /// Width and height, in this order.
    pub fn dimensions(&self) -> (d: (usize, usize))
        ensures
            d.0 == self@.width,
            d.1 == self@.height,
    {
        (self.width, self.height)
    }

    /// The cells in row-major order.
    pub fn raw_data(&self) -> (r: &[T])
        ensures
            r@ == self@.cells,
    {
        self.data.as_slice()
    }

    /// The cells in row-major order, for writing. The dimensions stay.
    pub fn raw_data_mut(&mut self) -> (r: &mut [T])
        ensures
            r@ == old(self)@.cells,
            final(self)@.width == old(self)@.width,
            final(self)@.height == old(self)@.height,
            final(self)@.cells == final(r)@,
    {
        proof {
            use_type_invariant(&*self);
        }
        vec_as_mut_slice(&mut self.data)
    }
}

impl<T: Copy> Array2d<T> {
    /// Exchanges the roles of columns and rows: the cell that was at `(x, y)` is
    /// at `(y, x)` afterwards.
    pub fn transpose(&mut self)
        ensures
            final(self)@ == old(self)@.transposed(),
    {
        proof {
            use_type_invariant(&*self);
            self@.lemma_transposed();
        }
        let width = self.width;
        let height = self.height;
        let ghost before = self@;
        let mut new_data: Vec<T> = Vec::with_capacity(self.data.len());
        let mut x: usize = 0;
        while x < width
            invariant
                x <= width,
                before.wf(),
                before == self@,
                width == before.width,
                height == before.height,
                new_data@.len() == x * height,
                forall|i: int, j: int|
                    0 <= i < height && 0 <= j < x ==> new_data@[#[trigger] offset(
                        i,
                        j,
                        height as int,
                    )] == before.at(j, i),
            decreases width - x,
        {
            let mut y: usize = 0;
            while y < height
                invariant
                    x < width,
                    y <= height,
                    before.wf(),
                    before == self@,
                    width == before.width,
                    height == before.height,
                    new_data@.len() == x * height + y,
                    forall|i: int, j: int|
                        0 <= i < height && 0 <= j < x ==> new_data@[#[trigger] offset(
                            i,
                            j,
                            height as int,
                        )] == before.at(j, i),
                    forall|i: int|
                        0 <= i < y ==> new_data@[#[trigger] offset(i, x as int, height as int)]
                            == before.at(x as int, i),
                decreases height - y,
            {
                let ghost prev = new_data@;
                proof {
                    assert forall|i: int, j: int| 0 <= i < height && 0 <= j < x implies offset(
                        i,
                        j,
                        height as int,
                    ) < prev.len() by {
                        lemma_offset_in_range(i, j, height as int, x as int);
                    }
                }
                new_data.push(self[(x, y)]);
                y += 1;
            }
            proof {
                assert((x + 1) * height == x * height + height) by (nonlinear_arith);
            }
            x += 1;
        }
        let ghost after = GridView { width: height as nat, height: width as nat, cells: new_data@ };
        proof {
            assert forall|i: int, j: int| after.in_bounds(i, j) implies after.at(i, j)
                == before.transposed().at(i, j) by {
                assert(before.transposed().in_bounds(i, j));
            }
            after.lemma_equal_by_cells(before.transposed());
        }
        *self = Array2d { width: height, height: width, data: new_data };
    }

    /// Takes the cell in column `seam[y]` out of each row `y`; the cells behind
    /// it move up by one. A seam whose length is not the height is refused and
    /// the grid stays as it was.
    pub fn remove_seam(&mut self, seam: &[usize]) -> (r: Result<(), CarveError>)
        requires
            seam@.len() == old(self)@.height ==> old(self)@.valid_seam(seam@),
        ensures
            r is Ok <==> seam@.len() == old(self)@.height,
            r is Ok ==> final(self)@ == old(self)@.without_seam(seam@),
            r is Ok ==> final(self)@.width == old(self)@.width - 1 && final(self)@.height == old(
                self,
            )@.height,
            r matches Err(e) ==> final(self)@ == old(self)@ && e == (CarveError::SeamLength {
                seam_len: seam.len(),
                height: old(self)@.height as usize,
            }),
    {
        proof {
            use_type_invariant(&*self);
        }
        let width = self.width;
        let height = self.height;
        if seam.len() != height {
            return Err(CarveError::SeamLength { seam_len: seam.len(), height });
        }
        let ghost before = self@;
        proof {
            before.lemma_without_seam(seam@);
        }
        let new_width = width - 1;
        let mut new_data: Vec<T> = Vec::with_capacity(self.data.len());
        let mut y: usize = 0;
        while y < height
            invariant
                y <= height,
                before.wf(),
                before == self@,
                before.valid_seam(seam@),
                width == before.width,
                height == before.height,
                new_width == width - 1,
                new_data@.len() == y * new_width,
                forall|i: int, j: int|
                    0 <= i < new_width && 0 <= j < y ==> new_data@[#[trigger] offset(
                        i,
                        j,
                        new_width as int,
                    )] == before.at(skip_column(i, seam@[j] as int), j),
            decreases height - y,
        {
            let removed = seam[y];
            let mut x: usize = 0;
            while x < width
                invariant
                    y < height,
                    x <= width,
                    before.wf(),
                    before == self@,
                    width == before.width,
                    height == before.height,
                    new_width == width - 1,
                    removed == seam@[y as int],
                    removed < width,
                    new_data@.len() == y * new_width + (if x <= removed {
                        x as int
                    } else {
                        x - 1
                    }),
                    forall|i: int, j: int|
                        0 <= i < new_width && 0 <= j < y ==> new_data@[#[trigger] offset(
                            i,
                            j,
                            new_width as int,
                        )] == before.at(skip_column(i, seam@[j] as int), j),
                    forall|i: int|
                        0 <= i && skip_column(i, removed as int) < x
                            ==> new_data@[#[trigger] offset(i, y as int, new_width as int)]
                            == before.at(skip_column(i, removed as int), y as int),
                decreases width - x,
            {
                if x != removed {
                    let ghost prev = new_data@;
                    proof {
                        assert forall|i: int, j: int|
                            0 <= i < new_width && 0 <= j < y implies offset(i, j, new_width as int)
                            < prev.len() by {
                            lemma_offset_in_range(i, j, new_width as int, y as int);
                        }
                    }
                    new_data.push(self[(x, y)]);
                }
                x += 1;
            }
            proof {
                assert((y + 1) * new_width == y * new_width + new_width) by (nonlinear_arith);
            }
            y += 1;
        }
        let ghost after = GridView {
            width: new_width as nat,
            height: height as nat,
            cells: new_data@,
        };
        proof {
            assert(height * new_width == new_width * height) by (nonlinear_arith);
            assert forall|i: int, j: int| after.in_bounds(i, j) implies after.at(i, j)
                == before.without_seam(seam@).at(i, j) by {
                assert(before.without_seam(seam@).in_bounds(i, j));
            }
            after.lemma_equal_by_cells(before.without_seam(seam@));
        }
        *self = Array2d { width: new_width, height, data: new_data };
        Ok(())
    }
}

/// The text of a grid whose rows are written as `rows`: a heading, each row on
/// a line of its own, and a closing brace on the last line.
pub open spec fn framed_rows(rows: Seq<Seq<char>>) -> Seq<char>
    decreases rows.len(),
{
    if rows.len() == 0 {
        "Array2d {\n"@
    } else {
        framed_rows(rows.drop_last()) + rows.last() + "\n"@
    }
}

/// The text that shows a grid whose rows are written as `rows`.
pub open spec fn framed(rows: Seq<Seq<char>>) -> Seq<char> {
    framed_rows(rows) + "}\n"@
}

/// `format!` with `{:?}` on a slice: the text that `Debug` gives for the row.
/// What it holds is up to the `Debug` of the cells, so nothing is claimed of it.
#[verifier::external_body]
fn format_row<T: core::fmt::Debug>(row: &[T]) -> (text: String) {
    format!("{:?}", row)
}

/// Puts the texts of the rows of a grid together.
pub fn frame_rows(rows: &Vec<String>) -> (text: String)
    ensures
        text@ == framed(rows@.map_values(|row: String| row@)),
{
    let ghost texts = rows@.map_values(|row: String| row@);
    let mut text = String::from_str("Array2d {\n");
    let mut y: usize = 0;
    while y < rows.len()
        invariant
            y <= rows.len(),
            texts == rows@.map_values(|row: String| row@),
            text@ == framed_rows(texts.take(y as int)),
        decreases rows.len() - y,
    {
        proof {
            assert(texts.take(y + 1).drop_last() =~= texts.take(y as int));
        }
        text.append(rows[y].as_str());
        text.append("\n");
        y += 1;
    }
    proof {
        assert(texts.take(y as int) =~= texts);
    }
    text.append("}\n");
    text
}

impl<T: core::fmt::Debug> Array2d<T> {
    /// The text that shows the grid: a heading, each row on a line of its own
    /// as `Debug` writes a slice, and a closing brace.
    pub fn to_debug_string(&self) -> (text: String)
        ensures
            exists|rows: Seq<Seq<char>>| rows.len() == self@.height && text@ == framed(rows),
    {
        proof {
            use_type_invariant(self);
        }
        let mut rows: Vec<String> = Vec::with_capacity(self.height);
        let mut y: usize = 0;
        while y < self.height
            invariant
                y <= self.height,
                self@.wf(),
                rows@.len() == y,
            decreases self.height - y,
        {
            proof {
                assert(y * self.width + self.width <= self.width * self.height) by (nonlinear_arith)
                    requires
                        0 <= y < self.height,
                        0 <= self.width,
                ;
                assert(0 <= y * self.width) by (nonlinear_arith)
                    requires
                        0 <= y,
                        0 <= self.width,
                ;
                assert(self.data.len() <= usize::MAX);
            }
            let start = y * self.width;
            let row = vstd::slice::slice_subrange(self.data.as_slice(), start, start + self.width);
            rows.push(format_row(row));
            y += 1;
        }
        frame_rows(&rows)
    }
}

impl Array2d<Pixel> {
    /// The grid of the pixels of an image.
    pub fn from_image(img: &Raster) -> (r: Result<Self, CarveError>)
        ensures
            r matches Ok(grid) && grid@ == img@,
    {
        let (width, height) = img.dimensions();
        let mut data: Vec<Pixel> = Vec::new();
        let mut y: u32 = 0;
        while y < height
            invariant
                y <= height,
                img@.wf(),
                width == img@.width,
                height == img@.height,
                data@.len() == y * width,
                forall|i: int, j: int|
                    0 <= i < width && 0 <= j < y ==> #[trigger] data@[offset(i, j, width as int)]
                        == img@.at(i, j),
            decreases height - y,
        {
            let mut x: u32 = 0;
            while x < width
                invariant
                    y < height,
                    x <= width,
                    img@.wf(),
                    width == img@.width,
                    height == img@.height,
                    data@.len() == y * width + x,
                    forall|i: int, j: int|
                        0 <= i < width && 0 <= j < y ==> #[trigger] data@[offset(
                            i,
                            j,
                            width as int,
                        )] == img@.at(i, j),
                    forall|i: int|
                        0 <= i < x ==> #[trigger] data@[offset(i, y as int, width as int)]
                            == img@.at(i, y as int),
                decreases width - x,
            {
                let ghost prev = data@;
                proof {
                    assert forall|i: int, j: int| 0 <= i < width && 0 <= j < y implies offset(
                        i,
                        j,
                        width as int,
                    ) < prev.len() by {
                        lemma_offset_in_range(i, j, width as int, y as int);
                    }
                }
                data.push(img.get_pixel(x, y));
                x += 1;
            }
            proof {
                assert((y + 1) * width == y * width + width) by (nonlinear_arith);
            }
            y += 1;
        }
        let ghost built = GridView { width: width as nat, height: height as nat, cells: data@ };
        proof {
            assert(height * width == width * height) by (nonlinear_arith);
            built.lemma_equal_by_cells(img@);
        }
        Ok(Array2d { width: width as usize, height: height as usize, data })
    }

    /// The image of the pixels of the grid. A grid that no image buffer can
    /// hold is out of bounds.
    pub fn to_image(&self) -> (r: Result<Raster, CarveError>)
        ensures
            r is Ok <==> fits_raster(self@.width, self@.height),
            r matches Ok(img) ==> img@ == self@,
            r matches Err(e) ==> e == CarveError::BoundsViolation,
    {
        proof {
            use_type_invariant(self);
        }
        if self.width > u32::MAX as usize || self.height > u32::MAX as usize {
            return Err(CarveError::BoundsViolation);
        }
        let width = self.width as u32;
        let height = self.height as u32;
        let mut img = match Raster::new(width, height) {
            Some(img) => img,
            None => {
                return Err(CarveError::BoundsViolation);
            },
        };
        let mut y: u32 = 0;
        while y < height
            invariant
                y <= height,
                self@.wf(),
                width == self@.width,
                height == self@.height,
                img@.wf(),
                img@.width == width,
                img@.height == height,
                forall|i: int, j: int|
                    0 <= i < width && 0 <= j < y ==> #[trigger] img@.at(i, j) == self@.at(i, j),
            decreases height - y,
        {
            let mut x: u32 = 0;
            while x < width
                invariant
                    y < height,
                    x <= width,
                    self@.wf(),
                    width == self@.width,
                    height == self@.height,
                    img@.wf(),
                    img@.width == width,
                    img@.height == height,
                    forall|i: int, j: int|
                        0 <= i < width && 0 <= j < y ==> #[trigger] img@.at(i, j) == self@.at(
                            i,
                            j,
                        ),
                    forall|i: int|
                        0 <= i < x ==> #[trigger] img@.at(i, y as int) == self@.at(i, y as int),
                decreases width - x,
            {
                let ghost prev = img@;
                let pixel = self[(x as usize, y as usize)];
                proof {
                    prev.lemma_with_cell(x as int, y as int, pixel);
                }
                img.put_pixel(x, y, pixel);
                proof {
                    assert forall|i: int, j: int|
                        0 <= i < width && 0 <= j < y implies #[trigger] img@.at(i, j) == self@.at(
                        i,
                        j,
                    ) by {
                        assert(prev.in_bounds(i, j));
                    }
                    assert forall|i: int| 0 <= i < x + 1 implies #[trigger] img@.at(i, y as int)
                        == self@.at(i, y as int) by {
                        assert(prev.in_bounds(i, y as int));
                    }
                }
                x += 1;
            }
            y += 1;
        }
        proof {
            img@.lemma_equal_by_cells(self@);
        }
        Ok(img)
    }
}

impl<T: Copy> Clone for Array2d<T> {
    /// A grid of the same dimensions with the same cells.
    fn clone(&self) -> (copy: Self)
        ensures
            copy@ == self@,
    {
        proof {
            use_type_invariant(self);
        }
        let mut data: Vec<T> = Vec::with_capacity(self.data.len());
        let mut i: usize = 0;
        while i < self.data.len()
            invariant
                i <= self.data.len(),
                data@ == self.data@.take(i as int),
            decreases self.data.len() - i,
        {
            data.push(self.data[i]);
            i += 1;
        }
        assert(self.data@.take(i as int) =~= self.data@);
        Array2d { width: self.width, height: self.height, data }
    }
}

impl<T> core::ops::Index<(usize, usize)> for Array2d<T> {
    type Output = T;

    /// The cell in column `index.0` of row `index.1`.
    fn index(&self, index: (usize, usize)) -> (cell: &T)
        ensures
            *cell == self@.at(index.0 as int, index.1 as int),
    {
        proof {
            use_type_invariant(self);
            lemma_offset_in_range(
                index.0 as int,
                index.1 as int,
                self.width as int,
                self.height as int,
            );
            assert(self.data.len() <= usize::MAX);
        }
        &self.data[index.0 + index.1 * self.width]
    }
}

impl<T> vstd::std_specs::core::IndexSpecImpl<(usize, usize)> for Array2d<T> {
    open spec fn index_req(&self, index: &(usize, usize)) -> bool {
        self@.in_bounds(index.0 as int, index.1 as int)
    }
}

impl<T> core::ops::IndexMut<(usize, usize)> for Array2d<T> {
    /// The cell in column `index.0` of row `index.1`, for writing.
    fn index_mut(&mut self, index: (usize, usize)) -> (cell: &mut T)
        requires
            old(self)@.in_bounds(index.0 as int, index.1 as int),
        ensures
            *cell == old(self)@.at(index.0 as int, index.1 as int),
            final(self)@ == old(self)@.with_cell(index.0 as int, index.1 as int, *final(cell)),
    {
        proof {
            use_type_invariant(&*self);
            lemma_offset_in_range(
                index.0 as int,
                index.1 as int,
                self.width as int,
                self.height as int,
            );
            assert(self.data.len() <= usize::MAX);
        }
        &mut self.data[index.0 + index.1 * self.width]
    }
}

/// Writes one cell of a grid; every other cell stays.
pub(crate) fn store<T>(grid: &mut Array2d<T>, x: usize, y: usize, value: T)
    requires
        old(grid)@.wf(),
        old(grid)@.in_bounds(x as int, y as int),
    ensures
        final(grid)@.wf(),
        final(grid)@.width == old(grid)@.width,
        final(grid)@.height == old(grid)@.height,
        final(grid)@.at(x as int, y as int) == value,
        forall|i: int, j: int| #[trigger]
            old(grid)@.in_bounds(i, j) && (i != x || j != y) ==> final(grid)@.at(i, j) == old(
                grid,
            )@.at(i, j),
{
    proof {
        grid@.lemma_with_cell(x as int, y as int, value);
    }
    *grid.index_mut((x, y)) = value;
}

} // verus!
