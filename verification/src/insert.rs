//! Making an image wider by doubling the pixels on its cheapest seams.

use crate::array::Array2d;
use crate::array::store;
use crate::carve::carved;
use crate::carve::lemma_carved;
use crate::energy::energy_field;
use crate::energy::get_energy_img;
use crate::energy::lemma_energy_field;
use crate::energy::lemma_update_matches_compute;
use crate::energy::refresh_energy_img;
use crate::error::CarveError;
use crate::grid::GridView;
use crate::grid::lemma_offset_in_range;
use crate::grid::offset;
use crate::grid::skip_column;
use crate::pixel::Pixel;
use crate::seam::find_vertical_seam;
use crate::seam::lemma_vertical_seam_is_path;
use crate::seam::vertical_seam;
use vstd::prelude::*;

verus! {

/// The grid that holds at each cell that cell's own coordinates.
pub open spec fn identity_positions(width: nat, height: nat) -> GridView<(usize, usize)> {
    GridView {
        width,
        height,
        cells: Seq::new(
            width * height,
            |i: int| ((i % (width as int)) as usize, (i / (width as int)) as usize),
        ),
    }
}

/// The cheapest seam of the image after `n` seams have been carved out of it.
pub open spec fn nth_seam(img: GridView<Pixel>, n: nat) -> Seq<usize> {
    vertical_seam(energy_field(carved(img, n)))
}

/// For each pixel that is left after `n` seams have been carved out of `img`,
/// the coordinates that it has in `img`.
pub open spec fn carved_positions(img: GridView<Pixel>, n: nat) -> GridView<(usize, usize)>
    decreases n,
{
    if n == 0 {
        identity_positions(img.width, img.height)
    } else {
        carved_positions(img, (n - 1) as nat).without_seam(nth_seam(img, (n - 1) as nat))
    }
}

/// The column of `img` that the `n`-th seam (counted from 0) takes out of row `y`.
pub open spec fn seam_origin(img: GridView<Pixel>, n: nat, y: int) -> int {
    carved_positions(img, n).at(nth_seam(img, n)[y] as int, y).0 as int
}

/// Whether the pixel at `(x, y)` of `img` lies on one of the first `n` seams
/// that carving takes out of `img`.
pub open spec fn on_seam(img: GridView<Pixel>, n: nat, x: int, y: int) -> bool
    decreases n,
{
    n > 0 && (on_seam(img, (n - 1) as nat, x, y) || seam_origin(img, (n - 1) as nat, y) == x)
}

/// For every pixel of `img` in row-major order, whether it lies on one of the
/// first `n` seams.
pub open spec fn seam_marks(img: GridView<Pixel>, n: nat) -> GridView<bool> {
    GridView {
        width: img.width,
        height: img.height,
        cells: Seq::new(
            img.cells.len(),
            |i: int| on_seam(img, n, i % (img.width as int), i / (img.width as int)),
        ),
    }
}

/// The first `n` cells, each marked one written twice in a row.
pub open spec fn doubled_cells(cells: Seq<Pixel>, marks: Seq<bool>, n: nat) -> Seq<Pixel>
    decreases n,
{
    if n == 0 {
        Seq::empty()
    } else {
        let rest = doubled_cells(cells, marks, (n - 1) as nat).push(cells[n - 1]);
        if marks[n - 1] {
            rest.push(cells[n - 1])
        } else {
            rest
        }
    }
}

/// The image made `n` columns wider: every pixel on one of the first `n` seams
/// that carving would take out is followed by a copy of itself.
pub open spec fn widened(img: GridView<Pixel>, n: nat) -> GridView<Pixel> {
    GridView {
        width: img.width + n,
        height: img.height,
        cells: doubled_cells(img.cells, seam_marks(img, n).cells, img.cells.len()),
    }
}

/// How many of the first `n` marks are set.
pub open spec fn count_marks(marks: Seq<bool>, n: nat) -> nat
    decreases n,
{
    if n == 0 {
        0
    } else {
        count_marks(marks, (n - 1) as nat) + (if marks[n - 1] {
            1nat
        } else {
            0nat
        })
    }
}

/// How many of the first `upto` pixels of row `y` lie on one of the first `n` seams.
pub open spec fn row_count(img: GridView<Pixel>, n: nat, y: int, upto: nat) -> nat
    decreases upto,
{
    if upto == 0 {
        0
    } else {
        row_count(img, n, y, (upto - 1) as nat) + (if on_seam(img, n, upto - 1, y) {
            1nat
        } else {
            0nat
        })
    }
}

/// The identity grid is well formed and holds each cell's own coordinates.
pub proof fn lemma_identity_positions(width: nat, height: nat)
    requires
        width <= usize::MAX,
        height <= usize::MAX,
    ensures
        identity_positions(width, height).wf(),
        forall|x: int, y: int| #[trigger]
            identity_positions(width, height).in_bounds(x, y) ==> identity_positions(
                width,
                height,
            ).at(x, y) == (x as usize, y as usize),
{
    let id = identity_positions(width, height);
    assert forall|x: int, y: int| #[trigger] id.in_bounds(x, y) implies id.at(x, y) == (
        x as usize,
        y as usize,
    ) by {
        lemma_offset_in_range(x, y, width as int, height as int);
    }
}

/// The seam that is carved out after `n` others fits the image and the grid of
/// positions at that point.
pub proof fn lemma_nth_seam(img: GridView<Pixel>, n: nat)
    requires
        img.wf(),
        n < img.width,
    ensures
        carved(img, n).valid_seam(nth_seam(img, n)),
        nth_seam(img, n).len() == img.height,
        forall|y: int|
            0 <= y < img.height ==> (#[trigger] nth_seam(img, n)[y]) < img.width - n,
{
    lemma_carved(img, n);
    lemma_energy_field(carved(img, n));
    lemma_vertical_seam_is_path(energy_field(carved(img, n)));
}

/// What is known of the positions after `n` seams: the grid has lost `n`
/// columns; each cell names a column of `img`; along a row these columns
/// grow; none of them lies on one of the `n` seams.
pub proof fn lemma_carved_positions(img: GridView<Pixel>, n: nat)
    requires
        img.wf(),
        n <= img.width,
    ensures
        carved_positions(img, n).wf(),
        carved_positions(img, n).width == img.width - n,
        carved_positions(img, n).height == img.height,
        forall|x: int, y: int| #[trigger]
            carved_positions(img, n).in_bounds(x, y) ==> carved_positions(img, n).at(x, y).0
                < img.width,
        forall|x1: int, x2: int, y: int|
            0 <= x1 < x2 < img.width - n && 0 <= y < img.height ==> (#[trigger] carved_positions(
                img,
                n,
            ).at(x1, y)).0 < (#[trigger] carved_positions(img, n).at(x2, y)).0,
        forall|x: int, y: int| #[trigger]
            carved_positions(img, n).in_bounds(x, y) ==> !on_seam(
                img,
                n,
                carved_positions(img, n).at(x, y).0 as int,
                y,
            ),
    decreases n,
{
    let pos = carved_positions(img, n);
    if n == 0 {
        lemma_identity_positions(img.width, img.height);
        assert forall|x1: int, x2: int, y: int|
            0 <= x1 < x2 < img.width - n && 0 <= y < img.height implies (#[trigger] pos.at(
            x1,
            y,
        )).0 < (#[trigger] pos.at(x2, y)).0 by {
            assert(pos.in_bounds(x1, y));
            assert(pos.in_bounds(x2, y));
        }
    } else {
        let m = (n - 1) as nat;
        let prev = carved_positions(img, m);
        let seam = nth_seam(img, m);
        lemma_carved_positions(img, m);
        lemma_nth_seam(img, m);
        prev.lemma_without_seam(seam);
        assert forall|x: int, y: int| #[trigger] pos.in_bounds(x, y) implies pos.at(x, y).0
            < img.width && !on_seam(img, n, pos.at(x, y).0 as int, y) by {
            let from = skip_column(x, seam[y] as int);
            assert(prev.in_bounds(from, y));
        }
        assert forall|x1: int, x2: int, y: int|
            0 <= x1 < x2 < img.width - n && 0 <= y < img.height implies (#[trigger] pos.at(
            x1,
            y,
        )).0 < (#[trigger] pos.at(x2, y)).0 by {
            assert(pos.in_bounds(x1, y));
            assert(pos.in_bounds(x2, y));
            assert(prev.at(skip_column(x1, seam[y] as int), y).0 < prev.at(
                skip_column(x2, seam[y] as int),
                y,
            ).0);
        }
    }
}

/// The column that a seam takes out of a row lies in the image and on none of
/// the seams before it.
pub proof fn lemma_seam_origin(img: GridView<Pixel>, n: nat, y: int)
    requires
        img.wf(),
        n < img.width,
        0 <= y < img.height,
    ensures
        0 <= seam_origin(img, n, y) < img.width,
        !on_seam(img, n, seam_origin(img, n, y), y),
{
    lemma_carved_positions(img, n);
    lemma_nth_seam(img, n);
    assert(carved_positions(img, n).in_bounds(nth_seam(img, n)[y] as int, y));
}

/// One more seam puts one more pixel of the row on a seam, if it lies among
/// those that are counted.
proof fn lemma_row_count_step(img: GridView<Pixel>, n: nat, y: int, upto: nat)
    requires
        img.wf(),
        n < img.width,
        0 <= y < img.height,
    ensures
        row_count(img, n + 1, y, upto) == row_count(img, n, y, upto) + (if seam_origin(img, n, y)
            < upto {
            1nat
        } else {
            0nat
        }),
    decreases upto,
{
    lemma_seam_origin(img, n, y);
    if upto > 0 {
        lemma_row_count_step(img, n, y, (upto - 1) as nat);
    }
}

/// Exactly `n` pixels of each row lie on the first `n` seams.
pub proof fn lemma_row_count(img: GridView<Pixel>, n: nat, y: int)
    requires
        img.wf(),
        n <= img.width,
        0 <= y < img.height,
    ensures
        row_count(img, n, y, img.width) == n,
    decreases n,
{
    if n == 0 {
        lemma_row_count_none(img, y, img.width);
    } else {
        lemma_row_count(img, (n - 1) as nat, y);
        lemma_row_count_step(img, (n - 1) as nat, y, img.width);
        lemma_seam_origin(img, (n - 1) as nat, y);
    }
}

proof fn lemma_row_count_none(img: GridView<Pixel>, y: int, upto: nat)
    ensures
        row_count(img, 0, y, upto) == 0,
    decreases upto,
{
    if upto > 0 {
        lemma_row_count_none(img, y, (upto - 1) as nat);
    }
}

/// Doubling the marked cells adds one cell per mark.
pub proof fn lemma_doubled_len(cells: Seq<Pixel>, marks: Seq<bool>, n: nat)
    ensures
        doubled_cells(cells, marks, n).len() == n + count_marks(marks, n),
    decreases n,
{
    if n > 0 {
        lemma_doubled_len(cells, marks, (n - 1) as nat);
    }
}

/// Where nothing is marked, doubling gives the cells back.
pub proof fn lemma_doubled_unmarked(cells: Seq<Pixel>, marks: Seq<bool>, n: nat)
    requires
        n <= cells.len(),
        forall|i: int| 0 <= i < n ==> !(#[trigger] marks[i]),
    ensures
        doubled_cells(cells, marks, n) == cells.take(n as int),
    decreases n,
{
    if n > 0 {
        lemma_doubled_unmarked(cells, marks, (n - 1) as nat);
    }
}

/// The marks of a row, counted up to one of its columns.
proof fn lemma_marks_in_row(img: GridView<Pixel>, n: nat, y: int, upto: nat)
    requires
        img.wf(),
        0 <= y < img.height,
        upto <= img.width,
    ensures
        count_marks(seam_marks(img, n).cells, (y * img.width + upto) as nat) == count_marks(
            seam_marks(img, n).cells,
            (y * img.width) as nat,
        ) + row_count(img, n, y, upto),
    decreases upto,
{
    if upto > 0 {
        lemma_marks_in_row(img, n, y, (upto - 1) as nat);
        lemma_offset_in_range(upto - 1, y, img.width as int, img.height as int);
    } else {
        assert(0 <= y * img.width) by (nonlinear_arith)
            requires
                0 <= y,
                0 <= img.width,
        ;
    }
}

/// The first `rows` rows hold `n` marks each.
proof fn lemma_marks_in_rows(img: GridView<Pixel>, n: nat, rows: nat)
    requires
        img.wf(),
        n <= img.width,
        rows <= img.height,
    ensures
        count_marks(seam_marks(img, n).cells, rows * img.width) == rows * n,
    decreases rows,
{
    if rows > 0 {
        let y = (rows - 1) as nat;
        lemma_marks_in_rows(img, n, y);
        lemma_marks_in_row(img, n, y as int, img.width);
        lemma_row_count(img, n, y as int);
        assert(rows * img.width == y * img.width + img.width && rows * n == y * n + n)
            by (nonlinear_arith)
            requires
                rows == y + 1,
        ;
    } else {
        assert(rows * img.width == 0 && rows * n == 0) by (nonlinear_arith)
            requires
                rows == 0,
        ;
    }
}

/// Widening by `n` seams adds `n` columns and keeps the rows.
pub proof fn lemma_widened(img: GridView<Pixel>, n: nat)
    requires
        img.wf(),
        n <= img.width,
        img.width + n <= usize::MAX,
    ensures
        widened(img, n).wf(),
        widened(img, n).width == img.width + n,
        widened(img, n).height == img.height,
{
    lemma_doubled_len(img.cells, seam_marks(img, n).cells, img.cells.len());
    lemma_marks_in_rows(img, n, img.height);
    assert(img.height * img.width == img.width * img.height && (img.width + n) * img.height
        == img.width * img.height + img.height * n) by (nonlinear_arith);
}

/// Widening by no seam leaves the image as it is.
pub proof fn lemma_widened_by_none(img: GridView<Pixel>)
    requires
        img.wf(),
    ensures
        widened(img, 0) == img,
{
    lemma_doubled_unmarked(img.cells, seam_marks(img, 0).cells, img.cells.len());
    assert(img.cells.take(img.cells.len() as int) =~= img.cells);
}

/// The grid that holds at each cell that cell's own coordinates, of the
/// dimensions of `img`. As with every grid built from a buffer, one without
/// columns is refused.
pub fn positions_from_image(img: &Array2d<Pixel>) -> (r: Result<
    Array2d<(usize, usize)>,
    CarveError,
>)
    ensures
        r is Ok <==> img@.width > 0,
        r matches Ok(positions) ==> positions@ == identity_positions(img@.width, img@.height),
        r matches Err(e) ==> e == (CarveError::Construction { len: 0, width: 0 }),
{
    let (width, height) = img.dimensions();
    proof {
        use_type_invariant(img);
        lemma_identity_positions(width as nat, height as nat);
    }
    let ghost id = identity_positions(width as nat, height as nat);
    let mut cells: Vec<(usize, usize)> = Vec::new();
    let mut y: usize = 0;
    while y < height
        invariant
            y <= height,
            cells@.len() == y * width,
            forall|i: int, j: int|
                0 <= i < width && 0 <= j < y ==> #[trigger] cells@[offset(i, j, width as int)] == (
                    i as usize,
                    j as usize,
                ),
        decreases height - y,
    {
        let mut x: usize = 0;
        while x < width
            invariant
                y < height,
                x <= width,
                cells@.len() == y * width + x,
                forall|i: int, j: int|
                    0 <= i < width && 0 <= j < y ==> #[trigger] cells@[offset(i, j, width as int)]
                        == (i as usize, j as usize),
                forall|i: int|
                    0 <= i < x ==> #[trigger] cells@[offset(i, y as int, width as int)] == (
                        i as usize,
                        y,
                    ),
            decreases width - x,
        {
            let ghost prev = cells@;
            proof {
                assert forall|i: int, j: int| 0 <= i < width && 0 <= j < y implies offset(
                    i,
                    j,
                    width as int,
                ) < prev.len() by {
                    lemma_offset_in_range(i, j, width as int, y as int);
                }
            }
            cells.push((x, y));
            x += 1;
        }
        proof {
            assert((y + 1) * width == y * width + width) by (nonlinear_arith);
        }
        y += 1;
    }
    let ghost built = GridView { width: width as nat, height: height as nat, cells: cells@ };
    proof {
        assert(height * width == width * height) by (nonlinear_arith);
        assert forall|i: int, j: int| built.in_bounds(i, j) implies built.at(i, j) == id.at(
            i,
            j,
        ) by {
            assert(id.in_bounds(i, j));
        }
        built.lemma_equal_by_cells(id);
        if width > 0 {
            vstd::arithmetic::div_mod::lemma_fundamental_div_mod_converse(
                cells@.len() as int,
                width as int,
                height as int,
                0,
            );
        } else {
            assert(y * width == 0) by (nonlinear_arith)
                requires
                    width == 0,
            ;
        }
    }
    Array2d::new(width, cells)
}

/// Marks, in each row, the column that the seam's cell of that row came from.
fn mark_seam(marks: &mut Array2d<bool>, positions: &Array2d<(usize, usize)>, seam: &[usize])
    requires
        old(marks)@.wf(),
        positions@.wf(),
        positions@.valid_seam(seam@),
        old(marks)@.height == positions@.height,
        forall|x: int, y: int| #[trigger]
            positions@.in_bounds(x, y) ==> positions@.at(x, y).0 < old(marks)@.width,
    ensures
        final(marks)@.wf(),
        final(marks)@.width == old(marks)@.width,
        final(marks)@.height == old(marks)@.height,
        forall|x: int, y: int| #[trigger]
            final(marks)@.in_bounds(x, y) ==> final(marks)@.at(x, y) == (old(marks)@.at(x, y)
                || positions@.at(seam@[y] as int, y).0 == x),
{
    let ghost before = marks@;
    let height = marks.height();
    let mut y: usize = 0;
    while y < height
        invariant
            y <= height,
            before.wf(),
            height == before.height,
            positions@.wf(),
            positions@.valid_seam(seam@),
            before.height == positions@.height,
            forall|x: int, j: int| #[trigger]
                positions@.in_bounds(x, j) ==> positions@.at(x, j).0 < before.width,
            marks@.wf(),
            marks@.width == before.width,
            marks@.height == before.height,
            forall|x: int, j: int| #[trigger]
                marks@.in_bounds(x, j) ==> marks@.at(x, j) == (if j < y {
                    before.at(x, j) || positions@.at(seam@[j] as int, j).0 == x
                } else {
                    before.at(x, j)
                }),
        decreases height - y,
    {
        let ghost prev = marks@;
        assert(positions@.in_bounds(seam@[y as int] as int, y as int));
        let origin = positions[(seam[y], y)].0;
        store(marks, origin, y, true);
        proof {
            assert forall|x: int, j: int| #[trigger] marks@.in_bounds(x, j) implies marks@.at(x, j)
                == (if j < y + 1 {
                before.at(x, j) || positions@.at(seam@[j] as int, j).0 == x
            } else {
                before.at(x, j)
            }) by {
                assert(prev.in_bounds(x, j));
            }
        }
        y += 1;
    }
}

/// Finds the cheapest seam of what is left of the image, records where it ran
/// in the image itself, and takes it out of what is left.
fn insert_step(
    energy_map: &mut Array2d<u32>,
    work: &mut Array2d<Pixel>,
    positions: &mut Array2d<(usize, usize)>,
    marks: &mut Array2d<bool>,
    Ghost(img): Ghost<GridView<Pixel>>,
    Ghost(done): Ghost<nat>,
) -> (r: Result<(), CarveError>)
    requires
        img.wf(),
        done < img.width,
        img.height >= 1,
        old(work)@ == carved(img, done),
        old(energy_map)@ == energy_field(old(work)@),
        old(positions)@ == carved_positions(img, done),
        old(marks)@.wf(),
        old(marks)@.width == img.width,
        old(marks)@.height == img.height,
        forall|x: int, y: int| #[trigger]
            old(marks)@.in_bounds(x, y) ==> old(marks)@.at(x, y) == on_seam(img, done, x, y),
    ensures
        r is Ok,
        final(work)@ == carved(img, done + 1),
        final(energy_map)@ == energy_field(final(work)@),
        final(positions)@ == carved_positions(img, done + 1),
        final(marks)@.wf(),
        final(marks)@.width == img.width,
        final(marks)@.height == img.height,
        forall|x: int, y: int| #[trigger]
            final(marks)@.in_bounds(x, y) ==> final(marks)@.at(x, y) == on_seam(
                img,
                done + 1,
                x,
                y,
            ),
{
    let ghost before = work@;
    proof {
        lemma_carved(img, done);
        lemma_carved_positions(img, done);
        lemma_nth_seam(img, done);
        lemma_energy_field(before);
    }
    let seam = find_vertical_seam(energy_map);
    mark_seam(marks, positions, seam.as_slice());
    proof {
        before.lemma_without_seam(seam@);
        energy_field(before).lemma_without_seam(seam@);
        assert forall|x: int, y: int| #[trigger] marks@.in_bounds(x, y) implies marks@.at(x, y)
            == on_seam(img, done + 1, x, y) by {
            assert(old(marks)@.in_bounds(x, y));
        }
    }
    match positions.remove_seam(seam.as_slice()) {
        Ok(()) => {},
        Err(e) => {
            return Err(e);
        },
    }
    match work.remove_seam(seam.as_slice()) {
        Ok(()) => {},
        Err(e) => {
            return Err(e);
        },
    }
    match energy_map.remove_seam(seam.as_slice()) {
        Ok(()) => {},
        Err(e) => {
            return Err(e);
        },
    }
    match refresh_energy_img(energy_map, work, seam.as_slice()) {
        Ok(()) => {},
        Err(e) => {
            return Err(e);
        },
    }
    proof {
        lemma_update_matches_compute(before, seam@);
    }
    Ok(())
}

/// Writes the cells out in order, each marked one twice in a row.
fn double_marked(cells: &[Pixel], marks: &[bool]) -> (out: Vec<Pixel>)
    requires
        cells@.len() == marks@.len(),
    ensures
        out@ == doubled_cells(cells@, marks@, cells@.len()),
{
    let mut out: Vec<Pixel> = Vec::new();
    let mut i: usize = 0;
    while i < cells.len()
        invariant
            i <= cells.len(),
            cells@.len() == marks@.len(),
            out@ == doubled_cells(cells@, marks@, i as nat),
        decreases cells.len() - i,
    {
        out.push(cells[i]);
        if marks[i] {
            out.push(cells[i]);
        }
        i += 1;
    }
    out
}

/// Makes the image `to_insert` columns wider. The seams that carving would
/// take out are found one after the other on a copy of the image; every pixel
/// of the image that lies on one of them is then followed by a copy of itself.
pub fn insert_vertical(img: &Array2d<Pixel>, to_insert: usize) -> (r: Result<
    Array2d<Pixel>,
    CarveError,
>)
    requires
        to_insert <= img@.width,
        img@.width + to_insert <= usize::MAX,
        to_insert > 0 ==> img@.height >= 1,
    ensures
        r matches Ok(wide) && wide@ == widened(img@, to_insert as nat),
{
    proof {
        use_type_invariant(img);
    }
    if to_insert == 0 {
        proof {
            lemma_widened_by_none(img@);
        }
        return Ok(img.clone());
    }
    let (width, height, size) = (img.width(), img.height(), img.size());
    let mut work = img.clone();
    let mut energy_map = match get_energy_img(&work) {
        Ok(energy_map) => energy_map,
        Err(e) => {
            return Err(e);
        },
    };
    let mut positions = match positions_from_image(img) {
        Ok(positions) => positions,
        Err(e) => {
            return Err(e);
        },
    };
    proof {
        assert(width * height == height * width) by (nonlinear_arith);
        vstd::arithmetic::div_mod::lemma_fundamental_div_mod_converse(
            size as int,
            width as int,
            height as int,
            0,
        );
    }
    let flags = vec![false; size];
    assert forall|i: int| 0 <= i < size implies !(#[trigger] flags@[i]) by {}
    let mut marks = match Array2d::new(width, flags) {
        Ok(marks) => marks,
        Err(e) => {
            return Err(e);
        },
    };
    proof {
        assert forall|x: int, y: int| #[trigger] marks@.in_bounds(x, y) implies !marks@.at(
            x,
            y,
        ) by {
            lemma_offset_in_range(x, y, width as int, height as int);
        }
    }
    let mut done: usize = 0;
    while done < to_insert
        invariant
            done <= to_insert,
            to_insert <= img@.width,
            img@.wf(),
            img@.height >= 1,
            work@ == carved(img@, done as nat),
            energy_map@ == energy_field(work@),
            positions@ == carved_positions(img@, done as nat),
            marks@.wf(),
            marks@.width == img@.width,
            marks@.height == img@.height,
            forall|x: int, y: int| #[trigger]
                marks@.in_bounds(x, y) ==> marks@.at(x, y) == on_seam(img@, done as nat, x, y),
        decreases to_insert - done,
    {
        match insert_step(
            &mut energy_map,
            &mut work,
            &mut positions,
            &mut marks,
            Ghost(img@),
            Ghost(done as nat),
        ) {
            Ok(()) => {},
            Err(e) => {
                return Err(e);
            },
        }
        done += 1;
    }
    let ghost target = seam_marks(img@, to_insert as nat);
    proof {
        use_type_invariant(&marks);
        assert forall|x: int, y: int| marks@.in_bounds(x, y) implies marks@.at(x, y) == target.at(
            x,
            y,
        ) by {
            lemma_offset_in_range(x, y, img@.width as int, img@.height as int);
        }
        marks@.lemma_equal_by_cells(target);
        lemma_widened(img@, to_insert as nat);
    }
    let out = double_marked(img.raw_data(), marks.raw_data());
    proof {
        let wide = widened(img@, to_insert as nat);
        vstd::arithmetic::div_mod::lemma_fundamental_div_mod_converse(
            out@.len() as int,
            wide.width as int,
            wide.height as int,
            0,
        );
    }
    Array2d::new(width + to_insert, out)
}

/// Makes the image `to_insert` rows higher: the image is transposed, made
/// that many columns wider, and transposed back.
pub fn insert_horizontal(img: &Array2d<Pixel>, to_insert: usize) -> (r: Result<
    Array2d<Pixel>,
    CarveError,
>)
    requires
        to_insert <= img@.height,
        img@.height + to_insert <= usize::MAX,
        to_insert > 0 ==> img@.width >= 1,
    ensures
        r matches Ok(high) && high@ == widened(img@.transposed(), to_insert as nat).transposed(),
{
    proof {
        use_type_invariant(img);
        img@.lemma_transposed();
    }
    let mut turned = img.clone();
    turned.transpose();
    match insert_vertical(&turned, to_insert) {
        Ok(mut wide) => {
            wide.transpose();
            Ok(wide)
        },
        Err(e) => Err(e),
    }
}

} // verus!
