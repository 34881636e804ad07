//! The energy of the pixels of an image, computed as a whole and brought up to
//! date after a seam has left the image.

use crate::array::Array2d;
use crate::error::CarveError;
use crate::grid::GridView;
use crate::grid::lemma_offset_in_range;
use crate::grid::offset;
use crate::grid::skip_column;
use crate::pixel::Pixel;
use core::ops::IndexMut;
use vstd::arithmetic::div_mod::lemma_mod_self_0;
use vstd::arithmetic::div_mod::lemma_small_mod;
use vstd::prelude::*;

verus! {

/// The index before `i` among `n` indices laid out on a ring.
pub open spec fn wrap_prev(i: int, n: int) -> int {
    if i == 0 {
        n - 1
    } else {
        i - 1
    }
}

/// The index after `i` among `n` indices laid out on a ring.
pub open spec fn wrap_next(i: int, n: int) -> int {
    if i + 1 == n {
        0
    } else {
        i + 1
    }
}

/// The square of the difference of two channel values.
pub open spec fn squared_diff_channel(a: u8, b: u8) -> int {
    (a - b) * (a - b)
}

/// The sum, over the three channels, of the squared differences of two pixels.
pub open spec fn squared_diff(p: Pixel, q: Pixel) -> int {
    squared_diff_channel(p.r, q.r) + squared_diff_channel(p.g, q.g) + squared_diff_channel(
        p.b,
        q.b,
    )
}

/// The energy of the pixel at `(x, y)`: the squared difference of the pixels
/// above and below it plus that of the pixels left and right of it, where the
/// grid wraps around at its edges.
pub open spec fn energy_at(img: GridView<Pixel>, x: int, y: int) -> int {
    let w = img.width as int;
    let h = img.height as int;
    squared_diff(img.at(x, wrap_prev(y, h)), img.at(x, wrap_next(y, h))) + squared_diff(
        img.at(wrap_prev(x, w), y),
        img.at(wrap_next(x, w), y),
    )
}

/// The grid of the energies of all pixels of `img`.
pub open spec fn energy_field(img: GridView<Pixel>) -> GridView<u32> {
    let w = img.width as int;
    GridView {
        width: img.width,
        height: img.height,
        cells: Seq::new(img.cells.len(), |i: int| energy_at(img, i % w, i / w) as u32),
    }
}

/// The smallest column of a seam; 0 for the empty seam.
pub open spec fn seam_min(seam: Seq<usize>) -> int
    decreases seam.len(),
{
    if seam.len() == 0 {
        0
    } else if seam.len() == 1 {
        seam[0] as int
    } else if seam.last() < seam_min(seam.drop_last()) {
        seam.last() as int
    } else {
        seam_min(seam.drop_last())
    }
}

/// The largest column of a seam; 0 for the empty seam.
pub open spec fn seam_max(seam: Seq<usize>) -> int
    decreases seam.len(),
{
    if seam.len() == 0 {
        0
    } else if seam.len() == 1 {
        seam[0] as int
    } else if seam.last() > seam_max(seam.drop_last()) {
        seam.last() as int
    } else {
        seam_max(seam.drop_last())
    }
}

/// Whether the incremental update computes the energy at `(x, y)` afresh after
/// `seam` has left a grid that is `width` wide now. In every row these are the
/// two columns next to where the seam passed; in the first and the last row
/// also every column between the smallest and the largest column of the seam.
pub open spec fn recomputed(seam: Seq<usize>, width: int, x: int, y: int) -> bool {
    let s = seam[y] as int;
    ||| x == wrap_prev(s, width)
    ||| x == (if s == width {
        0
    } else {
        s
    })
    ||| ((y == 0 || y == seam.len() - 1) && seam_min(seam) <= x <= seam_max(seam))
}

/// An energy grid that `seam` has left already, after the incremental update:
/// the cells that `recomputed` names get the energy of that pixel of `img`,
/// the others stay.
pub open spec fn refreshed_energy(
    narrow: GridView<u32>,
    img: GridView<Pixel>,
    seam: Seq<usize>,
) -> GridView<u32> {
    let w = narrow.width as int;
    GridView {
        width: narrow.width,
        height: narrow.height,
        cells: Seq::new(
            narrow.cells.len(),
            |i: int|
                if recomputed(seam, w, i % w, i / w) {
                    energy_at(img, i % w, i / w) as u32
                } else {
                    narrow.at(i % w, i / w)
                },
        ),
    }
}

/// An energy grid that `seam` has not left yet, after the seam has left it and
/// the incremental update has been made.
pub open spec fn updated_energy(
    energy: GridView<u32>,
    img: GridView<Pixel>,
    seam: Seq<usize>,
) -> GridView<u32> {
    refreshed_energy(energy.without_seam(seam), img, seam)
}

/// Each column of a seam lies between its smallest and its largest column.
pub proof fn lemma_seam_span(seam: Seq<usize>, y: int)
    requires
        0 <= y < seam.len(),
    ensures
        seam_min(seam) <= seam[y] <= seam_max(seam),
    decreases seam.len(),
{
    if seam.len() > 1 && y < seam.len() - 1 {
        lemma_seam_span(seam.drop_last(), y);
    }
}

/// The squared difference of two pixels is at most `3 * 255 * 255`.
pub proof fn lemma_squared_diff_bound(p: Pixel, q: Pixel)
    ensures
        0 <= squared_diff(p, q) <= 195075,
{
    lemma_channel_bound(p.r, q.r);
    lemma_channel_bound(p.g, q.g);
    lemma_channel_bound(p.b, q.b);
}

proof fn lemma_channel_bound(a: u8, b: u8)
    ensures
        0 <= squared_diff_channel(a, b) <= 65025,
{
    let d = a - b;
    assert(0 <= d * d <= 65025) by (nonlinear_arith)
        requires
            -255 <= d <= 255,
    ;
}

/// An energy is at most `2 * 3 * 255 * 255`, so it fits a `u32`.
pub proof fn lemma_energy_bound(img: GridView<Pixel>, x: int, y: int)
    ensures
        0 <= energy_at(img, x, y) <= 390150,
{
    let w = img.width as int;
    let h = img.height as int;
    lemma_squared_diff_bound(img.at(x, wrap_prev(y, h)), img.at(x, wrap_next(y, h)));
    lemma_squared_diff_bound(img.at(wrap_prev(x, w), y), img.at(wrap_next(x, w), y));
}

/// The energy field has the dimensions of the image and holds each pixel's energy.
pub proof fn lemma_energy_field(img: GridView<Pixel>)
    requires
        img.wf(),
    ensures
        energy_field(img).wf(),
        energy_field(img).width == img.width,
        energy_field(img).height == img.height,
        forall|x: int, y: int| #[trigger]
            energy_field(img).in_bounds(x, y) ==> energy_field(img).at(x, y) == energy_at(
                img,
                x,
                y,
            ),
{
    let e = energy_field(img);
    assert forall|x: int, y: int| #[trigger] e.in_bounds(x, y) implies e.at(x, y) == energy_at(
        img,
        x,
        y,
    ) by {
        lemma_offset_in_range(x, y, img.width as int, img.height as int);
        lemma_energy_bound(img, x, y);
    }
}

/// The refreshed grid has the dimensions that it had; a cell that
/// `recomputed` names holds the energy of that pixel of `img`, any other what
/// it held.
pub proof fn lemma_refreshed_energy(narrow: GridView<u32>, img: GridView<Pixel>, seam: Seq<usize>)
    requires
        narrow.wf(),
    ensures
        refreshed_energy(narrow, img, seam).wf(),
        refreshed_energy(narrow, img, seam).width == narrow.width,
        refreshed_energy(narrow, img, seam).height == narrow.height,
        forall|x: int, y: int| #[trigger]
            refreshed_energy(narrow, img, seam).in_bounds(x, y) ==> refreshed_energy(
                narrow,
                img,
                seam,
            ).at(x, y) == (if recomputed(seam, narrow.width as int, x, y) {
                energy_at(img, x, y) as u32
            } else {
                narrow.at(x, y)
            }),
{
    let fresh = refreshed_energy(narrow, img, seam);
    let w = narrow.width as int;
    assert forall|x: int, y: int| #[trigger] fresh.in_bounds(x, y) implies fresh.at(x, y)
        == (if recomputed(seam, w, x, y) {
        energy_at(img, x, y) as u32
    } else {
        narrow.at(x, y)
    }) by {
        lemma_offset_in_range(x, y, w, narrow.height as int);
    }
}

/// The energies of the transposed image are the transposed energies of the image.
pub proof fn lemma_energy_of_transposed(img: GridView<Pixel>)
    requires
        img.wf(),
    ensures
        energy_field(img.transposed()) == energy_field(img).transposed(),
{
    let turned = img.transposed();
    let left = energy_field(turned);
    let right = energy_field(img).transposed();
    img.lemma_transposed();
    lemma_energy_field(img);
    lemma_energy_field(turned);
    energy_field(img).lemma_transposed();
    let w = img.width as int;
    let h = img.height as int;
    assert forall|x: int, y: int| left.in_bounds(x, y) implies left.at(x, y) == right.at(x, y) by {
        assert(right.in_bounds(x, y));
        assert(energy_field(img).in_bounds(y, x));
        assert(turned.in_bounds(x, wrap_prev(y, w)));
        assert(turned.in_bounds(x, wrap_next(y, w)));
        assert(turned.in_bounds(wrap_prev(x, h), y));
        assert(turned.in_bounds(wrap_next(x, h), y));
    }
    left.lemma_equal_by_cells(right);
}

/// Consecutive rows of the seam are at most one column apart.
pub open spec fn seam_connected(seam: Seq<usize>) -> bool {
    forall|y: int|
        0 <= y < seam.len() - 1 ==> (#[trigger] seam[y]) - seam[y + 1] <= 1 && seam[y + 1]
            - seam[y] <= 1
}

/// A pixel that the incremental update leaves alone has, in the image without
/// the seam, the energy that it had before the seam left.
pub proof fn lemma_cell_keeps_energy(img: GridView<Pixel>, seam: Seq<usize>, x: int, y: int)
    requires
        img.wf(),
        img.valid_seam(seam),
        seam_connected(seam),
        img.without_seam(seam).in_bounds(x, y),
        !recomputed(seam, img.width - 1, x, y),
    ensures
        energy_at(img.without_seam(seam), x, y) == energy_at(
            img,
            skip_column(x, seam[y] as int),
            y,
        ),
{
    let w = img.width - 1;
    let h = img.height as int;
    let cut = img.without_seam(seam);
    img.lemma_without_seam(seam);
    let above = wrap_prev(y, h);
    let below = wrap_next(y, h);
    let left = wrap_prev(x, w);
    let right = wrap_next(x, w);
    let s = seam[y] as int;
    lemma_seam_span(seam, y);
    lemma_seam_span(seam, above);
    lemma_seam_span(seam, below);
    // The four neighbours of the cell in the image without the seam are the
    // four neighbours that it had before.
    let origin = skip_column(x, s);
    assert(cut.in_bounds(x, above) && skip_column(x, seam[above] as int) == origin);
    assert(cut.in_bounds(x, below) && skip_column(x, seam[below] as int) == origin);
    assert(cut.in_bounds(left, y) && skip_column(left, s) == wrap_prev(origin, img.width as int));
    assert(cut.in_bounds(right, y) && skip_column(right, s) == wrap_next(
        origin,
        img.width as int,
    ));
}

/// The incremental update after the removal of a connected seam gives the
/// energy grid that a fresh computation on the image without the seam gives.
pub proof fn lemma_update_matches_compute(img: GridView<Pixel>, seam: Seq<usize>)
    requires
        img.wf(),
        img.valid_seam(seam),
        seam_connected(seam),
    ensures
        refreshed_energy(energy_field(img).without_seam(seam), img.without_seam(seam), seam)
            == energy_field(img.without_seam(seam)),
        updated_energy(energy_field(img), img.without_seam(seam), seam) == energy_field(
            img.without_seam(seam),
        ),
{
    let energy = energy_field(img);
    let cut = img.without_seam(seam);
    let narrow = energy.without_seam(seam);
    let updated = refreshed_energy(narrow, cut, seam);
    let fresh = energy_field(cut);
    lemma_energy_field(img);
    img.lemma_without_seam(seam);
    lemma_energy_field(cut);
    energy.lemma_without_seam(seam);
    lemma_refreshed_energy(narrow, cut, seam);
    assert forall|x: int, y: int| updated.in_bounds(x, y) implies updated.at(x, y) == fresh.at(
        x,
        y,
    ) by {
        assert(fresh.in_bounds(x, y));
        if !recomputed(seam, img.width - 1, x, y) {
            lemma_cell_keeps_energy(img, seam, x, y);
            assert(narrow.in_bounds(x, y));
            assert(energy.in_bounds(skip_column(x, seam[y] as int), y));
        }
    }
    updated.lemma_equal_by_cells(fresh);
}

/// `num_traits::ToPrimitive::to_i32` on a `u8`: every `u8` fits an `i32`, so
/// the result is `Some` of the same number.
#[verifier::external_body]
fn channel_to_i32(channel: u8) -> (r: Option<i32>)
    ensures
        r == Some(channel as i32),
{
    num_traits::ToPrimitive::to_i32(&channel)
}

fn squared_diff_channels(channel_1: u8, channel_2: u8) -> (r: u32)
    ensures
        r == squared_diff_channel(channel_1, channel_2),
{
    let a = channel_to_i32(channel_1).unwrap_or(i32::MAX);
    let b = channel_to_i32(channel_2).unwrap_or(i32::MAX);
    proof {
        lemma_channel_bound(channel_1, channel_2);
    }
    let d = a - b;
    (d * d) as u32
}

fn squared_diff_pixels(pixel_1: Pixel, pixel_2: Pixel) -> (r: u32)
    ensures
        r == squared_diff(pixel_1, pixel_2),
{
    proof {
        lemma_channel_bound(pixel_1.r, pixel_2.r);
        lemma_channel_bound(pixel_1.g, pixel_2.g);
        lemma_channel_bound(pixel_1.b, pixel_2.b);
    }
    let mut diff: u32 = 0;
    diff += squared_diff_channels(pixel_1.r, pixel_2.r);
    diff += squared_diff_channels(pixel_1.g, pixel_2.g);
    diff += squared_diff_channels(pixel_1.b, pixel_2.b);
    diff
}

fn get_energy_pixel(img: &Array2d<Pixel>, x: usize, y: usize) -> (r: u32)
    requires
        img@.in_bounds(x as int, y as int),
    ensures
        r == energy_at(img@, x as int, y as int),
{
    let (width, height) = img.dimensions();
    let above = y.checked_sub(1).unwrap_or(height - 1);
    let below = (y + 1) % height;
    let left = x.checked_sub(1).unwrap_or(width - 1);
    let right = (x + 1) % width;
    proof {
        if y + 1 == height {
            lemma_mod_self_0(height as int);
        } else {
            lemma_small_mod((y + 1) as nat, height as nat);
        }
        if x + 1 == width {
            lemma_mod_self_0(width as int);
        } else {
            lemma_small_mod((x + 1) as nat, width as nat);
        }
        lemma_squared_diff_bound(
            img@.at(x as int, above as int),
            img@.at(x as int, below as int),
        );
        lemma_squared_diff_bound(
            img@.at(left as int, y as int),
            img@.at(right as int, y as int),
        );
    }
    squared_diff_pixels(img[(x, above)], img[(x, below)]) + squared_diff_pixels(
        img[(left, y)],
        img[(right, y)],
    )
}

/// Computes the energy of every pixel. A grid without columns has no rows to
/// cut its cells into and is refused as one of width 0 with no cells.
pub fn get_energy_img(img: &Array2d<Pixel>) -> (r: Result<Array2d<u32>, CarveError>)
    ensures
        r is Ok <==> img@.width > 0,
        r matches Ok(energy) ==> energy@ == energy_field(img@),
        r matches Err(e) ==> e == (CarveError::Construction { len: 0, width: 0 }),
{
    let (width, height) = img.dimensions();
    proof {
        use_type_invariant(img);
        lemma_energy_field(img@);
    }
    let ghost field = energy_field(img@);
    let mut e: Vec<u32> = Vec::new();
    let mut y: usize = 0;
    while y < height
        invariant
            y <= height,
            img@.wf(),
            field == energy_field(img@),
            width == img@.width,
            height == img@.height,
            e@.len() == y * width,
            forall|i: int, j: int|
                0 <= i < width && 0 <= j < y ==> #[trigger] e@[offset(i, j, width as int)]
                    == energy_at(img@, i, j),
        decreases height - y,
    {
        let mut x: usize = 0;
        while x < width
            invariant
                y < height,
                x <= width,
                img@.wf(),
                width == img@.width,
                height == img@.height,
                e@.len() == y * width + x,
                forall|i: int, j: int|
                    0 <= i < width && 0 <= j < y ==> #[trigger] e@[offset(i, j, width as int)]
                        == energy_at(img@, i, j),
                forall|i: int|
                    0 <= i < x ==> #[trigger] e@[offset(i, y as int, width as int)] == energy_at(
                        img@,
                        i,
                        y as int,
                    ),
            decreases width - x,
        {
            let ghost prev = e@;
            proof {
                assert forall|i: int, j: int| 0 <= i < width && 0 <= j < y implies offset(
                    i,
                    j,
                    width as int,
                ) < prev.len() by {
                    lemma_offset_in_range(i, j, width as int, y as int);
                }
            }
            e.push(get_energy_pixel(img, x, y));
            x += 1;
        }
        proof {
            assert((y + 1) * width == y * width + width) by (nonlinear_arith);
        }
        y += 1;
    }
    let ghost built = GridView { width: width as nat, height: height as nat, cells: e@ };
    proof {
        assert(height * width == width * height) by (nonlinear_arith);
        assert forall|i: int, j: int| built.in_bounds(i, j) implies built.at(i, j) == field.at(
            i,
            j,
        ) by {
            assert(field.in_bounds(i, j));
        }
        built.lemma_equal_by_cells(field);
        if width > 0 {
            vstd::arithmetic::div_mod::lemma_fundamental_div_mod_converse(
                e@.len() as int,
                width as int,
                height as int,
                0,
            );
        } else {
            assert(y * width == 0) by (nonlinear_arith)
                requires
                    width == 0,
            ;
        }
    }
    Array2d::new(width, e)
}

/// The smallest and the largest column of a seam.
fn seam_span(seam: &[usize]) -> (span: (usize, usize))
    ensures
        span.0 == seam_min(seam@),
        span.1 == seam_max(seam@),
{
    if seam.len() == 0 {
        return (0, 0);
    }
    let mut first = seam[0];
    let mut last = seam[0];
    let mut y: usize = 1;
    while y < seam.len()
        invariant
            1 <= y <= seam.len(),
            first == seam_min(seam@.take(y as int)),
            last == seam_max(seam@.take(y as int)),
        decreases seam.len() - y,
    {
        assert(seam@.take(y + 1).drop_last() =~= seam@.take(y as int));
        if seam[y] < first {
            first = seam[y];
        }
        if seam[y] > last {
            last = seam[y];
        }
        y += 1;
    }
    assert(seam@.take(y as int) =~= seam@);
    (first, last)
}

/// Computes the energy at `(x, y)` afresh.
fn refresh(energy: &mut Array2d<u32>, img: &Array2d<Pixel>, x: usize, y: usize)
    requires
        img@.in_bounds(x as int, y as int),
        old(energy)@.in_bounds(x as int, y as int),
    ensures
        final(energy)@ == old(energy)@.with_cell(
            x as int,
            y as int,
            energy_at(img@, x as int, y as int) as u32,
        ),
{
    let value = get_energy_pixel(img, x, y);
    *energy.index_mut((x, y)) = value;
}

/// Brings an energy grid up to date after `seam` has left both the image and
/// the energy grid: the energies next to the seam, and in the first and last
/// row those between the seam's smallest and largest column, are computed
/// afresh from `img`, which is the image without the seam. A seam whose length
/// is not the height is refused and `energy` stays as it was.
pub fn refresh_energy_img(energy: &mut Array2d<u32>, img: &Array2d<Pixel>, seam: &[usize]) -> (r:
    Result<(), CarveError>)
    requires
        seam@.len() == old(energy)@.height ==> {
            &&& img@.width == old(energy)@.width
            &&& img@.height == old(energy)@.height
            &&& forall|y: int| 0 <= y < seam@.len() ==> (#[trigger] seam@[y]) <= img@.width
        },
    ensures
        r is Ok <==> seam@.len() == old(energy)@.height,
        r is Ok ==> final(energy)@ == refreshed_energy(old(energy)@, img@, seam@),
        r matches Err(e) ==> final(energy)@ == old(energy)@ && e == (CarveError::SeamLength {
            seam_len: seam.len(),
            height: old(energy)@.height as usize,
        }),
{
    let ghost removed = energy@;
    proof {
        use_type_invariant(&*energy);
        use_type_invariant(img);
    }
    if seam.len() != energy.height() {
        return Err(CarveError::SeamLength { seam_len: seam.len(), height: energy.height() });
    }
    let ghost target = refreshed_energy(removed, img@, seam@);
    proof {
        lemma_refreshed_energy(removed, img@, seam@);
    }
    let (width, height) = img.dimensions();
    if width > 0 {
        let (first, last) = seam_span(seam);
        let mut y: usize = 0;
        while y < height
            invariant
                y <= height,
                width > 0,
                img@.wf(),
                img@.width == width,
                img@.height == height,
                seam@.len() == height,
                forall|j: int| 0 <= j < seam@.len() ==> (#[trigger] seam@[j]) <= width,
                removed.wf(),
                target == refreshed_energy(removed, img@, seam@),
                target.wf(),
                target.width == width,
                target.height == height,
                first == seam_min(seam@),
                last == seam_max(seam@),
                energy@.wf(),
                energy@.width == width,
                energy@.height == height,
                forall|i: int, j: int|
                    0 <= i < width && 0 <= j < y ==> #[trigger] energy@.at(i, j) == target.at(i, j),
                forall|i: int, j: int|
                    0 <= i < width && y <= j < height ==> #[trigger] energy@.at(i, j)
                        == removed.at(i, j),
                forall|i: int, j: int| #[trigger]
                    target.in_bounds(i, j) ==> target.at(i, j) == (if recomputed(
                        seam@,
                        width as int,
                        i,
                        j,
                    ) {
                        energy_at(img@, i, j) as u32
                    } else {
                        removed.at(i, j)
                    }),
            decreases height - y,
        {
            let s = seam[y];
            let ghost row_start = energy@;
            let edge = y == 0 || y == height - 1;
            proof {
                lemma_seam_span(seam@, y as int);
            }
            if edge {
                let mut i: usize = first;
                while i <= last && i < width
                    invariant
                        y < height,
                        first <= i <= last + 1,
                        img@.wf(),
                        img@.width == width,
                        img@.height == height,
                        row_start.wf(),
                        row_start.width == width,
                        row_start.height == height,
                        energy@.wf(),
                        energy@.width == width,
                        energy@.height == height,
                        forall|c: int, j: int|
                            0 <= c < width && 0 <= j < height && j != y ==> #[trigger] energy@.at(
                                c,
                                j,
                            ) == row_start.at(c, j),
                        forall|c: int|
                            0 <= c < width ==> #[trigger] energy@.at(c, y as int) == (if first <= c
                                < i {
                                energy_at(img@, c, y as int) as u32
                            } else {
                                row_start.at(c, y as int)
                            }),
                    decreases width - i,
                {
                    proof {
                        energy@.lemma_with_cell(
                            i as int,
                            y as int,
                            energy_at(img@, i as int, y as int) as u32,
                        );
                    }
                    let ghost prev = energy@;
                    refresh(energy, img, i, y);
                    proof {
                        assert forall|c: int, j: int|
                            0 <= c < width && 0 <= j < height && j != y implies #[trigger]
                            energy@.at(c, j) == row_start.at(c, j) by {
                            assert(prev.in_bounds(c, j));
                        }
                        assert forall|c: int| 0 <= c < width implies #[trigger] energy@.at(
                            c,
                            y as int,
                        ) == (if first <= c < i + 1 {
                            energy_at(img@, c, y as int) as u32
                        } else {
                            row_start.at(c, y as int)
                        }) by {
                            assert(prev.in_bounds(c, y as int));
                        }
                    }
                    i += 1;
                }
            }
            let ghost spanned = energy@;
            proof {
                assert forall|c: int| 0 <= c < width implies #[trigger] spanned.at(c, y as int)
                    == (if edge && first <= c <= last {
                    energy_at(img@, c, y as int) as u32
                } else {
                    row_start.at(c, y as int)
                }) by {}
                assert forall|c: int, j: int|
                    0 <= c < width && 0 <= j < height && j != y implies #[trigger] spanned.at(c, j)
                    == row_start.at(c, j) by {}
            }
            let left = s.checked_sub(1).unwrap_or(width - 1);
            let right = s % width;
            proof {
                if s == width {
                    lemma_mod_self_0(width as int);
                } else {
                    lemma_small_mod(s as nat, width as nat);
                }
                spanned.lemma_with_cell(
                    left as int,
                    y as int,
                    energy_at(img@, left as int, y as int) as u32,
                );
            }
            refresh(energy, img, left, y);
            let ghost mid = energy@;
            proof {
                mid.lemma_with_cell(
                    right as int,
                    y as int,
                    energy_at(img@, right as int, y as int) as u32,
                );
            }
            refresh(energy, img, right, y);
            proof {
                assert forall|c: int, j: int|
                    0 <= c < width && 0 <= j < y + 1 implies #[trigger] energy@.at(c, j)
                    == target.at(c, j) by {
                    assert(mid.in_bounds(c, j));
                    assert(spanned.in_bounds(c, j));
                    assert(target.in_bounds(c, j));
                }
                assert forall|c: int, j: int|
                    0 <= c < width && y + 1 <= j < height implies #[trigger] energy@.at(c, j)
                    == removed.at(c, j) by {
                    assert(mid.in_bounds(c, j));
                    assert(spanned.in_bounds(c, j));
                }
            }
            y += 1;
        }
        proof {
            assert forall|i: int, j: int| energy@.in_bounds(i, j) implies energy@.at(i, j)
                == target.at(i, j) by {}
            energy@.lemma_equal_by_cells(target);
        }
    } else {
        proof {
            assert(removed.cells.len() == 0) by (nonlinear_arith)
                requires
                    removed.cells.len() == removed.width * removed.height,
                    removed.width == 0,
            ;
            assert(target.cells =~= removed.cells);
        }
    }
    Ok(())
}

/// Brings an energy grid up to date after `seam` has left the image but not
/// yet the energy grid: the seam leaves `energy`, then the incremental update
/// is made from `img`, which is the image without the seam. A seam whose
/// length is not the height is refused and `energy` stays as it was.
pub fn update_energy_img(energy: &mut Array2d<u32>, img: &Array2d<Pixel>, seam: &[usize]) -> (r:
    Result<(), CarveError>)
    requires
        seam@.len() == old(energy)@.height ==> {
            &&& old(energy)@.valid_seam(seam@)
            &&& img@.width == old(energy)@.width - 1
            &&& img@.height == old(energy)@.height
        },
    ensures
        r is Ok <==> seam@.len() == old(energy)@.height,
        r is Ok ==> final(energy)@ == updated_energy(old(energy)@, img@, seam@),
        r matches Err(e) ==> final(energy)@ == old(energy)@ && e == (CarveError::SeamLength {
            seam_len: seam.len(),
            height: old(energy)@.height as usize,
        }),
{
    proof {
        use_type_invariant(&*energy);
        if seam@.len() == energy@.height {
            energy@.lemma_without_seam(seam@);
        }
    }
    match energy.remove_seam(seam) {
        Ok(()) => refresh_energy_img(energy, img, seam),
        Err(e) => Err(e),
    }
}

} // verus!
