//! The search for the connected top-to-bottom path of least total energy.

use crate::array::Array2d;
use crate::array::store;
use crate::energy::seam_connected;
use crate::grid::GridView;
use vstd::prelude::*;

verus! {

/// The cheaper of the costs below `(x, y)`: straight down, unless down-left is
/// strictly cheaper; and that, unless down-right is strictly cheaper still.
pub open spec fn cost_below(energy: GridView<u32>, x: int, y: int) -> int
    decreases energy.height - y, 0int,
{
    if y + 1 < energy.height {
        let straight = seam_cost(energy, x, y + 1);
        let low = if x > 0 && seam_cost(energy, x - 1, y + 1) < straight {
            seam_cost(energy, x - 1, y + 1)
        } else {
            straight
        };
        if x < energy.width - 1 && seam_cost(energy, x + 1, y + 1) < low {
            seam_cost(energy, x + 1, y + 1)
        } else {
            low
        }
    } else {
        0
    }
}

/// The least total energy of a connected path from `(x, y)` down to the last row.
pub open spec fn seam_cost(energy: GridView<u32>, x: int, y: int) -> int
    decreases energy.height - y, 1int,
{
    energy.at(x, y) + cost_below(energy, x, y)
}

/// The column in row `y + 1` that the cheapest path from `(x, y)` goes to.
/// Ties go to straight down, then to down-left, then to down-right.
pub open spec fn step(energy: GridView<u32>, x: int, y: int) -> int {
    let straight = seam_cost(energy, x, y + 1);
    let left_wins = x > 0 && seam_cost(energy, x - 1, y + 1) < straight;
    let low = if left_wins {
        seam_cost(energy, x - 1, y + 1)
    } else {
        straight
    };
    if x < energy.width - 1 && seam_cost(energy, x + 1, y + 1) < low {
        x + 1
    } else if left_wins {
        x - 1
    } else {
        x
    }
}

/// The first among the columns `0..n` whose cost from the top row is least.
pub open spec fn cheapest_start(energy: GridView<u32>, n: int) -> int
    decreases n,
{
    if n <= 1 {
        0
    } else {
        let best = cheapest_start(energy, n - 1);
        if seam_cost(energy, n - 1, 0) < seam_cost(energy, best, 0) {
            n - 1
        } else {
            best
        }
    }
}

/// The column of the cheapest seam in row `y`.
pub open spec fn seam_column(energy: GridView<u32>, y: int) -> int
    decreases y,
{
    if y <= 0 {
        cheapest_start(energy, energy.width as int)
    } else {
        step(energy, seam_column(energy, y - 1), y - 1)
    }
}

/// The cheapest seam: one column per row, from the top row down.
pub open spec fn vertical_seam(energy: GridView<u32>) -> Seq<usize> {
    Seq::new(energy.height, |y: int| seam_column(energy, y) as usize)
}

/// One column of the grid per row, consecutive rows at most one column apart.
pub open spec fn is_path(energy: GridView<u32>, path: Seq<usize>) -> bool {
    &&& path.len() == energy.height
    &&& forall|y: int| 0 <= y < path.len() ==> (#[trigger] path[y]) < energy.width
    &&& seam_connected(path)
}

/// The energy that a path collects from row `from` down to the last row.
pub open spec fn path_energy(energy: GridView<u32>, path: Seq<usize>, from: int) -> int
    decreases energy.height - from,
{
    if 0 <= from < energy.height {
        energy.at(path[from] as int, from) + path_energy(energy, path, from + 1)
    } else {
        0
    }
}

/// The cost of a cell is its energy plus the cost of the cell that `step` names.
pub proof fn lemma_cost_step(energy: GridView<u32>, x: int, y: int)
    requires
        0 <= x < energy.width,
        0 <= y < energy.height,
    ensures
        0 <= step(energy, x, y) < energy.width,
        step(energy, x, y) - x <= 1,
        x - step(energy, x, y) <= 1,
        y + 1 < energy.height ==> seam_cost(energy, x, y) == energy.at(x, y) + seam_cost(
            energy,
            step(energy, x, y),
            y + 1,
        ),
        y + 1 == energy.height ==> seam_cost(energy, x, y) == energy.at(x, y),
        y + 1 < energy.height ==> seam_cost(energy, x, y) <= energy.at(x, y) + seam_cost(
            energy,
            x,
            y + 1,
        ),
        y + 1 < energy.height && x > 0 ==> seam_cost(energy, x, y) <= energy.at(x, y) + seam_cost(
            energy,
            x - 1,
            y + 1,
        ),
        y + 1 < energy.height && x + 1 < energy.width ==> seam_cost(energy, x, y) <= energy.at(
            x,
            y,
        ) + seam_cost(energy, x + 1, y + 1),
{
}

/// A cost is at most the largest energy times the number of rows that remain.
pub proof fn lemma_cost_bound(energy: GridView<u32>, x: int, y: int)
    requires
        0 <= x < energy.width,
        0 <= y < energy.height,
    ensures
        0 <= seam_cost(energy, x, y) <= (energy.height - y) * 0xffff_ffff,
    decreases energy.height - y,
{
    lemma_cost_step(energy, x, y);
    if y + 1 < energy.height {
        lemma_cost_bound(energy, step(energy, x, y), y + 1);
        assert((energy.height - y) * 0xffff_ffff == (energy.height - (y + 1)) * 0xffff_ffff
            + 0xffff_ffff) by (nonlinear_arith);
    } else {
        assert((energy.height - y) * 0xffff_ffff == 0xffff_ffff) by (nonlinear_arith)
            requires
                energy.height - y == 1,
        ;
    }
}

/// `cheapest_start` names a column among the first `n` whose cost is least, and
/// the first such column.
pub proof fn lemma_cheapest_start(energy: GridView<u32>, n: int)
    requires
        1 <= n,
    ensures
        0 <= cheapest_start(energy, n) < n,
        forall|x: int|
            0 <= x < n ==> seam_cost(energy, cheapest_start(energy, n), 0) <= #[trigger] seam_cost(
                energy,
                x,
                0,
            ),
        forall|x: int|
            0 <= x < cheapest_start(energy, n) ==> seam_cost(energy, cheapest_start(energy, n), 0)
                < #[trigger] seam_cost(energy, x, 0),
    decreases n,
{
    if n > 1 {
        lemma_cheapest_start(energy, n - 1);
    }
}

/// Every column of the cheapest seam lies inside the grid.
pub proof fn lemma_seam_column_in_range(energy: GridView<u32>, y: int)
    requires
        energy.width >= 1,
        0 <= y < energy.height,
    ensures
        0 <= seam_column(energy, y) < energy.width,
    decreases y,
{
    if y <= 0 {
        lemma_cheapest_start(energy, energy.width as int);
    } else {
        lemma_seam_column_in_range(energy, y - 1);
        lemma_cost_step(energy, seam_column(energy, y - 1), y - 1);
    }
}

/// The cheapest seam is a path: its columns lie inside the grid and consecutive
/// rows are at most one column apart.
pub proof fn lemma_vertical_seam_is_path(energy: GridView<u32>)
    requires
        energy.wf(),
        energy.width >= 1,
    ensures
        is_path(energy, vertical_seam(energy)),
        energy.valid_seam(vertical_seam(energy)),
{
    let seam = vertical_seam(energy);
    assert forall|y: int| 0 <= y < seam.len() implies (#[trigger] seam[y]) < energy.width by {
        lemma_seam_column_in_range(energy, y);
    }
    assert forall|y: int| 0 <= y < seam.len() - 1 implies (#[trigger] seam[y]) - seam[y + 1] <= 1
        && seam[y + 1] - seam[y] <= 1 by {
        lemma_seam_column_in_range(energy, y);
        lemma_seam_column_in_range(energy, y + 1);
        lemma_cost_step(energy, seam_column(energy, y), y);
    }
}

/// No path from row `from` down collects less energy than the cost of its cell
/// in row `from`.
pub proof fn lemma_path_energy_at_least_cost(energy: GridView<u32>, path: Seq<usize>, from: int)
    requires
        is_path(energy, path),
        0 <= from < energy.height,
    ensures
        seam_cost(energy, path[from] as int, from) <= path_energy(energy, path, from),
    decreases energy.height - from,
{
    lemma_cost_step(energy, path[from] as int, from);
    if from + 1 < energy.height {
        lemma_path_energy_at_least_cost(energy, path, from + 1);
    } else {
        assert(path_energy(energy, path, from + 1) == 0);
    }
}

/// The cheapest seam collects, from row `from` down, exactly the cost of its
/// cell in row `from`.
pub proof fn lemma_seam_energy_is_cost(energy: GridView<u32>, from: int)
    requires
        energy.wf(),
        energy.width >= 1,
        0 <= from < energy.height,
    ensures
        path_energy(energy, vertical_seam(energy), from) == seam_cost(
            energy,
            seam_column(energy, from),
            from,
        ),
    decreases energy.height - from,
{
    let seam = vertical_seam(energy);
    lemma_seam_column_in_range(energy, from);
    lemma_cost_step(energy, seam_column(energy, from), from);
    if from + 1 < energy.height {
        lemma_seam_energy_is_cost(energy, from + 1);
        lemma_seam_column_in_range(energy, from + 1);
        assert(seam_column(energy, from + 1) == step(
            energy,
            seam_column(energy, from + 1 - 1),
            from,
        ));
    } else {
        assert(path_energy(energy, seam, from + 1) == 0);
    }
}

/// No path through the grid collects less energy than the cheapest seam.
pub proof fn lemma_vertical_seam_is_cheapest(energy: GridView<u32>, path: Seq<usize>)
    requires
        energy.wf(),
        energy.width >= 1,
        energy.height >= 1,
        is_path(energy, path),
    ensures
        path_energy(energy, vertical_seam(energy), 0) <= path_energy(energy, path, 0),
{
    lemma_seam_energy_is_cost(energy, 0);
    lemma_path_energy_at_least_cost(energy, path, 0);
    lemma_cheapest_start(energy, energy.width as int);
    assert(seam_cost(energy, cheapest_start(energy, energy.width as int), 0) <= seam_cost(
        energy,
        path[0] as int,
        0,
    ));
}

/// Finds the connected top-to-bottom path of least total energy: the costs of
/// all cells are tabulated from the last row up, the path starts at the first
/// column whose cost in the top row is least and follows the recorded steps.
pub fn find_vertical_seam(energy: &Array2d<u32>) -> (seam: Vec<usize>)
    requires
        energy@.width >= 1,
        energy@.height >= 1,
    ensures
        seam@ == vertical_seam(energy@),
        seam@.len() == energy@.height,
        forall|y: int| 0 <= y < seam@.len() ==> (#[trigger] seam@[y]) < energy@.width,
        seam_connected(seam@),
        energy@.valid_seam(seam@),
        forall|path: Seq<usize>|
            is_path(energy@, path) ==> path_energy(energy@, seam@, 0) <= #[trigger] path_energy(
                energy@,
                path,
                0,
            ),
{
    let (width, height, size) = (energy.width(), energy.height(), energy.size());
    let ghost field = energy@;
    proof {
        use_type_invariant(energy);
        lemma_vertical_seam_is_path(field);
        vstd::arithmetic::div_mod::lemma_fundamental_div_mod_converse(
            size as int,
            width as int,
            height as int,
            0,
        );
        assert((height - 1) * width == size - width) by (nonlinear_arith)
            requires
                size == width * height,
        ;
        assert(size - width >= 0) by (nonlinear_arith)
            requires
                size == width * height,
                height >= 1,
                width >= 1,
        ;
        vstd::arithmetic::div_mod::lemma_fundamental_div_mod_converse(
            size - width,
            width as int,
            height - 1,
            0,
        );
    }
    let steps = size - width;
    let mut cost: Array2d<u128> = Array2d::new(width, vec![0u128; size]).unwrap();
    let mut path: Array2d<usize> = Array2d::new(width, vec![0usize; steps]).unwrap();
    let mut x: usize = 0;
    while x < width
        invariant
            x <= width,
            field == energy@,
            field.wf(),
            width == field.width,
            height == field.height,
            height >= 1,
            cost@.wf(),
            cost@.width == width,
            cost@.height == height,
            forall|i: int|
                0 <= i < x ==> #[trigger] cost@.at(i, height - 1) == seam_cost(
                    field,
                    i,
                    height - 1,
                ),
        decreases width - x,
    {
        let ghost prev = cost@;
        store(&mut cost, x, height - 1, energy[(x, height - 1)] as u128);
        proof {
            assert forall|i: int| 0 <= i < x + 1 implies #[trigger] cost@.at(i, height - 1)
                == seam_cost(field, i, height - 1) by {
                assert(prev.in_bounds(i, height - 1));
                lemma_cost_step(field, i, height - 1);
            }
        }
        x += 1;
    }
    let mut y: usize = height - 1;
    while y > 0
        invariant
            y < height,
            field == energy@,
            field.wf(),
            width == field.width,
            height == field.height,
            width >= 1,
            cost@.wf(),
            cost@.width == width,
            cost@.height == height,
            path@.wf(),
            path@.width == width,
            path@.height == height - 1,
            forall|i: int, j: int|
                0 <= i < width && y <= j < height ==> #[trigger] cost@.at(i, j) == seam_cost(
                    field,
                    i,
                    j,
                ),
            forall|i: int, j: int|
                0 <= i < width && y <= j < height - 1 ==> #[trigger] path@.at(i, j) == step(
                    field,
                    i,
                    j,
                ),
        decreases y,
    {
        y -= 1;
        let mut x: usize = 0;
        while x < width
            invariant
                x <= width,
                y + 1 < height,
                field == energy@,
                field.wf(),
                width == field.width,
                height == field.height,
                width >= 1,
                cost@.wf(),
                cost@.width == width,
                cost@.height == height,
                path@.wf(),
                path@.width == width,
                path@.height == height - 1,
                forall|i: int, j: int|
                    0 <= i < width && y < j < height ==> #[trigger] cost@.at(i, j) == seam_cost(
                        field,
                        i,
                        j,
                    ),
                forall|i: int, j: int|
                    0 <= i < width && y < j < height - 1 ==> #[trigger] path@.at(i, j) == step(
                        field,
                        i,
                        j,
                    ),
                forall|i: int|
                    0 <= i < x ==> #[trigger] cost@.at(i, y as int) == seam_cost(
                        field,
                        i,
                        y as int,
                    ),
                forall|i: int|
                    0 <= i < x ==> #[trigger] path@.at(i, y as int) == step(field, i, y as int),
            decreases width - x,
        {
            let mut best_index = x;
            let mut min_cost = cost[(x, y + 1)];
            if x > 0 {
                if cost[(x - 1, y + 1)] < min_cost {
                    best_index = x - 1;
                    min_cost = cost[(x - 1, y + 1)];
                }
            }
            if x < width - 1 {
                if cost[(x + 1, y + 1)] < min_cost {
                    best_index = x + 1;
                    min_cost = cost[(x + 1, y + 1)];
                }
            }
            proof {
                lemma_cost_step(field, x as int, y as int);
                lemma_cost_bound(field, x as int, y as int);
                assert((height - y) * 0xffff_ffff <= 0xffff_ffff_ffff_ffff * 0xffff_ffff)
                    by (nonlinear_arith)
                    requires
                        0 <= height - y <= 0xffff_ffff_ffff_ffff,
                ;
            }
            let ghost prev_cost = cost@;
            let ghost prev_path = path@;
            store(&mut path, x, y, best_index);
            store(&mut cost, x, y, energy[(x, y)] as u128 + min_cost);
            proof {
                assert forall|i: int, j: int|
                    0 <= i < width && y < j < height implies #[trigger] cost@.at(i, j)
                    == seam_cost(field, i, j) by {
                    assert(prev_cost.in_bounds(i, j));
                }
                assert forall|i: int, j: int|
                    0 <= i < width && y < j < height - 1 implies #[trigger] path@.at(i, j) == step(
                    field,
                    i,
                    j,
                ) by {
                    assert(prev_path.in_bounds(i, j));
                }
                assert forall|i: int| 0 <= i < x + 1 implies #[trigger] cost@.at(i, y as int)
                    == seam_cost(field, i, y as int) by {
                    assert(prev_cost.in_bounds(i, y as int));
                }
                assert forall|i: int| 0 <= i < x + 1 implies #[trigger] path@.at(i, y as int)
                    == step(field, i, y as int) by {
                    assert(prev_path.in_bounds(i, y as int));
                }
            }
            x += 1;
        }
    }
    let mut best: usize = 0;
    let mut x: usize = 1;
    while x < width
        invariant
            1 <= x <= width,
            best < x,
            field == energy@,
            width == field.width,
            height == field.height,
            height >= 1,
            cost@.wf(),
            cost@.width == width,
            cost@.height == height,
            forall|i: int| 0 <= i < width ==> #[trigger] cost@.at(i, 0) == seam_cost(field, i, 0),
            best == cheapest_start(field, x as int),
        decreases width - x,
    {
        if cost[(x, 0)] < cost[(best, 0)] {
            best = x;
        }
        x += 1;
    }
    let mut seam: Vec<usize> = Vec::with_capacity(height);
    seam.push(best);
    let mut y: usize = 0;
    while y < height - 1
        invariant
            y <= height - 1,
            field == energy@,
            field.wf(),
            width == field.width,
            height == field.height,
            width >= 1,
            path@.wf(),
            path@.width == width,
            path@.height == height - 1,
            forall|i: int, j: int|
                0 <= i < width && 0 <= j < height - 1 ==> #[trigger] path@.at(i, j) == step(
                    field,
                    i,
                    j,
                ),
            seam@.len() == y + 1,
            forall|k: int| 0 <= k <= y ==> #[trigger] seam@[k] == seam_column(field, k),
        decreases height - 1 - y,
    {
        let from = seam[y];
        proof {
            lemma_seam_column_in_range(field, y as int);
            lemma_seam_column_in_range(field, y + 1);
            assert(seam_column(field, y + 1) == step(
                field,
                seam_column(field, y + 1 - 1),
                y as int,
            ));
        }
        seam.push(path[(from, y)]);
        y += 1;
    }
    proof {
        assert forall|k: int| 0 <= k < seam@.len() implies seam@[k] == vertical_seam(field)[k] by {
            lemma_seam_column_in_range(field, k);
        }
        assert(seam@ =~= vertical_seam(field));
        assert forall|path: Seq<usize>| is_path(field, path) implies path_energy(field, seam@, 0)
            <= #[trigger] path_energy(field, path, 0) by {
            lemma_vertical_seam_is_cheapest(field, path);
        }
    }
    seam
}

} // verus!
