//! Content-aware image resizing by seam carving: an image is made narrower or
//! lower by taking out, and wider or higher by doubling, its connected paths of
//! least energy.

pub mod array;
pub mod carve;
pub mod energy;
pub mod error;
pub mod grid;
pub mod insert;
pub mod parser;
pub mod pixel;
pub mod raster;
pub mod seam;

use crate::array::Array2d;
use crate::carve::carve_vertical;
use crate::carve::carved;
use crate::carve::lemma_carved;
use crate::energy::get_energy_img;
use crate::energy::lemma_energy_of_transposed;
use crate::error::CarveError;
use crate::grid::GridView;
use crate::insert::insert_horizontal;
use crate::insert::insert_vertical;
use crate::insert::lemma_widened;
use crate::insert::widened;
use crate::pixel::Pixel;
use crate::raster::Raster;
use crate::raster::fits_raster;
use vstd::prelude::*;

verus! {

/// The image brought to the width `target`: carved where it is too wide,
/// widened where it is too narrow.
pub open spec fn fit_width(img: GridView<Pixel>, target: nat) -> GridView<Pixel> {
    if target < img.width {
        carved(img, (img.width - target) as nat)
    } else if target > img.width {
        widened(img, (target - img.width) as nat)
    } else {
        img
    }
}

/// The image brought to the height `target`: what fitting the width of the
/// transposed image gives, transposed back.
pub open spec fn fit_height(img: GridView<Pixel>, target: nat) -> GridView<Pixel> {
    fit_width(img.transposed(), target).transposed()
}

/// What resizing an image to the given dimensions gives. The image itself
/// where it has them already. Otherwise a target of 0 is out of bounds, and a
/// target of more than twice a dimension asks for more seams than the image
/// has columns or rows. Otherwise the width is fitted first and the height
/// after it.
pub open spec fn resized(img: GridView<Pixel>, target_width: nat, target_height: nat) -> Result<
    GridView<Pixel>,
    CarveError,
> {
    if target_width == img.width && target_height == img.height {
        Ok(img)
    } else if target_width == 0 || target_height == 0 {
        Err(CarveError::BoundsViolation)
    } else if target_width > 2 * img.width || target_height > 2 * img.height {
        Err(CarveError::Capacity)
    } else {
        Ok(fit_height(fit_width(img, target_width), target_height))
    }
}

/// Fitting the width gives an image of that width and of the same height.
pub proof fn lemma_fit_width(img: GridView<Pixel>, target: nat)
    requires
        img.wf(),
        target <= 2 * img.width,
        target <= usize::MAX,
    ensures
        fit_width(img, target).wf(),
        fit_width(img, target).width == target,
        fit_width(img, target).height == img.height,
{
    if target < img.width {
        lemma_carved(img, (img.width - target) as nat);
    } else if target > img.width {
        lemma_widened(img, (target - img.width) as nat);
    }
}

/// Fitting the height gives an image of that height and of the same width.
pub proof fn lemma_fit_height(img: GridView<Pixel>, target: nat)
    requires
        img.wf(),
        target <= 2 * img.height,
        target <= usize::MAX,
    ensures
        fit_height(img, target).wf(),
        fit_height(img, target).width == img.width,
        fit_height(img, target).height == target,
{
    img.lemma_transposed();
    lemma_fit_width(img.transposed(), target);
    fit_width(img.transposed(), target).lemma_transposed();
}

/// Resizing an image to the dimensions that it has gives the image back.
pub proof fn lemma_resized_to_own_dimensions(img: GridView<Pixel>)
    ensures
        resized(img, img.width, img.height) == Ok::<GridView<Pixel>, CarveError>(img),
{
}

/// Resizing fails for exactly two reasons, unless the image has the asked
/// dimensions already: a target of 0 is out of bounds; a target of more than
/// twice a dimension is beyond the capacity of the image. Every other target
/// is reached.
pub proof fn lemma_resized_refusals(img: GridView<Pixel>, target_width: nat, target_height: nat)
    requires
        img.wf(),
        target_width != img.width || target_height != img.height,
        target_width <= usize::MAX,
        target_height <= usize::MAX,
    ensures
        resized(img, target_width, target_height) == Err::<GridView<Pixel>, CarveError>(
            CarveError::BoundsViolation,
        ) <==> target_width == 0 || target_height == 0,
        resized(img, target_width, target_height) == Err::<GridView<Pixel>, CarveError>(
            CarveError::Capacity,
        ) <==> target_width > 0 && target_height > 0 && (target_width > 2 * img.width
            || target_height > 2 * img.height),
        resized(img, target_width, target_height) matches Ok(out) ==> out.wf() && out.width
            == target_width && out.height == target_height,
{
    if resized(img, target_width, target_height) is Ok {
        lemma_fit_width(img, target_width);
        lemma_fit_height(fit_width(img, target_width), target_height);
    }
}

/// Brings the image to the width `target`.
fn fit_to_width(img: Array2d<Pixel>, target: usize) -> (r: Result<Array2d<Pixel>, CarveError>)
    requires
        1 <= target <= 2 * img@.width,
        img@.height >= 1,
    ensures
        r matches Ok(out) && out@ == fit_width(img@, target as nat),
{
    let width = img.width();
    if target < width {
        let mut img = img;
        let mut energy_map = match get_energy_img(&img) {
            Ok(energy_map) => energy_map,
            Err(e) => {
                return Err(e);
            },
        };
        match carve_vertical(&mut energy_map, &mut img, width - target) {
            Ok(()) => Ok(img),
            Err(e) => Err(e),
        }
    } else if target > width {
        insert_vertical(&img, target - width)
    } else {
        Ok(img)
    }
}

/// Brings the image to the height `target`. Where it is too high, the image
/// and its energies are transposed, carved and transposed back.
fn fit_to_height(img: Array2d<Pixel>, target: usize) -> (r: Result<
    Array2d<Pixel>,
    CarveError,
>)
    requires
        1 <= target <= 2 * img@.height,
        img@.width >= 1,
    ensures
        r matches Ok(out) && out@ == fit_height(img@, target as nat),
{
    let height = img.height();
    proof {
        use_type_invariant(&img);
        img@.lemma_transposed();
    }
    if target < height {
        let mut img = img;
        let mut energy_map = match get_energy_img(&img) {
            Ok(energy_map) => energy_map,
            Err(e) => {
                return Err(e);
            },
        };
        proof {
            lemma_energy_of_transposed(img@);
        }
        img.transpose();
        energy_map.transpose();
        match carve_vertical(&mut energy_map, &mut img, height - target) {
            Ok(()) => {
                img.transpose();
                Ok(img)
            },
            Err(e) => Err(e),
        }
    } else if target > height {
        insert_horizontal(&img, target - height)
    } else {
        proof {
            img@.lemma_transpose_involution();
        }
        Ok(img)
    }
}

/// Resizes the image to `target_width` by `target_height` by taking out or
/// doubling its seams of least energy.
pub fn resize(img: Array2d<Pixel>, target_width: u32, target_height: u32) -> (r: Result<
    Array2d<Pixel>,
    CarveError,
>)
    ensures
        match resized(img@, target_width as nat, target_height as nat) {
            Ok(grid) => r matches Ok(out) && out@ == grid,
            Err(e) => r matches Err(f) && f == e,
        },
{
    let (width, height) = img.dimensions();
    let target_w = target_width as usize;
    let target_h = target_height as usize;
    if target_w == width && target_h == height {
        return Ok(img);
    }
    if target_w == 0 || target_h == 0 {
        return Err(CarveError::BoundsViolation);
    }
    if (target_w > width && target_w - width > width) || (target_h > height && target_h - height
        > height) {
        return Err(CarveError::Capacity);
    }
    proof {
        use_type_invariant(&img);
        lemma_fit_width(img@, target_w as nat);
    }
    match fit_to_width(img, target_w) {
        Ok(fitted) => fit_to_height(fitted, target_h),
        Err(e) => Err(e),
    }
}

/// Resizes an image to `new_width` by `new_height`: its pixels are laid out as
/// a grid, the grid is resized, and the result is laid out as an image again.
pub fn seamcarve(img: &Raster, new_width: u32, new_height: u32) -> (r: Result<Raster, CarveError>)
    ensures
        match resized(img@, new_width as nat, new_height as nat) {
            Ok(grid) => if fits_raster(grid.width, grid.height) {
                r matches Ok(out) && out@ == grid
            } else {
                r matches Err(e) && e == CarveError::BoundsViolation
            },
            Err(e) => r matches Err(f) && f == e,
        },
{
    let grid = match Array2d::from_image(img) {
        Ok(grid) => grid,
        Err(e) => {
            return Err(e);
        },
    };
    match resize(grid, new_width, new_height) {
        Ok(carved) => carved.to_image(),
        Err(e) => Err(e),
    }
}

} // verus!

