//! Making an image narrower by taking out its cheapest seams.

use crate::array::Array2d;
use crate::energy::energy_field;
use crate::energy::lemma_energy_field;
use crate::energy::lemma_update_matches_compute;
use crate::energy::refresh_energy_img;
use crate::error::CarveError;
use crate::grid::GridView;
use crate::pixel::Pixel;
use crate::seam::find_vertical_seam;
use crate::seam::lemma_vertical_seam_is_path;
use crate::seam::vertical_seam;
use vstd::prelude::*;

verus! {

/// The image without its cheapest seam.
pub open spec fn carved_once(img: GridView<Pixel>) -> GridView<Pixel> {
    img.without_seam(vertical_seam(energy_field(img)))
}

/// The image after its cheapest seam has been taken out `n` times in a row,
/// each time the cheapest seam of what the time before left.
pub open spec fn carved(img: GridView<Pixel>, n: nat) -> GridView<Pixel>
    decreases n,
{
    if n == 0 {
        img
    } else {
        carved_once(carved(img, (n - 1) as nat))
    }
}

/// Carving `n` seams out of an image takes `n` columns away and keeps the rows.
pub proof fn lemma_carved(img: GridView<Pixel>, n: nat)
    requires
        img.wf(),
        n <= img.width,
    ensures
        carved(img, n).wf(),
        carved(img, n).width == img.width - n,
        carved(img, n).height == img.height,
    decreases n,
{
    if n > 0 {
        let before = carved(img, (n - 1) as nat);
        lemma_carved(img, (n - 1) as nat);
        lemma_energy_field(before);
        lemma_vertical_seam_is_path(energy_field(before));
        before.lemma_without_seam(vertical_seam(energy_field(before)));
    }
}

/// Takes the cheapest seam out of the image and brings the energy grid up to
/// date.
fn carve_step(energy_map: &mut Array2d<u32>, img: &mut Array2d<Pixel>) -> (r: Result<
    (),
    CarveError,
>)
    requires
        old(energy_map)@ == energy_field(old(img)@),
        old(img)@.width >= 1,
        old(img)@.height >= 1,
    ensures
        r is Ok,
        final(img)@ == carved_once(old(img)@),
        final(energy_map)@ == energy_field(final(img)@),
{
    let ghost before = img@;
    proof {
        use_type_invariant(&*img);
        lemma_energy_field(before);
    }
    let seam = find_vertical_seam(energy_map);
    proof {
        before.lemma_without_seam(seam@);
        energy_field(before).lemma_without_seam(seam@);
    }
    match img.remove_seam(seam.as_slice()) {
        Ok(()) => {},
        Err(e) => {
            return Err(e);
        },
    }
    match energy_map.remove_seam(seam.as_slice()) {
        Ok(()) => {},
        Err(e) => {
            return Err(e);
        },
    }
    match refresh_energy_img(energy_map, img, seam.as_slice()) {
        Ok(()) => {},
        Err(e) => {
            return Err(e);
        },
    }
    proof {
        lemma_update_matches_compute(before, seam@);
    }
    Ok(())
}

/// Takes the cheapest seam out of the image `to_remove` times and keeps the
/// energy grid in step with it.
pub fn carve_vertical(
    energy_map: &mut Array2d<u32>,
    img: &mut Array2d<Pixel>,
    to_remove: usize,
) -> (r: Result<(), CarveError>)
    requires
        old(energy_map)@ == energy_field(old(img)@),
        to_remove <= old(img)@.width,
        to_remove > 0 ==> old(img)@.height >= 1,
    ensures
        r is Ok,
        final(img)@ == carved(old(img)@, to_remove as nat),
        final(energy_map)@ == energy_field(final(img)@),
{
    let ghost start = img@;
    proof {
        use_type_invariant(&*img);
    }
    let mut done: usize = 0;
    while done < to_remove
        invariant
            done <= to_remove,
            to_remove <= start.width,
            start.wf(),
            to_remove > 0 ==> start.height >= 1,
            img@ == carved(start, done as nat),
            energy_map@ == energy_field(img@),
        decreases to_remove - done,
    {
        proof {
            lemma_carved(start, done as nat);
        }
        match carve_step(energy_map, img) {
            Ok(()) => {},
            Err(e) => {
                return Err(e);
            },
        }
        done += 1;
    }
    Ok(())
}

} // verus!
