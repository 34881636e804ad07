use rsc::array::Array2d;
use rsc::carve::carve_vertical;
use rsc::energy::get_energy_img;
use rsc::error::CarveError;
use rsc::insert::insert_horizontal;
use rsc::insert::insert_vertical;
use rsc::insert::positions_from_image;
use rsc::pixel::Pixel;
use rsc::raster::Raster;
use rsc::resize;
use rsc::seam::find_vertical_seam;
use rsc::seamcarve;

fn gray(level: u8) -> Pixel {
    Pixel::new(level, 0, 0)
}

fn row_of_three() -> Array2d<Pixel> {
    Array2d::new(3, vec![gray(0), gray(10), gray(30)]).unwrap()
}

fn generated(width: usize, height: usize, seed: u32) -> Array2d<Pixel> {
    let mut state = seed;
    let mut pixels = vec![];
    for _ in 0..width * height {
        let mut channels = [0u8; 3];
        for channel in channels.iter_mut() {
            state = state.wrapping_mul(1103515245).wrapping_add(12345);
            *channel = (state >> 16) as u8;
        }
        pixels.push(Pixel::new(channels[0], channels[1], channels[2]));
    }
    Array2d::new(width, pixels).unwrap()
}

fn generated_image(width: u32, height: u32, seed: u32) -> Raster {
    generated(width as usize, height as usize, seed)
        .to_image()
        .unwrap()
}

fn carved_by_fresh_energies(img: &Array2d<Pixel>, seams: usize) -> Array2d<Pixel> {
    let mut img = img.clone();
    for _ in 0..seams {
        let energy = get_energy_img(&img).unwrap();
        let seam = find_vertical_seam(&energy);
        img.remove_seam(&seam).unwrap();
    }
    img
}

fn is_row_with_doubles(row: &[Pixel], wide: &[Pixel]) -> bool {
    let mut at = 0;
    for (x, pixel) in row.iter().enumerate() {
        if at >= wide.len() || wide[at] != *pixel {
            return false;
        }
        at += 1;
        let next_differs = x + 1 == row.len() || row[x + 1] != *pixel;
        if at < wide.len() && wide[at] == *pixel && next_differs {
            at += 1;
        }
    }
    at == wide.len()
}

#[test]
fn carve_both_fast() {
    let img_original = generated_image(40, 30, 7);
    let (width, height) = img_original.dimensions();
    let (new_width, new_height) = (width - 1, height - 1);
    let img_carved = seamcarve(&img_original, new_width, new_height).unwrap();
    assert_eq!((new_width, new_height), img_carved.dimensions());
}

#[test]
fn same_dimensions_give_the_image_back() {
    let img = generated(7, 5, 1);
    assert_eq!(Ok(img.clone()), resize(img, 7, 5));
    let picture = generated_image(7, 5, 1);
    assert_eq!(picture, seamcarve(&picture, 7, 5).unwrap());
}

#[test]
fn a_narrower_row() {
    let carved = resize(row_of_three(), 2, 1).unwrap();
    assert_eq!(Array2d::new(2, vec![gray(0), gray(10)]).unwrap(), carved);
    let carved = resize(row_of_three(), 1, 1).unwrap();
    assert_eq!(Array2d::new(1, vec![gray(10)]).unwrap(), carved);
}

#[test]
fn a_wider_row() {
    let wide = resize(row_of_three(), 4, 1).unwrap();
    assert_eq!(
        Array2d::new(4, vec![gray(0), gray(10), gray(30), gray(30)]).unwrap(),
        wide
    );
    let wide = resize(row_of_three(), 5, 1).unwrap();
    assert_eq!(
        Array2d::new(5, vec![gray(0), gray(0), gray(10), gray(30), gray(30)]).unwrap(),
        wide
    );
    let wide = resize(row_of_three(), 6, 1).unwrap();
    assert_eq!(
        Array2d::new(
            6,
            vec![gray(0), gray(0), gray(10), gray(10), gray(30), gray(30)]
        )
        .unwrap(),
        wide
    );
}

#[test]
fn a_lower_and_a_higher_column() {
    let mut column = row_of_three();
    column.transpose();
    let carved = resize(column.clone(), 1, 2).unwrap();
    assert_eq!(Array2d::new(1, vec![gray(0), gray(10)]).unwrap(), carved);
    let high = resize(column, 1, 4).unwrap();
    assert_eq!(
        Array2d::new(1, vec![gray(0), gray(10), gray(30), gray(30)]).unwrap(),
        high
    );
}

#[test]
fn width_is_fitted_before_height() {
    let img = generated(6, 5, 3);
    let both = resize(img.clone(), 4, 7).unwrap();
    assert_eq!((4, 7), both.dimensions());
    let narrow = resize(img, 4, 5).unwrap();
    assert_eq!(Ok(both), resize(narrow, 4, 7));
}

#[test]
fn carving_equals_carving_with_fresh_energies() {
    let img = generated(9, 6, 11);
    for seams in 0..9usize {
        let expected = carved_by_fresh_energies(&img, seams);
        let carved = resize(img.clone(), (9 - seams) as u32, 6);
        if seams == 9 {
            assert_eq!(Err(CarveError::BoundsViolation), carved);
        } else {
            assert_eq!(Ok(expected), carved);
        }
    }
    let mut turned = img.clone();
    turned.transpose();
    let mut expected = carved_by_fresh_energies(&turned, 2);
    expected.transpose();
    assert_eq!(Ok(expected), resize(img, 9, 4));
}

#[test]
fn widening_doubles_pixels_within_their_rows() {
    let img = generated(6, 5, 5);
    for more in 1..7usize {
        let wide = resize(img.clone(), (6 + more) as u32, 5).unwrap();
        assert_eq!((6 + more, 5), wide.dimensions());
        for y in 0..5 {
            let row = &img.raw_data()[y * 6..(y + 1) * 6];
            let wide_row = &wide.raw_data()[y * (6 + more)..(y + 1) * (6 + more)];
            assert!(is_row_with_doubles(row, wide_row), "{} {}", more, y);
        }
    }
}

#[test]
fn widening_doubles_the_pixels_that_carving_takes() {
    let img = generated(6, 5, 9);
    let energy = get_energy_img(&img).unwrap();
    let seam = find_vertical_seam(&energy);
    let wide = insert_vertical(&img, 1).unwrap();
    assert_eq!((7, 5), wide.dimensions());
    for y in 0..5 {
        for x in 0..7 {
            let from = if x <= seam[y] { x } else { x - 1 };
            assert_eq!(img[(from, y)], wide[(x, y)]);
        }
    }
    let mut turned = img.clone();
    turned.transpose();
    let mut expected = insert_vertical(&turned, 2).unwrap();
    expected.transpose();
    assert_eq!(Ok(expected), insert_horizontal(&img, 2));
}

#[test]
fn widening_by_nothing() {
    let img = generated(4, 3, 2);
    assert_eq!(Ok(img.clone()), insert_vertical(&img, 0));
    assert_eq!(Ok(img.clone()), insert_horizontal(&img, 0));
}

#[test]
fn zero_targets_are_out_of_bounds() {
    let img = generated(4, 3, 2);
    assert_eq!(Err(CarveError::BoundsViolation), resize(img.clone(), 0, 3));
    assert_eq!(Err(CarveError::BoundsViolation), resize(img.clone(), 4, 0));
    assert_eq!(Err(CarveError::BoundsViolation), resize(img.clone(), 0, 0));
    assert_eq!(Err(CarveError::BoundsViolation), resize(img, 0, 100));
}

#[test]
fn more_seams_than_columns_or_rows() {
    let img = generated(4, 3, 2);
    assert_eq!(Err(CarveError::Capacity), resize(img.clone(), 9, 3));
    assert_eq!(Err(CarveError::Capacity), resize(img.clone(), 4, 7));
    assert_eq!(Err(CarveError::Capacity), resize(img.clone(), 2, 7));
    assert_eq!(Err(CarveError::Capacity), resize(img.clone(), 1004, 3));
    assert_eq!((8, 6), resize(img, 8, 6).unwrap().dimensions());
    let picture = generated_image(4, 3, 2);
    assert_eq!(Err(CarveError::Capacity), seamcarve(&picture, 4, 1003));
    assert_eq!(Err(CarveError::BoundsViolation), seamcarve(&picture, 0, 3));
}

#[test]
fn a_grid_without_cells_has_no_seams() {
    let empty: Vec<Pixel> = vec![];
    let img = Array2d::new(3, empty).unwrap();
    assert_eq!(Ok(img.clone()), resize(img.clone(), 3, 0));
    assert_eq!(Err(CarveError::BoundsViolation), resize(img.clone(), 2, 0));
    assert_eq!(Err(CarveError::Capacity), resize(img, 3, 1));
}

#[test]
fn carve_vertical_keeps_the_energies_in_step() {
    let mut img = generated(8, 4, 21);
    let expected = carved_by_fresh_energies(&img, 3);
    let mut energy = get_energy_img(&img).unwrap();
    carve_vertical(&mut energy, &mut img, 3).unwrap();
    assert_eq!(expected, img);
    assert_eq!(get_energy_img(&img).unwrap(), energy);
}

#[test]
fn positions_name_their_own_place() {
    let img = generated(3, 2, 4);
    let positions = positions_from_image(&img).unwrap();
    assert_eq!(
        &[(0, 0), (1, 0), (2, 0), (0, 1), (1, 1), (2, 1)],
        positions.raw_data()
    );
}

#[test]
fn seamcarve_gives_what_resize_gives() {
    let grid = generated(7, 6, 13);
    let picture = grid.to_image().unwrap();
    let carved = seamcarve(&picture, 9, 4).unwrap();
    assert_eq!((9, 4), carved.dimensions());
    assert_eq!(
        resize(grid, 9, 4),
        Array2d::from_image(&carved)
    );
}

fn two_rows() -> Array2d<Pixel> {
    Array2d::new(
        3,
        vec![gray(0), gray(10), gray(30), gray(5), gray(50), gray(20)],
    )
    .unwrap()
}

#[test]
fn two_rows_lose_their_cheapest_seam() {
    let energy = get_energy_img(&two_rows()).unwrap();
    assert_eq!(&[400, 900, 100, 900, 225, 2025], energy.raw_data());
    assert_eq!(vec![2, 1], find_vertical_seam(&energy));
    assert_eq!(
        Array2d::new(2, vec![gray(0), gray(10), gray(5), gray(20)]),
        resize(two_rows(), 2, 2)
    );
}

#[test]
fn two_rows_get_their_cheapest_seams_doubled() {
    assert_eq!(
        Array2d::new(
            4,
            vec![
                gray(0),
                gray(10),
                gray(30),
                gray(30),
                gray(5),
                gray(50),
                gray(50),
                gray(20)
            ]
        ),
        resize(two_rows(), 4, 2)
    );
    assert_eq!(
        Array2d::new(
            5,
            vec![
                gray(0),
                gray(0),
                gray(10),
                gray(30),
                gray(30),
                gray(5),
                gray(5),
                gray(50),
                gray(50),
                gray(20)
            ]
        ),
        resize(two_rows(), 5, 2)
    );
}
