use rsc::array::Array2d;
use rsc::energy::get_energy_img;
use rsc::energy::refresh_energy_img;
use rsc::energy::update_energy_img;
use rsc::error::CarveError;
use rsc::pixel::Pixel;
use rsc::raster::Raster;

fn small_image() -> Raster {
    let mut img = Raster::new(3, 4).unwrap();
    img.put_pixel(0, 0, Pixel::new(255, 101, 51));
    img.put_pixel(1, 0, Pixel::new(255, 101, 153));
    img.put_pixel(2, 0, Pixel::new(255, 101, 255));
    img.put_pixel(0, 1, Pixel::new(255, 153, 51));
    img.put_pixel(1, 1, Pixel::new(255, 153, 153));
    img.put_pixel(2, 1, Pixel::new(255, 153, 255));
    img.put_pixel(0, 2, Pixel::new(255, 203, 51));
    img.put_pixel(1, 2, Pixel::new(255, 204, 153));
    img.put_pixel(2, 2, Pixel::new(255, 205, 255));
    img.put_pixel(0, 3, Pixel::new(255, 255, 51));
    img.put_pixel(1, 3, Pixel::new(255, 255, 153));
    img.put_pixel(2, 3, Pixel::new(255, 255, 255));
    img
}

fn larger_image() -> Raster {
    let mut img = Raster::new(6, 5).unwrap();
    img.put_pixel(0, 0, Pixel::new(78, 209, 79));
    img.put_pixel(1, 0, Pixel::new(63, 118, 247));
    img.put_pixel(2, 0, Pixel::new(92, 175, 95));
    img.put_pixel(3, 0, Pixel::new(243, 73, 183));
    img.put_pixel(4, 0, Pixel::new(210, 109, 104));
    img.put_pixel(5, 0, Pixel::new(252, 101, 119));
    img.put_pixel(0, 1, Pixel::new(224, 191, 182));
    img.put_pixel(1, 1, Pixel::new(108, 89, 82));
    img.put_pixel(2, 1, Pixel::new(80, 196, 230));
    img.put_pixel(3, 1, Pixel::new(112, 156, 180));
    img.put_pixel(4, 1, Pixel::new(176, 178, 120));
    img.put_pixel(5, 1, Pixel::new(142, 151, 142));
    img.put_pixel(0, 2, Pixel::new(117, 189, 149));
    img.put_pixel(1, 2, Pixel::new(171, 231, 153));
    img.put_pixel(2, 2, Pixel::new(149, 164, 168));
    img.put_pixel(3, 2, Pixel::new(107, 119, 71));
    img.put_pixel(4, 2, Pixel::new(120, 105, 138));
    img.put_pixel(5, 2, Pixel::new(163, 174, 196));
    img.put_pixel(0, 3, Pixel::new(163, 222, 132));
    img.put_pixel(1, 3, Pixel::new(187, 117, 183));
    img.put_pixel(2, 3, Pixel::new(92, 145, 69));
    img.put_pixel(3, 3, Pixel::new(158, 143, 79));
    img.put_pixel(4, 3, Pixel::new(220, 75, 222));
    img.put_pixel(5, 3, Pixel::new(189, 73, 214));
    img.put_pixel(0, 4, Pixel::new(211, 120, 173));
    img.put_pixel(1, 4, Pixel::new(188, 218, 244));
    img.put_pixel(2, 4, Pixel::new(214, 103, 68));
    img.put_pixel(3, 4, Pixel::new(163, 166, 246));
    img.put_pixel(4, 4, Pixel::new(79, 125, 246));
    img.put_pixel(5, 4, Pixel::new(211, 201, 98));
    img
}

#[test]
fn energy_computation_1() {
    let img = small_image();
    let img_array = Array2d::from_image(&img).unwrap();
    let energy = get_energy_img(&img_array).unwrap();

    assert_eq!(
        vec![
            20808, 52020, 20808,
            20808, 52225, 21220,
            20809, 52024, 20809,
            20808, 52225, 21220
        ],
        energy.raw_data()
    );
}

#[test]
fn energy_computation_2() {
    let img = larger_image();
    let img_array = Array2d::from_image(&img).unwrap();
    let energy = get_energy_img(&img_array).unwrap();

    assert_eq!(
        vec![
            57685, 50893, 91370, 25418, 33055, 37246,
            15421, 56334, 22808, 54796, 11641, 25496,
            12344, 19236, 52030, 17708, 44735, 20663,
            17074, 23678, 30279, 80663, 37831, 45595,
            32337, 30796, 4909, 73334, 40613, 36556
        ],
        energy.raw_data()
    );
}

#[test]
fn energy_update_1() {
    let img = small_image();
    let mut img_array = Array2d::from_image(&img).unwrap();
    let seam = [0, 1, 2, 1];
    let mut energy_updated = get_energy_img(&img_array).unwrap();
    img_array.remove_seam(&seam).unwrap();
    let energy_computed = get_energy_img(&img_array).unwrap();
    update_energy_img(&mut energy_updated, &img_array, &seam).unwrap();

    assert_eq!(energy_computed, energy_updated);
}

#[test]
fn energy_update_2() {
    let img = larger_image();

    let mut img_array = Array2d::from_image(&img).unwrap();
    let seam_1 = [0, 1, 2, 3, 4];
    let mut energy_updated = get_energy_img(&img_array).unwrap();
    img_array.remove_seam(&seam_1).unwrap();
    let energy_computed = get_energy_img(&img_array).unwrap();
    update_energy_img(&mut energy_updated, &img_array, &seam_1).unwrap();
    assert_eq!(energy_computed, energy_updated);

    let mut img_array = Array2d::from_image(&img).unwrap();
    let seam_2 = [4, 3, 2, 1, 0];
    let mut energy_updated = get_energy_img(&img_array).unwrap();
    img_array.remove_seam(&seam_2).unwrap();
    let energy_computed = get_energy_img(&img_array).unwrap();
    update_energy_img(&mut energy_updated, &img_array, &seam_2).unwrap();
    assert_eq!(energy_computed, energy_updated);

    let mut img_array = Array2d::from_image(&img).unwrap();
    let seam_3 = [5, 4, 3, 2, 1];
    let mut energy_updated = get_energy_img(&img_array).unwrap();
    img_array.remove_seam(&seam_3).unwrap();
    let energy_computed = get_energy_img(&img_array).unwrap();
    update_energy_img(&mut energy_updated, &img_array, &seam_3).unwrap();
    assert_eq!(energy_computed, energy_updated);
}

fn connected_seams(width: usize, height: usize) -> Vec<Vec<usize>> {
    let mut seams: Vec<Vec<usize>> = (0..width).map(|x| vec![x]).collect();
    for _ in 1..height {
        let mut longer = vec![];
        for seam in seams.iter() {
            let last = seam[seam.len() - 1];
            for next in last.saturating_sub(1)..(last + 2).min(width) {
                let mut extended = seam.clone();
                extended.push(next);
                longer.push(extended);
            }
        }
        seams = longer;
    }
    seams
}

#[test]
fn update_matches_compute_for_every_connected_seam() {
    let grid = Array2d::from_image(&larger_image()).unwrap();
    let mut turned = grid.clone();
    turned.transpose();
    for original in [grid, turned].iter() {
        let (width, height) = original.dimensions();
        let seams = connected_seams(width, height);
        assert!(seams.len() > width);
        for seam in seams.iter() {
            let mut img_array = original.clone();
            let mut energy_updated = get_energy_img(&img_array).unwrap();
            img_array.remove_seam(seam).unwrap();
            let energy_computed = get_energy_img(&img_array).unwrap();
            update_energy_img(&mut energy_updated, &img_array, seam).unwrap();
            assert_eq!(energy_computed, energy_updated, "{:?}", seam);
        }
    }
}

#[test]
fn update_on_two_by_two() {
    let pixels = vec![
        Pixel::new(1, 2, 3),
        Pixel::new(40, 50, 60),
        Pixel::new(7, 80, 9),
        Pixel::new(100, 11, 120),
    ];
    for seam in connected_seams(2, 2).iter() {
        let mut img_array = Array2d::new(2, pixels.clone()).unwrap();
        let mut energy_updated = get_energy_img(&img_array).unwrap();
        img_array.remove_seam(seam).unwrap();
        let energy_computed = get_energy_img(&img_array).unwrap();
        update_energy_img(&mut energy_updated, &img_array, seam).unwrap();
        assert_eq!((1, 2), energy_updated.dimensions());
        assert_eq!(energy_computed, energy_updated);
    }
}

#[test]
fn update_leaves_far_cells_alone() {
    let grid = Array2d::from_image(&larger_image()).unwrap();
    let seam = [2, 2, 2, 2, 2];
    let mut cut = grid.clone();
    cut.remove_seam(&seam).unwrap();
    let mut energy = Array2d::new(6, vec![7u32; 30]).unwrap();
    update_energy_img(&mut energy, &cut, &seam).unwrap();
    let fresh = get_energy_img(&cut).unwrap();
    for y in 0..5 {
        for x in 0..5 {
            if x == 1 || x == 2 {
                assert_eq!(fresh[(x, y)], energy[(x, y)]);
            } else {
                assert_eq!(7, energy[(x, y)]);
            }
        }
    }
}

#[test]
fn update_spans_the_seam_in_first_and_last_row() {
    let grid = Array2d::from_image(&larger_image()).unwrap();
    let seam = [1, 2, 3, 4, 4];
    let mut cut = grid.clone();
    cut.remove_seam(&seam).unwrap();
    let mut energy = Array2d::new(6, vec![7u32; 30]).unwrap();
    update_energy_img(&mut energy, &cut, &seam).unwrap();
    let fresh = get_energy_img(&cut).unwrap();
    let refreshed: [&[usize]; 5] = [&[0, 1, 2, 3, 4], &[1, 2], &[2, 3], &[3, 4], &[1, 2, 3, 4]];
    for y in 0..5 {
        for x in 0..5 {
            if refreshed[y].contains(&x) {
                assert_eq!(fresh[(x, y)], energy[(x, y)], "{} {}", x, y);
            } else {
                assert_eq!(7, energy[(x, y)], "{} {}", x, y);
            }
        }
    }
}

#[test]
fn update_refuses_a_seam_of_the_wrong_length() {
    let grid = Array2d::from_image(&small_image()).unwrap();
    let mut energy = get_energy_img(&grid).unwrap();
    let before = energy.clone();
    assert_eq!(
        Err(CarveError::SeamLength { seam_len: 2, height: 4 }),
        update_energy_img(&mut energy, &grid, &[0, 0])
    );
    assert_eq!(before, energy);
}

#[test]
fn energy_of_one_pixel() {
    let grid = Array2d::new(1, vec![Pixel::new(9, 8, 7)]).unwrap();
    assert_eq!(&[0], get_energy_img(&grid).unwrap().raw_data());
}

#[test]
fn energy_wraps_around_the_edges() {
    let grid = Array2d::new(
        3,
        vec![
            Pixel::new(0, 0, 0),
            Pixel::new(10, 0, 0),
            Pixel::new(30, 0, 0),
        ],
    )
    .unwrap();
    assert_eq!(
        &[400, 900, 100],
        get_energy_img(&grid).unwrap().raw_data()
    );
}

#[test]
fn energy_of_the_largest_differences() {
    let grid = Array2d::new(
        2,
        vec![
            Pixel::new(0, 0, 0),
            Pixel::new(255, 255, 255),
            Pixel::new(255, 255, 255),
            Pixel::new(0, 0, 0),
        ],
    )
    .unwrap();
    assert_eq!(&[0, 0, 0, 0], get_energy_img(&grid).unwrap().raw_data());
    let grid = Array2d::new(
        3,
        vec![
            Pixel::new(0, 0, 0),
            Pixel::new(9, 9, 9),
            Pixel::new(255, 255, 255),
        ],
    )
    .unwrap();
    assert_eq!(
        &[181548, 195075, 243],
        get_energy_img(&grid).unwrap().raw_data()
    );
}

#[test]
fn energy_of_a_grid_without_columns() {
    let mut grid = Array2d::new(1, vec![Pixel::new(1, 1, 1)]).unwrap();
    grid.remove_seam(&[0]).unwrap();
    assert_eq!(
        Err(CarveError::Construction { len: 0, width: 0 }),
        get_energy_img(&grid)
    );
}

#[test]
fn refresh_after_the_seam_has_left_the_energies() {
    let original = Array2d::from_image(&larger_image()).unwrap();
    for seam in connected_seams(6, 5).iter() {
        let mut img_array = original.clone();
        let mut energy = get_energy_img(&img_array).unwrap();
        img_array.remove_seam(seam).unwrap();
        energy.remove_seam(seam).unwrap();
        refresh_energy_img(&mut energy, &img_array, seam).unwrap();
        assert_eq!(get_energy_img(&img_array).unwrap(), energy, "{:?}", seam);
    }
}

#[test]
fn refresh_touches_the_cells_next_to_the_seam() {
    let grid = Array2d::from_image(&larger_image()).unwrap();
    let seam = [5, 5, 4, 3, 3];
    let mut cut = grid.clone();
    cut.remove_seam(&seam).unwrap();
    let mut energy = Array2d::new(5, vec![7u32; 25]).unwrap();
    refresh_energy_img(&mut energy, &cut, &seam).unwrap();
    let fresh = get_energy_img(&cut).unwrap();
    let refreshed: [&[usize]; 5] = [&[0, 3, 4], &[0, 4], &[3, 4], &[2, 3], &[2, 3, 4]];
    for y in 0..5 {
        for x in 0..5 {
            if refreshed[y].contains(&x) {
                assert_eq!(fresh[(x, y)], energy[(x, y)], "{} {}", x, y);
            } else {
                assert_eq!(7, energy[(x, y)], "{} {}", x, y);
            }
        }
    }
}

#[test]
fn refresh_refuses_a_seam_of_the_wrong_length() {
    let grid = Array2d::from_image(&small_image()).unwrap();
    let mut energy = get_energy_img(&grid).unwrap();
    let before = energy.clone();
    assert_eq!(
        Err(CarveError::SeamLength { seam_len: 5, height: 4 }),
        refresh_energy_img(&mut energy, &grid, &[0, 0, 0, 0, 0])
    );
    assert_eq!(before, energy);
}
