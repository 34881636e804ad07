use rsc::array::Array2d;
use rsc::error::CarveError;
use rsc::pixel::Pixel;
use rsc::raster::Raster;

#[test]
fn array2d_new() {
    assert!(Array2d::new(3, vec![1, 2, 3, 4, 5, 6, 7, 8, 9]).is_ok());
}

#[test]
fn array2d_new_incompatible() {
    let width = 4;
    let data = vec![1, 2, 3, 4, 5, 6, 7, 8, 9];
    assert_eq!(
        Err(format!(
            "length of data must be divisible by width, got {} and {}",
            data.len(),
            width
        )),
        Array2d::new(width, data).map_err(|e| e.message())
    );
}

#[test]
fn print_debug() {
    let arr = Array2d::new(3, vec![1, 2, 3, 4, 5, 6, 7, 8, 9]).unwrap();
    assert_eq!(
        String::from("Array2d {\n[1, 2, 3]\n[4, 5, 6]\n[7, 8, 9]\n}\n"),
        arr.to_debug_string()
    );
}

#[test]
fn indexing() {
    let arr = Array2d::new(3, vec![1, 2, 3, 4, 5, 6, 7, 8, 9]).unwrap();
    assert_eq!(1, arr[(0, 0)]);
    assert_eq!(2, arr[(1, 0)]);
    assert_eq!(3, arr[(2, 0)]);
    assert_eq!(4, arr[(0, 1)]);
    assert_eq!(5, arr[(1, 1)]);
    assert_eq!(6, arr[(2, 1)]);
    assert_eq!(7, arr[(0, 2)]);
    assert_eq!(8, arr[(1, 2)]);
    assert_eq!(9, arr[(2, 2)]);
}

#[test]
fn indexing_mut() {
    let mut arr = Array2d::new(3, vec![1, 2, 3, 4, 5, 6, 7, 8, 9]).unwrap();
    assert_eq!(1, arr[(0, 0)]);
    arr[(0, 0)] = 2;
    assert_eq!(2, arr[(0, 0)]);
}

#[test]
fn raw_mut() {
    let mut arr = Array2d::new(3, vec![1, 2, 3, 4, 5, 6, 7, 8, 9]).unwrap();
    arr.raw_data_mut()[0] = 3;
    assert_eq!(3, arr.raw_data_mut()[0]);
}

#[test]
fn transposition() {
    let mut arr = Array2d::new(3, vec![1, 2, 3, 4, 5, 6, 7, 8, 9]).unwrap();
    arr.transpose();
    assert_eq!(
        Array2d::new(3, vec![1, 4, 7, 2, 5, 8, 3, 6, 9]).unwrap(),
        arr
    );
}

#[test]
fn seam_removal_vertical() {
    let mut arr = Array2d::new(3, vec![1, 2, 3, 4, 5, 6, 7, 8, 9]).unwrap();
    let seam = vec![1, 2, 1];
    arr.remove_seam(&seam).unwrap();
    assert_eq!(Array2d::new(2, vec![1, 3, 4, 5, 7, 9]).unwrap(), arr);
}

#[test]
fn seam_removal_horizontal() {
    let mut arr = Array2d::new(3, vec![1, 2, 3, 4, 5, 6, 7, 8, 9]).unwrap();
    arr.transpose();
    let seam = vec![1, 2, 1];
    arr.remove_seam(&seam).unwrap();
    arr.transpose();
    assert_eq!(Array2d::new(3, vec![1, 2, 3, 7, 5, 9]).unwrap(), arr);
}

#[test]
fn seam_incompatible() {
    let mut arr = Array2d::new(3, vec![1, 2, 3, 4, 5, 6, 7, 8, 9]).unwrap();
    let seam = vec![1, 2, 1, 0];
    assert_eq!(
        Err(format!(
            "seam length and image height should be equal, got {} and {}",
            seam.len(),
            arr.height()
        )),
        arr.remove_seam(&seam).map_err(|e| e.message())
    );
}

#[test]
fn to_image() {
    let width = 3;
    let pixels: Vec<Pixel> = vec![
        Pixel::new(0, 0, 0),
        Pixel::new(1, 1, 1),
        Pixel::new(2, 2, 2),
        Pixel::new(3, 3, 3),
        Pixel::new(4, 4, 4),
        Pixel::new(5, 5, 5),
        Pixel::new(6, 6, 6),
        Pixel::new(7, 7, 7),
        Pixel::new(8, 8, 8),
    ];
    let arr = Array2d::new(width, pixels).unwrap();
    let image = arr.to_image().unwrap();
    for x in 0..width {
        for y in 0..arr.height() {
            assert_eq!(arr[(x, y)], image.get_pixel(x as u32, y as u32));
        }
    }
}

#[test]
fn new_refuses_width_zero() {
    let empty: Vec<u8> = vec![];
    assert_eq!(
        Err(CarveError::Construction { len: 0, width: 0 }),
        Array2d::new(0, empty)
    );
    assert_eq!(
        Err(CarveError::Construction { len: 2, width: 0 }),
        Array2d::new(0, vec![1u8, 2])
    );
}

#[test]
fn new_accepts_no_rows() {
    let empty: Vec<u8> = vec![];
    let arr = Array2d::new(5, empty).unwrap();
    assert_eq!((5, 0), arr.dimensions());
    assert_eq!(0, arr.size());
}

#[test]
fn dimensions_and_size() {
    let arr = Array2d::new(2, vec![1, 2, 3, 4, 5, 6]).unwrap();
    assert_eq!(2, arr.width());
    assert_eq!(3, arr.height());
    assert_eq!(6, arr.size());
    assert_eq!((2, 3), arr.dimensions());
    assert_eq!(&[1, 2, 3, 4, 5, 6], arr.raw_data());
}

#[test]
fn raw_data_mut_writes_through() {
    let mut arr = Array2d::new(2, vec![1, 2, 3, 4]).unwrap();
    arr.raw_data_mut()[3] = 9;
    assert_eq!(9, arr[(1, 1)]);
    assert_eq!((2, 2), arr.dimensions());
}

#[test]
fn transpose_of_a_wide_grid() {
    let mut arr = Array2d::new(3, vec![1, 2, 3, 4, 5, 6]).unwrap();
    arr.transpose();
    assert_eq!((2, 3), arr.dimensions());
    assert_eq!(&[1, 4, 2, 5, 3, 6], arr.raw_data());
}

#[test]
fn transpose_twice_gives_the_grid_back() {
    let original = Array2d::new(4, vec![1, 2, 3, 4, 5, 6, 7, 8, 9, 10, 11, 12]).unwrap();
    let mut arr = original.clone();
    arr.transpose();
    assert_ne!(original, arr);
    arr.transpose();
    assert_eq!(original, arr);
}

#[test]
fn transpose_keeps_a_grid_without_rows() {
    let empty: Vec<u8> = vec![];
    let mut arr = Array2d::new(3, empty).unwrap();
    arr.transpose();
    assert_eq!((0, 3), arr.dimensions());
    arr.transpose();
    assert_eq!((3, 0), arr.dimensions());
}

#[test]
fn remove_seam_down_to_one_column() {
    let mut arr = Array2d::new(4, vec![1, 2, 3, 4, 5, 6, 7, 8]).unwrap();
    let seams: Vec<Vec<usize>> = vec![vec![0, 3], vec![2, 0], vec![0, 1]];
    let mut width = 4;
    for seam in seams.iter() {
        arr.remove_seam(seam).unwrap();
        width -= 1;
        assert_eq!((width, 2), arr.dimensions());
    }
    assert_eq!(1, arr.width());
    assert_eq!(&[3, 6], arr.raw_data());
}

#[test]
fn remove_seam_of_the_last_column() {
    let mut arr = Array2d::new(1, vec![7, 8, 9]).unwrap();
    arr.remove_seam(&[0, 0, 0]).unwrap();
    assert_eq!((0, 3), arr.dimensions());
    assert_eq!(0, arr.size());
}

#[test]
fn refused_seam_leaves_the_grid() {
    let mut arr = Array2d::new(3, vec![1, 2, 3, 4, 5, 6]).unwrap();
    assert_eq!(
        Err(CarveError::SeamLength { seam_len: 1, height: 2 }),
        arr.remove_seam(&[0])
    );
    assert_eq!(Array2d::new(3, vec![1, 2, 3, 4, 5, 6]).unwrap(), arr);
}

#[test]
fn debug_text_of_a_grid_without_rows() {
    let empty: Vec<u8> = vec![];
    let arr = Array2d::new(3, empty).unwrap();
    assert_eq!(String::from("Array2d {\n}\n"), arr.to_debug_string());
}

#[test]
fn frame_rows_joins_lines() {
    let rows = vec![String::from("ab"), String::from(""), String::from("c")];
    assert_eq!(
        String::from("Array2d {\nab\n\nc\n}\n"),
        rsc::array::frame_rows(&rows)
    );
}

#[test]
fn image_round_trip() {
    let mut img = Raster::new(2, 3).unwrap();
    assert_eq!((2, 3), img.dimensions());
    assert_eq!(Pixel::new(0, 0, 0), img.get_pixel(1, 2));
    img.put_pixel(1, 0, Pixel::new(1, 2, 3));
    img.put_pixel(0, 2, Pixel::new(4, 5, 6));
    assert_eq!(Pixel::new(1, 2, 3), img.get_pixel(1, 0));
    assert_eq!(Pixel::new(0, 0, 0), img.get_pixel(0, 0));
    let arr = Array2d::from_image(&img).unwrap();
    assert_eq!((2, 3), arr.dimensions());
    let black = Pixel::new(0, 0, 0);
    assert_eq!(
        &[
            black,
            Pixel::new(1, 2, 3),
            black,
            black,
            Pixel::new(4, 5, 6),
            black
        ],
        arr.raw_data()
    );
    assert_eq!(img, arr.to_image().unwrap());
}

#[test]
fn raster_without_pixels() {
    let img = Raster::new(0, 7).unwrap();
    assert_eq!((0, 7), img.dimensions());
    let arr = Array2d::from_image(&img).unwrap();
    assert_eq!((0, 7), arr.dimensions());
    assert_eq!(img, arr.to_image().unwrap());
}

#[test]
fn error_messages() {
    assert_eq!(
        "length of data must be divisible by width, got 10 and 4",
        CarveError::Construction { len: 10, width: 4 }.message()
    );
    assert_eq!(
        "seam length and image height should be equal, got 0 and 1205",
        CarveError::SeamLength {
            seam_len: 0,
            height: 1205
        }
        .message()
    );
    assert_eq!(
        "target dimension needs more seams than the image holds",
        CarveError::Capacity.message()
    );
    assert_eq!(
        "target dimension is outside the supported range",
        CarveError::BoundsViolation.message()
    );
}

#[test]
fn decimal_numerals() {
    assert_eq!("0", rsc::error::decimal_string(0));
    assert_eq!("7", rsc::error::decimal_string(7));
    assert_eq!("10", rsc::error::decimal_string(10));
    assert_eq!("4294967295", rsc::error::decimal_string(4294967295));
    assert_eq!("1234567890", rsc::error::decimal_string(1234567890));
}
