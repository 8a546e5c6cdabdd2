use picr::imgproc::{apply_stf_autostretch, pixel_median, GrayImage};

fn image(width: u32, height: u32, data: Vec<u8>) -> GrayImage {
    GrayImage::from_vec(width, height, data).expect("buffer fits")
}

#[test]
fn from_vec_checks_the_buffer_length() {
    assert!(GrayImage::from_vec(2, 2, vec![1, 2, 3]).is_none());
    assert!(GrayImage::from_vec(2, 2, vec![1, 2, 3, 4]).is_some());
    let img = GrayImage::from_vec(2, 1, vec![7, 8, 9]).unwrap();
    assert_eq!(img.width(), 2);
    assert_eq!(img.height(), 1);
    assert_eq!(img.as_raw(), &vec![7, 8, 9]);
    assert_eq!(img.into_vec(), vec![7, 8, 9]);
}

fn identity() -> Vec<u8> {
    (0..=255u8).collect()
}

#[test]
fn median_of_three_pixels() {
    let img = image(3, 1, vec![200, 0, 100]);
    assert_eq!(pixel_median(&img), 100);
}

#[test]
fn median_is_the_upper_middle_value() {
    // sorted: 1 2 3 4 -> index 2 holds 3
    let img = image(2, 2, vec![4, 1, 3, 2]);
    assert_eq!(pixel_median(&img), 3);
    // only the first width * height values are pixels
    let img = image(1, 1, vec![9, 0, 0]);
    assert_eq!(pixel_median(&img), 9);
}

#[test]
fn median_ignores_the_order_of_pixels() {
    let a = image(3, 2, vec![5, 9, 1, 7, 7, 3]);
    let b = image(2, 3, vec![7, 1, 3, 9, 5, 7]);
    assert_eq!(pixel_median(&a), pixel_median(&b));
    assert_eq!(pixel_median(&a), 7);
}

#[test]
fn stretch_maps_pixels_through_the_table() {
    let table: Vec<u8> = (0..=255u8).map(|v| 255 - v).collect();
    let mut img = image(2, 2, vec![0, 10, 200, 255, 42]);
    apply_stf_autostretch(&mut img, &table);
    assert_eq!(img.width(), 2);
    assert_eq!(img.height(), 2);
    // the byte past the pixels is kept
    assert_eq!(img.into_vec(), vec![255, 245, 55, 0, 42]);
}

#[test]
fn identity_table_keeps_the_image() {
    let mut img = image(3, 1, vec![0, 100, 200]);
    apply_stf_autostretch(&mut img, &identity());
    assert_eq!(img.into_vec(), vec![0, 100, 200]);
}

#[test]
fn stretch_of_a_reordering_is_the_reordering_of_the_stretch() {
    let table: Vec<u8> = (0..=255u32).map(|v| ((v * v) / 255) as u8).collect();
    let a_data = vec![3u8, 250, 17, 90];
    let b_data = vec![90u8, 3, 250, 17];
    let mut a = image(4, 1, a_data);
    let mut b = image(2, 2, b_data);
    apply_stf_autostretch(&mut a, &table);
    apply_stf_autostretch(&mut b, &table);
    let (a, b) = (a.into_vec(), b.into_vec());
    assert_eq!(b, vec![a[3], a[0], a[1], a[2]]);
}

#[test]
fn increasing_table_keeps_order_of_brightness() {
    let table: Vec<u8> = (0..=255u32).map(|v| if v < 60 { 0 } else if v > 180 { 255 } else { ((v - 60) * 255 / 120) as u8 }).collect();
    let data: Vec<u8> = vec![3, 250, 17, 90, 90, 140, 61, 200, 5, 128, 77, 33];
    let mut img = image(4, 3, data.clone());
    apply_stf_autostretch(&mut img, &table);
    let out = img.into_vec();
    for i in 0..data.len() {
        for j in 0..data.len() {
            if data[i] <= data[j] {
                assert!(out[i] <= out[j]);
            }
        }
    }
}
