use picr::file::{
    check_candidate, header_display, is_fits_extension, render_preview, sample_values,
    sort_by_creation, value_range, File, HeaderValue, LoadError, PREVIEW_WIDTH,
};
use picr::imgproc::GrayImage;
use picr::text::format_integer;

#[test]
fn value_range_of_data() {
    assert_eq!(value_range(&vec![10, -3, 30, 7]), (-3, 30));
    assert_eq!(value_range(&vec![5]), (5, 5));
    assert_eq!(value_range(&vec![i32::MAX, i32::MIN]), (i32::MIN, i32::MAX));
}

#[test]
fn blank_samples_read_as_zero() {
    assert_eq!(sample_values(&vec![Some(4), None, Some(-2)]), vec![4, 0, -2]);
    assert_eq!(sample_values(&vec![]), Vec::<i32>::new());
}

#[test]
fn header_values_are_displayed() {
    assert_eq!(header_display(&HeaderValue::CharacterString("M31".to_string())), "M31");
    assert_eq!(header_display(&HeaderValue::Logical(true)), "true");
    assert_eq!(header_display(&HeaderValue::Logical(false)), "false");
    assert_eq!(header_display(&HeaderValue::IntegerNumber(-42)), "-42");
    assert_eq!(header_display(&HeaderValue::IntegerNumber(0)), "0");
    assert_eq!(header_display(&HeaderValue::RealFloatingNumber("1.5".to_string())), "1.5");
    assert_eq!(header_display(&HeaderValue::ComplexIntegerNumber(3, -4)), "3 -4i");
    assert_eq!(
        header_display(&HeaderValue::ComplexFloatingNumber("0.5".to_string(), "2".to_string())),
        "0.5 2i"
    );
}

#[test]
fn integers_are_formatted_in_decimal() {
    assert_eq!(format_integer(1234567), "1234567");
    assert_eq!(format_integer(-9), "-9");
    assert_eq!(format_integer(10), "10");
    assert_eq!(format_integer(i64::MIN), i64::MIN.to_string());
    assert_eq!(format_integer(i64::MAX), i64::MAX.to_string());
}

#[test]
fn file_metadata_is_sorted_after_the_file_name() {
    let cards = vec![
        ("NAXIS".to_string(), Some(HeaderValue::IntegerNumber(2))),
        ("BITPIX".to_string(), Some(HeaderValue::IntegerNumber(16))),
        ("COMMENT".to_string(), Some(HeaderValue::CharacterString("first".to_string()))),
        ("AUTHOR".to_string(), None),
        ("COMMENT".to_string(), Some(HeaderValue::CharacterString("second".to_string()))),
        ("Naxis".to_string(), Some(HeaderValue::Logical(true))),
    ];
    let f = File::new("/data/m31.fits".to_string(), "m31.fits".to_string(), cards);
    assert_eq!(f.path, "/data/m31.fits");
    assert!(!f.culled);
    let expected: Vec<(String, String)> = vec![
        ("File Name", "m31.fits"),
        ("AUTHOR", ""),
        ("BITPIX", "16"),
        ("COMMENT", "first"),
        ("COMMENT", "second"),
        ("NAXIS", "2"),
        ("Naxis", "true"),
    ]
    .into_iter()
    .map(|(k, v)| (k.to_string(), v.to_string()))
    .collect();
    assert_eq!(f.metadata, expected);
}

#[test]
fn file_without_cards_has_only_its_name() {
    let f = File::new("x.fits".to_string(), "x.fits".to_string(), vec![]);
    assert_eq!(f.metadata, vec![("File Name".to_string(), "x.fits".to_string())]);
}

#[test]
fn candidates_are_checked() {
    assert!(check_candidate(true, Some("fits")).is_ok());
    assert!(matches!(check_candidate(false, Some("fits")), Err(LoadError::NotAFile)));
    assert!(matches!(check_candidate(true, None), Err(LoadError::NoFileExtension)));
    assert!(matches!(check_candidate(true, Some("FITS")), Err(LoadError::NotFitsExtension)));
    assert!(matches!(check_candidate(true, Some("fit")), Err(LoadError::NotFitsExtension)));
    assert_eq!(LoadError::NotAFile.message(), "Not a file");
    assert_eq!(LoadError::NoFileExtension.message(), "No file extension");
    assert_eq!(LoadError::NotFitsExtension.message(), "Not fits extension");
    assert!(is_fits_extension("fits"));
    assert!(!is_fits_extension("fitss"));
    assert!(!is_fits_extension(""));
}

#[test]
fn files_are_ordered_by_creation_stably() {
    let files = vec![(30i128, "c"), (10, "a"), (20, "b1"), (-5, "old"), (20, "b2")];
    let sorted = sort_by_creation(files);
    let names: Vec<&str> = sorted.iter().map(|(_, n)| *n).collect();
    assert_eq!(names, vec!["old", "a", "b1", "b2", "c"]);
}

#[test]
fn preview_is_resized_to_2048_wide() {
    let img = GrayImage::from_vec(4, 2, (0..8).map(|v| v * 30).collect()).unwrap();
    let p = render_preview(img, 1024);
    assert_eq!(p.width, PREVIEW_WIDTH);
    assert_eq!(p.width, 2048);
    assert_eq!(p.height, 1024);
    assert_eq!(p.pixels.len(), 2048 * 1024);
}

#[test]
fn preview_of_a_black_image_is_black() {
    let img = GrayImage::from_vec(2, 2, vec![0, 0, 0, 0]).unwrap();
    let p = render_preview(img, 2048);
    assert_eq!(p.pixels.len(), 2048 * 2048);
    assert!(p.pixels.iter().all(|&v| v == 0));
}

#[test]
fn preview_of_the_preview_size_is_kept() {
    let data: Vec<u8> = (0..2048 * 2).map(|i| (i % 251) as u8).collect();
    let img = GrayImage::from_vec(2048, 2, data.clone()).unwrap();
    let p = render_preview(img, 2);
    assert_eq!(p.pixels, data);
}

#[test]
fn preview_of_an_image_without_pixels_is_black() {
    let img = GrayImage::from_vec(0, 3, vec![7, 7]).unwrap();
    let p = render_preview(img, 4);
    assert_eq!(p.pixels.len(), 2048 * 4);
    assert!(p.pixels.iter().all(|&v| v == 0));
}

#[test]
fn preview_follows_the_image() {
    // a bright image stays bright once resized
    let img = GrayImage::from_vec(2, 2, vec![255, 255, 255, 255]).unwrap();
    let p = render_preview(img, 2048);
    assert!(p.pixels.iter().all(|&v| v == 255));
}
