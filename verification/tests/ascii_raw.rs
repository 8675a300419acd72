use asciiforger::ascii_raw::{asciify_u8, extract_gray_shades};
use asciiforger::error::Error;
use asciiforger::grid::render;

fn chars(text: &str) -> Vec<char> {
    text.chars().collect()
}

#[test]
fn shade_is_the_mean_of_three_colours() {
    let img: Vec<u8> = vec![
        0, 0, 0, 255, //
        255, 255, 255, 255, //
        10, 20, 31, 0, //
        255, 0, 0, 7,
    ];
    assert_eq!(extract_gray_shades(&img, 16, 1), vec![0, 255, 20, 85]);
    assert_eq!(extract_gray_shades(&img, 8, 2), vec![0, 255, 20, 85]);
    assert_eq!(extract_gray_shades(&img, 4, 4), vec![0, 255, 20, 85]);
}

#[test]
fn bytes_left_over_in_a_row_belong_to_no_pixel() {
    let img: Vec<u8> = vec![
        30, 30, 30, 0, 9, 9, //
        60, 60, 60, 0, 9, 9,
    ];
    assert_eq!(extract_gray_shades(&img, 6, 2), vec![30, 60]);
    let narrow: Vec<u8> = vec![1, 2, 3, 4, 5, 6];
    assert_eq!(extract_gray_shades(&narrow, 3, 2), Vec::<u32>::new());
    assert_eq!(extract_gray_shades(&narrow, 6, 0), Vec::<u32>::new());
}

#[test]
fn last_row_may_end_with_its_last_colour() {
    let img: Vec<u8> = vec![
        3, 3, 3, 0, //
        6, 6, 6,
    ];
    assert_eq!(extract_gray_shades(&img, 4, 2), vec![3, 6]);
}

#[test]
fn raw_image_renders_as_its_shades_do() {
    let mut img: Vec<u8> = Vec::new();
    for row in 0..4u32 {
        for pixel in 0..4u32 {
            let value = (row * 64 + pixel * 16) as u8;
            img.extend_from_slice(&[value, value, value, 255]);
        }
    }
    let ramp = chars("0123456789");
    let shades = extract_gray_shades(&img, 16, 4);
    let expected = render(&shades, 16, 4, 4, 2, &ramp);
    assert!(expected.is_ok());
    assert_eq!(asciify_u8(4, 2, ramp.clone(), &img, 16, 4), expected);
}

#[test]
fn raw_image_exact_text() {
    // One row of 8 bytes: two pixels with shades 0 and 255. The source is
    // taken as 8 pixels wide, so positions 2 to 7 read the last shade.
    let img: Vec<u8> = vec![0, 0, 0, 255, 255, 255, 255, 255];
    let ramp = chars(".#");
    // chunks of 4: (0 + 255 + 255 + 255) / 4 = 191 -> '#', then 255 -> '#'
    assert_eq!(asciify_u8(2, 1, ramp.clone(), &img, 8, 1), Ok(String::from("##\n")));
    // chunks of 1: 0, then 255 seven times
    assert_eq!(asciify_u8(8, 1, ramp, &img, 8, 1), Ok(String::from(".#######\n")));
}

#[test]
fn raw_image_with_invalid_dimensions() {
    let img: Vec<u8> = vec![0, 0, 0, 255, 255, 255, 255, 255];
    let ramp = chars(".#");
    assert_eq!(asciify_u8(0, 1, ramp.clone(), &img, 8, 1), Err(Error::InvalidDimensions));
    assert_eq!(asciify_u8(1, 0, ramp.clone(), &img, 8, 1), Err(Error::InvalidDimensions));
    assert_eq!(asciify_u8(9, 1, ramp.clone(), &img, 8, 1), Err(Error::InvalidDimensions));
    assert_eq!(asciify_u8(1, 2, ramp.clone(), &img, 8, 1), Err(Error::InvalidDimensions));
    let none: Vec<u8> = vec![];
    assert_eq!(asciify_u8(1, 1, ramp, &none, 0, 0), Err(Error::InvalidDimensions));
}

#[test]
fn raw_image_with_empty_ramp() {
    let img: Vec<u8> = vec![0, 0, 0, 255, 255, 255, 255, 255];
    assert_eq!(asciify_u8(2, 1, Vec::new(), &img, 8, 1), Err(Error::Lookup));
}
