use asciiforger::error::Error;
use asciiforger::grid::{chunk_dimensions, create_ascii_string, render};

fn chars(text: &str) -> Vec<char> {
    text.chars().collect()
}

#[test]
fn two_chunks_of_a_single_row() {
    let shades: Vec<u32> = vec![0, 85, 170, 255];
    let ramp = vec!['.', '#'];
    assert_eq!(render(&shades, 4, 1, 2, 1, &ramp), Ok(String::from(".#\n")));
}

#[test]
fn grid_has_the_desired_rows_and_columns() {
    let shades: Vec<u32> = (0..48).map(|i| (i * 5) % 256).collect();
    let ramp = chars("@%#*+=-:. ");
    let text = render(&shades, 8, 6, 4, 3, &ramp).unwrap();
    let rows: Vec<&str> = text.split('\n').collect();
    assert_eq!(rows.len(), 4);
    assert_eq!(rows[3], "");
    for row in &rows[..3] {
        assert_eq!(row.chars().count(), 4);
        assert!(row.chars().all(|c| ramp.contains(&c)));
    }
    assert_eq!(text.chars().count(), 3 * (4 + 1));
}

#[test]
fn full_grid_exact_text() {
    // 4 x 4 source, 2 x 2 chunks of 2 x 2 pixels.
    let shades: Vec<u32> = vec![
        0, 0, 255, 255, //
        0, 0, 255, 255, //
        100, 101, 200, 201, //
        102, 103, 202, 203,
    ];
    let ramp = chars("0123456789");
    // means: 0, 255, 406 / 4 = 101, 806 / 4 = 201
    // positions: 0, 255 * 10 / 256 = 9, 1010 / 256 = 3, 2010 / 256 = 7
    assert_eq!(render(&shades, 4, 4, 2, 2, &ramp), Ok(String::from("09\n37\n")));
}

#[test]
fn trailing_pixels_count_for_nothing() {
    // 5 x 3 source, 2 x 1 chunks of 2 x 3 pixels: the last column is left out.
    let shades: Vec<u32> = vec![
        10, 20, 30, 40, 255, //
        10, 20, 30, 40, 255, //
        10, 20, 30, 40, 255,
    ];
    let ramp = chars("0123456789");
    // means: 90 / 6 = 15, 210 / 6 = 35; positions 150 / 256 = 0, 350 / 256 = 1
    assert_eq!(render(&shades, 5, 3, 2, 1, &ramp), Ok(String::from("01\n")));
}

#[test]
fn rendering_twice_gives_the_same_text() {
    let shades: Vec<u32> = (0..64).map(|i| (i * 37) % 256).collect();
    let ramp = chars("@%#*+=-:. ");
    let first = render(&shades, 8, 8, 4, 2, &ramp);
    let second = render(&shades, 8, 8, 4, 2, &ramp);
    assert!(first.is_ok());
    assert_eq!(first, second);
    let failed_first = render(&shades, 8, 8, 9, 2, &ramp);
    let failed_second = render(&shades, 8, 8, 9, 2, &ramp);
    assert_eq!(failed_first, failed_second);
}

#[test]
fn uniform_source_gives_one_glyph() {
    let ramp = chars("@%#*+=-:. ");
    for shade in [0u32, 1, 25, 26, 127, 128, 200, 255, 256] {
        let shades: Vec<u32> = vec![shade; 6 * 4];
        let glyph = asciiforger::ramp::calculate_associated_char(&ramp, shade).unwrap();
        let row: String = std::iter::repeat(glyph).take(3).collect();
        let expected = format!("{}\n{}\n", row, row);
        assert_eq!(render(&shades, 6, 4, 3, 2, &ramp), Ok(expected));
    }
}

#[test]
fn uniform_source_exact_text() {
    let ramp = chars("@%#*+=-:. ");
    let shades: Vec<u32> = vec![128; 16];
    // 128 * 10 / 256 = 5
    assert_eq!(render(&shades, 4, 4, 2, 2, &ramp), Ok(String::from("==\n==\n")));
}

#[test]
fn zero_desired_width_is_refused() {
    let shades: Vec<u32> = vec![1, 2, 3, 4];
    let ramp = chars(".#");
    assert_eq!(render(&shades, 2, 2, 0, 1, &ramp), Err(Error::InvalidDimensions));
}

#[test]
fn zero_desired_height_is_refused() {
    let shades: Vec<u32> = vec![1, 2, 3, 4];
    let ramp = chars(".#");
    assert_eq!(render(&shades, 2, 2, 1, 0, &ramp), Err(Error::InvalidDimensions));
    assert_eq!(render(&shades, 2, 2, 0, 0, &ramp), Err(Error::InvalidDimensions));
}

#[test]
fn desired_width_above_source_is_refused() {
    let shades: Vec<u32> = vec![1, 2, 3, 4];
    let ramp = chars(".#");
    assert_eq!(render(&shades, 2, 2, 3, 1, &ramp), Err(Error::InvalidDimensions));
}

#[test]
fn desired_height_above_source_is_refused() {
    let shades: Vec<u32> = vec![1, 2, 3, 4];
    let ramp = chars(".#");
    assert_eq!(render(&shades, 2, 2, 1, 3, &ramp), Err(Error::InvalidDimensions));
}

#[test]
fn empty_source_is_refused() {
    let shades: Vec<u32> = vec![];
    let ramp = chars(".#");
    assert_eq!(render(&shades, 0, 0, 1, 1, &ramp), Err(Error::InvalidDimensions));
}

#[test]
fn desired_equal_to_source_gives_one_glyph_per_pixel() {
    let shades: Vec<u32> = vec![0, 255, 255, 0];
    let ramp = chars(".#");
    assert_eq!(render(&shades, 2, 2, 2, 2, &ramp), Ok(String::from(".#\n#.\n")));
}

#[test]
fn shade_above_limit_is_refused() {
    let shades: Vec<u32> = vec![0, 0, 300, 300];
    let ramp = chars(".#");
    assert_eq!(render(&shades, 4, 1, 2, 1, &ramp), Err(Error::InvalidShade));
}

#[test]
fn shade_at_limit_is_accepted() {
    let shades: Vec<u32> = vec![256, 256, 257, 255];
    let ramp = chars(".#");
    assert_eq!(render(&shades, 4, 1, 2, 1, &ramp), Ok(String::from("##\n")));
}

#[test]
fn ramp_without_glyphs_is_refused() {
    let shades: Vec<u32> = vec![0, 0, 10, 10];
    let ramp: Vec<char> = vec![];
    assert_eq!(render(&shades, 4, 1, 2, 1, &ramp), Err(Error::Lookup));
}

#[test]
fn first_failing_chunk_decides_the_failure() {
    let ramp: Vec<char> = vec![];
    let high_first: Vec<u32> = vec![300, 300, 10, 10];
    assert_eq!(render(&high_first, 4, 1, 2, 1, &ramp), Err(Error::InvalidShade));
    let low_first: Vec<u32> = vec![10, 10, 300, 300];
    assert_eq!(render(&low_first, 4, 1, 2, 1, &ramp), Err(Error::Lookup));
}

#[test]
fn short_buffer_reads_its_last_shade() {
    // The source claims 4 x 2 pixels, the buffer holds 5: the rest read 250.
    let shades: Vec<u32> = vec![0, 0, 0, 0, 250];
    let ramp = chars("0123456789");
    // second row of chunks: (250 + 250) / 2 = 250 -> 2500 / 256 = 9
    assert_eq!(render(&shades, 4, 2, 2, 2, &ramp), Ok(String::from("00\n99\n")));
}

#[test]
fn chunk_dimensions_divide_rounding_down() {
    assert_eq!(chunk_dimensions(10, 7, 3, 2), Ok((3, 3)));
    assert_eq!(chunk_dimensions(4, 1, 2, 1), Ok((2, 1)));
    assert_eq!(chunk_dimensions(4, 4, 4, 4), Ok((1, 1)));
    assert_eq!(chunk_dimensions(4, 4, 5, 4), Err(Error::InvalidDimensions));
    assert_eq!(chunk_dimensions(4, 4, 4, 0), Err(Error::InvalidDimensions));
    assert_eq!(chunk_dimensions(0, 4, 1, 1), Err(Error::InvalidDimensions));
}

#[test]
fn assembling_with_given_chunks() {
    let shades: Vec<u32> = vec![0, 85, 170, 255];
    let ramp = chars(".#");
    let text = create_ascii_string(2, 1, &shades, &ramp, &2, &1, &(4, 1));
    assert_eq!(text, Ok(String::from(".#\n")));
}

#[test]
fn assembling_without_chunks_is_refused() {
    let shades: Vec<u32> = vec![0, 85, 170, 255];
    let ramp = chars(".#");
    assert_eq!(
        create_ascii_string(0, 3, &shades, &ramp, &2, &1, &(4, 1)),
        Err(Error::InvalidDimensions)
    );
    assert_eq!(
        create_ascii_string(2, 0, &shades, &ramp, &2, &1, &(4, 1)),
        Err(Error::InvalidDimensions)
    );
    assert_eq!(
        create_ascii_string(0, 0, &shades, &ramp, &2, &1, &(4, 1)),
        Err(Error::InvalidDimensions)
    );
}

#[test]
fn assembling_without_chunks_is_refused_whatever_the_rest() {
    let none: Vec<u32> = vec![];
    let ramp: Vec<char> = vec![];
    let top = u32::MAX;
    assert_eq!(
        create_ascii_string(0, top, &none, &ramp, &top, &top, &(top, top)),
        Err(Error::InvalidDimensions)
    );
    assert_eq!(
        create_ascii_string(top, 0, &none, &ramp, &top, &top, &(0, 0)),
        Err(Error::InvalidDimensions)
    );
    assert_eq!(
        create_ascii_string(top, top, &none, &ramp, &0, &top, &(top, top)),
        Err(Error::InvalidDimensions)
    );
    assert_eq!(
        create_ascii_string(top, top, &none, &ramp, &top, &0, &(top, top)),
        Err(Error::InvalidDimensions)
    );
}

#[test]
fn assembling_with_chunks_without_pixels_is_refused() {
    let shades: Vec<u32> = vec![0, 85, 170, 255];
    let ramp = chars(".#");
    // 5 chunks in a row of 4 pixels: 4 / 5 = 0
    assert_eq!(
        create_ascii_string(5, 1, &shades, &ramp, &0, &1, &(4, 1)),
        Err(Error::InvalidDimensions)
    );
    // 2 rows of chunks in 1 row of pixels: 1 / 2 = 0
    assert_eq!(
        create_ascii_string(2, 2, &shades, &ramp, &2, &0, &(4, 1)),
        Err(Error::InvalidDimensions)
    );
    let none: Vec<u32> = vec![];
    assert_eq!(
        create_ascii_string(1, 1, &none, &ramp, &0, &0, &(0, 0)),
        Err(Error::InvalidDimensions)
    );
}

#[test]
fn invalid_dimensions_come_before_any_other_failure() {
    let shades: Vec<u32> = vec![300, 300, 300, 300];
    let none: Vec<char> = vec![];
    assert_eq!(
        create_ascii_string(0, 1, &shades, &none, &2, &1, &(4, 1)),
        Err(Error::InvalidDimensions)
    );
    assert_eq!(
        create_ascii_string(2, 1, &shades, &none, &0, &1, &(4, 1)),
        Err(Error::InvalidDimensions)
    );
    assert_eq!(render(&shades, 4, 1, 5, 1, &none), Err(Error::InvalidDimensions));
}

#[test]
fn assembling_appends_every_glyph() {
    let shades: Vec<u32> = vec![0; 9];
    let ramp = chars("ab");
    let text = create_ascii_string(3, 3, &shades, &ramp, &1, &1, &(3, 3)).unwrap();
    assert_eq!(text, "aaa\naaa\naaa\n");
    assert_eq!(text.len(), 12);
}
