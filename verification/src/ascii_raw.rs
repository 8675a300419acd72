//! Rendering straight from raw image bytes.
//!
//! The image is a sequence of rows of `img_width` bytes each. A pixel takes
//! four bytes, of which the first three are its colours; bytes left over at
//! the end of a row belong to no pixel. The shade of a pixel is the mean of
//! its three colours.

use crate::error::Error;
use crate::grid::{as_chars, chunk_dimensions, create_ascii_string, rendered, valid_dimensions};
use vstd::arithmetic::div_mod::lemma_fundamental_div_mod_converse;
use vstd::prelude::*;

verus! {

/// Whether `length` bytes hold every pixel of an image of `img_height` rows
/// of `img_width` bytes: the colours of the last pixel of the last row lie
/// inside them.
pub open spec fn holds_pixels(length: int, img_width: int, img_height: int) -> bool {
    img_height > 0 && img_width >= 4 ==> (img_height - 1) * img_width + (img_width / 4 - 1) * 4 + 2
        < length
}

/// The shade of the pixel whose bytes begin at `start`: the mean of its three
/// colours, rounded down.
pub open spec fn pixel_shade(img: Seq<u8>, start: int) -> u32 {
    ((img[start] + img[start + 1] + img[start + 2]) / 3) as u32
}

/// The shades of the first `pixels` pixels of the row that begins at
/// `row_start`.
pub open spec fn row_shades(img: Seq<u8>, row_start: int, pixels: int) -> Seq<u32> {
    Seq::new(pixels as nat, |pixel: int| pixel_shade(img, row_start + pixel * 4))
}

/// The shades of an image of `img_height` rows of `img_width` bytes, in
/// row-major order: `img_width / 4` for each row.
pub open spec fn gray_shades(img: Seq<u8>, img_width: int, img_height: int) -> Seq<u32> {
    Seq::new(
        (img_height * (img_width / 4)) as nat,
        |i: int|
            pixel_shade(img, (i / (img_width / 4)) * img_width + (i % (img_width / 4)) * 4),
    )
}

/// The shades of an image with one more row are the shades of the image,
/// then those of the new row.
pub proof fn lemma_gray_shades_extend(img: Seq<u8>, img_width: int, rows: int)
    requires
        0 <= img_width,
        0 <= rows,
    ensures
        gray_shades(img, img_width, rows + 1) == gray_shades(img, img_width, rows) + row_shades(
            img,
            rows * img_width,
            img_width / 4,
        ),
{
    let pixels = img_width / 4;
    let longer = gray_shades(img, img_width, rows + 1);
    let shorter = gray_shades(img, img_width, rows);
    let row = row_shades(img, rows * img_width, pixels);
    assert((rows + 1) * pixels == rows * pixels + pixels && 0 <= rows * pixels)
        by (nonlinear_arith)
        requires
            0 <= rows,
            0 <= pixels,
    ;
    assert forall|i: int| 0 <= i < longer.len() implies longer[i] == (shorter + row)[i] by {
        if i >= rows * pixels {
            lemma_fundamental_div_mod_converse(i, pixels, rows, i - rows * pixels);
        }
    }
    assert(longer =~= shorter + row);
}

/// Reads the shades of the pixels of `img`, an image of `img_height` rows of
/// `img_width` bytes.
pub fn extract_gray_shades(img: &[u8], img_width: u32, img_height: u32) -> (shades: Vec<u32>)
    requires
        holds_pixels(img@.len() as int, img_width as int, img_height as int),
    ensures
        shades@ == gray_shades(img@, img_width as int, img_height as int),
        shades@.len() == img_height * (img_width / 4),
{
    let mut shades: Vec<u32> = Vec::new();
    let pixels: u32 = img_width / 4;
    let mut row: u32 = 0;
    assert(shades@ =~= gray_shades(img@, img_width as int, 0));
    while row < img_height
        invariant
            holds_pixels(img@.len() as int, img_width as int, img_height as int),
            pixels == img_width / 4,
            row <= img_height,
            shades@ == gray_shades(img@, img_width as int, row as int),
        decreases img_height - row,
    {
        let ghost above = shades@;
        let ghost row_start = row as int * img_width as int;
        let mut pixel_start: u32 = 0;
        assert(shades@ =~= above + row_shades(img@, row_start, 0));
        while pixel_start < pixels
            invariant
                holds_pixels(img@.len() as int, img_width as int, img_height as int),
                pixels == img_width / 4,
                row < img_height,
                row_start == row as int * img_width as int,
                pixel_start <= pixels,
                shades@ == above + row_shades(img@, row_start, pixel_start as int),
            decreases pixels - pixel_start,
        {
            assert(0 <= row_start <= (img_height - 1) * img_width && row_start <= 0xffff_ffff
                * 0xffff_ffff) by (nonlinear_arith)
                requires
                    row_start == row as int * img_width as int,
                    0 <= row < img_height,
                    0 <= img_width <= 0xffff_ffff,
                    img_height <= 0xffff_ffff,
            ;
            let position: u64 = (row as u64) * (img_width as u64) + (pixel_start as u64) * 4;
            let first: usize = position as usize;
            let shade: u32 = (img[first] as u32 + img[first + 1] as u32 + img[first + 2] as u32)
                / 3;
            shades.push(shade);
            assert(shades@ =~= above + row_shades(img@, row_start, pixel_start + 1));
            pixel_start = pixel_start + 1;
        }
        proof {
            lemma_gray_shades_extend(img@, img_width as int, row as int);
        }
        row = row + 1;
    }
    assert(shades@.len() == img_height * (img_width / 4)) by {
        assert(0 <= img_height * (img_width / 4)) by (nonlinear_arith)
            requires
                0 <= img_height,
                0 <= img_width / 4,
        ;
    }
    shades
}

/// Renders the raw image `img`, of `img_height` rows of `img_width` bytes,
/// as a grid of `desired_width` by `desired_height` glyphs of `img_scale`.
///
/// The shades of the pixels are rendered as a source `img_width` pixels wide
/// and `img_height` pixels high. Dimensions that are not valid are refused
/// before a byte of the image is read.
pub fn asciify_u8(
    desired_width: u32,
    desired_height: u32,
    img_scale: Vec<char>,
    img: &[u8],
    img_width: u32,
    img_height: u32,
) -> (text: Result<String, Error>)
    requires
        valid_dimensions(
            img_width as int,
            img_height as int,
            desired_width as int,
            desired_height as int,
        ) ==> img_width >= 4 && holds_pixels(
            img@.len() as int,
            img_width as int,
            img_height as int,
        ),
    ensures
        as_chars(text) == rendered(
            gray_shades(img@, img_width as int, img_height as int),
            img_width as int,
            img_height as int,
            desired_width as int,
            desired_height as int,
            img_scale@,
        ),
{
    let (chunk_width, chunk_height) = match chunk_dimensions(
        img_width,
        img_height,
        desired_width,
        desired_height,
    ) {
        Ok(chunk) => chunk,
        Err(error) => {
            return Err(error);
        },
    };
    let gray_shades = extract_gray_shades(img, img_width, img_height);
    assert(gray_shades@.len() > 0) by (nonlinear_arith)
        requires
            gray_shades@.len() == img_height * (img_width / 4),
            img_height > 0,
            img_width / 4 > 0,
    ;
    create_ascii_string(
        desired_width,
        desired_height,
        &gray_shades,
        &img_scale,
        &chunk_width,
        &chunk_height,
        &(img_width, img_height),
    )
}

} // verus!
