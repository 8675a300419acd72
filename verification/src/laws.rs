//! What holds of every rendering.

use crate::ascii_raw::holds_pixels;
use crate::chunk::{lemma_average_between, shades_between};
use crate::error::Error;
use crate::grid::{
    as_chars, is_grid, lemma_chunk_fits, lemma_grid_error_persists, lemma_grid_of_glyphs,
    lemma_row_error_persists, rendered, sheet_of, uniform_grid, valid_dimensions, Sheet,
};
use crate::ramp::char_for_shade;
use vstd::prelude::*;

verus! {

/// Rendering depends on nothing but the shades, the dimensions and the ramp:
/// two runs on the same of each end with the same text, or with the same
/// failure.
pub proof fn lemma_render_deterministic(
    first: Result<String, Error>,
    second: Result<String, Error>,
    shades: Seq<u32>,
    source_width: int,
    source_height: int,
    desired_width: int,
    desired_height: int,
    ramp: Seq<char>,
)
    requires
        as_chars(first) == rendered(
            shades,
            source_width,
            source_height,
            desired_width,
            desired_height,
            ramp,
        ),
        as_chars(second) == rendered(
            shades,
            source_width,
            source_height,
            desired_width,
            desired_height,
            ramp,
        ),
    ensures
        as_chars(first) == as_chars(second),
        first is Ok <==> second is Ok,
        first is Ok ==> first->Ok_0@ == second->Ok_0@,
        first is Err ==> first->Err_0 == second->Err_0,
{
}

/// A grid without a chunk is refused, whatever the source.
pub proof fn lemma_no_chunks_refused(
    shades: Seq<u32>,
    source_width: int,
    source_height: int,
    desired_width: int,
    desired_height: int,
    ramp: Seq<char>,
)
    requires
        desired_width == 0 || desired_height == 0,
    ensures
        rendered(shades, source_width, source_height, desired_width, desired_height, ramp) == Err::<
            Seq<char>,
            Error,
        >(Error::InvalidDimensions),
{
}

/// A grid with more chunks in a direction than the source has pixels is
/// refused.
pub proof fn lemma_too_many_chunks_refused(
    shades: Seq<u32>,
    source_width: int,
    source_height: int,
    desired_width: int,
    desired_height: int,
    ramp: Seq<char>,
)
    requires
        desired_width > source_width || desired_height > source_height,
    ensures
        rendered(shades, source_width, source_height, desired_width, desired_height, ramp) == Err::<
            Seq<char>,
            Error,
        >(Error::InvalidDimensions),
{
}

/// The mean shade of every chunk of a grid with valid dimensions lies
/// between the least and the greatest shade of the source.
pub proof fn lemma_cell_shade_between(
    shades: Seq<u32>,
    source_width: int,
    source_height: int,
    desired_width: int,
    desired_height: int,
    ramp: Seq<char>,
    line: int,
    column: int,
    low: int,
    high: int,
)
    requires
        shades.len() > 0,
        shades_between(shades, low, high),
        valid_dimensions(source_width, source_height, desired_width, desired_height),
        0 <= line,
        0 <= column,
    ensures
        low <= sheet_of(
            shades,
            source_width,
            source_width / desired_width,
            source_height / desired_height,
            ramp,
        ).cell_shade(line, column) <= high,
{
    let chunk_width = source_width / desired_width;
    let chunk_height = source_height / desired_height;
    lemma_chunk_fits(source_width, desired_width);
    lemma_chunk_fits(source_height, desired_height);
    assert(0 <= column * chunk_width && 0 <= line * chunk_height) by (nonlinear_arith)
        requires
            0 <= column,
            0 <= line,
            0 < chunk_width,
            0 < chunk_height,
    ;
    lemma_average_between(
        shades,
        source_width,
        chunk_width,
        chunk_height,
        column * chunk_width,
        line * chunk_height,
        low,
        high,
    );
}

/// Rendering succeeds where the dimensions are valid, the ramp has a glyph
/// and no shade of the source is above 256.
pub proof fn lemma_render_succeeds(
    shades: Seq<u32>,
    source_width: int,
    source_height: int,
    desired_width: int,
    desired_height: int,
    ramp: Seq<char>,
)
    requires
        shades.len() > 0,
        shades_between(shades, 0, 256),
        valid_dimensions(source_width, source_height, desired_width, desired_height),
        ramp.len() > 0,
    ensures
        rendered(
            shades,
            source_width,
            source_height,
            desired_width,
            desired_height,
            ramp,
        ).is_ok(),
{
    let sheet = sheet_of(
        shades,
        source_width,
        source_width / desired_width,
        source_height / desired_height,
        ramp,
    );
    lemma_chunk_fits(source_width, desired_width);
    lemma_chunk_fits(source_height, desired_height);
    assert forall|line: int, column: int|
        0 <= line < desired_height && 0 <= column < desired_width implies (
    #[trigger] sheet.cell_glyph(line, column)).is_ok() by {
        lemma_cell_shade_between(
            shades,
            source_width,
            source_height,
            desired_width,
            desired_height,
            ramp,
            line,
            column,
            0,
            256,
        );
    }
    lemma_grid_of_glyphs(sheet, desired_width, desired_height);
}

/// A source that holds one shade everywhere renders as a grid that holds one
/// glyph everywhere, the glyph that stands for the shade. Where the shade has
/// no glyph, rendering fails as the choice of its glyph does.
pub proof fn lemma_render_uniform(
    shades: Seq<u32>,
    shade: u32,
    source_width: int,
    source_height: int,
    desired_width: int,
    desired_height: int,
    ramp: Seq<char>,
)
    requires
        shades.len() > 0,
        forall|i: int| 0 <= i < shades.len() ==> #[trigger] shades[i] == shade,
        valid_dimensions(source_width, source_height, desired_width, desired_height),
    ensures
        rendered(shades, source_width, source_height, desired_width, desired_height, ramp) == (
        match char_for_shade(ramp, shade as nat) {
            Ok(glyph) => Ok(uniform_grid(glyph, desired_width, desired_height)),
            Err(error) => Err(error),
        }),
{
    let sheet = sheet_of(
        shades,
        source_width,
        source_width / desired_width,
        source_height / desired_height,
        ramp,
    );
    lemma_chunk_fits(source_width, desired_width);
    lemma_chunk_fits(source_height, desired_height);
    assert forall|line: int, column: int| 0 <= line && 0 <= column implies #[trigger] sheet.cell_shade(
        line,
        column,
    ) == shade by {
        lemma_cell_shade_between(
            shades,
            source_width,
            source_height,
            desired_width,
            desired_height,
            ramp,
            line,
            column,
            shade as int,
            shade as int,
        );
    }
    match char_for_shade(ramp, shade as nat) {
        Ok(glyph) => {
            assert forall|line: int, column: int|
                0 <= line < desired_height && 0 <= column < desired_width implies (
            #[trigger] sheet.cell_glyph(line, column)).is_ok() by {
                assert(sheet.cell_shade(line, column) == shade);
            }
            lemma_grid_of_glyphs(sheet, desired_width, desired_height);
            let text = sheet.grid_chars(desired_width, desired_height);
            let plain = uniform_grid(glyph, desired_width, desired_height);
            assert forall|i: int| 0 <= i < text.len() implies text[i] == plain[i] by {
                let line = i / (desired_width + 1);
                let column = i % (desired_width + 1);
                assert(0 <= line && 0 <= column) by (nonlinear_arith)
                    requires
                        0 <= i,
                        0 < desired_width + 1,
                        line == i / (desired_width + 1),
                        column == i % (desired_width + 1),
                ;
                assert(sheet.cell_shade(line, column) == shade);
            }
            assert(text =~= plain);
        },
        Err(error) => {
            assert(sheet.cell_shade(0, 0) == shade);
            assert(sheet.row_error(0, 0) == None::<Error>);
            assert(sheet.row_error(0, 1) == Some(error));
            lemma_row_error_persists(sheet, 0, 1, desired_width);
            assert(sheet.grid_error(desired_width, 0) == None::<Error>);
            assert(sheet.grid_error(desired_width, 1) == Some(error));
            lemma_grid_error_persists(sheet, desired_width, 1, desired_height);
        },
    }
}

/// In a grid whose ramp holds no line feed, the line feeds are the ends of
/// the rows and nothing else: the text has `desired_height` lines of
/// `desired_width` characters.
pub proof fn lemma_line_feeds_end_rows(
    text: Seq<char>,
    ramp: Seq<char>,
    desired_width: int,
    desired_height: int,
)
    requires
        is_grid(text, ramp, desired_width, desired_height),
        !ramp.contains('\n'),
    ensures
        forall|i: int|
            0 <= i < text.len() ==> (#[trigger] text[i] == '\n' <==> i % (desired_width + 1)
                == desired_width),
{
}

/// A part of a row that has failed holds the chunk that failed first: the
/// chunks before it have glyphs, and its failure is that of the part.
pub proof fn lemma_row_error_is_cell_error(sheet: Sheet, line: int, columns: int) -> (column: int)
    requires
        sheet.row_error(line, columns).is_some(),
    ensures
        0 <= column < columns,
        sheet.row_error(line, column).is_none(),
        sheet.cell_glyph(line, column) == Err::<char, Error>(
            sheet.row_error(line, columns).unwrap(),
        ),
    decreases columns,
{
    if sheet.row_error(line, columns - 1).is_some() {
        lemma_row_error_is_cell_error(sheet, line, columns - 1)
    } else {
        columns - 1
    }
}

/// A grid that has failed holds the chunk that failed first: the rows above
/// it and the chunks to its left have glyphs, and its failure is that of the
/// grid.
pub proof fn lemma_grid_error_is_cell_error(sheet: Sheet, desired_width: int, lines: int) -> (cell:
    (int, int))
    requires
        sheet.grid_error(desired_width, lines).is_some(),
    ensures
        0 <= cell.0 < lines,
        0 <= cell.1 < desired_width,
        sheet.grid_error(desired_width, cell.0).is_none(),
        sheet.row_error(cell.0, cell.1).is_none(),
        sheet.cell_glyph(cell.0, cell.1) == Err::<char, Error>(
            sheet.grid_error(desired_width, lines).unwrap(),
        ),
    decreases lines,
{
    if sheet.grid_error(desired_width, lines - 1).is_some() {
        lemma_grid_error_is_cell_error(sheet, desired_width, lines - 1)
    } else {
        let column = lemma_row_error_is_cell_error(sheet, lines - 1, desired_width);
        (lines - 1, column)
    }
}

/// With a glyph in the ramp every shade of at most 256 has one: rendering
/// fails for want of a glyph only where the ramp is empty.
pub proof fn lemma_lookup_needs_empty_ramp(
    shades: Seq<u32>,
    source_width: int,
    source_height: int,
    desired_width: int,
    desired_height: int,
    ramp: Seq<char>,
)
    requires
        rendered(shades, source_width, source_height, desired_width, desired_height, ramp) == Err::<
            Seq<char>,
            Error,
        >(Error::Lookup),
    ensures
        ramp.len() == 0,
{
    let sheet = sheet_of(
        shades,
        source_width,
        source_width / desired_width,
        source_height / desired_height,
        ramp,
    );
    lemma_chunk_fits(source_width, desired_width);
    lemma_chunk_fits(source_height, desired_height);
    let cell = lemma_grid_error_is_cell_error(sheet, desired_width, desired_height);
}

/// A source that holds a shade for each of its pixels meets what rendering
/// asks of it: where the dimensions are valid, it is not empty.
pub proof fn lemma_full_source_has_shades(
    shades: Seq<u32>,
    source_width: int,
    source_height: int,
    desired_width: int,
    desired_height: int,
)
    requires
        shades.len() == source_width * source_height,
        valid_dimensions(source_width, source_height, desired_width, desired_height),
    ensures
        shades.len() > 0,
{
    assert(source_width * source_height > 0) by (nonlinear_arith)
        requires
            source_width > 0,
            source_height > 0,
    ;
}

/// An image that holds all the bytes of its rows holds every pixel.
pub proof fn lemma_whole_rows_hold_pixels(length: int, img_width: int, img_height: int)
    requires
        0 <= img_width,
        0 <= img_height,
        img_width * img_height <= length,
    ensures
        holds_pixels(length, img_width, img_height),
{
    if img_height > 0 && img_width >= 4 {
        assert((img_height - 1) * img_width + img_width == img_width * img_height)
            by (nonlinear_arith);
        assert((img_width / 4 - 1) * 4 + 2 < img_width);
    }
}

} // verus!
