//! The character grid: one glyph for each chunk of the source grid, row by
//! row, with a line feed after each row.

use crate::chunk::{average_shade, calculate_chunk_shade, lemma_average_between};
use crate::error::Error;
use crate::ramp::{calculate_associated_char, char_for_shade, lemma_ramp_index_in_range, ramp_index};
use vstd::arithmetic::div_mod::{
    lemma_fundamental_div_mod, lemma_fundamental_div_mod_converse, lemma_mod_pos_bound,
};
use vstd::prelude::*;

verus! {

/// `String::push` of the standard library: the string afterwards is the
/// string before with `glyph` added at its end.
pub assume_specification[ String::push ](text: &mut String, glyph: char)
    ensures
        final(text)@ == old(text)@.push(glyph),
;

/// A source grid cut into chunks of one size, and the ramp that gives the
/// chunks their glyphs. The chunk in column `column` of row `line` covers the
/// pixels of columns `column * chunk_width` up to, not including,
/// `(column + 1) * chunk_width`, and of rows `line * chunk_height` up to, not
/// including, `(line + 1) * chunk_height`.
pub struct Sheet {
    /// The shades of the source, in row-major order.
    pub shades: Seq<u32>,
    /// The number of pixels in a row of the source.
    pub width: int,
    /// The number of pixels in a row of a chunk.
    pub chunk_width: int,
    /// The number of rows of pixels in a chunk.
    pub chunk_height: int,
    /// The glyphs, from one visual extreme to the other.
    pub ramp: Seq<char>,
}

impl Sheet {
    /// The mean shade of the chunk in column `column` of row `line`.
    pub open spec fn cell_shade(self, line: int, column: int) -> int {
        average_shade(
            self.shades,
            self.width,
            self.chunk_width,
            self.chunk_height,
            column * self.chunk_width,
            column * self.chunk_width + self.chunk_width,
            line * self.chunk_height,
            line * self.chunk_height + self.chunk_height,
        )
    }

    /// The glyph that stands for the chunk in column `column` of row `line`,
    /// or the reason why it has none.
    pub open spec fn cell_glyph(self, line: int, column: int) -> Result<char, Error> {
        char_for_shade(self.ramp, self.cell_shade(line, column) as nat)
    }

    /// The glyph at the position of the ramp that the shade of a chunk
    /// selects.
    pub open spec fn glyph_at(self, line: int, column: int) -> char {
        self.ramp[ramp_index(self.ramp.len(), self.cell_shade(line, column) as nat) as int]
    }

    /// The failure of the first chunk without a glyph among the first
    /// `columns` chunks of row `line`, if there is one.
    pub open spec fn row_error(self, line: int, columns: int) -> Option<Error>
        decreases columns,
    {
        if columns <= 0 {
            None
        } else {
            match self.row_error(line, columns - 1) {
                Some(error) => Some(error),
                None => match self.cell_glyph(line, columns - 1) {
                    Ok(_) => None,
                    Err(error) => Some(error),
                },
            }
        }
    }

    /// The failure of the first chunk without a glyph in the first `lines`
    /// rows of a grid with `desired_width` chunks in a row, if there is one.
    /// Chunks are taken row by row, and from left to right within a row.
    pub open spec fn grid_error(self, desired_width: int, lines: int) -> Option<Error>
        decreases lines,
    {
        if lines <= 0 {
            None
        } else {
            match self.grid_error(desired_width, lines - 1) {
                Some(error) => Some(error),
                None => self.row_error(lines - 1, desired_width),
            }
        }
    }

    /// The glyphs of the first `columns` chunks of row `line`.
    pub open spec fn row_chars(self, line: int, columns: int) -> Seq<char> {
        Seq::new(columns as nat, |column: int| self.glyph_at(line, column))
    }

    /// The text of a grid of `desired_height` rows with `desired_width`
    /// glyphs each. A row takes `desired_width + 1` characters, the last of
    /// which is a line feed.
    pub open spec fn grid_chars(self, desired_width: int, desired_height: int) -> Seq<char> {
        Seq::new(
            (desired_height * (desired_width + 1)) as nat,
            |i: int|
                if i % (desired_width + 1) == desired_width {
                    '\n'
                } else {
                    self.glyph_at(i / (desired_width + 1), i % (desired_width + 1))
                },
        )
    }

    /// Whether a grid of `desired_width` by `desired_height` chunks has a
    /// chunk at all, and every chunk a pixel.
    pub open spec fn has_chunks(self, desired_width: int, desired_height: int) -> bool {
        &&& 0 < desired_width
        &&& 0 < desired_height
        &&& 0 < self.chunk_width
        &&& 0 < self.chunk_height
    }

    /// What assembling a grid of `desired_width` by `desired_height` chunks
    /// gives. A grid without a chunk, or with chunks without a pixel, is
    /// refused for its dimensions. Any other grid gives the failure of the
    /// first chunk without a glyph, or else the text.
    pub open spec fn assembled(self, desired_width: int, desired_height: int) -> Result<
        Seq<char>,
        Error,
    > {
        if !self.has_chunks(desired_width, desired_height) {
            Err(Error::InvalidDimensions)
        } else {
            match self.grid_error(desired_width, desired_height) {
                Some(error) => Err(error),
                None => Ok(self.grid_chars(desired_width, desired_height)),
            }
        }
    }
}

/// The sheet of a source `width` pixels wide, cut into chunks of
/// `chunk_width` by `chunk_height` pixels.
pub open spec fn sheet_of(
    shades: Seq<u32>,
    width: int,
    chunk_width: int,
    chunk_height: int,
    ramp: Seq<char>,
) -> Sheet {
    Sheet { shades, width, chunk_width, chunk_height, ramp }
}

/// A result with its text taken as a sequence of characters.
pub open spec fn as_chars(text: Result<String, Error>) -> Result<Seq<char>, Error> {
    match text {
        Ok(string) => Ok(string@),
        Err(error) => Err(error),
    }
}

/// Whether a grid of `desired_width` by `desired_height` chunks can be cut
/// from a source of `source_width` by `source_height` pixels: it has a chunk
/// in each direction, and no more chunks than the source has pixels.
pub open spec fn valid_dimensions(
    source_width: int,
    source_height: int,
    desired_width: int,
    desired_height: int,
) -> bool {
    0 < desired_width <= source_width && 0 < desired_height <= source_height
}

/// What rendering gives. Dimensions that are not valid are refused. Valid
/// ones cut the source into chunks of `source_width / desired_width` by
/// `source_height / desired_height` pixels, and the grid is assembled from
/// them. Pixels to the right of the last column of chunks, and below the last
/// row, count for nothing.
pub open spec fn rendered(
    shades: Seq<u32>,
    source_width: int,
    source_height: int,
    desired_width: int,
    desired_height: int,
    ramp: Seq<char>,
) -> Result<Seq<char>, Error> {
    if valid_dimensions(source_width, source_height, desired_width, desired_height) {
        sheet_of(
            shades,
            source_width,
            source_width / desired_width,
            source_height / desired_height,
            ramp,
        ).assembled(desired_width, desired_height)
    } else {
        Err(Error::InvalidDimensions)
    }
}

/// Whether `text` has the layout of a grid of `desired_height` rows with
/// `desired_width` glyphs of `ramp` each: a row takes `desired_width + 1`
/// characters, of which the last is a line feed and the others are glyphs.
pub open spec fn is_grid(
    text: Seq<char>,
    ramp: Seq<char>,
    desired_width: int,
    desired_height: int,
) -> bool {
    &&& text.len() == desired_height * (desired_width + 1)
    &&& forall|i: int|
        0 <= i < text.len() ==> if i % (desired_width + 1) == desired_width {
            #[trigger] text[i] == '\n'
        } else {
            ramp.contains(text[i])
        }
}

/// The text of a grid in which every chunk has the glyph `glyph`.
pub open spec fn uniform_grid(glyph: char, desired_width: int, desired_height: int) -> Seq<char> {
    Seq::new(
        (desired_height * (desired_width + 1)) as nat,
        |i: int|
            if i % (desired_width + 1) == desired_width {
                '\n'
            } else {
                glyph
            },
    )
}

/// Once a chunk of a row has failed, its failure is that of every longer
/// part of the row.
pub proof fn lemma_row_error_persists(sheet: Sheet, line: int, early: int, late: int)
    requires
        early <= late,
        sheet.row_error(line, early).is_some(),
    ensures
        sheet.row_error(line, late) == sheet.row_error(line, early),
    decreases late - early,
{
    if early < late {
        lemma_row_error_persists(sheet, line, early, late - 1);
    }
}

/// Once a chunk of a grid has failed, its failure is that of every grid with
/// more rows.
pub proof fn lemma_grid_error_persists(sheet: Sheet, desired_width: int, early: int, late: int)
    requires
        early <= late,
        sheet.grid_error(desired_width, early).is_some(),
    ensures
        sheet.grid_error(desired_width, late) == sheet.grid_error(desired_width, early),
    decreases late - early,
{
    if early < late {
        lemma_grid_error_persists(sheet, desired_width, early, late - 1);
    }
}

/// In part of a row without failure every chunk has a glyph.
pub proof fn lemma_row_without_error(sheet: Sheet, line: int, columns: int, column: int)
    requires
        sheet.row_error(line, columns).is_none(),
        0 <= column < columns,
    ensures
        sheet.cell_glyph(line, column).is_ok(),
    decreases columns,
{
    if column < columns - 1 {
        lemma_row_without_error(sheet, line, columns - 1, column);
    }
}

/// In a grid without failure every chunk has a glyph.
pub proof fn lemma_grid_without_error(
    sheet: Sheet,
    desired_width: int,
    lines: int,
    line: int,
    column: int,
)
    requires
        sheet.grid_error(desired_width, lines).is_none(),
        0 <= line < lines,
        0 <= column < desired_width,
    ensures
        sheet.cell_glyph(line, column).is_ok(),
    decreases lines,
{
    if line < lines - 1 {
        lemma_grid_without_error(sheet, desired_width, lines - 1, line, column);
    } else {
        lemma_row_without_error(sheet, line, desired_width, column);
    }
}

/// Where every chunk of part of a row has a glyph, the part is without
/// failure.
pub proof fn lemma_row_of_glyphs(sheet: Sheet, line: int, columns: int)
    requires
        forall|column: int|
            0 <= column < columns ==> (#[trigger] sheet.cell_glyph(line, column)).is_ok(),
    ensures
        sheet.row_error(line, columns).is_none(),
    decreases columns,
{
    if columns > 0 {
        lemma_row_of_glyphs(sheet, line, columns - 1);
        assert(sheet.cell_glyph(line, columns - 1).is_ok());
    }
}

/// Where every chunk of a grid has a glyph, the grid is without failure.
pub proof fn lemma_grid_of_glyphs(sheet: Sheet, desired_width: int, lines: int)
    requires
        forall|line: int, column: int|
            0 <= line < lines && 0 <= column < desired_width ==> (#[trigger] sheet.cell_glyph(
                line,
                column,
            )).is_ok(),
    ensures
        sheet.grid_error(desired_width, lines).is_none(),
    decreases lines,
{
    if lines > 0 {
        lemma_grid_of_glyphs(sheet, desired_width, lines - 1);
        lemma_row_of_glyphs(sheet, lines - 1, desired_width);
    }
}

/// The text of a grid with one more row is the text of the grid, then the
/// glyphs of the new row, then a line feed.
pub proof fn lemma_grid_chars_extend(sheet: Sheet, desired_width: int, lines: int)
    requires
        0 <= desired_width,
        0 <= lines,
    ensures
        sheet.grid_chars(desired_width, lines + 1) == sheet.grid_chars(desired_width, lines)
            + sheet.row_chars(lines, desired_width).push('\n'),
{
    let stride = desired_width + 1;
    let longer = sheet.grid_chars(desired_width, lines + 1);
    let shorter = sheet.grid_chars(desired_width, lines);
    let row = sheet.row_chars(lines, desired_width).push('\n');
    assert((lines + 1) * stride == lines * stride + stride && 0 <= lines * stride)
        by (nonlinear_arith)
        requires
            0 <= lines,
            0 < stride,
    ;
    assert forall|i: int| 0 <= i < longer.len() implies longer[i] == (shorter + row)[i] by {
        if i >= lines * stride {
            lemma_fundamental_div_mod_converse(i, stride, lines, i - lines * stride);
        }
    }
    assert(longer =~= shorter + row);
}

/// The line and the column of the character at position `i` of a text laid
/// out in rows of `desired_width + 1` characters lie inside the grid.
pub proof fn lemma_position_in_grid(i: int, desired_width: int, desired_height: int)
    requires
        0 <= desired_width,
        0 <= i < desired_height * (desired_width + 1),
    ensures
        0 <= i / (desired_width + 1) < desired_height,
        0 <= i % (desired_width + 1) <= desired_width,
{
    let stride = desired_width + 1;
    lemma_fundamental_div_mod(i, stride);
    lemma_mod_pos_bound(i, stride);
    let line = i / stride;
    assert(0 <= line < desired_height) by (nonlinear_arith)
        requires
            0 < stride,
            0 <= i < desired_height * stride,
            i == stride * line + i % stride,
            0 <= i % stride < stride,
    ;
}

/// A text that was assembled without failure has the layout of the grid:
/// `desired_height` rows, each of `desired_width` glyphs of the ramp and a
/// line feed.
pub proof fn lemma_assembled_is_grid(sheet: Sheet, desired_width: int, desired_height: int)
    requires
        sheet.assembled(desired_width, desired_height).is_ok(),
    ensures
        is_grid(
            sheet.assembled(desired_width, desired_height).unwrap(),
            sheet.ramp,
            desired_width,
            desired_height,
        ),
{
    let text = sheet.grid_chars(desired_width, desired_height);
    assert(0 <= desired_height * (desired_width + 1)) by (nonlinear_arith)
        requires
            0 <= desired_width,
            0 <= desired_height,
    ;
    assert forall|i: int| 0 <= i < text.len() && i % (desired_width + 1) != desired_width implies
        sheet.ramp.contains(#[trigger] text[i]) by {
        let line = i / (desired_width + 1);
        let column = i % (desired_width + 1);
        lemma_position_in_grid(i, desired_width, desired_height);
        lemma_grid_without_error(sheet, desired_width, desired_height, line, column);
        lemma_ramp_index_in_range(sheet.ramp.len(), sheet.cell_shade(line, column) as nat);
    }
}

/// The chunks of one direction lie inside the source, and each holds a pixel
/// exactly when there are no more chunks than pixels.
pub proof fn lemma_chunk_fits(source: int, desired: int)
    requires
        0 <= source,
        0 < desired,
    ensures
        0 <= desired * (source / desired) <= source,
        source / desired > 0 <==> desired <= source,
{
    lemma_fundamental_div_mod(source, desired);
    lemma_mod_pos_bound(source, desired);
    let chunk = source / desired;
    assert(0 <= chunk) by (nonlinear_arith)
        requires
            0 <= source,
            0 < desired,
            source == desired * chunk + source % desired,
            source % desired < desired,
    ;
    assert(chunk > 0 <==> desired <= source) by (nonlinear_arith)
        requires
            0 <= chunk,
            0 < desired,
            source == desired * chunk + source % desired,
            0 <= source % desired < desired,
    ;
    assert(0 <= desired * chunk) by (nonlinear_arith)
        requires
            0 < desired,
            0 <= chunk,
    ;
}

/// Assembles the text of a grid of `desired_width` by `desired_height`
/// chunks, each `chunk_width` pixels wide and `chunk_height` pixels high,
/// cut from `gray_shades`, a grid `dimensions.0` pixels wide. Each chunk
/// gives the glyph of `img_scale` that stands for its mean shade. The first
/// chunk without a glyph ends the work with its failure.
///
/// A grid without a chunk, or with chunks without a pixel, is refused for
/// its dimensions before a shade is read. Any other grid needs at least one
/// shade to read, and the right and the lower edge of its chunks have to fit
/// in 32 bits.
pub fn create_ascii_string(
    desired_width: u32,
    desired_height: u32,
    gray_shades: &Vec<u32>,
    img_scale: &Vec<char>,
    chunk_width: &u32,
    chunk_height: &u32,
    dimensions: &(u32, u32),
) -> (text: Result<String, Error>)
    requires
        desired_width > 0 && desired_height > 0 && *chunk_width > 0 && *chunk_height > 0 ==> {
            &&& desired_width * *chunk_width <= u32::MAX
            &&& desired_height * *chunk_height <= u32::MAX
            &&& gray_shades@.len() > 0
        },
    ensures
        as_chars(text) == sheet_of(
            gray_shades@,
            dimensions.0 as int,
            *chunk_width as int,
            *chunk_height as int,
            img_scale@,
        ).assembled(desired_width as int, desired_height as int),
        desired_width == 0 || desired_height == 0 ==> text matches Err(Error::InvalidDimensions),
        *chunk_width == 0 || *chunk_height == 0 ==> text matches Err(Error::InvalidDimensions),
{
    if desired_width == 0 || desired_height == 0 || *chunk_width == 0 || *chunk_height == 0 {
        return Err(Error::InvalidDimensions);
    }
    let ghost sheet = sheet_of(
        gray_shades@,
        dimensions.0 as int,
        *chunk_width as int,
        *chunk_height as int,
        img_scale@,
    );
    let ghost dw = desired_width as int;
    let mut ascii_string = String::new();
    let mut line: u32 = 0;
    assert(ascii_string@ =~= sheet.grid_chars(dw, 0));
    while line < desired_height
        invariant
            sheet == sheet_of(
                gray_shades@,
                dimensions.0 as int,
                *chunk_width as int,
                *chunk_height as int,
                img_scale@,
            ),
            dw == desired_width as int,
            *chunk_width > 0,
            *chunk_height > 0,
            desired_width * *chunk_width <= u32::MAX,
            desired_height * *chunk_height <= u32::MAX,
            desired_width > 0,
            gray_shades@.len() > 0,
            line <= desired_height,
            sheet.grid_error(dw, line as int).is_none(),
            ascii_string@ == sheet.grid_chars(dw, line as int),
        decreases desired_height - line,
    {
        let ghost above = ascii_string@;
        let mut column: u32 = 0;
        assert(ascii_string@ =~= above + sheet.row_chars(line as int, 0));
        while column < desired_width
            invariant
                sheet == sheet_of(
                    gray_shades@,
                    dimensions.0 as int,
                    *chunk_width as int,
                    *chunk_height as int,
                    img_scale@,
                ),
                dw == desired_width as int,
                *chunk_width > 0,
                *chunk_height > 0,
                desired_width * *chunk_width <= u32::MAX,
                desired_height * *chunk_height <= u32::MAX,
                gray_shades@.len() > 0,
                line < desired_height,
                column <= desired_width,
                sheet.grid_error(dw, line as int).is_none(),
                sheet.row_error(line as int, column as int).is_none(),
                ascii_string@ == above + sheet.row_chars(line as int, column as int),
            decreases desired_width - column,
        {
            proof {
                let cw = *chunk_width as int;
                let ch = *chunk_height as int;
                assert(0 <= column * cw && column * cw + cw <= desired_width * cw)
                    by (nonlinear_arith)
                    requires
                        0 <= column < desired_width,
                        0 < cw,
                ;
                assert(0 <= line * ch && line * ch + ch <= desired_height * ch)
                    by (nonlinear_arith)
                    requires
                        0 <= line < desired_height,
                        0 < ch,
                ;
                assert(cw * ch > 0) by (nonlinear_arith)
                    requires
                        0 < cw,
                        0 < ch,
                ;
                lemma_average_between(
                    sheet.shades,
                    sheet.width,
                    cw,
                    ch,
                    column * cw,
                    line * ch,
                    0,
                    u32::MAX as int,
                );
            }
            let start_x: u32 = column * *chunk_width;
            let start_y: u32 = line * *chunk_height;
            let end_x: u32 = start_x + *chunk_width;
            let end_y: u32 = start_y + *chunk_height;
            let chunk_shade = calculate_chunk_shade(
                gray_shades,
                &dimensions.0,
                chunk_width,
                chunk_height,
                start_x,
                end_x,
                start_y,
                end_y,
            );
            assert(chunk_shade == sheet.cell_shade(line as int, column as int));
            match calculate_associated_char(img_scale, chunk_shade) {
                Ok(shade) => {
                    ascii_string.push(shade);
                },
                Err(e) => {
                    proof {
                        lemma_row_error_persists(sheet, line as int, column + 1, dw);
                        lemma_grid_error_persists(sheet, dw, line + 1, desired_height as int);
                    }
                    return Err(e);
                },
            }
            assert(ascii_string@ =~= above + sheet.row_chars(line as int, column + 1));
            column = column + 1;
        }
        ascii_string.push('\n');
        proof {
            lemma_grid_chars_extend(sheet, dw, line as int);
        }
        line = line + 1;
    }
    Ok(ascii_string)
}

/// Holds the dimensions of a grid against those of its source, and gives
/// the width and the height of a chunk: `source_width / desired_width` and
/// `source_height / desired_height`, rounded down. Dimensions that are not
/// valid are refused.
pub fn chunk_dimensions(
    source_width: u32,
    source_height: u32,
    desired_width: u32,
    desired_height: u32,
) -> (chunk: Result<(u32, u32), Error>)
    ensures
        chunk.is_ok() == valid_dimensions(
            source_width as int,
            source_height as int,
            desired_width as int,
            desired_height as int,
        ),
        chunk matches Err(error) ==> error == Error::InvalidDimensions,
        chunk matches Ok(size) ==> {
            &&& size.0 == source_width / desired_width
            &&& size.1 == source_height / desired_height
            &&& size.0 > 0
            &&& size.1 > 0
            &&& desired_width * size.0 <= source_width
            &&& desired_height * size.1 <= source_height
        },
{
    if desired_width == 0 || desired_height == 0 {
        return Err(Error::InvalidDimensions);
    }
    let chunk_width: u32 = source_width / desired_width;
    let chunk_height: u32 = source_height / desired_height;
    proof {
        lemma_chunk_fits(source_width as int, desired_width as int);
        lemma_chunk_fits(source_height as int, desired_height as int);
    }
    if chunk_width == 0 || chunk_height == 0 {
        return Err(Error::InvalidDimensions);
    }
    Ok((chunk_width, chunk_height))
}

/// Renders `gray_shades`, a grid of `source_width` by `source_height`
/// pixels in row-major order, as text: `desired_height` rows of
/// `desired_width` glyphs of `img_scale`, one for each chunk of the source,
/// and a line feed after each row.
///
/// The shades need not fill the source: a pixel whose position lies past
/// their end has the last shade. Where the dimensions are valid there has to
/// be at least one shade.
pub fn render(
    gray_shades: &Vec<u32>,
    source_width: u32,
    source_height: u32,
    desired_width: u32,
    desired_height: u32,
    img_scale: &Vec<char>,
) -> (text: Result<String, Error>)
    requires
        valid_dimensions(
            source_width as int,
            source_height as int,
            desired_width as int,
            desired_height as int,
        ) ==> gray_shades@.len() > 0,
    ensures
        as_chars(text) == rendered(
            gray_shades@,
            source_width as int,
            source_height as int,
            desired_width as int,
            desired_height as int,
            img_scale@,
        ),
        desired_width == 0 || desired_height == 0 ==> text matches Err(Error::InvalidDimensions),
        desired_width > source_width || desired_height > source_height ==> text matches Err(
            Error::InvalidDimensions,
        ),
        text matches Ok(string) ==> is_grid(
            string@,
            img_scale@,
            desired_width as int,
            desired_height as int,
        ),
{
    let (chunk_width, chunk_height) = match chunk_dimensions(
        source_width,
        source_height,
        desired_width,
        desired_height,
    ) {
        Ok(chunk) => chunk,
        Err(error) => {
            return Err(error);
        },
    };
    let text = create_ascii_string(
        desired_width,
        desired_height,
        gray_shades,
        img_scale,
        &chunk_width,
        &chunk_height,
        &(source_width, source_height),
    );
    proof {
        if text.is_ok() {
            lemma_assembled_is_grid(
                sheet_of(
                    gray_shades@,
                    source_width as int,
                    chunk_width as int,
                    chunk_height as int,
                    img_scale@,
                ),
                desired_width as int,
                desired_height as int,
            );
        }
    }
    text
}

} // verus!
