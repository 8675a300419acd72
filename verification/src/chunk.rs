//! The mean shade of a rectangular chunk of the source grid.
//!
//! The source grid is a flat sequence of shades in row-major order: the pixel
//! in column `x` of row `y` stands at position `y * width + x`. A position past
//! the end of the sequence reads the last shade instead.

use vstd::prelude::*;

verus! {

/// The shade read at `position`: the entry there, or the last entry of
/// `shades` when `position` lies past the end.
pub open spec fn shade_at(shades: Seq<u32>, position: int) -> int
    recommends
        shades.len() > 0,
        0 <= position,
{
    if position < shades.len() {
        shades[position] as int
    } else {
        shades[shades.len() - 1] as int
    }
}

/// The sum of the shades at columns `start_x` up to, not including, `end_x`
/// of the row that begins at position `row_start`.
pub open spec fn row_sum(shades: Seq<u32>, row_start: int, start_x: int, end_x: int) -> int
    decreases end_x - start_x,
{
    if end_x <= start_x {
        0
    } else {
        row_sum(shades, row_start, start_x, end_x - 1) + shade_at(shades, row_start + end_x - 1)
    }
}

/// The sum of the shades in the rectangle of columns `start_x..end_x` and rows
/// `start_y..end_y` of a grid that is `width` pixels wide.
pub open spec fn block_sum(
    shades: Seq<u32>,
    width: int,
    start_x: int,
    end_x: int,
    start_y: int,
    end_y: int,
) -> int
    decreases end_y - start_y,
{
    if end_y <= start_y {
        0
    } else {
        block_sum(shades, width, start_x, end_x, start_y, end_y - 1) + row_sum(
            shades,
            (end_y - 1) * width,
            start_x,
            end_x,
        )
    }
}

/// The mean shade of a chunk: the sum over its rectangle, divided by the
/// chunk's nominal size `chunk_width * chunk_height` and rounded down.
pub open spec fn average_shade(
    shades: Seq<u32>,
    width: int,
    chunk_width: int,
    chunk_height: int,
    start_x: int,
    end_x: int,
    start_y: int,
    end_y: int,
) -> int
    recommends
        chunk_width * chunk_height > 0,
{
    block_sum(shades, width, start_x, end_x, start_y, end_y) / (chunk_width * chunk_height)
}

/// Every shade of `shades` lies between `low` and `high`.
pub open spec fn shades_between(shades: Seq<u32>, low: int, high: int) -> bool {
    forall|i: int| 0 <= i < shades.len() ==> low <= #[trigger] shades[i] <= high
}

/// Where every shade lies between `low` and `high`, the sum over part of a
/// row lies between `low` and `high` times the number of its pixels.
pub proof fn lemma_row_sum_between(
    shades: Seq<u32>,
    row_start: int,
    start_x: int,
    end_x: int,
    low: int,
    high: int,
)
    requires
        shades.len() > 0,
        shades_between(shades, low, high),
        0 <= row_start,
        0 <= start_x <= end_x,
    ensures
        (end_x - start_x) * low <= row_sum(shades, row_start, start_x, end_x) <= (end_x - start_x)
            * high,
    decreases end_x - start_x,
{
    if end_x > start_x {
        lemma_row_sum_between(shades, row_start, start_x, end_x - 1, low, high);
        let last = shade_at(shades, row_start + end_x - 1);
        assert(low <= last <= high);
        assert((end_x - start_x) * low == (end_x - 1 - start_x) * low + low) by (nonlinear_arith);
        assert((end_x - start_x) * high == (end_x - 1 - start_x) * high + high)
            by (nonlinear_arith);
    } else {
        assert((end_x - start_x) * low == 0 && (end_x - start_x) * high == 0) by (nonlinear_arith)
            requires
                end_x == start_x,
        ;
    }
}

/// Where every shade lies between `low` and `high`, the sum over a rectangle
/// lies between `low` and `high` times the number of its pixels.
pub proof fn lemma_block_sum_between(
    shades: Seq<u32>,
    width: int,
    start_x: int,
    end_x: int,
    start_y: int,
    end_y: int,
    low: int,
    high: int,
)
    requires
        shades.len() > 0,
        shades_between(shades, low, high),
        0 <= width,
        0 <= start_x <= end_x,
        0 <= start_y <= end_y,
    ensures
        (end_y - start_y) * ((end_x - start_x) * low) <= block_sum(
            shades,
            width,
            start_x,
            end_x,
            start_y,
            end_y,
        ) <= (end_y - start_y) * ((end_x - start_x) * high),
    decreases end_y - start_y,
{
    if end_y > start_y {
        lemma_block_sum_between(shades, width, start_x, end_x, start_y, end_y - 1, low, high);
        assert(0 <= (end_y - 1) * width) by (nonlinear_arith)
            requires
                0 <= width,
                0 <= end_y - 1,
        ;
        lemma_row_sum_between(shades, (end_y - 1) * width, start_x, end_x, low, high);
        let row_low = (end_x - start_x) * low;
        let row_high = (end_x - start_x) * high;
        assert((end_y - start_y) * row_low == (end_y - 1 - start_y) * row_low + row_low)
            by (nonlinear_arith);
        assert((end_y - start_y) * row_high == (end_y - 1 - start_y) * row_high + row_high)
            by (nonlinear_arith);
    } else {
        assert((end_y - start_y) * ((end_x - start_x) * low) == 0 && (end_y - start_y) * ((end_x
            - start_x) * high) == 0) by (nonlinear_arith)
            requires
                end_y == start_y,
        ;
    }
}

/// The mean of a chunk whose rectangle has the chunk's nominal size lies
/// between the least and the greatest shade of the grid.
pub proof fn lemma_average_between(
    shades: Seq<u32>,
    width: int,
    chunk_width: int,
    chunk_height: int,
    start_x: int,
    start_y: int,
    low: int,
    high: int,
)
    requires
        shades.len() > 0,
        shades_between(shades, low, high),
        0 <= width,
        0 < chunk_width,
        0 < chunk_height,
        0 <= start_x,
        0 <= start_y,
    ensures
        low <= average_shade(
            shades,
            width,
            chunk_width,
            chunk_height,
            start_x,
            start_x + chunk_width,
            start_y,
            start_y + chunk_height,
        ) <= high,
{
    let end_x = start_x + chunk_width;
    let end_y = start_y + chunk_height;
    let total = block_sum(shades, width, start_x, end_x, start_y, end_y);
    let size = chunk_width * chunk_height;
    lemma_block_sum_between(shades, width, start_x, end_x, start_y, end_y, low, high);
    assert(chunk_height * (chunk_width * low) == size * low) by (nonlinear_arith)
        requires
            size == chunk_width * chunk_height,
    ;
    assert(chunk_height * (chunk_width * high) == size * high) by (nonlinear_arith)
        requires
            size == chunk_width * chunk_height,
    ;
    assert(size > 0) by (nonlinear_arith)
        requires
            size == chunk_width * chunk_height,
            0 < chunk_width,
            0 < chunk_height,
    ;
    assert(low <= total / size <= high) by (nonlinear_arith)
        requires
            size > 0,
            size * low <= total <= size * high,
    ;
}

/// The mean of a chunk of a grid that holds one shade everywhere is that
/// shade.
pub proof fn lemma_average_of_uniform(
    shades: Seq<u32>,
    shade: int,
    width: int,
    chunk_width: int,
    chunk_height: int,
    start_x: int,
    start_y: int,
)
    requires
        shades.len() > 0,
        forall|i: int| 0 <= i < shades.len() ==> #[trigger] shades[i] == shade,
        0 <= width,
        0 < chunk_width,
        0 < chunk_height,
        0 <= start_x,
        0 <= start_y,
    ensures
        average_shade(
            shades,
            width,
            chunk_width,
            chunk_height,
            start_x,
            start_x + chunk_width,
            start_y,
            start_y + chunk_height,
        ) == shade,
{
    lemma_average_between(
        shades,
        width,
        chunk_width,
        chunk_height,
        start_x,
        start_y,
        shade,
        shade,
    );
}

/// Computes the mean shade of one chunk of `gray_shades`, a grid `width`
/// pixels wide. The chunk covers columns `start_x..end_x` and rows
/// `start_y..end_y`; the sum of its shades is divided by `chunk_width *
/// chunk_height`.
pub fn calculate_chunk_shade(
    gray_shades: &Vec<u32>,
    width: &u32,
    chunk_width: &u32,
    chunk_height: &u32,
    start_x: u32,
    end_x: u32,
    start_y: u32,
    end_y: u32,
) -> (shade: u32)
    requires
        *chunk_width * *chunk_height > 0,
        start_x < end_x && start_y < end_y ==> gray_shades@.len() > 0,
        average_shade(
            gray_shades@,
            *width as int,
            *chunk_width as int,
            *chunk_height as int,
            start_x as int,
            end_x as int,
            start_y as int,
            end_y as int,
        ) <= u32::MAX,
    ensures
        shade == average_shade(
            gray_shades@,
            *width as int,
            *chunk_width as int,
            *chunk_height as int,
            start_x as int,
            end_x as int,
            start_y as int,
            end_y as int,
        ),
{
    let ghost shades = gray_shades@;
    let ghost w = *width as int;
    let mut chunk_shades_sum: u128 = 0;
    let mut pixel_y: u32 = start_y;
    while pixel_y < end_y
        invariant
            shades == gray_shades@,
            w == *width as int,
            start_y <= pixel_y,
            start_y <= end_y ==> pixel_y <= end_y,
            start_y > end_y ==> pixel_y == start_y,
            start_x < end_x && start_y < end_y ==> shades.len() > 0,
            chunk_shades_sum == block_sum(
                shades,
                w,
                start_x as int,
                end_x as int,
                start_y as int,
                pixel_y as int,
            ),
            start_x >= end_x ==> chunk_shades_sum == 0,
        decreases end_y - pixel_y,
    {
        let mut row_shades_sum: u128 = 0;
        let mut pixel_x: u32 = start_x;
        let ghost row_start = pixel_y as int * w;
        assert(0 <= row_start <= 0xffff_ffff * 0xffff_ffff) by (nonlinear_arith)
            requires
                row_start == pixel_y as int * w,
                0 <= pixel_y <= 0xffff_ffff,
                0 <= w <= 0xffff_ffff,
        ;
        while pixel_x < end_x
            invariant
                shades == gray_shades@,
                w == *width as int,
                row_start == pixel_y as int * w,
                0 <= row_start <= 0xffff_ffff * 0xffff_ffff,
                pixel_y < end_y,
                start_y <= pixel_y,
                start_x <= pixel_x,
                start_x <= end_x ==> pixel_x <= end_x,
                start_x > end_x ==> pixel_x == start_x,
                start_x < end_x && start_y < end_y ==> shades.len() > 0,
                row_shades_sum == row_sum(shades, row_start, start_x as int, pixel_x as int),
            decreases end_x - pixel_x,
        {
            let position: u64 = (pixel_y as u64) * (*width as u64) + (pixel_x as u64);
            let len: usize = gray_shades.len();
            let pixel_position: usize = if position >= len as u64 {
                len - 1
            } else {
                position as usize
            };
            proof {
                lemma_row_sum_between(
                    shades,
                    row_start,
                    start_x as int,
                    pixel_x as int,
                    0,
                    0xffff_ffff,
                );
                assert((pixel_x - start_x) * 0xffff_ffff <= 0xffff_ffff * 0xffff_ffff)
                    by (nonlinear_arith)
                    requires
                        0 <= pixel_x - start_x <= 0xffff_ffff,
                ;
            }
            row_shades_sum = row_shades_sum + gray_shades[pixel_position] as u128;
            pixel_x = pixel_x + 1;
        }
        proof {
            if start_x < end_x {
                lemma_block_sum_between(
                    shades,
                    w,
                    start_x as int,
                    end_x as int,
                    start_y as int,
                    pixel_y as int,
                    0,
                    0xffff_ffff,
                );
                lemma_row_sum_between(
                    shades,
                    row_start,
                    start_x as int,
                    end_x as int,
                    0,
                    0xffff_ffff,
                );
                assert((pixel_y - start_y) * ((end_x - start_x) * 0xffff_ffff) <= 0xffff_ffff * (
                0xffff_ffff * 0xffff_ffff)) by (nonlinear_arith)
                    requires
                        0 <= pixel_y - start_y <= 0xffff_ffff,
                        0 <= end_x - start_x <= 0xffff_ffff,
                ;
                assert((end_x - start_x) * 0xffff_ffff <= 0xffff_ffff * 0xffff_ffff)
                    by (nonlinear_arith)
                    requires
                        0 <= end_x - start_x <= 0xffff_ffff,
                ;
            }
        }
        chunk_shades_sum = chunk_shades_sum + row_shades_sum;
        pixel_y = pixel_y + 1;
    }
    assert(0 < *chunk_height * *chunk_width <= 0xffff_ffff * 0xffff_ffff) by (nonlinear_arith)
        requires
            *chunk_width * *chunk_height > 0,
            *chunk_width <= 0xffff_ffff,
            *chunk_height <= 0xffff_ffff,
    ;
    let chunk_size: u64 = (*chunk_height as u64) * (*chunk_width as u64);
    assert(chunk_size as int == *chunk_width as int * *chunk_height as int) by (nonlinear_arith)
        requires
            chunk_size == *chunk_height * *chunk_width,
    ;
    (chunk_shades_sum / (chunk_size as u128)) as u32
}

} // verus!
