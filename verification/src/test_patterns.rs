//! Helper functions that rasterize simple stimulus patterns as intensity
//! grids, for exercising the pathway.

use vstd::prelude::*;
use crate::fixed::SCALE;
use crate::grid::{grid_wf, rows_view};

verus! {

/// The fixed-point intensity of a 0.7 gray, used by the diagonal pattern.
pub const DIM_LEVEL: i64 = 700_000;

/// Creates a vertical bar pattern: a bright bar one quarter of the width,
/// centered horizontally, on a dark background.
#[verifier::loop_isolation(false)]
pub fn vertical_bar(width: usize, height: usize) -> (r: Vec<Vec<i64>>)
    ensures
        r@.len() == height,
        forall|y: int| 0 <= y < height ==> (#[trigger] r@[y]@).len() == width,
        forall|y: int, x: int|
            0 <= y < height && 0 <= x < width ==> #[trigger] r@[y]@[x] == if (width / 2 - width / 4
                / 2) <= x < (width / 2 - width / 4 / 2) + width / 4 {
                SCALE
            } else {
                0i64
            },
        grid_wf(rows_view(r@), width as int, height as int, SCALE as int),
{
    let bar_width = width / 4;
    let bar_start = width / 2 - bar_width / 2;
    let mut rows: Vec<Vec<i64>> = Vec::new();
    let mut y: usize = 0;
    while y < height
        invariant
            y <= height,
            rows@.len() == y,
            forall|y2: int| 0 <= y2 < y ==> (#[trigger] rows@[y2]@).len() == width,
            forall|y2: int, x: int|
                0 <= y2 < y && 0 <= x < width ==> #[trigger] rows@[y2]@[x] == if bar_start <= x
                    < bar_start + bar_width {
                    SCALE
                } else {
                    0i64
                },
        decreases height - y,
    {
        let mut row: Vec<i64> = Vec::new();
        let mut x: usize = 0;
        while x < width
            invariant
                x <= width,
                row@.len() == x,
                forall|x2: int|
                    0 <= x2 < x ==> #[trigger] row@[x2] == if bar_start <= x2 < bar_start
                        + bar_width {
                        SCALE
                    } else {
                        0i64
                    },
            decreases width - x,
        {
            if x >= bar_start && x < bar_start + bar_width {
                row.push(SCALE);
            } else {
                row.push(0);
            }
            x = x + 1;
        }
        rows.push(row);
        y = y + 1;
    }
    rows
}

/// Creates a horizontal bar pattern: a bright bar one quarter of the
/// height, centered vertically, on a dark background.
#[verifier::loop_isolation(false)]
pub fn horizontal_bar(width: usize, height: usize) -> (r: Vec<Vec<i64>>)
    ensures
        r@.len() == height,
        forall|y: int| 0 <= y < height ==> (#[trigger] r@[y]@).len() == width,
        forall|y: int, x: int|
            0 <= y < height && 0 <= x < width ==> #[trigger] r@[y]@[x] == if (height / 2 - height
                / 4 / 2) <= y < (height / 2 - height / 4 / 2) + height / 4 {
                SCALE
            } else {
                0i64
            },
        grid_wf(rows_view(r@), width as int, height as int, SCALE as int),
{
    let bar_height = height / 4;
    let bar_start = height / 2 - bar_height / 2;
    let mut rows: Vec<Vec<i64>> = Vec::new();
    let mut y: usize = 0;
    while y < height
        invariant
            y <= height,
            rows@.len() == y,
            forall|y2: int| 0 <= y2 < y ==> (#[trigger] rows@[y2]@).len() == width,
            forall|y2: int, x: int|
                0 <= y2 < y && 0 <= x < width ==> #[trigger] rows@[y2]@[x] == if bar_start <= y2
                    < bar_start + bar_height {
                    SCALE
                } else {
                    0i64
                },
        decreases height - y,
    {
        let bright = y >= bar_start && y < bar_start + bar_height;
        let mut row: Vec<i64> = Vec::new();
        let mut x: usize = 0;
        while x < width
            invariant
                x <= width,
                row@.len() == x,
                forall|x2: int|
                    0 <= x2 < x ==> #[trigger] row@[x2] == if bar_start <= y < bar_start
                        + bar_height {
                        SCALE
                    } else {
                        0i64
                    },
            decreases width - x,
        {
            if bright {
                row.push(SCALE);
            } else {
                row.push(0);
            }
            x = x + 1;
        }
        rows.push(row);
        y = y + 1;
    }
    rows
}

/// Creates a diagonal line pattern: a bright main diagonal flanked by a
/// dimmer line on either side.
#[verifier::loop_isolation(false)]
pub fn diagonal_line(width: usize, height: usize) -> (r: Vec<Vec<i64>>)
    ensures
        r@.len() == height,
        forall|y: int| 0 <= y < height ==> (#[trigger] r@[y]@).len() == width,
        grid_wf(rows_view(r@), width as int, height as int, SCALE as int),
{
    let mut rows: Vec<Vec<i64>> = Vec::new();
    let mut y: usize = 0;
    while y < height
        invariant
            y <= height,
            rows@.len() == y,
            forall|y2: int| 0 <= y2 < y ==> (#[trigger] rows@[y2]@).len() == width,
            forall|y2: int, x: int|
                0 <= y2 < y && 0 <= x < width ==> 0 <= #[trigger] rows@[y2]@[x] <= SCALE,
        decreases height - y,
    {
        let mut row: Vec<i64> = Vec::new();
        let mut x: usize = 0;
        while x < width
            invariant
                x <= width,
                row@.len() == x,
                forall|x2: int| 0 <= x2 < x ==> 0 <= #[trigger] row@[x2] <= SCALE,
            decreases width - x,
        {
            let v: i64 = if x == y {
                SCALE
            } else if (x + 1 == y && x + 1 < width) || (y + 1 == x && y + 1 < height) {
                DIM_LEVEL
            } else {
                0
            };
            row.push(v);
            x = x + 1;
        }
        rows.push(row);
        y = y + 1;
    }
    rows
}

/// Creates a checkerboard pattern of alternating bright and dark squares.
#[verifier::loop_isolation(false)]
pub fn checkerboard(width: usize, height: usize, square_size: usize) -> (r: Vec<Vec<i64>>)
    requires
        square_size >= 1,
        width <= crate::fixed::MAX_DIM,
        height <= crate::fixed::MAX_DIM,
    ensures
        r@.len() == height,
        forall|y: int| 0 <= y < height ==> (#[trigger] r@[y]@).len() == width,
        forall|y: int, x: int|
            0 <= y < height && 0 <= x < width ==> #[trigger] r@[y]@[x] == if (x / (
                square_size as int
            ) + y / (square_size as int)) % 2 == 0 {
                SCALE
            } else {
                0i64
            },
        grid_wf(rows_view(r@), width as int, height as int, SCALE as int),
{
    let mut rows: Vec<Vec<i64>> = Vec::new();
    let mut y: usize = 0;
    while y < height
        invariant
            y <= height,
            rows@.len() == y,
            forall|y2: int| 0 <= y2 < y ==> (#[trigger] rows@[y2]@).len() == width,
            forall|y2: int, x: int|
                0 <= y2 < y && 0 <= x < width ==> #[trigger] rows@[y2]@[x] == if (x / (
                    square_size as int
                ) + y2 / (square_size as int)) % 2 == 0 {
                    SCALE
                } else {
                    0i64
                },
        decreases height - y,
    {
        let mut row: Vec<i64> = Vec::new();
        let mut x: usize = 0;
        while x < width
            invariant
                x <= width,
                row@.len() == x,
                forall|x2: int|
                    0 <= x2 < x ==> #[trigger] row@[x2] == if (x2 / (square_size as int) + (
                    y as int) / (square_size as int)) % 2 == 0 {
                        SCALE
                    } else {
                        0i64
                    },
            decreases width - x,
        {
            let checker = (x / square_size + y / square_size) % 2;
            if checker == 0 {
                row.push(SCALE);
            } else {
                row.push(0);
            }
            x = x + 1;
        }
        rows.push(row);
        y = y + 1;
    }
    rows
}

/// Creates a cross pattern: a full-width horizontal bar and a full-height
/// vertical bar, both 7 pixels thick, meeting at the center.
#[verifier::loop_isolation(false)]
pub fn cross(width: usize, height: usize) -> (r: Vec<Vec<i64>>)
    requires
        width >= 1,
        height >= 1,
    ensures
        r@.len() == height,
        forall|y: int| 0 <= y < height ==> (#[trigger] r@[y]@).len() == width,
        grid_wf(rows_view(r@), width as int, height as int, SCALE as int),
{
    let cx = width / 2;
    let cy = height / 2;
    let thickness: usize = 3;
    let ylo = if cy >= thickness { cy - thickness } else { 0 };
    let yhi = if cy + thickness <= height - 1 { cy + thickness } else { height - 1 };
    let xlo = if cx >= thickness { cx - thickness } else { 0 };
    let xhi = if cx + thickness <= width - 1 { cx + thickness } else { width - 1 };
    let mut rows: Vec<Vec<i64>> = Vec::new();
    let mut y: usize = 0;
    while y < height
        invariant
            y <= height,
            rows@.len() == y,
            forall|y2: int| 0 <= y2 < y ==> (#[trigger] rows@[y2]@).len() == width,
            forall|y2: int, x: int|
                0 <= y2 < y && 0 <= x < width ==> 0 <= #[trigger] rows@[y2]@[x] <= SCALE,
        decreases height - y,
    {
        let in_h = y >= ylo && y <= yhi;
        let mut row: Vec<i64> = Vec::new();
        let mut x: usize = 0;
        while x < width
            invariant
                x <= width,
                row@.len() == x,
                forall|x2: int| 0 <= x2 < x ==> 0 <= #[trigger] row@[x2] <= SCALE,
            decreases width - x,
        {
            if in_h || (x >= xlo && x <= xhi) {
                row.push(SCALE);
            } else {
                row.push(0);
            }
            x = x + 1;
        }
        rows.push(row);
        y = y + 1;
    }
    rows
}

} // verus!
