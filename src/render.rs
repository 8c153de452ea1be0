//! Control of the render loop: the order in which pixels are produced and
//! the bounce policy of the recursive radiance estimator.

use vstd::prelude::*;
use vstd::arithmetic::div_mod::{lemma_fundamental_div_mod, lemma_fundamental_div_mod_converse};

verus! {

/// The bounce budget a camera ray starts with.
pub const MAX_DEPTH: i32 = 50;

/// What tracing one bounce of a path found.
#[derive(Clone, Copy, Debug, PartialEq, Eq, Structural)]
pub enum PathEvent {
    /// The ray left the scene.
    Missed,
    /// The ray hit a surface whose material absorbed it.
    Absorbed,
    /// The ray hit a surface whose material sent out a new ray.
    Scattered,
}

/// How the estimator resolves a path after one bounce.
#[derive(Clone, Copy, Debug, PartialEq, Eq, Structural)]
pub enum PathStep {
    /// The path carries no light.
    Black,
    /// The path sees the sky gradient.
    Background,
    /// The path continues with the scattered ray and the given budget.
    Continue(i32),
}

/// Whether a path with `depth` bounces left is traced at all.
pub fn should_trace(depth: i32) -> (r: bool)
    ensures
        r == (depth > 0),
{
    depth > 0
}

/// The step the estimator takes when a bounce with `depth` bounces left
/// ends in `event`. An exhausted budget always yields black.
pub fn next_step(depth: i32, event: PathEvent) -> (r: PathStep)
    ensures
        depth <= 0 ==> r == PathStep::Black,
        depth > 0 && event == PathEvent::Missed ==> r == PathStep::Background,
        depth > 0 && event == PathEvent::Absorbed ==> r == PathStep::Black,
        depth > 0 && event == PathEvent::Scattered ==> r == PathStep::Continue((depth - 1) as i32),
{
    if depth <= 0 {
        PathStep::Black
    } else {
        match event {
            PathEvent::Missed => PathStep::Background,
            PathEvent::Absorbed => PathStep::Black,
            PathEvent::Scattered => PathStep::Continue(depth - 1),
        }
    }
}

/// The column of the `index`-th pixel produced: rows run left to right.
pub open spec fn pixel_column(index: int, width: int) -> int {
    index % width
}

/// The row of the `index`-th pixel produced: the top row (`height - 1`)
/// comes first.
pub open spec fn pixel_row(index: int, width: int, height: int) -> int {
    height - 1 - index / width
}

/// The position in the pixel order of the pixel at `(column, row)`.
pub open spec fn pixel_index(column: int, row: int, width: int, height: int) -> int {
    (height - 1 - row) * width + column
}

/// The image coordinates `(column, row)` of the `index`-th pixel produced,
/// where row 0 is the bottom of the image.
pub fn pixel_at(index: u64, width: i32, height: i32) -> (r: (i32, i32))
    requires
        0 < width,
        0 < height,
        index < width * height,
    ensures
        r.0 == pixel_column(index as int, width as int),
        r.1 == pixel_row(index as int, width as int, height as int),
        0 <= r.0 < width,
        0 <= r.1 < height,
{
    let w = width as u64;
    proof {
        assert((index as int) / (width as int) < height) by (nonlinear_arith)
            requires
                0 <= index < width * height,
                0 < width,
        ;
    }
    let column = (index % w) as i32;
    let row = height - 1 - (index / w) as i32;
    (column, row)
}

/// The pixel order visits every pixel of the image exactly once: distinct
/// indices give distinct coordinates, and each coordinate pair inside the
/// image is reached by its `pixel_index`.
pub proof fn lemma_pixel_order_visits_each_once(width: int, height: int)
    requires
        0 < width,
        0 < height,
    ensures
        forall|a: int, b: int|
            0 <= a < width * height && 0 <= b < width * height && pixel_column(a, width)
                == pixel_column(b, width) && pixel_row(a, width, height) == pixel_row(
                b,
                width,
                height,
            ) ==> a == b,
        forall|column: int, row: int|
            0 <= column < width && 0 <= row < height ==> {
                let index = #[trigger] pixel_index(column, row, width, height);
                &&& 0 <= index < width * height
                &&& pixel_column(index, width) == column
                &&& pixel_row(index, width, height) == row
            },
{
    assert forall|a: int, b: int|
        0 <= a < width * height && 0 <= b < width * height && pixel_column(a, width)
            == pixel_column(b, width) && pixel_row(a, width, height) == pixel_row(
            b,
            width,
            height,
        ) implies a == b by {
        lemma_fundamental_div_mod(a, width);
        lemma_fundamental_div_mod(b, width);
    }
    assert forall|column: int, row: int|
        0 <= column < width && 0 <= row < height implies {
            let index = #[trigger] pixel_index(column, row, width, height);
            &&& 0 <= index < width * height
            &&& pixel_column(index, width) == column
            &&& pixel_row(index, width, height) == row
        } by {
        let q = height - 1 - row;
        let index = q * width + column;
        lemma_fundamental_div_mod_converse(index, width, q, column);
        assert(0 <= index < width * height) by (nonlinear_arith)
            requires
                index == q * width + column,
                0 <= q < height,
                0 <= column < width,
        ;
    }
}

} // verus!
