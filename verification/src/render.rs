//! The render driver's bookkeeping: which pixels there are, in which order,
//! and where a pixel stands relative to the middle of the image.

use vstd::prelude::*;

verus! {

/// The pixel at place `i` of an image that is `height` pixels high, counted
/// column by column from the top of each.
pub open spec fn pixel_at(i: int, height: int) -> (u32, u32) {
    ((i / height) as u32, (i % height) as u32)
}

/// The place of pixel `(x, y)` in the list of pixels.
pub open spec fn place(x: u32, y: u32, height: u32) -> int {
    x * height + y
}

/// Lists the pixels of an image, each once: column by column, and each
/// column from the top.
pub fn pixels(width: u32, height: u32) -> (list: Vec<(u32, u32)>)
    requires
        width * height <= usize::MAX,
    ensures
        list@.len() == width * height,
        forall|i: int| 0 <= i < list@.len() ==> #[trigger] list@[i] == pixel_at(i, height as int),
        forall|x: u32, y: u32|
            x < width && y < height ==> 0 <= #[trigger] place(x, y, height) < list@.len()
                && list@[place(x, y, height)] == (x, y),
{
    let mut list: Vec<(u32, u32)> = Vec::new();
    let mut x: u32 = 0;
    while x < width
        invariant
            x <= width,
            width * height <= usize::MAX,
            list@.len() == x * height,
            forall|i: int|
                0 <= i < list@.len() ==> #[trigger] list@[i] == pixel_at(i, height as int),
        decreases width - x,
    {
        let mut y: u32 = 0;
        while y < height
            invariant
                x < width,
                y <= height,
                width * height <= usize::MAX,
                list@.len() == x * height + y,
                forall|i: int|
                    0 <= i < list@.len() ==> #[trigger] list@[i] == pixel_at(i, height as int),
            decreases height - y,
        {
            proof {
                lemma_place(x as int, y as int, height as int);
                assert(x * height + y < width * height) by (nonlinear_arith)
                    requires
                        x < width,
                        y < height,
                ;
            }
            list.push((x, y));
            y += 1;
        }
        proof {
            assert((x + 1) * height == x * height + height) by (nonlinear_arith);
        }
        x += 1;
    }
    proof {
        assert forall|x: u32, y: u32| x < width && y < height implies 0 <= #[trigger] place(
            x,
            y,
            height,
        ) < list@.len() && list@[place(x, y, height)] == (x, y) by {
            lemma_place(x as int, y as int, height as int);
            assert(x * height + y < width * height) by (nonlinear_arith)
                requires
                    x < width,
                    y < height,
            ;
        }
    }
    list
}

/// Pixel `(x, y)` stands at place `x * height + y`.
pub proof fn lemma_place(x: int, y: int, height: int)
    requires
        0 <= x,
        0 <= y < height,
    ensures
        (x * height + y) / height == x,
        (x * height + y) % height == y,
{
    vstd::arithmetic::div_mod::lemma_fundamental_div_mod_converse(x * height + y, height, x, y);
}

/// A pixel coordinate counted from the middle of the image: `coordinate`
/// less half of `size`, the half rounded toward zero.
pub open spec fn centered_of(coordinate: i32, size: i32) -> int {
    coordinate - (if size >= 0 {
        size / 2
    } else {
        -((-size) / 2)
    })
}

/// Moves a pixel coordinate so that zero is the middle of the image.
pub fn centered(coordinate: i32, size: i32) -> (offset: i64)
    ensures
        offset == centered_of(coordinate, size),
{
    let c: i64 = coordinate as i64;
    let s: i64 = size as i64;
    c - s / 2
}

} // verus!
