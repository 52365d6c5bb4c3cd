//! The shape of the application's window icon.

use vstd::prelude::*;

verus! {

/// The icon is `ICON_SIZE` pixels square.
pub const ICON_SIZE: u32 = 64;

/// The radius of its rounded corners.
pub const ICON_PAD: u32 = 4;

/// What a pixel of the icon shows.
#[derive(Debug, Clone, Copy, PartialEq, Eq, Structural)]
pub enum IconPixel {
    /// Outside the rounded square.
    Clear,
    /// The background gradient.
    Background,
    /// One of the two pages of the open book.
    Page,
    /// The book's spine.
    Spine,
}

pub open spec fn sq(n: int) -> int {
    n * n
}

/// The pixel at column `x`, row `y` lies outside the rounded square: in
/// a corner strip, or in a corner square beyond the arc around it.
pub open spec fn outside_rounded_square(x: int, y: int) -> bool {
    let size = ICON_SIZE as int;
    let pad = ICON_PAD as int;
    let in_left = x >= pad || (y >= pad && y < size - pad);
    let in_right = x < size - pad || (y >= pad && y < size - pad);
    let tl = x < pad && y < pad && sq(pad - x) + sq(pad - y) > sq(pad);
    let tr = x >= size - pad && y < pad && sq(x - (size - pad - 1)) + sq(pad - y) > sq(pad);
    let bl = x < pad && y >= size - pad && sq(pad - x) + sq(y - (size - pad - 1)) > sq(pad);
    let br = x >= size - pad && y >= size - pad && sq(x - (size - pad - 1)) + sq(y - (size - pad - 1))
        > sq(pad);
    !(in_left && in_right) || tl || tr || bl || br
}

pub open spec fn icon_pixel_spec(x: int, y: int) -> IconPixel {
    if outside_rounded_square(x, y) {
        IconPixel::Clear
    } else if 16 <= x <= 30 && 24 <= y <= 44 {
        IconPixel::Page
    } else if 33 <= x <= 47 && 24 <= y <= 44 {
        IconPixel::Page
    } else if 31 <= x <= 33 && 22 <= y <= 46 {
        IconPixel::Spine
    } else {
        IconPixel::Background
    }
}

fn square(n: u32) -> (res: u32)
    requires
        n <= ICON_SIZE,
    ensures
        res == sq(n as int),
        res <= 4096,
{
    assert(n * n <= 64 * 64) by (nonlinear_arith)
        requires
            n <= 64,
    ;
    n * n
}

/// What the icon shows at column `x`, row `y`.
pub fn icon_pixel(x: u32, y: u32) -> (res: IconPixel)
    requires
        x < ICON_SIZE,
        y < ICON_SIZE,
    ensures
        res == icon_pixel_spec(x as int, y as int),
{
    let size: u32 = ICON_SIZE;
    let pad: u32 = ICON_PAD;
    let edge: u32 = size - pad - 1;
    let in_left = x >= pad || (y >= pad && y < size - pad);
    let in_right = x < size - pad || (y >= pad && y < size - pad);
    let tl = x < pad && y < pad && square(pad - x) + square(pad - y) > square(pad);
    let tr = x >= size - pad && y < pad && square(x - edge) + square(pad - y) > square(pad);
    let bl = x < pad && y >= size - pad && square(pad - x) + square(y - edge) > square(pad);
    let br = x >= size - pad && y >= size - pad && square(x - edge) + square(y - edge) > square(pad);
    if !(in_left && in_right) || tl || tr || bl || br {
        IconPixel::Clear
    } else if 16 <= x && x <= 30 && 24 <= y && y <= 44 {
        IconPixel::Page
    } else if 33 <= x && x <= 47 && 24 <= y && y <= 44 {
        IconPixel::Page
    } else if 31 <= x && x <= 33 && 22 <= y && y <= 46 {
        IconPixel::Spine
    } else {
        IconPixel::Background
    }
}

} // verus!
