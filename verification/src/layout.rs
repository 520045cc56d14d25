//! Where in the window a graphic element is drawn.
use vstd::prelude::*;

use crate::color::trunc_div;
use crate::config::GraphicPosition;

verus! {

/// How a position divides the window: whether the element takes half of the
/// width and half of the height, and whether it sits in the right or the
/// bottom half.
#[derive(Clone, Copy, Debug, PartialEq, Eq, Structural)]
pub struct Region {
    pub half_width: bool,
    pub half_height: bool,
    pub right: bool,
    pub bottom: bool,
}

/// The rectangle of an element: its size and its top-left corner.
#[derive(Clone, Copy, Debug, PartialEq, Eq, Structural)]
pub struct Frame {
    pub width: i32,
    pub height: i32,
    pub left: i32,
    pub top: i32,
}

pub open spec fn region_of(p: GraphicPosition) -> Region {
    Region {
        half_width: !(p == GraphicPosition::Full || p == GraphicPosition::Top || p
            == GraphicPosition::Bottom),
        half_height: !(p == GraphicPosition::Full || p == GraphicPosition::Left || p
            == GraphicPosition::Right),
        right: p == GraphicPosition::Right || p == GraphicPosition::TopRight || p
            == GraphicPosition::BottomRight,
        bottom: p == GraphicPosition::Bottom || p == GraphicPosition::BottomLeft || p
            == GraphicPosition::BottomRight,
    }
}

/// Half of a window dimension, rounded toward zero as `/ 2` does.
pub open spec fn half(n: int) -> int {
    trunc_div(n, 2)
}

/// The rectangle a region takes in a window of `width` by `height`: the
/// whole or half of each dimension, placed right of (below) a half of the
/// same size when it is in the right (bottom) half.
pub open spec fn frame_of(r: Region, width: int, height: int) -> Frame {
    let w = if r.half_width {
        half(width)
    } else {
        width
    };
    let h = if r.half_height {
        half(height)
    } else {
        height
    };
    Frame {
        width: w as i32,
        height: h as i32,
        left: if r.right {
            w as i32
        } else {
            0
        },
        top: if r.bottom {
            h as i32
        } else {
            0
        },
    }
}

impl Region {
    /// The region of a position.
    pub fn of(p: GraphicPosition) -> (r: Region)
        ensures
            r == region_of(p),
    {
        match p {
            GraphicPosition::Full => Region {
                half_width: false,
                half_height: false,
                right: false,
                bottom: false,
            },
            GraphicPosition::Top => Region {
                half_width: false,
                half_height: true,
                right: false,
                bottom: false,
            },
            GraphicPosition::Bottom => Region {
                half_width: false,
                half_height: true,
                right: false,
                bottom: true,
            },
            GraphicPosition::Left => Region {
                half_width: true,
                half_height: false,
                right: false,
                bottom: false,
            },
            GraphicPosition::Right => Region {
                half_width: true,
                half_height: false,
                right: true,
                bottom: false,
            },
            GraphicPosition::TopLeft => Region {
                half_width: true,
                half_height: true,
                right: false,
                bottom: false,
            },
            GraphicPosition::TopRight => Region {
                half_width: true,
                half_height: true,
                right: true,
                bottom: false,
            },
            GraphicPosition::BottomLeft => Region {
                half_width: true,
                half_height: true,
                right: false,
                bottom: true,
            },
            GraphicPosition::BottomRight => Region {
                half_width: true,
                half_height: true,
                right: true,
                bottom: true,
            },
        }
    }

    /// The rectangle this region takes in a window of `width` by `height`.
    pub fn frame(&self, width: i32, height: i32) -> (f: Frame)
        ensures
            f == frame_of(*self, width as int, height as int),
    {
        let w = if self.half_width {
            width / 2
        } else {
            width
        };
        let h = if self.half_height {
            height / 2
        } else {
            height
        };
        Frame {
            width: w,
            height: h,
            left: if self.right {
                w
            } else {
                0
            },
            top: if self.bottom {
                h
            } else {
                0
            },
        }
    }
}

/// The rectangle of a position in a window of `width` by `height`.
pub open spec fn position_frame(p: GraphicPosition, width: int, height: int) -> Frame {
    frame_of(region_of(p), width, height)
}

/// The two halves of a split window sit side by side: left and right (and
/// each quarter of the top row, and of the bottom row) have the same size,
/// and the right one starts where the left one ends; likewise top and
/// bottom. `Full` is the whole window.
pub proof fn lemma_halves_adjoin(width: i32, height: i32)
    ensures
        ({
            let l = position_frame(GraphicPosition::Left, width as int, height as int);
            let r = position_frame(GraphicPosition::Right, width as int, height as int);
            l.width == r.width && l.height == r.height && l.top == r.top && r.left == l.left
                + l.width
        }),
        ({
            let t = position_frame(GraphicPosition::Top, width as int, height as int);
            let b = position_frame(GraphicPosition::Bottom, width as int, height as int);
            t.width == b.width && t.height == b.height && t.left == b.left && b.top == t.top
                + t.height
        }),
        ({
            let tl = position_frame(GraphicPosition::TopLeft, width as int, height as int);
            let tr = position_frame(GraphicPosition::TopRight, width as int, height as int);
            let bl = position_frame(GraphicPosition::BottomLeft, width as int, height as int);
            let br = position_frame(GraphicPosition::BottomRight, width as int, height as int);
            &&& tr.left == tl.left + tl.width && tr.top == tl.top
            &&& bl.top == tl.top + tl.height && bl.left == tl.left
            &&& br.left == bl.left + bl.width && br.top == tr.top + tr.height
        }),
        position_frame(GraphicPosition::Full, width as int, height as int) == (Frame {
            width,
            height,
            left: 0,
            top: 0,
        }),
{
}

} // verus!
