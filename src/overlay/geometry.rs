//! Integer layout arithmetic for overlay windows.
//!
//! Coordinates are whole pixels. Ratios are fixed-point numbers with
//! `RATIO_ONE` standing for `1.0`, so `5000` is one half. Every resolved
//! coordinate is kept within the range of `i32`.
use vstd::prelude::*;

verus! {

/// The fixed-point value of the ratio `1.0`.
pub const RATIO_ONE: i64 = 10000;

/// One component of a window's position or size, relative to the parent:
/// `w * parent.width / RATIO_ONE + h * parent.height / RATIO_ONE + px`,
/// with the division rounding down.
#[derive(Clone, Copy, Debug, PartialEq, Eq)]
pub struct Term {
    /// Ratio of the parent's width.
    pub w: i32,
    /// Ratio of the parent's height.
    pub h: i32,
    /// Constant offset in pixels.
    pub px: i32,
}

/// A pair of terms: the `x` and `y` components of a position or of a size.
#[derive(Clone, Copy, Debug, PartialEq, Eq)]
pub struct Layout {
    pub x: Term,
    pub y: Term,
}

/// A point or an extent in pixels.
#[derive(Clone, Copy, Debug, PartialEq, Eq)]
pub struct Point {
    pub x: i64,
    pub y: i64,
}

/// A color with 8 bits per channel.
#[derive(Clone, Copy, Debug, PartialEq, Eq)]
pub struct Rgba {
    pub r: u8,
    pub g: u8,
    pub b: u8,
    pub a: u8,
}

/// A resolved rectangle: its upper left corner and its extent.
#[derive(Clone, Copy, Debug, PartialEq, Eq)]
pub struct Rect {
    pub pos: Point,
    pub size: Point,
}

/// What decides where and how a window is drawn.
///
/// `color` and `texcoord` are given per corner, in the order upper left, upper
/// right, bottom left, bottom right. Texture coordinates are fixed-point with
/// `RATIO_ONE` standing for `1.0`.
#[derive(Clone, Copy, Debug, PartialEq, Eq)]
pub struct WindowParams {
    pub pos: Layout,
    pub size: Layout,
    pub color: [Rgba; 4],
    pub texcoord: [Point; 4],
    pub shown: bool,
}

/// One record of the shared vertex buffer.
#[derive(Clone, Copy, Debug, PartialEq, Eq)]
pub struct Vertex {
    pub pos: Point,
    pub uv: Point,
    pub color: Rgba,
}

pub open spec fn in_coord_range(v: int) -> bool {
    i32::MIN <= v <= i32::MAX
}

pub open spec fn point_ok(p: Point) -> bool {
    in_coord_range(p.x as int) && in_coord_range(p.y as int)
}

pub open spec fn rect_ok(r: Rect) -> bool {
    point_ok(r.pos) && point_ok(r.size)
}

/// Limits a value to the range of `i32`.
pub open spec fn clamp_coord(v: int) -> int {
    if v < i32::MIN {
        i32::MIN as int
    } else if v > i32::MAX {
        i32::MAX as int
    } else {
        v
    }
}

/// The value of a term against a parent of the given extent.
pub open spec fn term_value(t: Term, pw: int, ph: int) -> int {
    (t.w * pw + t.h * ph) / (RATIO_ONE as int) + t.px
}

/// The rectangle that a hidden window takes: empty, and outside the viewport.
pub open spec fn hidden_rect() -> Rect {
    Rect { pos: Point { x: -1i64, y: -1i64 }, size: Point { x: 0i64, y: 0i64 } }
}

/// Where a window with the given parameters lies, given the resolved rectangle of
/// its parent, or `None` for the root.
pub open spec fn resolve(params: WindowParams, parent: Option<Rect>) -> Rect {
    if !params.shown {
        hidden_rect()
    } else {
        match parent {
            Some(p) => Rect {
                pos: Point {
                    x: clamp_coord(p.pos.x + term_value(params.pos.x, p.size.x as int, p.size.y as int)) as i64,
                    y: clamp_coord(p.pos.y + term_value(params.pos.y, p.size.x as int, p.size.y as int)) as i64,
                },
                size: Point {
                    x: clamp_coord(term_value(params.size.x, p.size.x as int, p.size.y as int)) as i64,
                    y: clamp_coord(term_value(params.size.y, p.size.x as int, p.size.y as int)) as i64,
                },
            },
            None => Rect {
                pos: Point { x: params.pos.x.px as i64, y: params.pos.y.px as i64 },
                size: Point { x: params.size.x.px as i64, y: params.size.y.px as i64 },
            },
        }
    }
}

/// Corner `k` of the quad drawn for a window: upper left, upper right, bottom
/// right, bottom left.
pub open spec fn corner(params: WindowParams, r: Rect, k: int) -> Vertex {
    if k == 0 {
        Vertex { pos: r.pos, uv: params.texcoord[0], color: params.color[0] }
    } else if k == 1 {
        Vertex {
            pos: Point { x: (r.pos.x + r.size.x) as i64, y: r.pos.y },
            uv: params.texcoord[1],
            color: params.color[1],
        }
    } else if k == 2 {
        Vertex {
            pos: Point { x: (r.pos.x + r.size.x) as i64, y: (r.pos.y + r.size.y) as i64 },
            uv: params.texcoord[3],
            color: params.color[3],
        }
    } else {
        Vertex {
            pos: Point { x: r.pos.x, y: (r.pos.y + r.size.y) as i64 },
            uv: params.texcoord[2],
            color: params.color[2],
        }
    }
}

fn clamp_wide(v: i128) -> (r: i64)
    ensures
        r == clamp_coord(v as int),
{
    if v < i32::MIN as i128 {
        i32::MIN as i64
    } else if v > i32::MAX as i128 {
        i32::MAX as i64
    } else {
        v as i64
    }
}

/// Evaluates a term against a parent extent, then adds `base` and limits the sum
/// to the range of `i32`.
pub fn eval_term(t: Term, base: i64, pw: i64, ph: i64) -> (r: i64)
    requires
        in_coord_range(base as int),
        in_coord_range(pw as int),
        in_coord_range(ph as int),
    ensures
        r == clamp_coord(base + term_value(t, pw as int, ph as int)),
        in_coord_range(r as int),
{
    let w = t.w as i128;
    let h = t.h as i128;
    assert(-0x4000_0000_0000_0000 <= w * (pw as i128) <= 0x4000_0000_0000_0000) by (nonlinear_arith)
        requires
            i32::MIN <= w <= i32::MAX,
            i32::MIN <= pw <= i32::MAX,
    ;
    assert(-0x4000_0000_0000_0000 <= h * (ph as i128) <= 0x4000_0000_0000_0000) by (nonlinear_arith)
        requires
            i32::MIN <= h <= i32::MAX,
            i32::MIN <= ph <= i32::MAX,
    ;
    let num: i128 = w * (pw as i128) + h * (ph as i128);
    let q = num.checked_div_euclid(RATIO_ONE as i128);
    assert(q is Some) by {
        assert(-0x4000_0000_0000_0000 <= num / 10000 <= 0x4000_0000_0000_0000) by (nonlinear_arith)
            requires
                -0x8000_0000_0000_0000 <= num <= 0x8000_0000_0000_0000,
        ;
    }
    let q = q.unwrap();
    clamp_wide(base as i128 + q + t.px as i128)
}

/// Resolves a window's rectangle from its parameters and its parent's rectangle.
pub fn resolve_rect(params: &WindowParams, parent: Option<Rect>) -> (r: Rect)
    requires
        parent matches Some(p) ==> rect_ok(p),
    ensures
        r == resolve(*params, parent),
        rect_ok(r),
{
    if !params.shown {
        Rect { pos: Point { x: -1i64, y: -1i64 }, size: Point { x: 0i64, y: 0i64 } }
    } else {
        match parent {
            Some(p) => Rect {
                pos: Point {
                    x: eval_term(params.pos.x, p.pos.x, p.size.x, p.size.y),
                    y: eval_term(params.pos.y, p.pos.y, p.size.x, p.size.y),
                },
                size: Point {
                    x: eval_term(params.size.x, 0, p.size.x, p.size.y),
                    y: eval_term(params.size.y, 0, p.size.x, p.size.y),
                },
            },
            None => Rect {
                pos: Point { x: params.pos.x.px as i64, y: params.pos.y.px as i64 },
                size: Point { x: params.size.x.px as i64, y: params.size.y.px as i64 },
            },
        }
    }
}

/// The four vertices of a window's quad, in drawing order.
pub fn quad(params: &WindowParams, r: Rect) -> (v: [Vertex; 4])
    requires
        rect_ok(r),
    ensures
        forall|k: int| 0 <= k < 4 ==> v@[k] == #[trigger] corner(*params, r, k),
{
    let right = r.pos.x + r.size.x;
    let bottom = r.pos.y + r.size.y;
    [
        Vertex { pos: r.pos, uv: params.texcoord[0], color: params.color[0] },
        Vertex { pos: Point { x: right, y: r.pos.y }, uv: params.texcoord[1], color: params.color[1] },
        Vertex { pos: Point { x: right, y: bottom }, uv: params.texcoord[3], color: params.color[3] },
        Vertex { pos: Point { x: r.pos.x, y: bottom }, uv: params.texcoord[2], color: params.color[2] },
    ]
}

/// A hidden window resolves to the empty rectangle at `(-1, -1)`, whatever its
/// other parameters and whatever its parent.
pub proof fn lemma_hidden_is_degenerate(params: WindowParams, parent: Option<Rect>)
    requires
        !params.shown,
    ensures
        resolve(params, parent).pos == (Point { x: -1i64, y: -1i64 }),
        resolve(params, parent).size == (Point { x: 0i64, y: 0i64 }),
{
}


/// Every resolved rectangle has its coordinates in the range of `i32`.
pub proof fn lemma_resolve_ok(params: WindowParams, parent: Option<Rect>)
    ensures
        rect_ok(resolve(params, parent)),
{
}


/// The texture coordinate of a corner that has none.
pub open spec fn unset_texcoord() -> Point {
    Point { x: (-RATIO_ONE) as i64, y: (-RATIO_ONE) as i64 }
}

/// The parameters a window starts from: it fills its parent, is transparent, and
/// is shown.
pub open spec fn default_params() -> WindowParams {
    WindowParams {
        pos: Layout { x: Term { w: 0, h: 0, px: 0 }, y: Term { w: 0, h: 0, px: 0 } },
        size: Layout {
            x: Term { w: RATIO_ONE as i32, h: 0, px: 0 },
            y: Term { w: 0, h: RATIO_ONE as i32, px: 0 },
        },
        color: [Rgba { r: 0, g: 0, b: 0, a: 0 }, Rgba { r: 0, g: 0, b: 0, a: 0 }, Rgba { r: 0, g: 0, b: 0, a: 0 }, Rgba { r: 0, g: 0, b: 0, a: 0 }],
        texcoord: [unset_texcoord(), unset_texcoord(), unset_texcoord(), unset_texcoord()],
        shown: true,
    }
}

impl Default for WindowParams {
    fn default() -> (r: WindowParams)
        ensures
            r == default_params(),
    {
        let zero = Term { w: 0, h: 0, px: 0 };
        let clear = Rgba { r: 0, g: 0, b: 0, a: 0 };
        let none = Point { x: -RATIO_ONE, y: -RATIO_ONE };
        let r = WindowParams {
            pos: Layout { x: zero, y: zero },
            size: Layout {
                x: Term { w: RATIO_ONE as i32, h: 0, px: 0 },
                y: Term { w: 0, h: RATIO_ONE as i32, px: 0 },
            },
            color: [clear, clear, clear, clear],
            texcoord: [none, none, none, none],
            shown: true,
        };
        proof {
            assert(r.color =~= default_params().color);
            assert(r.texcoord =~= default_params().texcoord);
        }
        r
    }
}

} // verus!
