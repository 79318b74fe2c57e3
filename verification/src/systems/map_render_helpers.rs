//! Which tiles the camera shows, and where on the canvas they lie.

use crate::components::{Position, RenderBitmap, RenderGeometry, Renderable};
use crate::resources::TdCamera;
use crate::tile_helpers::{TILE_HEIGHT_PIXELS, TILE_WIDTH_PIXELS};
use vstd::prelude::*;

verus! {

/// The tiles to draw, and the offset at which to draw them.
#[derive(Copy, Clone, Debug, PartialEq, Eq, Structural)]
pub struct MapRenderData {
    /// The column of the leftmost tile to draw.
    pub x_min_tile: i32,
    /// The row of the topmost tile to draw.
    pub y_min_tile: i32,
    /// How many columns of tiles cover the canvas.
    pub num_tiles_wide: i32,
    /// How many rows of tiles cover the canvas.
    pub num_tiles_tall: i32,
    /// Where on the canvas the leftmost column begins; zero or less.
    pub x_pixel_offset: i32,
    /// Where on the canvas the topmost row begins; zero or less.
    pub y_pixel_offset: i32,
}

/// The quotient `amt / div`, rounded up.
pub open spec fn rounded_up(amt: int, div: int) -> int {
    if amt % div > 0 {
        amt / div + 1
    } else {
        amt / div
    }
}

/// The quotient `amt / div`, rounded up.
pub fn div_round_up(amt: i32, div: i32) -> (q: i32)
    requires
        div != 0,
        !(amt == i32::MIN && div == -1),
    ensures
        q == rounded_up(amt as int, div as int),
{
    proof {
        lemma_round_up_fits(amt as int, div as int);
    }
    let r = match amt.checked_rem_euclid(div) {
        Some(r) => r,
        None => 0,
    };
    let d = match amt.checked_div_euclid(div) {
        Some(d) => d,
        None => 0,
    };
    if r > 0 {
        d + 1
    } else {
        d
    }
}

/// The quotient and the remainder of two `i32` values fit an `i32`, and so
/// does the quotient raised by one where the remainder is not zero.
proof fn lemma_round_up_fits(amt: int, div: int)
    requires
        i32::MIN <= amt <= i32::MAX,
        i32::MIN <= div <= i32::MAX,
        div != 0,
        !(amt == i32::MIN && div == -1),
    ensures
        i32::MIN <= amt / div <= i32::MAX,
        i32::MIN <= amt % div <= i32::MAX,
        amt % div > 0 ==> amt / div + 1 <= i32::MAX,
{
    let q = amt / div;
    let r = amt % div;
    vstd::arithmetic::div_mod::lemma_fundamental_div_mod(amt, div);
    assert(amt == div * q + r);
    if div > 0 {
        vstd::arithmetic::div_mod::lemma_mod_bound(amt, div);
        assert(0 <= r < div);
        assert(i32::MIN <= q <= i32::MAX && (r > 0 ==> q + 1 <= i32::MAX)) by (nonlinear_arith)
            requires
                amt == div * q + r,
                0 <= r < div,
                -2147483648 <= amt <= 2147483647,
                1 <= div <= 2147483647,
        ;
    } else {
        assert(0 <= r < -div) by {
            lemma_mod_negative(amt, div);
        }
        assert(i32::MIN <= q <= i32::MAX && (r > 0 ==> q + 1 <= i32::MAX)) by (nonlinear_arith)
            requires
                amt == div * q + r,
                0 <= r < -div,
                -2147483648 <= amt <= 2147483647,
                -2147483648 <= div <= -1,
                !(amt == -2147483648 && div == -1),
        ;
    }
}

/// The remainder by a negative divisor lies between zero and its magnitude.
proof fn lemma_mod_negative(amt: int, div: int)
    requires
        div < 0,
    ensures
        0 <= amt % div < -div,
{
    assert(0 <= amt % div < -div) by (nonlinear_arith)
        requires
            div < 0,
    ;
}

/// The tiles that a canvas of the given size shows when the camera's top
/// left corner is at the camera's pixel, and the offset of the first tile.
pub fn get_map_render_data(canvas_width: i32, canvas_height: i32, camera: &TdCamera) -> (r: MapRenderData)
    requires
        canvas_width <= i32::MAX - 31,
        canvas_height <= i32::MAX - 31,
    ensures
        r.x_pixel_offset == -(camera.left as int % 32),
        r.x_min_tile == camera.left as int / 32,
        r.num_tiles_wide == rounded_up(canvas_width + camera.left as int % 32, 32),
        r.y_pixel_offset == -(camera.top as int % 32),
        r.y_min_tile == camera.top as int / 32,
        r.num_tiles_tall == rounded_up(canvas_height + camera.top as int % 32, 32),
{
    proof {
        crate::tile_helpers::lemma_pixel_tile(camera.left as int);
        crate::tile_helpers::lemma_pixel_tile(camera.top as int);
    }
    let x_rem = match camera.left.checked_rem_euclid(TILE_WIDTH_PIXELS) {
        Some(r) => r,
        None => 0,
    };
    let x_pixel_offset = -x_rem;
    let x_min_tile = match camera.left.checked_div_euclid(TILE_WIDTH_PIXELS) {
        Some(q) => q,
        None => 0,
    };
    let num_tiles_wide = div_round_up(canvas_width - x_pixel_offset, TILE_WIDTH_PIXELS);
    let y_rem = match camera.top.checked_rem_euclid(TILE_HEIGHT_PIXELS) {
        Some(r) => r,
        None => 0,
    };
    let y_pixel_offset = -y_rem;
    let y_min_tile = match camera.top.checked_div_euclid(TILE_HEIGHT_PIXELS) {
        Some(q) => q,
        None => 0,
    };
    let num_tiles_tall = div_round_up(canvas_height - y_pixel_offset, TILE_HEIGHT_PIXELS);
    MapRenderData { x_min_tile, x_pixel_offset, y_min_tile, y_pixel_offset, num_tiles_wide, num_tiles_tall }
}

/// A rectangle of world pixels; the least coordinates belong to it, the
/// greatest do not.
#[derive(Copy, Clone, Debug, PartialEq, Eq, Structural)]
pub struct BoundingBox {
    pub xmin: i32,
    pub xmax: i32,
    pub ymin: i32,
    pub ymax: i32,
}

/// Whether the intervals from `amin` to `amax` and from `bmin` to `bmax`,
/// each without its upper end, share a point.
pub fn intersects_1d(amin: i32, amax: i32, bmin: i32, bmax: i32) -> (r: bool)
    ensures
        r == (amin < bmax && bmin < amax),
{
    amin < bmax && bmin < amax
}

/// Whether two rectangles share a pixel.
pub fn intersects(a: BoundingBox, b: BoundingBox) -> (r: bool)
    ensures
        r == (a.xmin < b.xmax && b.xmin < a.xmax && a.ymin < b.ymax && b.ymin < a.ymax),
{
    intersects_1d(a.xmin, a.xmax, b.xmin, b.xmax) && intersects_1d(a.ymin, a.ymax, b.ymin, b.ymax)
}

/// The rectangle that an entity at `pos` covers when it is drawn: for a
/// bitmap, one tile from the bitmap's offset; for a circle, the square
/// around it.
pub open spec fn render_bounds(pos: Position, rend: Renderable) -> (int, int, int, int) {
    match rend {
        Renderable::Bitmap { dx, dy, bitmap } => (pos.x + dx, pos.x + dx + 32, pos.y + dy, pos.y + dy + 32),
        Renderable::Geometry(RenderGeometry::Circle { radius }) => (
            pos.x - radius,
            pos.x + radius + 1,
            pos.y - radius,
            pos.y + radius + 1,
        ),
    }
}

/// The rectangle that an entity at `pos` covers when it is drawn.
pub fn get_render_bounds(pos: Position, rend: Renderable) -> (b: BoundingBox)
    requires
        i32::MIN <= render_bounds(pos, rend).0 <= i32::MAX,
        i32::MIN <= render_bounds(pos, rend).1 <= i32::MAX,
        i32::MIN <= render_bounds(pos, rend).2 <= i32::MAX,
        i32::MIN <= render_bounds(pos, rend).3 <= i32::MAX,
    ensures
        (b.xmin as int, b.xmax as int, b.ymin as int, b.ymax as int) == render_bounds(pos, rend),
{
    match rend {
        Renderable::Bitmap { dx, dy, bitmap } => match bitmap {
            RenderBitmap::GasTrap => {
                let left: i64 = pos.x as i64 + dx as i64;
                let top: i64 = pos.y as i64 + dy as i64;
                BoundingBox {
                    xmin: left as i32,
                    ymin: top as i32,
                    xmax: (left + TILE_WIDTH_PIXELS as i64) as i32,
                    ymax: (top + TILE_HEIGHT_PIXELS as i64) as i32,
                }
            },
        },
        Renderable::Geometry(geometry) => match geometry {
            RenderGeometry::Circle { radius } => {
                let r = radius as i64;
                BoundingBox {
                    xmin: (pos.x as i64 - r) as i32,
                    ymin: (pos.y as i64 - r) as i32,
                    xmax: (pos.x as i64 + r + 1) as i32,
                    ymax: (pos.y as i64 + r + 1) as i32,
                }
            },
        },
    }
}

} // verus!
