//! Conversions between world pixels and tile coordinates.

use crate::grid::Pos;
use vstd::prelude::*;

verus! {

/// The width of a tile in world pixels.
pub const TILE_WIDTH_PIXELS: i32 = 32;

/// The height of a tile in world pixels.
pub const TILE_HEIGHT_PIXELS: i32 = 32;

/// The smallest tile coordinate whose pixels fit the pixel range.
pub const MIN_TILE: i32 = -67108864;

/// The largest tile coordinate whose pixels fit the pixel range.
pub const MAX_TILE: i32 = 67108863;

/// The tile at `p` lies inside the range of world pixels.
pub open spec fn addressable(p: Pos) -> bool {
    MIN_TILE <= p.0 <= MAX_TILE && MIN_TILE <= p.1 <= MAX_TILE
}

/// Whether the tile at `(x, y)` lies inside the range of world pixels.
pub fn is_addressable(x: i32, y: i32) -> (r: bool)
    ensures
        r == addressable((x, y)),
{
    MIN_TILE <= x && x <= MAX_TILE && MIN_TILE <= y && y <= MAX_TILE
}

/// The absolute value of a tolerance.
pub open spec fn magnitude(tol: int) -> int {
    if tol < 0 {
        -tol
    } else {
        tol
    }
}

/// The quotient `amt / div`, rounded down, unless `div` is not positive or
/// `amt` lies within `tol` of either end of its interval of length `div`.
pub open spec fn safe_div_spec(amt: int, div: int, tol: int) -> Option<int> {
    let t = magnitude(tol);
    if div <= 0 {
        None
    } else if amt % div < t || div - amt % div - 1 < t {
        None
    } else {
        Some(amt / div)
    }
}

/// The quotient `amt / div`, rounded down, unless `div` is not positive or
/// `amt` lies within `tol` of either end of its interval of length `div`.
pub fn safe_div(amt: i32, div: i32, tol: i32) -> (r: Option<i32>)
    requires
        tol > i32::MIN,
    ensures
        match r {
            Some(q) => safe_div_spec(amt as int, div as int, tol as int) == Some(q as int),
            None => safe_div_spec(amt as int, div as int, tol as int) is None,
        },
{
    let t = if tol < 0 {
        -tol
    } else {
        tol
    };
    if div <= 0 {
        return None;
    }
    proof {
        vstd::arithmetic::div_mod::lemma_fundamental_div_mod(amt as int, div as int);
        vstd::arithmetic::div_mod::lemma_mod_bound(amt as int, div as int);
        lemma_quotient_range(amt as int, div as int);
    }
    let m = match amt.checked_rem_euclid(div) {
        Some(m) => m,
        None => {
            return None;
        },
    };
    if m < t || div - m - 1 < t {
        return None;
    }
    amt.checked_div_euclid(div)
}

/// Dividing by a positive number brings no value out of the `i32` range.
proof fn lemma_quotient_range(amt: int, div: int)
    requires
        i32::MIN <= amt <= i32::MAX,
        div > 0,
    ensures
        i32::MIN <= amt / div <= i32::MAX,
{
    vstd::arithmetic::div_mod::lemma_fundamental_div_mod(amt, div);
    vstd::arithmetic::div_mod::lemma_mod_bound(amt, div);
    let q = amt / div;
    let r = amt % div;
    assert(amt == div * q + r);
    if q > i32::MAX {
        assert(div * q >= q) by (nonlinear_arith)
            requires
                div >= 1,
                q >= 0,
        ;
    }
    if q < i32::MIN {
        assert(div * q <= q) by (nonlinear_arith)
            requires
                div >= 1,
                q <= 0,
        ;
        assert(div * q + div <= q + 1) by (nonlinear_arith)
            requires
                div >= 1,
                q + 1 <= 0,
        ;
    }
}

/// The tile that holds the pixel `(x, y)`.
pub open spec fn tile_of_pixel(x: int, y: int) -> Pos {
    ((x / 32) as i32, (y / 32) as i32)
}

/// The tile that holds the pixel `(x - border_offset, y - border_offset)`,
/// unless that pixel lies within two pixels of a tile's border.
pub fn coords_to_tile_buffered(x: i32, y: i32, border_offset: i32) -> (r: Option<(i32, i32)>)
    requires
        i32::MIN <= x - border_offset <= i32::MAX,
        i32::MIN <= y - border_offset <= i32::MAX,
    ensures
        r == match (
            safe_div_spec(x - border_offset, 32, 2),
            safe_div_spec(y - border_offset, 32, 2),
        ) {
            (Some(tx), Some(ty)) => Some((tx as i32, ty as i32)),
            _ => None,
        },
{
    let tile_x = match safe_div(x - border_offset, TILE_WIDTH_PIXELS, 2) {
        Some(t) => t,
        None => {
            return None;
        },
    };
    let tile_y = match safe_div(y - border_offset, TILE_HEIGHT_PIXELS, 2) {
        Some(t) => t,
        None => {
            return None;
        },
    };
    Some((tile_x, tile_y))
}

/// The tile that holds the pixel `(x, y)`. Every pixel lies in a tile, and
/// that tile is addressable.
pub fn coords_to_tile(x: i32, y: i32) -> (r: Option<(i32, i32)>)
    ensures
        r == Some(tile_of_pixel(x as int, y as int)),
        addressable(tile_of_pixel(x as int, y as int)),
{
    proof {
        lemma_pixel_tile(x as int);
        lemma_pixel_tile(y as int);
    }
    let tile_x = match safe_div(x, TILE_WIDTH_PIXELS, 0) {
        Some(t) => t,
        None => {
            return None;
        },
    };
    let tile_y = match safe_div(y, TILE_HEIGHT_PIXELS, 0) {
        Some(t) => t,
        None => {
            return None;
        },
    };
    Some((tile_x, tile_y))
}

/// A pixel coordinate lies in an addressable tile, at an offset below the tile's size.
pub proof fn lemma_pixel_tile(x: int)
    requires
        i32::MIN <= x <= i32::MAX,
    ensures
        MIN_TILE <= x / 32 <= MAX_TILE,
        0 <= x % 32 < 32,
        x == 32 * (x / 32) + x % 32,
{
    vstd::arithmetic::div_mod::lemma_fundamental_div_mod(x, 32);
    vstd::arithmetic::div_mod::lemma_mod_bound(x, 32);
}

/// The pixel at the centre of the tile `(tile_x, tile_y)`.
pub open spec fn tile_center(p: Pos) -> (int, int) {
    (p.0 * 32 + 16, p.1 * 32 + 16)
}

/// The pixel at the centre of the tile `(tile_x, tile_y)`.
pub fn tile_to_pixel_coords(tile_x: i32, tile_y: i32) -> (r: (i32, i32))
    requires
        addressable((tile_x, tile_y)),
    ensures
        (r.0 as int, r.1 as int) == tile_center((tile_x, tile_y)),
{
    (
        tile_x * TILE_WIDTH_PIXELS + (TILE_WIDTH_PIXELS / 2),
        tile_y * TILE_HEIGHT_PIXELS + (TILE_HEIGHT_PIXELS / 2),
    )
}

} // verus!
