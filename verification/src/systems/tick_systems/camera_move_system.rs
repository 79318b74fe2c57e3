//! Stage: the camera moves as the pressed keys say.

use crate::resources::{KeysPressed, TdCamera};
use vstd::prelude::*;

verus! {

/// How many pixels the camera moves in one tick, per pressed key.
pub const KEYBOARD_MOVE_SPEED: i32 = 8;

/// `v + d`, held inside the range of pixel coordinates.
pub open spec fn shifted(v: int, d: int) -> int {
    if v + d < i32::MIN {
        i32::MIN as int
    } else if v + d > i32::MAX {
        i32::MAX as int
    } else {
        v + d
    }
}

/// The camera after one tick with the given keys pressed: right and left
/// move its left edge, up and down its top edge, each by the move speed,
/// and never out of the range of pixel coordinates.
pub open spec fn camera_moved(keys: KeysPressed, camera: TdCamera) -> TdCamera {
    let l1 = if keys.right {
        shifted(camera.left as int, 8)
    } else {
        camera.left as int
    };
    let l2 = if keys.left {
        shifted(l1, -8)
    } else {
        l1
    };
    let t1 = if keys.up {
        shifted(camera.top as int, -8)
    } else {
        camera.top as int
    };
    let t2 = if keys.down {
        shifted(t1, 8)
    } else {
        t1
    };
    TdCamera { top: t2 as i32, left: l2 as i32 }
}

/// `v + d`, held inside the range of pixel coordinates.
fn shift(v: i32, d: i32) -> (r: i32)
    ensures
        r == shifted(v as int, d as int),
{
    let sum: i64 = v as i64 + d as i64;
    if sum < i32::MIN as i64 {
        i32::MIN
    } else if sum > i32::MAX as i64 {
        i32::MAX
    } else {
        sum as i32
    }
}

/// The stage: the camera moves as the pressed keys say.
pub fn camera_move(keys: &KeysPressed, camera: &mut TdCamera)
    ensures
        *final(camera) == camera_moved(*keys, *old(camera)),
{
    if keys.right {
        camera.left = shift(camera.left, KEYBOARD_MOVE_SPEED);
    }
    if keys.left {
        camera.left = shift(camera.left, -KEYBOARD_MOVE_SPEED);
    }
    if keys.up {
        camera.top = shift(camera.top, -KEYBOARD_MOVE_SPEED);
    }
    if keys.down {
        camera.top = shift(camera.top, KEYBOARD_MOVE_SPEED);
    }
}

} // verus!
