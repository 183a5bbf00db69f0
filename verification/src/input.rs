//! Per-frame input decisions.
//!
//! Each frame the application polls the key state and then nudges the camera
//! angles and the object center by `direction * speed * dt`.  The speeds and
//! the frame time are floating point and stay in the application; the
//! decision — which keys move which quantity, and in which direction — is
//! made here.

use vstd::prelude::*;

verus! {

/// The camera keys held down this frame.
pub struct CameraKeys {
    /// rotates `delta` in the negative direction
    pub left: bool,
    /// rotates `delta` in the positive direction
    pub right: bool,
    /// tilts `gamma` in the positive direction
    pub up: bool,
    /// tilts `gamma` in the negative direction
    pub down: bool,
}

/// The object-translation keys held down this frame.
pub struct ObjectKeys {
    /// moves the object center along y in the negative direction
    pub q: bool,
    /// moves the object center along z in the positive direction
    pub w: bool,
    /// moves the object center along y in the positive direction
    pub e: bool,
    /// moves the object center along x in the negative direction
    pub a: bool,
    /// moves the object center along z in the negative direction
    pub s: bool,
    /// moves the object center along x in the positive direction
    pub d: bool,
}

/// The direction sign from a pair of opposing keys: the positive key adds
/// one, the negative key subtracts one, so holding both cancels out.
pub open spec fn dir(neg: bool, pos: bool) -> int {
    (if pos { 1int } else { 0int }) - (if neg { 1int } else { 0int })
}

/// The signed steps `(d_delta, d_gamma)` that this frame's camera keys ask
/// for: Left/Right turn `delta` down/up, Up/Down tilt `gamma` up/down.
pub fn camera_step(keys: &CameraKeys) -> (r: (i8, i8))
    ensures
        r.0 as int == dir(keys.left, keys.right),
        r.1 as int == dir(keys.down, keys.up),
{
    (step_of(keys.left, keys.right), step_of(keys.down, keys.up))
}

/// The signed steps `(dx, dy, dz)` that this frame's translation keys ask
/// for: A/D along x, Q/E along y, S/W along z.
pub fn object_step(keys: &ObjectKeys) -> (r: (i8, i8, i8))
    ensures
        r.0 as int == dir(keys.a, keys.d),
        r.1 as int == dir(keys.q, keys.e),
        r.2 as int == dir(keys.s, keys.w),
{
    (
        step_of(keys.a, keys.d),
        step_of(keys.q, keys.e),
        step_of(keys.s, keys.w),
    )
}

fn step_of(neg: bool, pos: bool) -> (r: i8)
    ensures
        r as int == dir(neg, pos),
{
    let p: i8 = if pos { 1 } else { 0 };
    let n: i8 = if neg { 1 } else { 0 };
    p - n
}

} // verus!
