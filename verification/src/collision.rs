//! Circle-versus-segment collision detection: types and the exact
//! specification of the detector.
//!
//! A segment is one-sided: the solid side is the one its winding order
//! points to, a quarter turn counter-clockwise from its direction.  The
//! detector reports the contact normal and how deep the circle has sunk.

use crate::math::{absi, div_t};
use crate::vec2::{dot2, rot90, v_neg, v_sub, vlen, vunit, Vec2, V2};
use vstd::prelude::*;

verus! {

/// Cap on the coordinates of level geometry.
pub const MAX_COORD: i64 = 1_000_000_000;

/// Cap on a body's radius.
pub const MAX_RADIUS: i64 = 1_000_000;

/// One edge of the static level, an ordered pair of endpoints.
#[derive(Clone, Copy, PartialEq, Eq, Structural, Debug)]
pub struct Segment {
    pub p1: Vec2,
    pub p2: Vec2,
}

/// The mathematical shadow of a `Segment`.
pub ghost struct SegG {
    pub p1: V2,
    pub p2: V2,
}

impl View for Segment {
    type V = SegG;

    open spec fn view(&self) -> SegG {
        SegG { p1: self.p1@, p2: self.p2@ }
    }
}

/// An ephemeral contact: the surface normal (a direction scaled by `SCALE`)
/// and the overlap along it.
#[derive(Clone, Copy, PartialEq, Eq, Structural, Debug)]
pub struct Collision {
    pub normal: Vec2,
    pub penetration: i64,
}

/// The mathematical shadow of a `Collision`.
pub ghost struct CollisionG {
    pub normal: V2,
    pub penetration: int,
}

impl View for Collision {
    type V = CollisionG;

    open spec fn view(&self) -> CollisionG {
        CollisionG { normal: self.normal@, penetration: self.penetration as int }
    }
}

/// A segment whose endpoints lie within the level's coordinate cap.
pub open spec fn seg_wf(s: SegG) -> bool {
    &&& absi(s.p1.x) <= MAX_COORD as int
    &&& absi(s.p1.y) <= MAX_COORD as int
    &&& absi(s.p2.x) <= MAX_COORD as int
    &&& absi(s.p2.y) <= MAX_COORD as int
}

/// A level: at most a thousand well-formed segments.
pub open spec fn level_wf(level: Seq<Segment>) -> bool {
    &&& level.len() <= 1000
    &&& forall|i: int| 0 <= i < level.len() ==> seg_wf(#[trigger] level[i]@)
}

/// What the collision detector reports for a circle at `pos` with radius
/// `size` against segment `s`.
///
/// If the centre projects before `p1` or past `p2`, the nearest feature is
/// that endpoint and the circle hits it when closer than `size`.  Otherwise
/// the nearest feature is the segment's line; the signed fixed-point
/// distance `d` along its left normal yields a contact when `0 < |d| <
/// size`, with the normal flipped for the far side.  A centre exactly on
/// the line (`d == 0`) reports nothing, a known edge of the detector.
pub open spec fn detect_spec(pos: V2, size: int, s: SegG) -> Option<CollisionG> {
    let v = v_sub(s.p2, s.p1);
    if dot2(v, v_sub(pos, s.p1)) < 0 {
        let n = v_sub(pos, s.p1);
        let pen = size - vlen(n);
        if pen > 0 {
            Some(CollisionG { normal: vunit(n), penetration: pen })
        } else {
            None
        }
    } else if dot2(v_neg(v), v_sub(pos, s.p2)) < 0 {
        let n = v_sub(pos, s.p2);
        let pen = size - vlen(n);
        if pen > 0 {
            Some(CollisionG { normal: vunit(n), penetration: pen })
        } else {
            None
        }
    } else {
        let n = rot90(vunit(v));
        let d = div_t(dot2(n, v_sub(pos, s.p1)), vlen(n));
        if 0 < d && d < size {
            Some(CollisionG { normal: n, penetration: size - d })
        } else if -size < d && d < 0 {
            Some(CollisionG { normal: v_neg(n), penetration: size + d })
        } else {
            None
        }
    }
}

} // verus!
