//! The axis-aligned overlap test: the one collision primitive the rest of the
//! core is written against. Detection code depends only on this function's
//! contract, keeping the split/pop logic independent of how overlap is
//! computed.

use vstd::prelude::*;
use crate::config::headroom;

verus! {

/// Two axis-aligned boxes, each given by its center and full extents, overlap
/// when their interiors intersect on both axes. Contact along an edge alone
/// (touching, not penetrating) does not count.
pub open spec fn spec_boxes_overlap(
    ax: int, ay: int, aw: int, ah: int,
    bx: int, by: int, bw: int, bh: int,
) -> bool {
    &&& 2 * ax - aw < 2 * bx + bw
    &&& 2 * ax + aw > 2 * bx - bw
    &&& 2 * ay - ah < 2 * by + bh
    &&& 2 * ay + ah > 2 * by - bh
}

/// Report whether the box centered at `(ax, ay)` with width `aw` and height
/// `ah` overlaps the box centered at `(bx, by)` with width `bw` and height
/// `bh`. Comparisons are doubled so that half-extents never round.
pub fn boxes_overlap(
    ax: i64, ay: i64, aw: i64, ah: i64,
    bx: i64, by: i64, bw: i64, bh: i64,
) -> (r: bool)
    requires
        headroom(ax as int), headroom(ay as int), headroom(aw as int), headroom(ah as int),
        headroom(bx as int), headroom(by as int), headroom(bw as int), headroom(bh as int),
    ensures
        r == spec_boxes_overlap(
            ax as int, ay as int, aw as int, ah as int,
            bx as int, by as int, bw as int, bh as int,
        ),
{
    2 * ax - aw < 2 * bx + bw
        && 2 * ax + aw > 2 * bx - bw
        && 2 * ay - ah < 2 * by + bh
        && 2 * ay + ah > 2 * by - bh
}

} // verus!
