//! How a block is drawn, as far as it is decided by the block and its
//! neighbours rather than by screen geometry.

use vstd::prelude::*;

verus! {

/// The arms a wire is drawn with, given the sides it connects to (north,
/// south, east, west): its connections, where a single connection runs
/// straight through the cell, and none at all leaves a dot (no arm).
pub open spec fn spec_wire_arms(n: bool, s: bool, e: bool, w: bool) -> (bool, bool, bool, bool) {
    let count = (if n { 1int } else { 0 }) + (if s { 1int } else { 0 }) + (if e { 1int } else { 0 })
        + (if w { 1int } else { 0 });
    if count == 1 {
        if n || s {
            (true, true, false, false)
        } else {
            (false, false, true, true)
        }
    } else {
        (n, s, e, w)
    }
}

pub fn wire_arms(n: bool, s: bool, e: bool, w: bool) -> (r: (bool, bool, bool, bool))
    ensures
        r == spec_wire_arms(n, s, e, w),
{
    let mut count: u8 = 0;
    if n {
        count = count + 1;
    }
    if s {
        count = count + 1;
    }
    if e {
        count = count + 1;
    }
    if w {
        count = count + 1;
    }
    if count == 1 {
        if n || s {
            (true, true, false, false)
        } else {
            (false, false, true, true)
        }
    } else {
        (n, s, e, w)
    }
}

} // verus!
