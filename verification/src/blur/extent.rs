//! Stepped texture allocation: an allocation covers the live extent, grows at
//! once, and is given back only past a hysteresis band.

use crate::geometry::Size;
use vstd::prelude::*;

verus! {

/// Allocations are multiples of this many pixels.
pub const CACHE_STEP: i32 = 64;

/// The smallest multiple of the step that covers an extent.
pub open spec fn stepped(live: int) -> int {
    ((if live < 1 {
        1
    } else {
        live
    }) + 63) / 64 * 64
}

/// The allocation that follows from `current` at the extent `live`.
pub open spec fn next_alloc(live: int, current: int) -> int {
    if stepped(live) > current {
        stepped(live)
    } else if live <= current - 96 {
        stepped(live)
    } else {
        current
    }
}

/// Extents whose step fits in an `i32`.
pub open spec fn steppable(live: int) -> bool {
    live <= 0x7fff_ffc0
}

/// The allocation for an extent of `live` pixels, given the one held now (0
/// for none): grown as soon as it is too small, and shrunk only when the extent
/// has fallen a step and a half below it.
pub fn quantized_extent(live: i32, current: i32) -> (alloc: i32)
    requires
        steppable(live as int),
        current >= i32::MIN + 96,
    ensures
        alloc == next_alloc(live as int, current as int),
{
    let at_least: i32 = if live < 1 {
        1
    } else {
        live
    };
    let steps: i32 = (at_least - 1) / CACHE_STEP + 1;
    let wanted: i32 = steps * CACHE_STEP;
    assert(wanted == stepped(live as int));
    if wanted > current {
        wanted
    } else if live <= current - CACHE_STEP - CACHE_STEP / 2 {
        wanted
    } else {
        current
    }
}

/// `quantized_extent` on each axis.
pub fn quantized_alloc(live: Size, current: Size) -> (alloc: Size)
    requires
        steppable(live.w as int),
        steppable(live.h as int),
        current.w >= i32::MIN + 96,
        current.h >= i32::MIN + 96,
    ensures
        alloc.w == next_alloc(live.w as int, current.w as int),
        alloc.h == next_alloc(live.h as int, current.h as int),
{
    Size { w: quantized_extent(live.w, current.w), h: quantized_extent(live.h, current.h) }
}

/// The allocation covers the live extent, and is at least one step.
pub proof fn law_alloc_covers_extent(live: int, current: int)
    ensures
        next_alloc(live, current) >= live,
        next_alloc(live, current) >= CACHE_STEP,
{
}

/// Asking again at the same extent changes nothing.
pub proof fn law_alloc_settles(live: int, current: int)
    ensures
        next_alloc(live, next_alloc(live, current)) == next_alloc(live, current),
{
}

/// An allocation made of whole steps stays so, and exceeds the extent by less
/// than a step and a half.
pub proof fn law_alloc_is_tight(live: int, current: int)
    requires
        current % 64 == 0,
        live >= 1,
    ensures
        next_alloc(live, current) % 64 == 0,
        next_alloc(live, current) - live < 96,
{
}

/// An extent that stays less than a step and a half below the allocation, and no
/// larger than it, never changes it.
pub proof fn law_hovering_extent_keeps_allocation(live: int, current: int)
    requires
        current >= 64,
        current - 96 < live <= current,
        current % 64 == 0,
    ensures
        next_alloc(live, current) == current,
{
}

/// A new allocation is the smallest number of whole steps that covers the extent.
/// One is made exactly if the extent does not fit in the one held, or has fallen a
/// step and a half below it.
pub proof fn law_allocation_changes_by_whole_steps(live: int, current: int)
    requires
        live >= 1,
    ensures
        stepped(live) % 64 == 0,
        live <= stepped(live) < live + 64,
        current % 64 == 0 && live > current ==> next_alloc(live, current) == stepped(live),
        current % 64 == 0 && live <= current - 96 ==> next_alloc(live, current) == stepped(live),
        current % 64 == 0 && current - 96 < live <= current ==> next_alloc(live, current)
            == current,
{
}

} // verus!
