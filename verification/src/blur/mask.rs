//! The alpha mask of a frosted window: when it is stale, and which parts of it
//! a client's blur region leaves out.

use crate::geometry::{Point, Rect, Size};
use crate::region::{all_valid, covered, cut_out, disjoint};
use vstd::prelude::*;

verus! {

/// What a captured mask is only valid for: the window's geometry, the extent it
/// was rasterized at, and the client's blur region.
pub struct MaskStamp {
    pub geometry_generation: u64,
    pub live: Size,
    pub regions: Option<Vec<Rect>>,
}

/// The rectangles of an optional list.
pub open spec fn owned_regions(regions: Option<Vec<Rect>>) -> Option<Seq<Rect>> {
    match regions {
        Some(v) => Some(v@),
        None => None,
    }
}

/// The rectangles of an optional slice.
pub open spec fn region_seq(regions: Option<&[Rect]>) -> Option<Seq<Rect>> {
    match regions {
        Some(s) => Some(s@),
        None => None,
    }
}

/// Whether two lists hold the same rectangles in the same order.
pub fn same_rects(a: &[Rect], b: &[Rect]) -> (same: bool)
    ensures
        same == (a@ == b@),
{
    if a.len() != b.len() {
        return false;
    }
    let mut i: usize = 0;
    while i < a.len()
        invariant
            a.len() == b.len(),
            i <= a.len(),
            forall|k: int| 0 <= k < i ==> a@[k] == b@[k],
        decreases a.len() - i,
    {
        if a[i] != b[i] {
            return false;
        }
        i = i + 1;
    }
    assert(a@ =~= b@);
    true
}

impl MaskStamp {
    /// What the stamp stands for.
    pub open spec fn key(self) -> (u64, Size, Option<Seq<Rect>>) {
        (self.geometry_generation, self.live, owned_regions(self.regions))
    }

    /// Whether a mask with this stamp is still valid.
    pub fn matches(
        &self,
        geometry_generation: u64,
        live: Size,
        regions: Option<&[Rect]>,
    ) -> (valid: bool)
        ensures
            valid == (self.key() == (geometry_generation, live, region_seq(regions))),
    {
        if self.geometry_generation != geometry_generation || self.live != live {
            return false;
        }
        match (&self.regions, regions) {
            (Some(mine), Some(theirs)) => same_rects(mine.as_slice(), theirs),
            (None, None) => true,
            _ => false,
        }
    }
}

/// The rectangles cover exactly the pixels of a window that a blur region leaves
/// out, each once.
pub open spec fn is_complement(
    outside: Seq<Rect>,
    win_size: Size,
    regions: Option<Seq<Rect>>,
) -> bool {
    &&& all_valid(outside)
    &&& disjoint(outside)
    &&& match regions {
        Some(rects) => forall|x: int, y: int| #[trigger]
            covered(outside, x, y) <==> (0 <= x < win_size.w && 0 <= y < win_size.h) && !covered(
                rects,
                x,
                y,
            ),
        None => outside.len() == 0,
    }
}

/// The parts of the window-sized mask that have to be zeroed back out so that
/// only a client-requested blur region keeps frost. Without a region the whole
/// window stays frosted and there is nothing to zero.
pub fn mask_region_complement(win_size: Size, region_rects: Option<&[Rect]>) -> (outside: Vec<Rect>)
    requires
        win_size.valid(),
        region_rects matches Some(rects) ==> all_valid(rects@),
    ensures
        is_complement(outside@, win_size, region_seq(region_rects)),
{
    match region_rects {
        Some(rects) => {
            let outside = cut_out(Rect::from_size(win_size), rects);
            assert forall|x: int, y: int| #[trigger] covered(outside@, x, y) <==> (0 <= x
                < win_size.w && 0 <= y < win_size.h) && !covered(rects@, x, y) by {
                let window = Rect { loc: Point { x: 0, y: 0 }, size: win_size };
                assert(window.covers(x, y) <==> (0 <= x < win_size.w && 0 <= y < win_size.h));
            }
            outside
        },
        None => Vec::new(),
    }
}

} // verus!
