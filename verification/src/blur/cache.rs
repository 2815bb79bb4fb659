//! The blur cache of one frosted window: when its textures are recomputed and
//! what they hold.

use crate::blur::cadence::ViewStamp;
use crate::blur::extent::{next_alloc, quantized_alloc, steppable};
use crate::blur::mask::{MaskStamp, region_seq};
use crate::geometry::{Rect, Size};
use vstd::prelude::*;

verus! {

/// Frames a window's padded texture pair survives without being used.
pub const PAD_KEEP_FRAMES: u32 = 60;

/// Frames a new cache is recomputed for, whatever else holds: a client's first
/// buffers may land a frame or two after it is mapped.
pub const FORCED_FRAMES: u8 = 2;

/// Per-window cached textures and what they were computed for.
pub struct BlurCache<T> {
    pub texture: T,
    pub mask: T,
    /// Padded pair for the window's own capture; allocated on first use.
    pub pads: Option<(T, T)>,
    /// Extent of the pair.
    pub pad_alloc: Size,
    /// Consecutive frames without a capture of its own.
    pub pads_idle_frames: u32,
    /// Allocated extent of `texture` and `mask`.
    pub alloc: Size,
    /// What the mask was captured for; `None` until it has been captured.
    pub mask_stamp: Option<MaskStamp>,
    /// `texture` is known to hold nothing, so the element is left out.
    pub zeroed: bool,
    pub dirty: bool,
    pub last_geometry_generation: u64,
    pub last_view: ViewStamp,
    pub last_backdrop_hash: u64,
    pub force_dirty_frames: u8,
}

/// What a frame does about a window's blur.
#[derive(Clone, Copy, Debug, PartialEq, Eq, Structural)]
pub struct CacheStep {
    /// The texture has to be rebuilt.
    pub recompute: bool,
    /// The mask has to be captured again, whatever its stamp says.
    pub mask_forced: bool,
}

/// How the rebuild of a window's texture ended.
#[derive(Clone, Copy, Debug, PartialEq, Eq, Structural)]
pub enum CaptureOutcome {
    /// There was nothing to capture, or a step failed: the texture is as it
    /// was.
    Unchanged,
    /// Nothing lies beneath the window: the texture was cleared.
    Cleared,
    /// The texture holds the bare blur.
    Rebuilt,
}

/// How the masking of a rebuilt texture ended.
pub enum MaskOutcome {
    /// The mask could not be captured.
    CaptureFailed,
    /// The mask is valid, but could not be multiplied in.
    NotApplied,
    /// The texture holds the masked blur.
    Applied,
}

/// The part of a cache that decides about its recomputation.
pub open spec fn out_of_date<T>(
    cache: BlurCache<T>,
    backdrop_hash: u64,
    geometry_generation: u64,
    view: ViewStamp,
    beat: bool,
) -> bool {
    ||| cache.dirty
    ||| cache.last_backdrop_hash != backdrop_hash
    ||| cache.last_geometry_generation != geometry_generation
    ||| !cache.last_view.equals(view)
    ||| beat
    ||| cache.force_dirty_frames > 0
}

/// The allocation for a live extent, from the one held.
pub open spec fn next_size(live: Size, current: Size) -> Size {
    Size {
        w: next_alloc(live.w as int, current.w as int) as i32,
        h: next_alloc(live.h as int, current.h as int) as i32,
    }
}

/// The extents a window's caches can have.
pub open spec fn cacheable(live: Size) -> bool {
    &&& live.w > 0
    &&& live.h > 0
    &&& steppable(live.w as int)
    &&& steppable(live.h as int)
}

/// A stamp for what the mask is captured for.
fn mask_stamp(geometry_generation: u64, live: Size, regions: Option<&[Rect]>) -> (s: MaskStamp)
    ensures
        s.key() == (geometry_generation, live, region_seq(regions)),
{
    let regions: Option<Vec<Rect>> = match regions {
        Some(rects) => Some(vstd::slice::slice_to_vec(rects)),
        None => None,
    };
    MaskStamp { geometry_generation, live, regions }
}

impl<T> BlurCache<T> {
    pub open spec fn wf(self) -> bool {
        self.alloc.valid() && self.pad_alloc.valid()
    }

    /// The allocation a new cache starts with.
    pub fn initial_alloc(live: Size) -> (alloc: Size)
        requires
            cacheable(live),
        ensures
            alloc == next_size(live, Size { w: 0, h: 0 }),
            alloc.valid(),
    {
        quantized_alloc(live, Size { w: 0, h: 0 })
    }

    /// Whether its element is drawn: the texture holds something.
    pub fn is_shown(&self) -> (r: bool)
        ensures
            r == !self.zeroed,
    {
        !self.zeroed
    }

    /// A cache with freshly cleared textures.
    pub fn new(texture: T, mask: T, alloc: Size) -> (cache: BlurCache<T>)
        requires
            alloc.valid(),
        ensures
            cache.texture == texture,
            cache.mask == mask,
            cache.pads is None,
            cache.pad_alloc == (Size { w: 0, h: 0 }),
            cache.pads_idle_frames == 0,
            cache.alloc == alloc,
            cache.mask_stamp is None,
            cache.zeroed,
            cache.dirty,
            cache.last_geometry_generation == 0,
            cache.last_view.key is None,
            cache.last_backdrop_hash == 0,
            cache.force_dirty_frames == FORCED_FRAMES,
            cache.wf(),
    {
        BlurCache {
            texture,
            mask,
            pads: None,
            pad_alloc: Size { w: 0, h: 0 },
            pads_idle_frames: 0,
            alloc,
            mask_stamp: None,
            zeroed: true,
            dirty: true,
            last_geometry_generation: 0,
            last_view: ViewStamp::never_captured(),
            last_backdrop_hash: 0,
            force_dirty_frames: FORCED_FRAMES,
        }
    }

    /// The allocation to resize to for a live extent, if any.
    pub fn wanted_alloc(&self, live: Size) -> (alloc: Option<Size>)
        requires
            self.wf(),
            cacheable(live),
        ensures
            alloc == if next_size(live, self.alloc) == self.alloc {
                None
            } else {
                Some(next_size(live, self.alloc))
            },
    {
        let wanted = quantized_alloc(live, self.alloc);
        if wanted == self.alloc {
            None
        } else {
            Some(wanted)
        }
    }

    /// Takes freshly cleared textures of another extent. Both the blur and the
    /// mask have to be computed again.
    pub fn resize(&mut self, texture: T, mask: T, alloc: Size)
        requires
            alloc.valid(),
            old(self).wf(),
        ensures
            *final(self) == (BlurCache {
                texture,
                mask,
                alloc,
                mask_stamp: None,
                zeroed: true,
                dirty: true,
                ..*old(self)
            }),
            final(self).wf(),
    {
        self.texture = texture;
        self.mask = mask;
        self.alloc = alloc;
        self.mask_stamp = None;
        self.zeroed = true;
        self.dirty = true;
    }

    /// Whether the padded pair can be used for an extent as it is.
    pub fn pads_fit(&self, pad_live: Size) -> (fit: bool)
        ensures
            fit == (self.pads is Some && self.pad_alloc == pad_live),
    {
        self.pads.is_some() && self.pad_alloc == pad_live
    }

    /// Takes the padded pair allocated for an extent, or the failure to
    /// allocate one, and returns whether there is a pair to use.
    pub fn ensure_pads(&mut self, pad_live: Size, allocated: Option<(T, T)>) -> (ready: bool)
        requires
            old(self).wf(),
            pad_live.valid(),
        ensures
            final(self).wf(),
            ready == (allocated is Some),
            *final(self) == (BlurCache {
                pads: allocated,
                pad_alloc: if allocated is Some {
                    pad_live
                } else {
                    old(self).pad_alloc
                },
                ..*old(self)
            }),
    {
        let ready = allocated.is_some();
        if ready {
            self.pad_alloc = pad_live;
        }
        self.pads = allocated;
        ready
    }

    /// Counts a frame without a capture of its own, and frees the padded pair
    /// after `keep_frames` of them.
    pub fn age_pads(&mut self, keep_frames: u32)
        requires
            old(self).wf(),
        ensures
            final(self).wf(),
            final(self).pads_idle_frames == if old(self).pads_idle_frames == u32::MAX {
                u32::MAX as int
            } else {
                old(self).pads_idle_frames + 1
            },
            *final(self) == (BlurCache {
                pads_idle_frames: final(self).pads_idle_frames,
                pads: if final(self).pads_idle_frames > keep_frames {
                    None
                } else {
                    old(self).pads
                },
                ..*old(self)
            }),
    {
        self.pads_idle_frames = self.pads_idle_frames.saturating_add(1);
        if self.pads_idle_frames > keep_frames {
            self.pads = None;
        }
    }

    /// A capture of its own is about to use the padded pair.
    pub fn use_pads(&mut self)
        ensures
            *final(self) == (BlurCache { pads_idle_frames: 0, ..*old(self) }),
    {
        self.pads_idle_frames = 0;
    }

    /// Decides whether the texture is recomputed this frame, and records what
    /// it is then computed for.
    ///
    /// Recomputed are caches that are dirty already, new ones, those whose
    /// backdrop, geometry or view changed, and on the shared beat all of them.
    pub fn begin_frame(
        &mut self,
        backdrop_hash: u64,
        geometry_generation: u64,
        view: ViewStamp,
        beat: bool,
    ) -> (step: CacheStep)
        requires
            old(self).wf(),
        ensures
            final(self).wf(),
            step.recompute == out_of_date(
                *old(self),
                backdrop_hash,
                geometry_generation,
                view,
                beat,
            ),
            step.mask_forced == (old(self).force_dirty_frames > 0),
            *final(self) == (BlurCache {
                dirty: step.recompute,
                force_dirty_frames: if old(self).force_dirty_frames > 0 {
                    (old(self).force_dirty_frames - 1) as u8
                } else {
                    0
                },
                last_backdrop_hash: backdrop_hash,
                last_geometry_generation: geometry_generation,
                last_view: view,
                ..*old(self)
            }),
    {
        if self.last_backdrop_hash != backdrop_hash || self.last_geometry_generation
            != geometry_generation || !self.last_view.same(&view) || beat {
            self.dirty = true;
        }
        let mask_forced = self.force_dirty_frames > 0;
        if self.force_dirty_frames > 0 {
            self.dirty = true;
            self.force_dirty_frames = self.force_dirty_frames - 1;
        }
        self.last_backdrop_hash = backdrop_hash;
        self.last_geometry_generation = geometry_generation;
        self.last_view = view;
        CacheStep { recompute: self.dirty, mask_forced }
    }

    /// Records how the rebuild ended, and returns whether the mask is to be
    /// multiplied in. A cleared texture is settled; everything else stays dirty
    /// until it is masked.
    pub fn finish_capture(&mut self, outcome: CaptureOutcome) -> (rebuilt: bool)
        requires
            old(self).wf(),
        ensures
            final(self).wf(),
            rebuilt == (outcome == CaptureOutcome::Rebuilt),
            *final(self) == if outcome == CaptureOutcome::Cleared {
                BlurCache { zeroed: true, dirty: false, ..*old(self) }
            } else {
                *old(self)
            },
    {
        match outcome {
            CaptureOutcome::Cleared => {
                self.zeroed = true;
                self.dirty = false;
                false
            },
            CaptureOutcome::Rebuilt => true,
            CaptureOutcome::Unchanged => false,
        }
    }

    /// Whether the mask has to be captured before it is multiplied in.
    pub fn mask_stale(
        &self,
        forced: bool,
        geometry_generation: u64,
        live: Size,
        regions: Option<&[Rect]>,
    ) -> (stale: bool)
        ensures
            stale == (forced || !(self.mask_stamp matches Some(s) && s.key() == (
                geometry_generation,
                live,
                region_seq(regions),
            ))),
    {
        if forced {
            return true;
        }
        match &self.mask_stamp {
            Some(stamp) => !stamp.matches(geometry_generation, live, regions),
            None => true,
        }
    }

    /// Records how the masking ended. The stamp is renewed only by a successful
    /// capture, and only an applied mask settles the texture. Returns whether
    /// the texture's content changed.
    pub fn finish_mask(
        &mut self,
        captured: bool,
        geometry_generation: u64,
        live: Size,
        regions: Option<&[Rect]>,
        outcome: MaskOutcome,
    ) -> (changed: bool)
        requires
            old(self).wf(),
        ensures
            final(self).wf(),
            changed == (outcome is Applied),
            outcome is CaptureFailed ==> *final(self) == *old(self),
            outcome !is CaptureFailed && captured ==> (final(self).mask_stamp matches Some(s)
                && s.key() == (geometry_generation, live, region_seq(regions))),
            outcome !is CaptureFailed && !captured ==> final(self).mask_stamp == old(self).mask_stamp,
            *final(self) == (BlurCache {
                mask_stamp: final(self).mask_stamp,
                zeroed: old(self).zeroed && !changed,
                dirty: old(self).dirty && !changed,
                ..*old(self)
            }),
    {
        match outcome {
            MaskOutcome::CaptureFailed => false,
            MaskOutcome::NotApplied => {
                if captured {
                    self.mask_stamp = Some(mask_stamp(geometry_generation, live, regions));
                }
                false
            },
            MaskOutcome::Applied => {
                if captured {
                    self.mask_stamp = Some(mask_stamp(geometry_generation, live, regions));
                }
                self.zeroed = false;
                self.dirty = false;
                true
            },
        }
    }
}

/// A change of backdrop, geometry or view, and the shared beat, always
/// recompute; a settled cache with none of them does not.
pub proof fn law_changes_recompute<T>(
    cache: BlurCache<T>,
    backdrop_hash: u64,
    geometry_generation: u64,
    view: ViewStamp,
    beat: bool,
)
    ensures
        (cache.last_backdrop_hash != backdrop_hash || cache.last_geometry_generation
            != geometry_generation || !cache.last_view.equals(view) || beat) ==> out_of_date(
            cache,
            backdrop_hash,
            geometry_generation,
            view,
            beat,
        ),
        (!cache.dirty && cache.force_dirty_frames == 0 && cache.last_backdrop_hash
            == backdrop_hash && cache.last_geometry_generation == geometry_generation
            && cache.last_view.equals(view) && !beat) ==> !out_of_date(
            cache,
            backdrop_hash,
            geometry_generation,
            view,
            beat,
        ),
{
}

/// A cache that is dirty, or still new, is recomputed whatever has not changed.
pub proof fn law_unfinished_caches_recompute<T>(
    cache: BlurCache<T>,
    backdrop_hash: u64,
    geometry_generation: u64,
    view: ViewStamp,
    beat: bool,
)
    requires
        cache.dirty || cache.force_dirty_frames > 0,
    ensures
        out_of_date(cache, backdrop_hash, geometry_generation, view, beat),
{
}

/// Textures cover the window on either axis, each by what that axis needs, and
/// asking again changes nothing.
pub proof fn law_textures_cover_the_window(live: Size, current: Size)
    requires
        cacheable(live),
        current.valid(),
    ensures
        ({
            let next = next_size(live, current);
            &&& next.w >= live.w && next.h >= live.h
            &&& next_size(live, next) == next
            &&& current.w == live.w && current.w % 64 == 0 ==> next.w == current.w
            &&& current.h == live.h && current.h % 64 == 0 ==> next.h == current.h
            &&& current.w == 0 ==> next.w < live.w + 64
            &&& current.h == 0 ==> next.h < live.h + 64
        }),
{
    crate::blur::extent::law_alloc_covers_extent(live.w as int, current.w as int);
    crate::blur::extent::law_alloc_covers_extent(live.h as int, current.h as int);
    crate::blur::extent::law_alloc_settles(live.w as int, current.w as int);
    crate::blur::extent::law_alloc_settles(live.h as int, current.h as int);
}

} // verus!
