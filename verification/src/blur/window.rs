//! One frosted window within a frame: the steps that its blur takes on the GPU,
//! in which order, and what each result does to its cache.

use crate::blur::backdrop::{BackdropCapture, capture_of, grown, padded};
use crate::blur::cache::{
    BlurCache, CaptureOutcome, MaskOutcome, PAD_KEEP_FRAMES, cacheable, next_size, out_of_date,
};
use crate::blur::cadence::ViewStamp;
use crate::blur::extent::law_alloc_covers_extent;
use crate::blur::fingerprint::ElementInfo;
use crate::blur::mask::{is_complement, mask_region_complement, owned_regions, region_seq};
use crate::blur::plan::{
    BlurInputs, BlurRequestData, CapturePath, WindowPlan, choose_path, mask_range,
    positions_meeting,
};
use crate::geometry::{Rect, Size, min_of};
use crate::region::all_valid;
use vstd::prelude::*;

verus! {

/// Where a window's blur stands within a frame.
#[derive(Clone, Copy, Debug, PartialEq, Eq, Structural)]
pub enum WindowStage {
    /// It has a cache, and nothing has been decided.
    Start,
    /// Textures of this extent have been asked for.
    Resizing(Size),
    /// A padded pair of this extent has been asked for.
    Padding { mask_forced: bool, pad_live: Size },
    /// Its texture is being rebuilt.
    Rebuilding { mask_forced: bool },
    /// Its mask is being captured.
    Capturing,
    /// Its mask is being multiplied in.
    Masking { captured: bool },
    Settled,
}

/// What came of the last step.
pub enum WindowEvent<T> {
    Begin,
    /// The texture and the mask, freshly cleared; `None` where they could not be
    /// allocated.
    Textures(Option<(T, T)>),
    Pads(Option<(T, T)>),
    Rebuilt(CaptureOutcome),
    /// Whether the mask was captured.
    MaskCaptured(bool),
    /// Whether the mask was multiplied in.
    Masked(bool),
}

/// What is done next.
pub enum WindowAction {
    /// Allocate and clear a texture and a mask.
    MakeTextures(Size),
    /// Cut the window out of the shared backdrop.
    Slice,
    /// Clear the texture: nothing lies beneath the window.
    Clear(Size),
    /// Capture the elements at these places for this window alone, blur the
    /// pair and keep its middle. With `fresh_pads`, allocate the pair first and
    /// hand it in.
    Own { capture: BackdropCapture, pad_live: Size, below: Vec<usize>, fresh_pads: bool },
    /// The pair is in place: go on with the capture.
    Continue,
    /// Draw the window's own elements into the mask, then clear these parts.
    CaptureMask { start: usize, end: usize, outside: Vec<Rect> },
    Multiply,
    /// Nothing more. `changed` tells whether the texture has new content.
    Leave { changed: bool },
}

/// What the frame has decided for all of its windows.
#[derive(Clone, Copy, Debug, PartialEq, Eq, Structural)]
pub struct WindowFrame {
    /// The shared backdrop may be sliced.
    pub slice_ok: bool,
    /// The shared beat ticked.
    pub beat: bool,
    pub geometry_generation: u64,
}

impl WindowStage {
    /// Steps that are left at most.
    pub open spec fn rank(self) -> nat {
        match self {
            WindowStage::Start => 6,
            WindowStage::Resizing(_) => 5,
            WindowStage::Padding { .. } => 4,
            WindowStage::Rebuilding { .. } => 3,
            WindowStage::Capturing => 2,
            WindowStage::Masking { .. } => 1,
            WindowStage::Settled => 0,
        }
    }

    pub open spec fn wf(self) -> bool {
        match self {
            WindowStage::Resizing(alloc) => alloc.valid(),
            WindowStage::Padding { pad_live, .. } => pad_live.valid(),
            _ => true,
        }
    }

    /// The event answers what the stage waits for.
    pub open spec fn expects<T>(self, event: WindowEvent<T>) -> bool {
        match self {
            WindowStage::Start => event is Begin,
            WindowStage::Resizing(_) => event is Textures,
            WindowStage::Padding { .. } => event is Pads,
            WindowStage::Rebuilding { .. } => event is Rebuilt,
            WindowStage::Capturing => event is MaskCaptured,
            WindowStage::Masking { .. } => event is Masked,
            WindowStage::Settled => false,
        }
    }

    /// The texture is on its way to be rebuilt and masked.
    pub open spec fn under_way(self) -> bool {
        match self {
            WindowStage::Start | WindowStage::Resizing(_) | WindowStage::Settled => false,
            _ => true,
        }
    }
}

/// The cache after a frame's start without a capture of its own.
pub open spec fn aged<T>(cache: BlurCache<T>) -> BlurCache<T> {
    let idle = if cache.pads_idle_frames == u32::MAX {
        u32::MAX
    } else {
        (cache.pads_idle_frames + 1) as u32
    };
    BlurCache {
        pads_idle_frames: idle,
        pads: if idle > PAD_KEEP_FRAMES {
            None
        } else {
            cache.pads
        },
        ..cache
    }
}

/// The cache once it records what its texture is to be computed for.
pub open spec fn marked<T>(
    cache: BlurCache<T>,
    backdrop_hash: u64,
    geometry_generation: u64,
    view: ViewStamp,
    beat: bool,
) -> BlurCache<T> {
    BlurCache {
        dirty: out_of_date(cache, backdrop_hash, geometry_generation, view, beat),
        force_dirty_frames: if cache.force_dirty_frames > 0 {
            (cache.force_dirty_frames - 1) as u8
        } else {
            0
        },
        last_backdrop_hash: backdrop_hash,
        last_geometry_generation: geometry_generation,
        last_view: view,
        ..cache
    }
}

/// What the mask is valid for when it is captured now.
pub open spec fn mask_key(req: BlurRequestData, frame: WindowFrame) -> (
    u64,
    Size,
    Option<Seq<Rect>>,
) {
    (frame.geometry_generation, req.screen_rect.size, owned_regions(req.region_rects))
}

/// The decision about a cache of the right extent.
pub open spec fn begun<T>(
    before: BlurCache<T>,
    after: BlurCache<T>,
    req: BlurRequestData,
    plan: WindowPlan,
    elements: Seq<ElementInfo>,
    inputs: BlurInputs,
    frame: WindowFrame,
    next: (WindowStage, WindowAction),
) -> bool {
    let mark = marked(
        aged(before),
        plan.fingerprint.hash,
        frame.geometry_generation,
        inputs.view,
        frame.beat,
    );
    let mask_forced = before.force_dirty_frames > 0;
    let pad_live = grown(req.screen_rect.size, inputs.pad as int);
    if !mark.dirty {
        after == mark && next == (WindowStage::Settled, WindowAction::Leave { changed: false })
    } else if !plan.fingerprint.occluded_by_lower && frame.slice_ok {
        after == mark && next == (WindowStage::Rebuilding { mask_forced }, WindowAction::Slice)
    } else {
        match capture_of(padded(req.screen_rect, inputs.pad as int), inputs.output_size) {
            None => after == mark && next == (
                WindowStage::Settled,
                WindowAction::Leave { changed: false },
            ),
            Some(own) => {
                let places = positions_meeting(elements, plan.backdrop_start as int, own.clipped);
                let fresh = !(mark.pads is Some && mark.pad_alloc == pad_live);
                if places.len() == 0 {
                    &&& after == mark
                    &&& next == (
                        WindowStage::Rebuilding { mask_forced },
                        WindowAction::Clear(mark.alloc),
                    )
                } else {
                    &&& after == if fresh {
                        mark
                    } else {
                        BlurCache { pads_idle_frames: 0, ..mark }
                    }
                    &&& next.0 == if fresh {
                        WindowStage::Padding { mask_forced, pad_live }
                    } else {
                        WindowStage::Rebuilding { mask_forced }
                    }
                    &&& next.1 matches WindowAction::Own {
                        capture,
                        pad_live: extent,
                        below,
                        fresh_pads,
                    }
                    &&& capture == own
                    &&& extent == pad_live
                    &&& below@ == places
                    &&& fresh_pads == fresh
                }
            },
        }
    }
}

/// What follows a rebuilt texture.
pub open spec fn mask_begun<T>(
    cache: BlurCache<T>,
    mask_forced: bool,
    req: BlurRequestData,
    elements: Seq<ElementInfo>,
    inputs: BlurInputs,
    frame: WindowFrame,
    next: (WindowStage, WindowAction),
) -> bool {
    let fresh = cache.mask_stamp matches Some(s) && s.key() == mask_key(req, frame);
    if mask_forced || !fresh {
        &&& next.0 == WindowStage::Capturing
        &&& next.1 matches WindowAction::CaptureMask { start, end, outside }
        &&& start == req.surface_start(inputs.prefixes)
        &&& end == min_of(req.surface_end(inputs.prefixes), elements.len() as int)
        &&& is_complement(outside@, req.screen_rect.size, owned_regions(req.region_rects))
    } else {
        next == (WindowStage::Masking { captured: false }, WindowAction::Multiply)
    }
}

/// What the last step of the mask leaves in the cache. A mask that was captured
/// for it is stamped, and only an applied one settles the texture.
pub open spec fn mask_ended<T>(
    before: BlurCache<T>,
    after: BlurCache<T>,
    captured: bool,
    applied: bool,
    key: (u64, Size, Option<Seq<Rect>>),
) -> bool {
    &&& if captured {
        after.mask_stamp matches Some(s) && s.key() == key
    } else {
        after.mask_stamp == before.mask_stamp
    }
    &&& after == BlurCache {
        mask_stamp: after.mask_stamp,
        zeroed: before.zeroed && !applied,
        dirty: before.dirty && !applied,
        ..before
    }
}

/// One step of a window's blur.
pub open spec fn stepped<T>(
    stage: WindowStage,
    event: WindowEvent<T>,
    before: BlurCache<T>,
    after: BlurCache<T>,
    req: BlurRequestData,
    plan: WindowPlan,
    elements: Seq<ElementInfo>,
    inputs: BlurInputs,
    frame: WindowFrame,
    next: (WindowStage, WindowAction),
) -> bool {
    let leave = (WindowStage::Settled, WindowAction::Leave { changed: false });
    match (stage, event) {
        (WindowStage::Start, WindowEvent::Begin) => {
            let wanted = next_size(req.screen_rect.size, before.alloc);
            if wanted == before.alloc {
                begun(before, after, req, plan, elements, inputs, frame, next)
            } else {
                &&& after == before
                &&& next == (WindowStage::Resizing(wanted), WindowAction::MakeTextures(wanted))
            }
        },
        (WindowStage::Resizing(alloc), WindowEvent::Textures(made)) => {
            let sized = match made {
                Some((texture, mask)) => BlurCache {
                    texture,
                    mask,
                    alloc,
                    mask_stamp: None,
                    zeroed: true,
                    dirty: true,
                    ..before
                },
                None => before,
            };
            begun(sized, after, req, plan, elements, inputs, frame, next)
        },
        (WindowStage::Padding { mask_forced, pad_live }, WindowEvent::Pads(made)) => match made {
            Some(_) => {
                &&& after == BlurCache {
                    pads: made,
                    pad_alloc: pad_live,
                    pads_idle_frames: 0,
                    ..before
                }
                &&& next == (WindowStage::Rebuilding { mask_forced }, WindowAction::Continue)
            },
            None => after == (BlurCache { pads: None, ..before }) && next == leave,
        },
        (WindowStage::Rebuilding { mask_forced }, WindowEvent::Rebuilt(outcome)) => match outcome {
            CaptureOutcome::Unchanged => after == before && next == leave,
            CaptureOutcome::Cleared => after == (BlurCache {
                zeroed: true,
                dirty: false,
                ..before
            }) && next == leave,
            CaptureOutcome::Rebuilt => after == before && mask_begun(
                before,
                mask_forced,
                req,
                elements,
                inputs,
                frame,
                next,
            ),
        },
        (WindowStage::Capturing, WindowEvent::MaskCaptured(ok)) => after == before && next == if ok {
            (WindowStage::Masking { captured: true }, WindowAction::Multiply)
        } else {
            leave
        },
        (WindowStage::Masking { captured }, WindowEvent::Masked(ok)) => {
            &&& mask_ended(before, after, captured, ok, mask_key(req, frame))
            &&& next == (WindowStage::Settled, WindowAction::Leave { changed: ok })
        },
        _ => false,
    }
}

/// The decision about a cache of the right extent: whether the texture is
/// rebuilt at all, and how.
fn begin<T>(
    cache: &mut BlurCache<T>,
    req: &BlurRequestData,
    plan: &WindowPlan,
    elements: &[ElementInfo],
    inputs: &BlurInputs,
    frame: &WindowFrame,
) -> (next: (WindowStage, WindowAction))
    requires
        old(cache).wf(),
        cacheable(req.screen_rect.size),
        inputs.pad >= 0,
        req.fits(inputs.prefixes, inputs.pad as int),
        plan.backdrop_start <= elements@.len(),
    ensures
        final(cache).wf(),
        next.0.wf(),
        next.0.rank() < WindowStage::Resizing(req.screen_rect.size).rank(),
        begun(*old(cache), *final(cache), *req, *plan, elements@, *inputs, *frame, next),
{
    cache.age_pads(PAD_KEEP_FRAMES);
    assert(*cache == aged(*old(cache)));
    let step = cache.begin_frame(
        plan.fingerprint.hash,
        frame.geometry_generation,
        inputs.view,
        frame.beat,
    );
    let mask_forced = step.mask_forced;
    if !step.recompute {
        return (WindowStage::Settled, WindowAction::Leave { changed: false });
    }
    match choose_path(req, plan, frame.slice_ok, elements, inputs.pad, inputs.output_size) {
        CapturePath::Slice => (WindowStage::Rebuilding { mask_forced }, WindowAction::Slice),
        CapturePath::OffOutput => (WindowStage::Settled, WindowAction::Leave { changed: false }),
        CapturePath::Empty => (
            WindowStage::Rebuilding { mask_forced },
            WindowAction::Clear(cache.alloc),
        ),
        CapturePath::Own { capture, pad_live, below } => {
            let fresh_pads = !cache.pads_fit(pad_live);
            let stage = if fresh_pads {
                WindowStage::Padding { mask_forced, pad_live }
            } else {
                cache.use_pads();
                WindowStage::Rebuilding { mask_forced }
            };
            (stage, WindowAction::Own { capture, pad_live, below, fresh_pads })
        },
    }
}

/// Takes what came of the last step of a window's blur into its cache, and
/// decides on the next one.
pub fn advance<T>(
    stage: WindowStage,
    event: WindowEvent<T>,
    cache: &mut BlurCache<T>,
    req: &BlurRequestData,
    plan: &WindowPlan,
    elements: &[ElementInfo],
    inputs: &BlurInputs,
    frame: &WindowFrame,
) -> (next: (WindowStage, WindowAction))
    requires
        old(cache).wf(),
        stage.wf(),
        stage.expects(event),
        cacheable(req.screen_rect.size),
        inputs.pad >= 0,
        req.fits(inputs.prefixes, inputs.pad as int),
        req.region_rects matches Some(rects) ==> all_valid(rects@),
        plan.backdrop_start <= elements@.len(),
    ensures
        final(cache).wf(),
        next.0.wf(),
        next.0.rank() < stage.rank(),
        stepped(
            stage,
            event,
            *old(cache),
            *final(cache),
            *req,
            *plan,
            elements@,
            *inputs,
            *frame,
            next,
        ),
{
    let live = req.screen_rect.size;
    let leave = (WindowStage::Settled, WindowAction::Leave { changed: false });
    let regions: Option<&[Rect]> = match &req.region_rects {
        Some(rects) => Some(rects.as_slice()),
        None => None,
    };
    assert(region_seq(regions) == owned_regions(req.region_rects));
    match (stage, event) {
        (WindowStage::Start, WindowEvent::Begin) => match cache.wanted_alloc(live) {
            Some(alloc) => {
                proof {
                    law_alloc_covers_extent(live.w as int, cache.alloc.w as int);
                    law_alloc_covers_extent(live.h as int, cache.alloc.h as int);
                }
                (WindowStage::Resizing(alloc), WindowAction::MakeTextures(alloc))
            },
            None => begin(cache, req, plan, elements, inputs, frame),
        },
        (WindowStage::Resizing(alloc), WindowEvent::Textures(made)) => {
            if let Some((texture, mask)) = made {
                cache.resize(texture, mask, alloc);
            }
            begin(cache, req, plan, elements, inputs, frame)
        },
        (WindowStage::Padding { mask_forced, pad_live }, WindowEvent::Pads(made)) => {
            if cache.ensure_pads(pad_live, made) {
                cache.use_pads();
                (WindowStage::Rebuilding { mask_forced }, WindowAction::Continue)
            } else {
                leave
            }
        },
        (WindowStage::Rebuilding { mask_forced }, WindowEvent::Rebuilt(outcome)) => {
            if !cache.finish_capture(outcome) {
                leave
            } else if cache.mask_stale(mask_forced, frame.geometry_generation, live, regions) {
                let (start, end) = mask_range(req, &inputs.prefixes, elements.len());
                let outside = mask_region_complement(live, regions);
                (WindowStage::Capturing, WindowAction::CaptureMask { start, end, outside })
            } else {
                (WindowStage::Masking { captured: false }, WindowAction::Multiply)
            }
        },
        (WindowStage::Capturing, WindowEvent::MaskCaptured(ok)) => {
            if ok {
                (WindowStage::Masking { captured: true }, WindowAction::Multiply)
            } else {
                leave
            }
        },
        (WindowStage::Masking { captured }, WindowEvent::Masked(ok)) => {
            let outcome = if ok {
                MaskOutcome::Applied
            } else {
                MaskOutcome::NotApplied
            };
            let changed = cache.finish_mask(
                captured,
                frame.geometry_generation,
                live,
                regions,
                outcome,
            );
            (WindowStage::Settled, WindowAction::Leave { changed })
        },
        _ => leave,
    }
}

/// A blur that is under way leaves its cache dirty, whatever fails, until the
/// mask has been applied or the texture cleared: the next frame takes it up
/// again.
pub proof fn law_unfinished_blur_is_taken_up_again<T>(
    stage: WindowStage,
    event: WindowEvent<T>,
    before: BlurCache<T>,
    after: BlurCache<T>,
    req: BlurRequestData,
    plan: WindowPlan,
    elements: Seq<ElementInfo>,
    inputs: BlurInputs,
    frame: WindowFrame,
    next: (WindowStage, WindowAction),
    backdrop_hash: u64,
    geometry_generation: u64,
    view: ViewStamp,
    beat: bool,
)
    requires
        stepped(stage, event, before, after, req, plan, elements, inputs, frame, next),
        stage.under_way() ==> before.dirty,
    ensures
        next.0.under_way() ==> after.dirty,
        stage.under_way() && next.1 == (WindowAction::Leave { changed: false }) && event
            != WindowEvent::<T>::Rebuilt(CaptureOutcome::Cleared) ==> out_of_date(
            after,
            backdrop_hash,
            geometry_generation,
            view,
            beat,
        ),
{
}

/// A texture that held nothing is shown only once it has been rebuilt and
/// masked.
pub proof fn law_only_masked_blur_is_shown<T>(
    stage: WindowStage,
    event: WindowEvent<T>,
    before: BlurCache<T>,
    after: BlurCache<T>,
    req: BlurRequestData,
    plan: WindowPlan,
    elements: Seq<ElementInfo>,
    inputs: BlurInputs,
    frame: WindowFrame,
    next: (WindowStage, WindowAction),
)
    requires
        stepped(stage, event, before, after, req, plan, elements, inputs, frame, next),
    ensures
        before.zeroed && !after.zeroed ==> next.1 == (WindowAction::Leave { changed: true }),
        next.1 == (WindowAction::Leave { changed: true }) ==> stage is Masking && !after.zeroed,
{
}

/// The mask is multiplied only into a texture that was rebuilt this frame, so
/// never a second time into the same content.
pub proof fn law_mask_meets_a_rebuilt_texture<T>(
    stage: WindowStage,
    event: WindowEvent<T>,
    before: BlurCache<T>,
    after: BlurCache<T>,
    req: BlurRequestData,
    plan: WindowPlan,
    elements: Seq<ElementInfo>,
    inputs: BlurInputs,
    frame: WindowFrame,
    next: (WindowStage, WindowAction),
)
    requires
        stepped(stage, event, before, after, req, plan, elements, inputs, frame, next),
    ensures
        next.1 is Multiply <==> next.0 is Masking,
        next.0 is Masking ==> stage is Capturing || event == WindowEvent::<T>::Rebuilt(
            CaptureOutcome::Rebuilt,
        ),
        next.0 is Capturing ==> event == WindowEvent::<T>::Rebuilt(CaptureOutcome::Rebuilt),
{
}

/// A frame that finds the textures large enough records what it sees of the
/// window, and touches neither the textures nor the mask. If nothing has changed,
/// nothing is due and no beat ticks, it leaves them alone. Else the window is cut
/// out of the shared backdrop exactly if nothing occludes it and that may be
/// sliced; if not, it is left alone off the output, cleared where nothing reaches
/// beneath it, and captured from all that does otherwise.
pub proof fn law_window_is_rebuilt_from_what_lies_beneath<T>(
    before: BlurCache<T>,
    after: BlurCache<T>,
    req: BlurRequestData,
    plan: WindowPlan,
    elements: Seq<ElementInfo>,
    inputs: BlurInputs,
    frame: WindowFrame,
    next: (WindowStage, WindowAction),
)
    requires
        stepped(
            WindowStage::Start,
            WindowEvent::Begin,
            before,
            after,
            req,
            plan,
            elements,
            inputs,
            frame,
            next,
        ),
        next_size(req.screen_rect.size, before.alloc) == before.alloc,
    ensures
        ({
            let due = before.dirty || before.last_backdrop_hash != plan.fingerprint.hash
                || before.last_geometry_generation != frame.geometry_generation
                || !before.last_view.equals(inputs.view) || frame.beat || before.force_dirty_frames
                > 0;
            let sliced = !plan.fingerprint.occluded_by_lower && frame.slice_ok;
            let own = capture_of(padded(req.screen_rect, inputs.pad as int), inputs.output_size);
            let places = positions_meeting(elements, plan.backdrop_start as int, (own->0).clipped);
            let forced = before.force_dirty_frames > 0;
            &&& after.dirty == due
            &&& after.last_backdrop_hash == plan.fingerprint.hash
            &&& after.last_geometry_generation == frame.geometry_generation
            &&& after.last_view == inputs.view
            &&& after.force_dirty_frames == if forced {
                before.force_dirty_frames - 1
            } else {
                0
            }
            &&& after.texture == before.texture && after.mask == before.mask
            &&& after.alloc == before.alloc && after.zeroed == before.zeroed
            &&& after.mask_stamp == before.mask_stamp && after.pad_alloc == before.pad_alloc
            &&& !due ==> next == (WindowStage::Settled, WindowAction::Leave { changed: false })
            &&& due && sliced ==> next == (
                WindowStage::Rebuilding { mask_forced: forced },
                WindowAction::Slice,
            )
            &&& due && !sliced && own is None ==> next == (
                WindowStage::Settled,
                WindowAction::Leave { changed: false },
            )
            &&& due && !sliced && own is Some && places.len() == 0 ==> next == (
                WindowStage::Rebuilding { mask_forced: forced },
                WindowAction::Clear(before.alloc),
            )
            &&& due && !sliced && own is Some && places.len() > 0 ==> {
                &&& next.1 matches WindowAction::Own { capture, pad_live, below, fresh_pads }
                &&& Some(capture) == own
                &&& pad_live.w == grown(req.screen_rect.size, inputs.pad as int).w
                &&& pad_live.h == grown(req.screen_rect.size, inputs.pad as int).h
                &&& below@ == places
                &&& !fresh_pads ==> after.pads is Some && after.pad_alloc == pad_live
                    && after.pads_idle_frames == 0
                &&& fresh_pads <==> next.0 is Padding
                &&& next.0 matches WindowStage::Padding { mask_forced, pad_live: extent }
                    ==> mask_forced == forced && extent == pad_live
                &&& next.0 matches WindowStage::Rebuilding { mask_forced } ==> mask_forced == forced
            }
        }),
{
}

/// A padded pair is kept through the frames that do not use it, as long as these
/// are not too many in a row, and never counted as used by one.
pub proof fn law_idle_pair_is_given_up<T>(cache: BlurCache<T>)
    ensures
        cache.pads_idle_frames < PAD_KEEP_FRAMES ==> aged(cache).pads == cache.pads,
        cache.pads_idle_frames >= PAD_KEEP_FRAMES ==> aged(cache).pads is None,
        cache.pads_idle_frames < u32::MAX ==> aged(cache).pads_idle_frames
            == cache.pads_idle_frames + 1,
        aged(cache).pads_idle_frames >= cache.pads_idle_frames,
        aged(cache) == (BlurCache {
            pads: aged(cache).pads,
            pads_idle_frames: aged(cache).pads_idle_frames,
            ..cache
        }),
{
}

/// A window whose textures have another extent than it needs first asks for new
/// ones, of the extent it needs, and changes nothing meanwhile.
pub proof fn law_textures_are_resized_first<T>(
    before: BlurCache<T>,
    after: BlurCache<T>,
    req: BlurRequestData,
    plan: WindowPlan,
    elements: Seq<ElementInfo>,
    inputs: BlurInputs,
    frame: WindowFrame,
    next: (WindowStage, WindowAction),
)
    requires
        stepped(
            WindowStage::Start,
            WindowEvent::Begin,
            before,
            after,
            req,
            plan,
            elements,
            inputs,
            frame,
            next,
        ),
        next_size(req.screen_rect.size, before.alloc) != before.alloc,
    ensures
        after == before,
        next.0 matches WindowStage::Resizing(extent) && next.1 == WindowAction::MakeTextures(extent)
            && extent == next_size(req.screen_rect.size, before.alloc),
{
}

/// New textures take the place of the old ones, hold nothing yet, and are always
/// rebuilt, with a new mask; where they could not be had, the old ones go on.
pub proof fn law_new_textures_are_rebuilt<T>(
    extent: Size,
    made: Option<(T, T)>,
    before: BlurCache<T>,
    after: BlurCache<T>,
    req: BlurRequestData,
    plan: WindowPlan,
    elements: Seq<ElementInfo>,
    inputs: BlurInputs,
    frame: WindowFrame,
    next: (WindowStage, WindowAction),
)
    requires
        stepped(
            WindowStage::Resizing(extent),
            WindowEvent::Textures(made),
            before,
            after,
            req,
            plan,
            elements,
            inputs,
            frame,
            next,
        ),
    ensures
        made matches Some((texture, mask)) ==> {
            &&& after.texture == texture && after.mask == mask && after.alloc == extent
            &&& after.zeroed && after.dirty && after.mask_stamp is None
            &&& next.0.under_way() || capture_of(
                padded(req.screen_rect, inputs.pad as int),
                inputs.output_size,
            ) is None
        },
        made is None ==> after.texture == before.texture && after.mask == before.mask
            && after.alloc == before.alloc && after.zeroed == before.zeroed && after.mask_stamp
            == before.mask_stamp,
{
}

/// A rebuilt texture is masked: with a mask captured anew exactly if one is forced
/// or the held one was captured for another geometry, extent or region; the mask
/// is drawn from the window's own elements.
pub proof fn law_mask_is_captured_when_it_is_stale<T>(
    mask_forced: bool,
    before: BlurCache<T>,
    after: BlurCache<T>,
    req: BlurRequestData,
    plan: WindowPlan,
    elements: Seq<ElementInfo>,
    inputs: BlurInputs,
    frame: WindowFrame,
    next: (WindowStage, WindowAction),
)
    requires
        stepped(
            WindowStage::Rebuilding { mask_forced },
            WindowEvent::Rebuilt(CaptureOutcome::Rebuilt),
            before,
            after,
            req,
            plan,
            elements,
            inputs,
            frame,
            next,
        ),
    ensures
        ({
            let held = before.mask_stamp is Some && ({
                let s = before.mask_stamp->0;
                &&& s.geometry_generation == frame.geometry_generation
                &&& s.live == req.screen_rect.size
                &&& owned_regions(s.regions) == owned_regions(req.region_rects)
            });
            &&& after == before
            &&& !mask_forced && held ==> next == (
                WindowStage::Masking { captured: false },
                WindowAction::Multiply,
            )
            &&& mask_forced || !held ==> {
                &&& next.0 is Capturing
                &&& next.1 matches WindowAction::CaptureMask { start, end, outside }
                &&& start == inputs.prefixes.start_of(req.layer) + req.elem_start
                &&& start + req.elem_count <= elements.len() ==> end == start + req.elem_count
                &&& start + req.elem_count > elements.len() ==> end == elements.len()
                &&& is_complement(outside@, req.screen_rect.size, owned_regions(req.region_rects))
            }
        }),
{
}

/// A mask that was multiplied in settles the texture, and one that was not leaves
/// it as it was. A mask captured on the way is remembered for what it was captured
/// for.
pub proof fn law_applied_mask_settles_the_texture<T>(
    captured: bool,
    ok: bool,
    before: BlurCache<T>,
    after: BlurCache<T>,
    req: BlurRequestData,
    plan: WindowPlan,
    elements: Seq<ElementInfo>,
    inputs: BlurInputs,
    frame: WindowFrame,
    next: (WindowStage, WindowAction),
)
    requires
        stepped(
            WindowStage::Masking { captured },
            WindowEvent::Masked(ok),
            before,
            after,
            req,
            plan,
            elements,
            inputs,
            frame,
            next,
        ),
    ensures
        next == (WindowStage::Settled, WindowAction::Leave { changed: ok }),
        ok ==> !after.zeroed && !after.dirty,
        !ok ==> after.zeroed == before.zeroed && after.dirty == before.dirty,
        captured ==> (after.mask_stamp matches Some(s) && s.geometry_generation
            == frame.geometry_generation && s.live == req.screen_rect.size && owned_regions(
            s.regions,
        ) == owned_regions(req.region_rects)),
        !captured ==> after.mask_stamp == before.mask_stamp,
        after.texture == before.texture && after.mask == before.mask && after.pads == before.pads
            && after.alloc == before.alloc,
{
}

/// A step that failed leaves the cache for the next frame; a padded pair that could
/// be had is taken at its extent and goes on; a cleared texture holds nothing and
/// is settled.
pub proof fn law_other_steps_of_a_window<T>(
    stage: WindowStage,
    event: WindowEvent<T>,
    before: BlurCache<T>,
    after: BlurCache<T>,
    req: BlurRequestData,
    plan: WindowPlan,
    elements: Seq<ElementInfo>,
    inputs: BlurInputs,
    frame: WindowFrame,
    next: (WindowStage, WindowAction),
)
    requires
        stepped(stage, event, before, after, req, plan, elements, inputs, frame, next),
    ensures
        stage matches WindowStage::Padding { mask_forced, pad_live } ==> {
            &&& event matches WindowEvent::Pads(made)
            &&& after.pads == made && after.texture == before.texture && after.dirty == before.dirty
            &&& made is Some ==> after.pad_alloc == pad_live && after.pads_idle_frames == 0 && next
                == (WindowStage::Rebuilding { mask_forced }, WindowAction::Continue)
            &&& made is None ==> next == (
                WindowStage::Settled,
                WindowAction::Leave { changed: false },
            )
        },
        stage is Rebuilding && event == WindowEvent::<T>::Rebuilt(CaptureOutcome::Cleared)
            ==> after.zeroed && !after.dirty && next == (
            WindowStage::Settled,
            WindowAction::Leave { changed: false },
        ),
        stage is Rebuilding && event == WindowEvent::<T>::Rebuilt(CaptureOutcome::Unchanged)
            ==> after == before && next == (
            WindowStage::Settled,
            WindowAction::Leave { changed: false },
        ),
        stage is Capturing && event == WindowEvent::<T>::MaskCaptured(false) ==> after == before
            && next == (WindowStage::Settled, WindowAction::Leave { changed: false }),
        stage is Capturing && event == WindowEvent::<T>::MaskCaptured(true) ==> after == before
            && next == (WindowStage::Masking { captured: true }, WindowAction::Multiply),
{
}

} // verus!
