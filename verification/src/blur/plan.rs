//! What one frame's blur requests ask for, and where their results go.

use crate::blur::backdrop::{
    BackdropCapture, backdrop_capture, capture_of, grown, pad_extent, padded, padded_rect, pads,
};
use crate::blur::cadence::{SharedBlur, SharedFrame, SharedStep, ViewStamp, shared_stepped};
use crate::blur::fingerprint::{
    BackdropFingerprint, ElementInfo, backdrop_fingerprint, background_signature, fingerprint_of,
    signature_of,
};
use crate::blur::mask::owned_regions;
use crate::geometry::{Rect, Size, min_of, min_usize};
use vstd::prelude::*;

verus! {

/// Which element group a blur request belongs to.
#[derive(Clone, Copy, Debug, PartialEq, Eq, Structural)]
pub enum BlurLayer {
    Overlay,
    Top,
    Pinned,
    Normal,
    Widget,
}

/// Where each element group starts in the frame.
#[derive(Clone, Copy, Debug, PartialEq, Eq, Structural)]
pub struct Prefixes {
    pub overlay: usize,
    pub top: usize,
    pub pinned: usize,
    pub normal: usize,
    pub widget: usize,
}

impl Prefixes {
    pub open spec fn start_of(self, layer: BlurLayer) -> int {
        match layer {
            BlurLayer::Overlay => self.overlay as int,
            BlurLayer::Top => self.top as int,
            BlurLayer::Pinned => self.pinned as int,
            BlurLayer::Normal => self.normal as int,
            BlurLayer::Widget => self.widget as int,
        }
    }

    /// Where a layer's group starts.
    pub fn prefix(&self, layer: BlurLayer) -> (start: usize)
        ensures
            start == self.start_of(layer),
    {
        match layer {
            BlurLayer::Overlay => self.overlay,
            BlurLayer::Top => self.top,
            BlurLayer::Pinned => self.pinned,
            BlurLayer::Normal => self.normal,
            BlurLayer::Widget => self.widget,
        }
    }
}

/// A window or layer surface that asks for blur.
pub struct BlurRequestData {
    pub surface_id: u64,
    pub screen_rect: Rect,
    /// First element of the window within its group.
    pub elem_start: usize,
    /// Elements above the blur.
    pub elem_count: usize,
    /// Elements the window has below its blur: its shadow, and a layer
    /// surface's border.
    pub trailing_chrome: usize,
    pub layer: BlurLayer,
    /// Client-requested blur region, relative to `screen_rect`. `None` blurs
    /// the whole window.
    pub region_rects: Option<Vec<Rect>>,
}

impl BlurRequestData {
    /// First element of the window in the frame.
    pub open spec fn surface_start(self, prefixes: Prefixes) -> int {
        prefixes.start_of(self.layer) + self.elem_start
    }

    /// First element past those above the blur.
    pub open spec fn surface_end(self, prefixes: Prefixes) -> int {
        self.surface_start(prefixes) + self.elem_count
    }

    /// There is an area to frost.
    pub open spec fn visible(self) -> bool {
        self.screen_rect.size.positive()
    }

    /// Element numbers fit in a `usize`, and the padded rectangle in `i32`.
    pub open spec fn fits(self, prefixes: Prefixes, pad: int) -> bool {
        &&& self.surface_end(prefixes) + self.trailing_chrome <= usize::MAX
        &&& pads(self.screen_rect, pad)
    }
}

/// Where the content behind one window begins: below its own trailing chrome,
/// and no later than the scene background.
pub fn behind_own_chrome(
    behind_start: usize,
    trailing_chrome: usize,
    background_start: usize,
) -> (start: usize)
    requires
        behind_start + trailing_chrome <= usize::MAX,
    ensures
        start == min_of(behind_start + trailing_chrome, background_start as int),
{
    min_usize(behind_start + trailing_chrome, background_start)
}

/// What a request's blur is taken from.
#[derive(Clone, Copy, Debug, PartialEq, Eq, Structural)]
pub struct WindowPlan {
    /// Where "below this window" begins in the frame.
    pub behind_start: usize,
    /// Where the content of its backdrop begins, past its own chrome.
    pub backdrop_start: usize,
    pub fingerprint: BackdropFingerprint,
}

pub open spec fn plan_of(
    req: BlurRequestData,
    elements: Seq<ElementInfo>,
    prefixes: Prefixes,
    background_start: int,
    pad: int,
) -> WindowPlan {
    let behind = min_of(req.surface_end(prefixes), elements.len() as int);
    let start = min_of(behind + req.trailing_chrome, background_start);
    WindowPlan {
        behind_start: behind as usize,
        backdrop_start: start as usize,
        fingerprint: fingerprint_of(
            elements.subrange(start, background_start),
            elements.subrange(background_start, elements.len() as int),
            req.screen_rect,
            pad,
            owned_regions(req.region_rects),
        ),
    }
}

/// Every request's place in the frame and the fingerprint of its backdrop.
pub fn plan_windows(
    requests: &[BlurRequestData],
    elements: &[ElementInfo],
    prefixes: &Prefixes,
    background_start: usize,
    pad: i32,
) -> (plans: Vec<WindowPlan>)
    requires
        background_start <= elements@.len(),
        forall|i: int|
            0 <= i < requests@.len() ==> (#[trigger] requests@[i]).fits(*prefixes, pad as int),
    ensures
        plans@.len() == requests@.len(),
        forall|i: int|
            0 <= i < requests@.len() ==> #[trigger] plans@[i] == plan_of(
                requests@[i],
                elements@,
                *prefixes,
                background_start as int,
                pad as int,
            ),
{
    let background = vstd::slice::slice_subrange(elements, background_start, elements.len());
    let mut plans: Vec<WindowPlan> = Vec::new();
    let mut i: usize = 0;
    while i < requests.len()
        invariant
            i <= requests.len(),
            plans@.len() == i,
            background_start <= elements@.len(),
            background@ == elements@.subrange(background_start as int, elements@.len() as int),
            forall|k: int|
                0 <= k < requests@.len() ==> (#[trigger] requests@[k]).fits(*prefixes, pad as int),
            forall|k: int|
                0 <= k < i ==> #[trigger] plans@[k] == plan_of(
                    requests@[k],
                    elements@,
                    *prefixes,
                    background_start as int,
                    pad as int,
                ),
        decreases requests.len() - i,
    {
        let req = &requests[i];
        assert(requests@[i as int].fits(*prefixes, pad as int));
        let end: usize = prefixes.prefix(req.layer) + req.elem_start + req.elem_count;
        let behind_start: usize = min_usize(end, elements.len());
        let backdrop_start: usize = behind_own_chrome(
            behind_start,
            req.trailing_chrome,
            background_start,
        );
        let lower = vstd::slice::slice_subrange(elements, backdrop_start, background_start);
        let regions: Option<&[Rect]> = match &req.region_rects {
            Some(rects) => Some(rects.as_slice()),
            None => None,
        };
        let fingerprint = backdrop_fingerprint(lower, background, req.screen_rect, pad, regions);
        plans.push(WindowPlan { behind_start, backdrop_start, fingerprint });
        i = i + 1;
    }
    plans
}

/// The capture a request's window would make for itself, if it would slice the
/// shared backdrop instead.
pub open spec fn slice_capture(
    req: BlurRequestData,
    occluded: bool,
    pad: int,
    output_size: Size,
) -> Option<BackdropCapture> {
    if !occluded && req.visible() {
        capture_of(padded(req.screen_rect, pad), output_size)
    } else {
        None
    }
}

/// How many of the first `n` requests would slice the shared backdrop.
pub open spec fn slicer_count(
    requests: Seq<BlurRequestData>,
    plans: Seq<WindowPlan>,
    pad: int,
    output_size: Size,
    n: int,
) -> int
    decreases n,
{
    if n <= 0 {
        0
    } else {
        slicer_count(requests, plans, pad, output_size, n - 1) + match slice_capture(
            requests[n - 1],
            plans[n - 1].fingerprint.occluded_by_lower,
            pad,
            output_size,
        ) {
            Some(_) => 1int,
            None => 0,
        }
    }
}

/// The output area those windows' own captures would cover between them.
pub open spec fn slicer_area(
    requests: Seq<BlurRequestData>,
    plans: Seq<WindowPlan>,
    pad: int,
    output_size: Size,
    n: int,
) -> int
    decreases n,
{
    if n <= 0 {
        0
    } else {
        slicer_area(requests, plans, pad, output_size, n - 1) + match slice_capture(
            requests[n - 1],
            plans[n - 1].fingerprint.occluded_by_lower,
            pad,
            output_size,
        ) {
            Some(c) => c.clipped.area(),
            None => 0,
        }
    }
}

proof fn lemma_clip_area(a: Rect, b: Rect)
    requires
        a.valid(),
        b.valid(),
    ensures
        a.clip(b) matches Some(c) ==> 0 <= c.area() <= 0x4000_0000_0000_0000 && c.size.valid(),
{
    if let Some(c) = a.clip(b) {
        let w = c.size.w as int;
        let h = c.size.h as int;
        assert(0 <= w * h <= 0x4000_0000_0000_0000) by (nonlinear_arith)
            requires
                0 <= w <= 0x7fff_ffff,
                0 <= h <= 0x7fff_ffff,
        ;
    }
}

/// How many windows would slice the shared backdrop, and the area their own
/// captures would cover: a window that is occluded, empty or off the output is
/// counted in neither.
pub fn slicer_totals(
    requests: &[BlurRequestData],
    plans: &[WindowPlan],
    pad: i32,
    output_size: Size,
) -> (totals: (usize, u128))
    requires
        requests@.len() == plans@.len(),
        pad >= 0,
        output_size.valid(),
        forall|i: int|
            0 <= i < requests@.len() ==> pads((#[trigger] requests@[i]).screen_rect, pad as int),
    ensures
        totals.0 == slicer_count(
            requests@,
            plans@,
            pad as int,
            output_size,
            requests@.len() as int,
        ),
        totals.1 == slicer_area(
            requests@,
            plans@,
            pad as int,
            output_size,
            requests@.len() as int,
        ),
{
    let mut slicers: usize = 0;
    let mut area: u128 = 0;
    let mut i: usize = 0;
    while i < requests.len()
        invariant
            i <= requests.len(),
            requests@.len() == plans@.len(),
            pad >= 0,
            output_size.valid(),
            forall|k: int|
                0 <= k < requests@.len() ==> pads(
                    (#[trigger] requests@[k]).screen_rect,
                    pad as int,
                ),
            slicers == slicer_count(requests@, plans@, pad as int, output_size, i as int),
            area == slicer_area(requests@, plans@, pad as int, output_size, i as int),
            slicers <= i,
            area <= i * 0x4000_0000_0000_0000,
        decreases requests.len() - i,
    {
        let req = &requests[i];
        assert(pads(requests@[i as int].screen_rect, pad as int));
        if !plans[i].fingerprint.occluded_by_lower && req.screen_rect.size.w > 0
            && req.screen_rect.size.h > 0 {
            let own = padded_rect(req.screen_rect, pad);
            if let Some(capture) = backdrop_capture(own, output_size) {
                proof {
                    lemma_clip_area(
                        own,
                        Rect { loc: crate::geometry::Point { x: 0, y: 0 }, size: output_size },
                    );
                    let c = capture.clipped;
                    assert(c.area() <= 0x4000_0000_0000_0000);
                    assert((i + 1) * 0x4000_0000_0000_0000 <= u128::MAX) by (nonlinear_arith)
                        requires
                            0 <= i < 0xffff_ffff_ffff_ffff,
                    ;
                }
                let w: u128 = capture.clipped.size.w as u128;
                let h: u128 = capture.clipped.size.h as u128;
                slicers = slicers + 1;
                area = area + w * h;
            }
        }
        i = i + 1;
    }
    (slicers, area)
}

/// What the shared backdrop of a frame is decided from.
pub open spec fn shared_frame_of(
    frame: SharedFrame,
    elements: Seq<ElementInfo>,
    requests: Seq<BlurRequestData>,
    plans: Seq<WindowPlan>,
    inputs: BlurInputs,
) -> bool {
    let pad = inputs.pad as int;
    let n = requests.len() as int;
    &&& frame.now == inputs.now
    &&& frame.view == inputs.view
    &&& frame.background@ == signature_of(
        elements.subrange(inputs.background_start as int, elements.len() as int),
    )
    &&& frame.animate_blur_fps == inputs.animate_blur_fps
    &&& frame.output_size == inputs.output_size
    &&& frame.slicers == slicer_count(requests, plans, pad, inputs.output_size, n)
    &&& frame.slicer_area == slicer_area(requests, plans, pad, inputs.output_size, n)
}

/// What one output's blur is decided from, besides its elements and requests.
#[derive(Clone, Copy, Debug)]
pub struct BlurInputs {
    /// The current time, in nanoseconds.
    pub now: u128,
    pub view: ViewStamp,
    pub animate_blur_fps: u32,
    pub output_size: Size,
    /// Reach of the blur past a window's edges.
    pub pad: i32,
    pub prefixes: Prefixes,
    /// First element of the scene background.
    pub background_start: usize,
}

/// The decisions that precede any rendering: every request's place and
/// fingerprint, and what the frame does about the shared backdrop.
pub fn process_blur_requests<T>(
    shared: &mut SharedBlur<T>,
    requests: &[BlurRequestData],
    elements: &[ElementInfo],
    inputs: &BlurInputs,
) -> (decided: (Vec<WindowPlan>, SharedStep))
    requires
        inputs.background_start <= elements@.len(),
        inputs.pad >= 0,
        inputs.output_size.valid(),
        forall|i: int|
            0 <= i < requests@.len() ==> (#[trigger] requests@[i]).fits(
                inputs.prefixes,
                inputs.pad as int,
            ),
    ensures
        decided.0@.len() == requests@.len(),
        forall|i: int|
            0 <= i < requests@.len() ==> #[trigger] decided.0@[i] == plan_of(
                requests@[i],
                elements@,
                inputs.prefixes,
                inputs.background_start as int,
                inputs.pad as int,
            ),
        exists|frame: SharedFrame| #[trigger]
            shared_frame_of(frame, elements@, requests@, decided.0@, *inputs) && shared_stepped(
                *old(shared),
                *final(shared),
                frame,
                decided.1,
            ),
{
    let plans = plan_windows(
        requests,
        elements,
        &inputs.prefixes,
        inputs.background_start,
        inputs.pad,
    );
    assert forall|i: int| 0 <= i < requests@.len() implies pads(
        (#[trigger] requests@[i]).screen_rect,
        inputs.pad as int,
    ) by {
        assert(requests@[i].fits(inputs.prefixes, inputs.pad as int));
    }
    let (slicers, slicer_area) = slicer_totals(
        requests,
        plans.as_slice(),
        inputs.pad,
        inputs.output_size,
    );
    let frame = SharedFrame {
        now: inputs.now,
        view: inputs.view,
        background: background_signature(
            vstd::slice::slice_subrange(elements, inputs.background_start, elements.len()),
        ),
        animate_blur_fps: inputs.animate_blur_fps,
        output_size: inputs.output_size,
        slicers,
        slicer_area,
    };
    assert(shared_frame_of(frame, elements@, requests@, plans@, *inputs));
    let step = shared.begin_frame(frame);
    (plans, step)
}

/// Positions from `from` on of the elements that reach into `clip`, in order.
pub open spec fn positions_meeting(elements: Seq<ElementInfo>, from: int, clip: Rect) -> Seq<usize>
    decreases elements.len(),
{
    if elements.len() == 0 || elements.len() <= from {
        Seq::empty()
    } else {
        let init = positions_meeting(elements.drop_last(), from, clip);
        if elements.last().geometry.meets(clip) {
            init.push((elements.len() - 1) as usize)
        } else {
            init
        }
    }
}

fn elements_meeting(elements: &[ElementInfo], from: usize, clip: Rect) -> (positions: Vec<usize>)
    requires
        from <= elements@.len(),
    ensures
        positions@ == positions_meeting(elements@, from as int, clip),
{
    let mut out: Vec<usize> = Vec::new();
    let mut i: usize = from;
    while i < elements.len()
        invariant
            from <= i <= elements.len(),
            out@ =~= positions_meeting(elements@.subrange(0, i as int), from as int, clip),
        decreases elements.len() - i,
    {
        let ghost next = elements@.subrange(0, i + 1);
        assert(next.drop_last() =~= elements@.subrange(0, i as int));
        if elements[i].geometry.overlaps(clip) {
            out.push(i);
        }
        i = i + 1;
    }
    assert(elements@.subrange(0, i as int) =~= elements@);
    out
}

/// How a window's texture is rebuilt.
pub enum CapturePath {
    /// Cut out of the shared backdrop.
    Slice,
    /// The window is off the output: nothing to capture, nothing to show.
    OffOutput,
    /// Nothing lies beneath the window: the texture is cleared.
    Empty,
    /// Captured for this window alone, from the elements at these positions,
    /// into a pair of this extent.
    Own { capture: BackdropCapture, pad_live: Size, below: Vec<usize> },
}

/// Chooses how a window's texture is rebuilt.
///
/// The shared slice is exact only where nothing but scene background lies
/// beneath the window; everything else renders its own backdrop.
pub fn choose_path(
    req: &BlurRequestData,
    plan: &WindowPlan,
    slice_ok: bool,
    elements: &[ElementInfo],
    pad: i32,
    output_size: Size,
) -> (path: CapturePath)
    requires
        plan.backdrop_start <= elements@.len(),
        pads(req.screen_rect, pad as int),
    ensures
        match path {
            CapturePath::Slice => !plan.fingerprint.occluded_by_lower && slice_ok,
            CapturePath::OffOutput => (plan.fingerprint.occluded_by_lower || !slice_ok)
                && capture_of(padded(req.screen_rect, pad as int), output_size) is None,
            CapturePath::Empty => (plan.fingerprint.occluded_by_lower || !slice_ok) && (capture_of(
                padded(req.screen_rect, pad as int),
                output_size,
            ) matches Some(c) && positions_meeting(
                elements@,
                plan.backdrop_start as int,
                c.clipped,
            ).len() == 0),
            CapturePath::Own { capture, pad_live, below } => {
                &&& plan.fingerprint.occluded_by_lower || !slice_ok
                &&& capture_of(padded(req.screen_rect, pad as int), output_size) == Some(capture)
                &&& below@ == positions_meeting(
                    elements@,
                    plan.backdrop_start as int,
                    capture.clipped,
                )
                &&& below@.len() > 0
                &&& pad_live == grown(req.screen_rect.size, pad as int)
            },
        },
{
    if !plan.fingerprint.occluded_by_lower && slice_ok {
        return CapturePath::Slice;
    }
    let own = padded_rect(req.screen_rect, pad);
    match backdrop_capture(own, output_size) {
        None => CapturePath::OffOutput,
        Some(capture) => {
            let below = elements_meeting(elements, plan.backdrop_start, capture.clipped);
            if below.len() == 0 {
                CapturePath::Empty
            } else {
                CapturePath::Own { capture, pad_live: pad_extent(req.screen_rect.size, pad), below }
            }
        },
    }
}

/// The window's own elements in the frame, which its mask is captured from.
pub fn mask_range(req: &BlurRequestData, prefixes: &Prefixes, len: usize) -> (range: (usize, usize))
    requires
        req.surface_end(*prefixes) <= usize::MAX,
    ensures
        range.0 == req.surface_start(*prefixes),
        range.1 == min_of(req.surface_end(*prefixes), len as int),
{
    let start: usize = prefixes.prefix(req.layer) + req.elem_start;
    (start, min_usize(start + req.elem_count, len))
}

/// The request gets its blur element.
pub open spec fn shown<E>(req: BlurRequestData, blur: Option<E>) -> bool {
    req.visible() && blur is Some
}

/// Blur elements of the first `n` requests.
pub open spec fn shown_count<E>(requests: Seq<BlurRequestData>, blurs: Seq<Option<E>>, n: int) -> int
    decreases n,
{
    if n <= 0 {
        0
    } else {
        shown_count(requests, blurs, n - 1) + if shown(requests[n - 1], blurs[n - 1]) {
            1int
        } else {
            0
        }
    }
}

/// The frame with the blur elements of the first `n` requests: each goes right
/// behind its window's elements, past the blurs that came before it.
pub open spec fn spliced<E>(
    elements: Seq<E>,
    requests: Seq<BlurRequestData>,
    blurs: Seq<Option<E>>,
    prefixes: Prefixes,
    n: int,
) -> Seq<E>
    decreases n,
{
    if n <= 0 {
        elements
    } else {
        let before = spliced(elements, requests, blurs, prefixes, n - 1);
        if shown(requests[n - 1], blurs[n - 1]) {
            before.insert(
                min_of(
                    requests[n - 1].surface_end(prefixes) + shown_count(requests, blurs, n - 1),
                    before.len() as int,
                ),
                blurs[n - 1]->0,
            )
        } else {
            before
        }
    }
}

/// Puts every window's blur element into the frame. `blurs` holds the element
/// of each request, or `None` where its texture holds nothing.
pub fn splice_blurs<E>(
    elements: &mut Vec<E>,
    requests: &[BlurRequestData],
    blurs: Vec<Option<E>>,
    prefixes: &Prefixes,
)
    requires
        requests@.len() == blurs@.len(),
        forall|i: int|
            0 <= i < requests@.len() ==> (#[trigger] requests@[i]).surface_end(*prefixes)
                + requests@.len() <= usize::MAX,
    ensures
        final(elements)@ == spliced(
            old(elements)@,
            requests@,
            blurs@,
            *prefixes,
            requests@.len() as int,
        ),
{
    let mut blurs = blurs;
    let ghost all = blurs@;
    let ghost base = elements@;
    let mut shift: usize = 0;
    let mut i: usize = 0;
    while i < requests.len()
        invariant
            i <= requests.len(),
            requests@.len() == all.len(),
            blurs@.len() == all.len(),
            shift <= i,
            shift == shown_count(requests@, all, i as int),
            forall|k: int|
                0 <= k < requests@.len() ==> (#[trigger] requests@[k]).surface_end(*prefixes)
                    + requests@.len() <= usize::MAX,
            forall|k: int| i <= k < all.len() ==> #[trigger] blurs@[k] == all[k],
            elements@ == spliced(base, requests@, all, *prefixes, i as int),
        decreases requests.len() - i,
    {
        let req = &requests[i];
        assert(requests@[i as int].surface_end(*prefixes) + requests@.len() <= usize::MAX);
        assert(blurs@[i as int] == all[i as int]);
        if req.screen_rect.size.w > 0 && req.screen_rect.size.h > 0 {
            let mut slot: Option<E> = None;
            std::mem::swap(&mut slot, &mut blurs[i]);
            if let Some(blur) = slot {
                let at: usize = prefixes.prefix(req.layer) + req.elem_start + req.elem_count
                    + shift;
                let at: usize = min_usize(at, elements.len());
                elements.insert(at, blur);
                shift = shift + 1;
            }
        }
        i = i + 1;
    }
}

/// The requests come in the order of their places in the frame.
pub open spec fn in_frame_order(requests: Seq<BlurRequestData>, prefixes: Prefixes, len: int) -> bool {
    &&& forall|i: int, j: int|
        0 <= i <= j < requests.len() ==> (#[trigger] requests[i]).surface_end(prefixes) <= (
        #[trigger] requests[j]).surface_end(prefixes)
    &&& forall|i: int|
        0 <= i < requests.len() ==> (#[trigger] requests[i]).surface_end(prefixes) <= len
}

/// Blur elements of the first `n` requests that go in front of element `k`.
pub open spec fn shown_before<E>(
    requests: Seq<BlurRequestData>,
    blurs: Seq<Option<E>>,
    prefixes: Prefixes,
    n: int,
    k: int,
) -> int
    decreases n,
{
    if n <= 0 {
        0
    } else {
        shown_before(requests, blurs, prefixes, n - 1, k) + if shown(
            requests[n - 1],
            blurs[n - 1],
        ) && requests[n - 1].surface_end(prefixes) <= k {
            1int
        } else {
            0
        }
    }
}

proof fn lemma_spliced_len<E>(
    elements: Seq<E>,
    requests: Seq<BlurRequestData>,
    blurs: Seq<Option<E>>,
    prefixes: Prefixes,
    n: int,
)
    requires
        0 <= n <= requests.len(),
        requests.len() == blurs.len(),
    ensures
        spliced(elements, requests, blurs, prefixes, n).len() == elements.len() + shown_count(
            requests,
            blurs,
            n,
        ),
        0 <= shown_count(requests, blurs, n) <= n,
    decreases n,
{
    if n > 0 {
        lemma_spliced_len(elements, requests, blurs, prefixes, n - 1);
    }
}

proof fn lemma_shown_before_bounds<E>(
    requests: Seq<BlurRequestData>,
    blurs: Seq<Option<E>>,
    prefixes: Prefixes,
    n: int,
    k: int,
)
    requires
        0 <= n <= requests.len(),
    ensures
        0 <= shown_before(requests, blurs, prefixes, n, k) <= shown_count(requests, blurs, n),
        (forall|j: int| 0 <= j < n ==> (#[trigger] requests[j]).surface_end(prefixes) <= k)
            ==> shown_before(requests, blurs, prefixes, n, k) == shown_count(requests, blurs, n),
    decreases n,
{
    if n > 0 {
        lemma_shown_before_bounds(requests, blurs, prefixes, n - 1, k);
        if forall|j: int| 0 <= j < n ==> (#[trigger] requests[j]).surface_end(prefixes) <= k {
            assert(requests[n - 1].surface_end(prefixes) <= k);
        }
    }
}

/// With requests in frame order, a frame element moves back by exactly the
/// blurs that go in front of it, so the elements keep their order, and every
/// blur stands right behind its own window's elements.
pub proof fn law_splice_keeps_order<E>(
    elements: Seq<E>,
    requests: Seq<BlurRequestData>,
    blurs: Seq<Option<E>>,
    prefixes: Prefixes,
    n: int,
)
    requires
        0 <= n <= requests.len(),
        requests.len() == blurs.len(),
        in_frame_order(requests, prefixes, elements.len() as int),
    ensures
        forall|k: int|
            0 <= k < elements.len() ==> spliced(elements, requests, blurs, prefixes, n)[k
                + shown_before(requests, blurs, prefixes, n, k)] == #[trigger] elements[k],
        forall|i: int|
            #![trigger requests[i]]
            0 <= i < n && shown(requests[i], blurs[i]) ==> spliced(
                elements,
                requests,
                blurs,
                prefixes,
                n,
            )[requests[i].surface_end(prefixes) + shown_count(requests, blurs, i)] == blurs[i]->0,
    decreases n,
{
    lemma_spliced_len(elements, requests, blurs, prefixes, n);
    if n > 0 {
        let m = n - 1;
        law_splice_keeps_order(elements, requests, blurs, prefixes, m);
        lemma_spliced_len(elements, requests, blurs, prefixes, m);
        let before = spliced(elements, requests, blurs, prefixes, m);
        let after = spliced(elements, requests, blurs, prefixes, n);
        let shift = shown_count(requests, blurs, m);
        assert(requests[m].surface_end(prefixes) <= elements.len());
        if shown(requests[m], blurs[m]) {
            let end = requests[m].surface_end(prefixes);
            let at = end + shift;
            assert(after == before.insert(at, blurs[m]->0));
            assert forall|k: int| 0 <= k < elements.len() implies after[k + shown_before(
                requests,
                blurs,
                prefixes,
                n,
                k,
            )] == #[trigger] elements[k] by {
                lemma_shown_before_bounds(requests, blurs, prefixes, m, k);
                if end <= k {
                    assert forall|j: int| 0 <= j < m implies (#[trigger] requests[j]).surface_end(
                        prefixes,
                    ) <= k by {
                        assert(requests[j].surface_end(prefixes) <= requests[m].surface_end(
                            prefixes,
                        ));
                    }
                }
            }
            assert forall|i: int|
                #![trigger requests[i]]
                0 <= i < n && shown(requests[i], blurs[i]) implies after[requests[i].surface_end(
                prefixes,
            ) + shown_count(requests, blurs, i)] == blurs[i]->0 by {
                if i < m {
                    assert(requests[i].surface_end(prefixes) <= requests[m].surface_end(prefixes));
                    lemma_shown_count_grows(requests, blurs, i, m);
                    lemma_spliced_len(elements, requests, blurs, prefixes, i);
                }
            }
        }
    }
}

proof fn lemma_shown_count_grows<E>(
    requests: Seq<BlurRequestData>,
    blurs: Seq<Option<E>>,
    i: int,
    n: int,
)
    requires
        0 <= i < n <= requests.len(),
        requests.len() == blurs.len(),
        shown(requests[i], blurs[i]),
    ensures
        shown_count(requests, blurs, i) < shown_count(requests, blurs, n),
    decreases n,
{
    if i < n - 1 {
        lemma_shown_count_grows(requests, blurs, i, n - 1);
    }
}

/// Blurs of windows above the scene background leave it the end of the frame,
/// in whatever order they come.
pub proof fn law_background_stays_last<E>(
    elements: Seq<E>,
    requests: Seq<BlurRequestData>,
    blurs: Seq<Option<E>>,
    prefixes: Prefixes,
    background_start: int,
    n: int,
)
    requires
        0 <= n <= requests.len(),
        requests.len() == blurs.len(),
        0 <= background_start <= elements.len(),
        forall|i: int|
            0 <= i < requests.len() ==> (#[trigger] requests[i]).surface_end(prefixes)
                <= background_start,
    ensures
        spliced(elements, requests, blurs, prefixes, n).subrange(
            background_start + shown_count(requests, blurs, n),
            elements.len() + shown_count(requests, blurs, n),
        ) =~= elements.subrange(background_start, elements.len() as int),
        spliced(elements, requests, blurs, prefixes, n).len() == elements.len() + shown_count(
            requests,
            blurs,
            n,
        ),
    decreases n,
{
    lemma_spliced_len(elements, requests, blurs, prefixes, n);
    if n > 0 {
        let m = n - 1;
        law_background_stays_last(elements, requests, blurs, prefixes, background_start, m);
        lemma_spliced_len(elements, requests, blurs, prefixes, m);
        let before = spliced(elements, requests, blurs, prefixes, m);
        let after = spliced(elements, requests, blurs, prefixes, n);
        let tail = elements.subrange(background_start, elements.len() as int);
        let c = shown_count(requests, blurs, m);
        let kept = before.subrange(background_start + c, elements.len() + c);
        assert(requests[m].surface_end(prefixes) <= background_start);
        if shown(requests[m], blurs[m]) {
            let moved = after.subrange(background_start + c + 1, elements.len() + c + 1);
            assert forall|k: int| 0 <= k < tail.len() implies moved[k] == tail[k] by {
                assert(kept[k] == before[background_start + c + k]);
                assert(after[background_start + c + 1 + k] == before[background_start + c + k]);
            }
            assert(moved =~= tail);
        }
    }
}

/// Each layer's group starts at its own prefix.
pub proof fn law_prefix_of_each_layer(p: Prefixes)
    ensures
        p.start_of(BlurLayer::Overlay) == p.overlay,
        p.start_of(BlurLayer::Top) == p.top,
        p.start_of(BlurLayer::Pinned) == p.pinned,
        p.start_of(BlurLayer::Normal) == p.normal,
        p.start_of(BlurLayer::Widget) == p.widget,
{
}

/// The content of a window's backdrop begins right past its own elements and its
/// own chrome, at the latest with the scene background; the window is occluded
/// exactly if an element between there and the background reaches into its
/// rectangle, grown by the blur's reach.
pub proof fn law_backdrop_begins_below_the_window(
    req: BlurRequestData,
    elements: Seq<ElementInfo>,
    prefixes: Prefixes,
    background_start: int,
    pad: int,
)
    requires
        0 <= background_start <= elements.len() <= usize::MAX,
        req.fits(prefixes, pad),
    ensures
        ({
            let plan = plan_of(req, elements, prefixes, background_start, pad);
            let end = prefixes.start_of(req.layer) + req.elem_start + req.elem_count;
            &&& end <= elements.len() ==> plan.behind_start == end
            &&& end > elements.len() ==> plan.behind_start == elements.len()
            &&& plan.behind_start + req.trailing_chrome <= background_start ==> plan.backdrop_start
                == plan.behind_start + req.trailing_chrome
            &&& plan.behind_start + req.trailing_chrome > background_start ==> plan.backdrop_start
                == background_start
            &&& plan.fingerprint.occluded_by_lower <==> exists|j: int|
                plan.backdrop_start <= j < background_start && (
                #[trigger] elements[j]).geometry.meets(padded(req.screen_rect, pad))
        }),
{
    let plan = plan_of(req, elements, prefixes, background_start, pad);
    let lower = elements.subrange(plan.backdrop_start as int, background_start);
    let background = elements.subrange(background_start, elements.len() as int);
    crate::blur::fingerprint::law_occlusion_means_an_element_reaches(
        lower,
        background,
        req.screen_rect,
        pad,
        owned_regions(req.region_rects),
    );
    let capture = padded(req.screen_rect, pad);
    if exists|k: int| 0 <= k < lower.len() && (#[trigger] lower[k]).geometry.meets(capture) {
        let k = choose|k: int|
            0 <= k < lower.len() && (#[trigger] lower[k]).geometry.meets(capture);
        assert(elements[plan.backdrop_start + k].geometry.meets(capture));
    }
    if exists|j: int|
        plan.backdrop_start <= j < background_start && (#[trigger] elements[j]).geometry.meets(
            capture,
        ) {
        let j = choose|j: int|
            plan.backdrop_start <= j < background_start && (#[trigger] elements[j]).geometry.meets(
                capture,
            );
        assert(lower[j - plan.backdrop_start].geometry.meets(capture));
    }
}

/// What stands above a window's backdrop, its own elements and chrome among it,
/// changes nothing for it.
pub proof fn law_plan_sees_nothing_above(
    req: BlurRequestData,
    a: Seq<ElementInfo>,
    b: Seq<ElementInfo>,
    prefixes: Prefixes,
    background_start: int,
    pad: int,
)
    requires
        0 <= background_start <= a.len() <= usize::MAX,
        a.len() == b.len(),
        req.fits(prefixes, pad),
        forall|j: int|
            plan_of(req, a, prefixes, background_start, pad).backdrop_start <= j < a.len()
                ==> #[trigger] a[j] == b[j],
    ensures
        plan_of(req, a, prefixes, background_start, pad) == plan_of(
            req,
            b,
            prefixes,
            background_start,
            pad,
        ),
{
    let start = plan_of(req, a, prefixes, background_start, pad).backdrop_start as int;
    assert(a.subrange(start, background_start) =~= b.subrange(start, background_start));
    assert(a.subrange(background_start, a.len() as int) =~= b.subrange(
        background_start,
        b.len() as int,
    ));
}

/// A window counts as one that slices the shared backdrop exactly if nothing
/// occludes it, it has an area, and its padded rectangle reaches onto the output.
/// It adds what its own capture would cover.
pub proof fn law_slicers_are_counted(
    requests: Seq<BlurRequestData>,
    plans: Seq<WindowPlan>,
    pad: int,
    output_size: Size,
    i: int,
)
    requires
        0 <= i < requests.len(),
        requests.len() == plans.len(),
    ensures
        ({
            let r = requests[i];
            let screen = Rect {
                loc: crate::geometry::Point { x: 0, y: 0 },
                size: output_size,
            };
            let grown_rect = padded(r.screen_rect, pad);
            let slices = !plans[i].fingerprint.occluded_by_lower && r.screen_rect.size.w > 0
                && r.screen_rect.size.h > 0 && grown_rect.meets(screen);
            &&& slicer_count(requests, plans, pad, output_size, i + 1) - slicer_count(
                requests,
                plans,
                pad,
                output_size,
                i,
            ) == (if slices {
                1int
            } else {
                0
            })
            &&& slicer_area(requests, plans, pad, output_size, i + 1) - slicer_area(
                requests,
                plans,
                pad,
                output_size,
                i,
            ) == (if slices {
                grown_rect.common(screen).size.w * grown_rect.common(screen).size.h
            } else {
                0
            })
        }),
        slicer_count(requests, plans, pad, output_size, 0) == 0,
        slicer_area(requests, plans, pad, output_size, 0) == 0,
{
}

/// The elements that a window's own capture is made of are exactly those from its
/// backdrop on that reach into it, in the frame's order.
pub proof fn law_own_capture_takes_what_reaches(
    elements: Seq<ElementInfo>,
    from: int,
    clip: Rect,
)
    requires
        0 <= from,
        elements.len() <= usize::MAX,
    ensures
        ({
            let all = positions_meeting(elements, from, clip);
            &&& forall|k: int|
                0 <= k < all.len() ==> from <= (#[trigger] all[k]) < elements.len()
                    && elements[all[k] as int].geometry.meets(clip)
            &&& forall|j: int, k: int|
                0 <= j < k < all.len() ==> (#[trigger] all[j]) < (#[trigger] all[k])
            &&& forall|p: usize|
                from <= p < elements.len() && elements[p as int].geometry.meets(clip)
                    ==> #[trigger] all.contains(p)
        }),
    decreases elements.len(),
{
    if elements.len() > from {
        let rest = elements.drop_last();
        law_own_capture_takes_what_reaches(rest, from, clip);
        let init = positions_meeting(rest, from, clip);
        let all = positions_meeting(elements, from, clip);
        assert forall|p: usize|
            from <= p < elements.len() && elements[p as int].geometry.meets(
                clip,
            ) implies #[trigger] all.contains(p) by {
            if p < rest.len() {
                assert(rest[p as int] == elements[p as int]);
                assert(init.contains(p));
                let k = choose|k: int| 0 <= k < init.len() && init[k] == p;
                assert(all[k] == p);
            } else {
                assert(all[init.len() as int] == p);
            }
        }
    }
}

/// A request adds one element to the frame exactly if it has an area and its blur
/// holds something, and none otherwise.
pub proof fn law_each_shown_blur_adds_one<E>(
    elements: Seq<E>,
    requests: Seq<BlurRequestData>,
    blurs: Seq<Option<E>>,
    prefixes: Prefixes,
    i: int,
)
    requires
        0 <= i < requests.len(),
        requests.len() == blurs.len(),
    ensures
        spliced(elements, requests, blurs, prefixes, i + 1).len() - spliced(
            elements,
            requests,
            blurs,
            prefixes,
            i,
        ).len() == (if requests[i].screen_rect.size.w > 0 && requests[i].screen_rect.size.h > 0
            && blurs[i] is Some {
            1int
        } else {
            0
        }),
        spliced(elements, requests, blurs, prefixes, 0) == elements,
{
    lemma_spliced_len(elements, requests, blurs, prefixes, i);
    lemma_spliced_len(elements, requests, blurs, prefixes, i + 1);
}

/// The shared backdrop is decided from the identities and counters of the
/// background's elements, all of them and in order, and from what is given.
pub proof fn law_shared_frame_sees_the_background(
    frame: SharedFrame,
    elements: Seq<ElementInfo>,
    requests: Seq<BlurRequestData>,
    plans: Seq<WindowPlan>,
    inputs: BlurInputs,
    k: int,
)
    requires
        shared_frame_of(frame, elements, requests, plans, inputs),
        inputs.background_start <= elements.len(),
        0 <= k < elements.len() - inputs.background_start,
    ensures
        frame.background@.len() == elements.len() - inputs.background_start,
        frame.background@[k] == (
            elements[inputs.background_start + k].id,
            elements[inputs.background_start + k].commit,
        ),
        frame.now == inputs.now && frame.view == inputs.view && frame.animate_blur_fps
            == inputs.animate_blur_fps && frame.output_size == inputs.output_size,
{
}

} // verus!
