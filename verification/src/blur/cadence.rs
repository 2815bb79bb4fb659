//! The shared blurred background of one output: when it is refreshed, and
//! whether it is worth having.

use crate::blur::backoff::RenderBackoff;
use crate::blur::fingerprint::{
    background_structure_changed, same_signature, structure_differs,
};
use crate::geometry::Size;
use vstd::prelude::*;

verus! {

/// Frames the shared textures survive without being worth rendering.
pub const SHARED_KEEP_FRAMES: u32 = 60;

/// A camera position and zoom, each as the bits of the floating-point value.
#[derive(Clone, Copy, Debug, PartialEq, Eq, Structural)]
pub struct ViewKey {
    pub camera_x: u64,
    pub camera_y: u64,
    pub zoom: u64,
}

/// The view a captured backdrop is only valid at. Without a key it matches no
/// view, not even another one without.
#[derive(Clone, Copy, Debug)]
pub struct ViewStamp {
    pub key: Option<ViewKey>,
}

impl ViewStamp {
    pub open spec fn equals(self, other: ViewStamp) -> bool {
        self.key is Some && self.key == other.key
    }

    pub fn never_captured() -> (v: ViewStamp)
        ensures
            v.key is None,
    {
        ViewStamp { key: None }
    }

    pub fn at(key: ViewKey) -> (v: ViewStamp)
        ensures
            v.key == Some(key),
    {
        ViewStamp { key: Some(key) }
    }

    /// Whether both stamps are of one view.
    pub fn same(&self, other: &ViewStamp) -> (same: bool)
        ensures
            same == self.equals(*other),
    {
        match (self.key, other.key) {
            (Some(a), Some(b)) => a == b,
            _ => false,
        }
    }
}

/// What the shared backdrop's payoff is judged on.
#[derive(Clone, Copy, Debug)]
pub struct SharedPayoff {
    /// Windows that would slice the shared backdrop instead of rendering their
    /// own.
    pub slicers: usize,
    /// Output area those windows' own backdrop renders would cover between
    /// them.
    pub slicer_area: u128,
    /// Area of one full-output render.
    pub output_area: u128,
    /// Nothing is left in the background bucket to capture.
    pub background_empty: bool,
    pub was_paying: bool,
}

/// Coverage in percent that claims the shared backdrop.
pub const SHARED_CLAIM_PERCENT: u128 = 80;

/// Coverage in percent below which it is given up again.
pub const SHARED_RELEASE_PERCENT: u128 = 50;

/// Whether the shared backdrop earns its full-output render.
pub open spec fn pays(input: SharedPayoff) -> bool {
    &&& input.slicers >= 2
    &&& !input.background_empty
    &&& input.output_area > 0
    &&& input.slicer_area * 100 >= input.output_area * (if input.was_paying {
        SHARED_RELEASE_PERCENT
    } else {
        SHARED_CLAIM_PERCENT
    })
}

/// `part * 100 >= whole * percent`, on areas too large to be multiplied out.
fn covers_percent(part: u128, whole: u128, percent: u128) -> (covers: bool)
    requires
        0 < percent <= 100,
    ensures
        covers == (part * 100 >= whole * percent),
{
    // Compared hundredth by hundredth: whole == 100 * q + r.
    let q: u128 = whole / 100;
    let r: u128 = whole % 100;

    assert(q * percent <= q * 100) by (nonlinear_arith)
        requires
            0 <= percent <= 100,
            q >= 0,
    ;
    let base: u128 = q * percent;
    // part * 100 >= 100 * base + r * percent
    assert(whole * percent == 100 * base + r * percent) by (nonlinear_arith)
        requires
            whole == 100 * q + r,
            base == q * percent,
    ;
    if part < base {
        assert(r * percent >= 0) by (nonlinear_arith)
            requires
                r >= 0,
                percent >= 0,
        ;
        return false;
    }
    let over: u128 = part - base;
    assert(r * percent <= 99 * 100) by (nonlinear_arith)
        requires
            0 <= r <= 99,
            0 <= percent <= 100,
    ;
    if over >= 100 {
        return true;
    }
    over * 100 >= r * percent
}

/// Whether the shared backdrop earns its full-output render this frame.
///
/// It is only ever a saving against several windows' own backdrops, and those
/// windows have to cover enough of the output between them. The threshold is
/// lower while it pays already, so that a coverage near it does not flip the
/// decision every frame.
pub fn shared_backdrop_pays(input: &SharedPayoff) -> (r: bool)
    ensures
        r == pays(*input),
{
    if input.slicers < 2 || input.background_empty || input.output_area == 0 {
        return false;
    }
    let threshold: u128 = if input.was_paying {
        SHARED_RELEASE_PERCENT
    } else {
        SHARED_CLAIM_PERCENT
    };
    covers_percent(input.slicer_area, input.output_area, threshold)
}

/// What the shared backdrop's refresh decision is made from.
#[derive(Clone, Copy, Debug)]
pub struct SharedRefreshInputs {
    /// Nanoseconds since the last refresh; `None` when the backdrop has never
    /// been blurred.
    pub since_refresh: Option<u128>,
    /// Camera position or zoom moved.
    pub view_changed: bool,
    /// The set of background elements changed.
    pub bg_structure_changed: bool,
    /// A background element committed new content since the last refresh.
    pub bg_content_changed: bool,
    pub animate_blur_fps: u32,
}

/// Nanoseconds between two frames at `fps`: the nearest whole number to the
/// double-precision quotient. That quotient tips an exact half up, except at
/// the rates where it is exact or falls short.
pub open spec fn frame_interval(fps: int) -> int {
    let down = 1_000_000_000int / fps;
    let rest = 1_000_000_000int % fps;
    if 2 * rest > fps {
        down + 1
    } else if 2 * rest == fps && fps != 1024 && fps != 16_000_000 && fps != 80_000_000 {
        down + 1
    } else {
        down
    }
}

/// Nanoseconds between two frames at `fps`.
pub fn frame_interval_nanos(fps: u32) -> (nanos: u64)
    requires
        fps > 0,
    ensures
        nanos == frame_interval(fps as int),
{
    let f: u64 = fps as u64;
    let down: u64 = 1_000_000_000u64 / f;
    let rest: u64 = 1_000_000_000u64 % f;
    if 2 * rest > f {
        down + 1
    } else if 2 * rest == f && f != 1024 && f != 16_000_000 && f != 80_000_000 {
        down + 1
    } else {
        down
    }
}

/// Whether the shared backdrop is due.
pub open spec fn refresh_due(input: SharedRefreshInputs) -> bool {
    match input.since_refresh {
        None => true,
        Some(since) => {
            ||| input.view_changed
            ||| input.bg_structure_changed
            ||| input.bg_content_changed && input.animate_blur_fps > 0 && since >= frame_interval(
                input.animate_blur_fps as int,
            )
        },
    }
}

/// Whether the shared backdrop is due for a refresh.
///
/// The view and structure terms are uncapped: throttling either would leave the
/// backdrop showing something that is no longer on screen. Only the
/// background's own animation rides `animate_blur_fps`, and at 0 it is never
/// sampled again.
pub fn shared_refresh_due(input: &SharedRefreshInputs) -> (due: bool)
    ensures
        due == refresh_due(*input),
{
    match input.since_refresh {
        None => true,
        Some(since) => {
            if input.view_changed || input.bg_structure_changed {
                return true;
            }
            if input.animate_blur_fps == 0 || !input.bg_content_changed {
                return false;
            }
            since >= frame_interval_nanos(input.animate_blur_fps) as u128
        },
    }
}

/// Per-output shared blurred-background state: the texture pair every
/// unoccluded window slices its frost out of, and the refresh cadence.
pub struct SharedBlur<T> {
    /// Allocated on first use, since the cadence also paces windows that never
    /// sample it.
    pub textures: Option<(T, T)>,
    /// The textures predate the view and content recorded below.
    pub stale: bool,
    pub size: Size,
    /// When the beat last ticked, in nanoseconds.
    pub refreshed_at: Option<u128>,
    pub view: ViewStamp,
    pub background: Vec<(u64, u64)>,
    pub backoff: RenderBackoff,
    /// Consecutive frames the backdrop has not been worth rendering.
    pub unpaid_frames: u32,
}

/// What one frame's cadence is decided from.
pub struct SharedFrame {
    /// The current time, in nanoseconds.
    pub now: u128,
    pub view: ViewStamp,
    /// Identity and content counter of each background element.
    pub background: Vec<(u64, u64)>,
    pub animate_blur_fps: u32,
    pub output_size: Size,
    pub slicers: usize,
    pub slicer_area: u128,
}

/// What the frame does about the shared backdrop.
#[derive(Clone, Copy, Debug, PartialEq, Eq, Structural)]
pub struct SharedStep {
    /// The beat ticked: every frosted window is recomputed.
    pub beat: bool,
    /// The backdrop is worth rendering this frame.
    pub pays: bool,
    /// The backdrop has to be rendered now.
    pub render: bool,
}

/// How a render of the shared backdrop ended.
pub enum SharedOutcome<T> {
    AllocationFailed,
    RenderFailed,
    Rendered(T, T),
}

/// Area of an output, 0 unless both sides are positive.
pub open spec fn output_area(size: Size) -> int {
    if size.w > 0 && size.h > 0 {
        size.w * size.h
    } else {
        0
    }
}

fn output_area_of(size: Size) -> (area: u128)
    ensures
        area == output_area(size),
{
    if size.w > 0 && size.h > 0 {
        assert(0 <= size.w * size.h <= 0x7fff_ffff * 0x7fff_ffff) by (nonlinear_arith)
            requires
                0 < size.w <= 0x7fff_ffff,
                0 < size.h <= 0x7fff_ffff,
        ;
        size.w as u128 * size.h as u128
    } else {
        0
    }
}

/// `after` follows from `before` by one frame, with this step.
pub open spec fn shared_stepped<T>(
    before: SharedBlur<T>,
    after: SharedBlur<T>,
    frame: SharedFrame,
    step: SharedStep,
) -> bool {
    let unpaid = if before.unpaid_frames == u32::MAX {
        u32::MAX as int
    } else {
        before.unpaid_frames + 1
    };
    let wanted = step.pays && (after.stale || after.textures is None);
    &&& step.beat == refresh_due(before.refresh_inputs(frame))
    &&& step.beat ==> {
        &&& after.refreshed_at == Some(frame.now)
        &&& after.view == frame.view
        &&& after.background@ == frame.background@
        &&& after.stale
    }
    &&& !step.beat ==> {
        &&& after.refreshed_at == before.refreshed_at
        &&& after.view == before.view
        &&& after.background@ == before.background@
        &&& after.stale == before.stale
    }
    &&& step.pays == pays(before.payoff(frame))
    &&& after.size == frame.output_size
    &&& after.unpaid_frames == if step.pays {
        0
    } else {
        unpaid
    }
    &&& after.textures == if before.size != frame.output_size || after.unpaid_frames
        > SHARED_KEEP_FRAMES {
        None
    } else {
        before.textures
    }
    &&& step.render == (wanted && before.backoff.skip_frames == 0)
    &&& after.backoff == if wanted && before.backoff.skip_frames > 0 {
        RenderBackoff { skip_frames: (before.backoff.skip_frames - 1) as u32, ..before.backoff }
    } else {
        before.backoff
    }
}

impl<T> SharedBlur<T> {
    /// The refresh decision's inputs on a frame.
    pub open spec fn refresh_inputs(self, frame: SharedFrame) -> SharedRefreshInputs {
        SharedRefreshInputs {
            since_refresh: match self.refreshed_at {
                Some(at) => Some(
                    if frame.now >= at {
                        (frame.now - at) as u128
                    } else {
                        0
                    },
                ),
                None => None,
            },
            view_changed: !self.view.equals(frame.view),
            bg_structure_changed: structure_differs(self.background@, frame.background@),
            bg_content_changed: self.background@ != frame.background@,
            animate_blur_fps: frame.animate_blur_fps,
        }
    }

    /// The payoff decision's inputs on a frame.
    pub open spec fn payoff(self, frame: SharedFrame) -> SharedPayoff {
        SharedPayoff {
            slicers: frame.slicers,
            slicer_area: frame.slicer_area,
            output_area: output_area(frame.output_size) as u128,
            background_empty: frame.background@.len() == 0,
            was_paying: self.unpaid_frames == 0,
        }
    }

    /// The textures may be sliced on a frame that pays for them.
    pub open spec fn sliceable(self, pays: bool) -> bool {
        pays && !self.stale && self.textures is Some
    }

    /// Cadence only: no textures until a window samples the backdrop.
    pub fn new() -> (s: SharedBlur<T>)
        ensures
            s.textures is None,
            s.stale,
            s.size == (Size { w: 0, h: 0 }),
            s.refreshed_at is None,
            s.view.key is None,
            s.background@.len() == 0,
            s.backoff == (RenderBackoff { consecutive_failures: 0, skip_frames: 0 }),
            s.unpaid_frames == 1,
    {
        SharedBlur {
            textures: None,
            stale: true,
            size: Size { w: 0, h: 0 },
            refreshed_at: None,
            view: ViewStamp::never_captured(),
            background: Vec::new(),
            backoff: RenderBackoff { consecutive_failures: 0, skip_frames: 0 },
            unpaid_frames: 1,
        }
    }

    /// Advances the cadence by one frame.
    ///
    /// The beat ticks whether or not the textures are rendered from it. A
    /// changed output size and too many unpaid frames both give the textures
    /// up. A render is asked for where it pays, something is missing or stale,
    /// and no failed attempt is being waited out.
    pub fn begin_frame(&mut self, frame: SharedFrame) -> (step: SharedStep)
        ensures
            shared_stepped(*old(self), *final(self), frame, step),
    {
        let since: Option<u128> = match self.refreshed_at {
            Some(at) => Some(
                if frame.now >= at {
                    frame.now - at
                } else {
                    0
                },
            ),
            None => None,
        };
        let beat = shared_refresh_due(
            &SharedRefreshInputs {
                since_refresh: since,
                view_changed: !self.view.same(&frame.view),
                bg_structure_changed: background_structure_changed(
                    self.background.as_slice(),
                    frame.background.as_slice(),
                ),
                bg_content_changed: !same_signature(
                    self.background.as_slice(),
                    frame.background.as_slice(),
                ),
                animate_blur_fps: frame.animate_blur_fps,
            },
        );
        let background_empty = frame.background.len() == 0;
        if beat {
            self.refreshed_at = Some(frame.now);
            self.view = frame.view;
            self.background = frame.background;
            self.stale = true;
        }
        if self.size != frame.output_size {
            self.textures = None;
            self.size = frame.output_size;
        }
        assert(output_area(frame.output_size) <= 0x7fff_ffff * 0x7fff_ffff) by (nonlinear_arith)
            requires
                frame.output_size.w <= 0x7fff_ffff,
                frame.output_size.h <= 0x7fff_ffff,
                output_area(frame.output_size) == if frame.output_size.w > 0
                    && frame.output_size.h > 0 {
                    frame.output_size.w * frame.output_size.h
                } else {
                    0
                },
        ;
        let pays = shared_backdrop_pays(
            &SharedPayoff {
                slicers: frame.slicers,
                slicer_area: frame.slicer_area,
                output_area: output_area_of(frame.output_size),
                background_empty,
                was_paying: self.unpaid_frames == 0,
            },
        );
        if pays {
            self.unpaid_frames = 0;
        } else {
            self.unpaid_frames = self.unpaid_frames.saturating_add(1);
            if self.unpaid_frames > SHARED_KEEP_FRAMES {
                self.textures = None;
            }
        }
        let wanted = pays && (self.stale || self.textures.is_none());
        let render = if wanted {
            self.backoff.ready()
        } else {
            false
        };
        SharedStep { beat, pays, render }
    }

    /// Records how a render asked for by `begin_frame` ended. A failed one
    /// leaves no textures to slice, and starts or lengthens the wait.
    pub fn finish_render(&mut self, outcome: SharedOutcome<T>)
        ensures
            match outcome {
                SharedOutcome::Rendered(a, b) => {
                    &&& final(self).textures == Some((a, b))
                    &&& !final(self).stale
                    &&& final(self).backoff == (RenderBackoff {
                        consecutive_failures: 0,
                        skip_frames: 0,
                    })
                },
                _ => {
                    let failures = old(self).backoff.consecutive_failures;
                    &&& final(self).textures is None
                    &&& final(self).stale == old(self).stale
                    &&& final(self).backoff.consecutive_failures == if failures == u32::MAX {
                        u32::MAX as int
                    } else {
                        failures + 1
                    }
                    &&& final(self).backoff.skip_frames == crate::blur::backoff::skip_after(
                        final(self).backoff.consecutive_failures as int,
                    )
                },
            },
            final(self).size == old(self).size,
            final(self).refreshed_at == old(self).refreshed_at,
            final(self).view == old(self).view,
            final(self).background@ == old(self).background@,
            final(self).unpaid_frames == old(self).unpaid_frames,
    {
        match outcome {
            SharedOutcome::Rendered(a, b) => {
                self.textures = Some((a, b));
                self.stale = false;
                self.backoff.note_success();
            },
            SharedOutcome::RenderFailed => {
                self.textures = None;
                self.backoff.note_failure();
            },
            SharedOutcome::AllocationFailed => {
                self.textures = None;
                self.backoff.note_failure();
            },
        }
    }

    /// Whether windows may slice the textures on a frame with this payoff.
    pub fn slice_ok(&self, pays: bool) -> (ok: bool)
        ensures
            ok == self.sliceable(pays),
    {
        pays && !self.stale && self.textures.is_some()
    }
}

/// A backdrop that was never blurred is due, and so is one whose view or
/// background structure changed, whatever the frame rate.
pub proof fn law_view_and_structure_are_uncapped(input: SharedRefreshInputs)
    requires
        input.since_refresh is None || input.view_changed || input.bg_structure_changed,
    ensures
        refresh_due(input),
{
}

/// At a frame rate of 0 the background's own animation is never sampled.
pub proof fn law_zero_fps_holds_content(input: SharedRefreshInputs)
    requires
        input.animate_blur_fps == 0,
        input.since_refresh is Some,
        !input.view_changed,
        !input.bg_structure_changed,
    ensures
        !refresh_due(input),
{
}

/// A background that has drawn anything new ticks the beat, at most as often as the
/// frame rate says: a frame whose recorded background differs from its own in a
/// content counter, and that comes an interval or more after the last beat, has
/// one.
pub proof fn law_new_content_ticks<T>(
    before: SharedBlur<T>,
    after: SharedBlur<T>,
    frame: SharedFrame,
    step: SharedStep,
    at: u128,
    k: int,
)
    requires
        shared_stepped(before, after, frame, step),
        before.refreshed_at == Some(at),
        0 <= k < before.background@.len(),
        k < frame.background@.len(),
        before.background@[k].1 != frame.background@[k].1,
        frame.animate_blur_fps > 0,
        frame.now >= at + frame_interval(frame.animate_blur_fps as int),
    ensures
        step.beat,
        after.stale,
        after.background@ == frame.background@,
{
    assert(frame_interval(frame.animate_blur_fps as int) >= 0) by {
        law_frame_interval_is_nearest(frame.animate_blur_fps as int);
        let fps = frame.animate_blur_fps as int;
        let got = frame_interval(fps);
        assert(got >= 0) by (nonlinear_arith)
            requires
                2 * 1_000_000_000int - fps <= 2 * fps * got,
                0 < fps <= 0xffff_ffff,
                got >= 1_000_000_000int / fps,
        ;
    }
    assert(before.background@[k] != frame.background@[k]);
}

/// A moved camera, another zoom, and a background element that is added, removed
/// or exchanged each tick the beat on their very frame, whatever the frame rate;
/// so does the first frame of all.
pub proof fn law_changed_picture_ticks_at_once<T>(
    before: SharedBlur<T>,
    after: SharedBlur<T>,
    frame: SharedFrame,
    step: SharedStep,
)
    requires
        shared_stepped(before, after, frame, step),
        before.refreshed_at is None || before.view.key is None || before.view.key
            != frame.view.key || before.background@.len() != frame.background@.len() || exists|
            k: int,
        |
            0 <= k < before.background@.len() && (#[trigger] before.background@[k]).0
                != frame.background@[k].0,
    ensures
        step.beat,
        after.stale,
        after.refreshed_at == Some(frame.now),
        after.view == frame.view,
        after.background@ == frame.background@,
{
}

/// A frame that shows what the last beat recorded has no beat, and neither has one
/// on which only contents changed and that comes before the interval has passed,
/// or at a frame rate of 0. What was recorded stays recorded.
pub proof fn law_same_picture_is_quiet<T>(
    before: SharedBlur<T>,
    after: SharedBlur<T>,
    frame: SharedFrame,
    step: SharedStep,
    at: u128,
)
    requires
        shared_stepped(before, after, frame, step),
        before.refreshed_at == Some(at),
        before.view.key is Some,
        before.view.key == frame.view.key,
        before.background@.len() == frame.background@.len(),
        forall|k: int|
            0 <= k < before.background@.len() ==> (#[trigger] before.background@[k]).0
                == frame.background@[k].0,
        frame.animate_blur_fps == 0 || before.background@ == frame.background@ || frame.now < at
            + frame_interval(frame.animate_blur_fps as int) && frame_interval(
            frame.animate_blur_fps as int,
        ) > 0,
    ensures
        !step.beat,
        after.refreshed_at == Some(at),
        after.view == before.view,
        after.background@ == before.background@,
        after.stale == before.stale,
{
}

/// The shared backdrop pays exactly if two windows or more would slice it, there is
/// a background and an output to draw, and those windows' own renders would cover
/// four fifths of the output, or half of it while it pays already. Its textures
/// go with the size they were made for, and when it has not paid for long.
pub proof fn law_backdrop_pays_for_coverage<T>(
    before: SharedBlur<T>,
    after: SharedBlur<T>,
    frame: SharedFrame,
    step: SharedStep,
)
    requires
        shared_stepped(before, after, frame, step),
        0 < frame.output_size.w,
        0 < frame.output_size.h,
        frame.slicers >= 2,
        frame.background@.len() > 0,
    ensures
        ({
            let area = frame.output_size.w * frame.output_size.h;
            &&& frame.slicer_area * 5 >= area * 4 ==> step.pays
            &&& frame.slicer_area * 2 < area ==> !step.pays
            &&& area <= frame.slicer_area * 2 && frame.slicer_area * 5 < area * 4 ==> (step.pays
                <==> before.unpaid_frames == 0)
        }),
        step.pays <==> after.unpaid_frames == 0,
        before.size != frame.output_size ==> after.textures is None,
        before.size == frame.output_size && step.pays ==> after.textures == before.textures,
        after.unpaid_frames > SHARED_KEEP_FRAMES ==> after.textures is None,
{
    assert(0 < frame.output_size.w * frame.output_size.h <= 0x7fff_ffff * 0x7fff_ffff)
        by (nonlinear_arith)
        requires
            0 < frame.output_size.w <= 0x7fff_ffff,
            0 < frame.output_size.h <= 0x7fff_ffff,
    ;
    let area: int = frame.output_size.w * frame.output_size.h;
    let payoff = before.payoff(frame);
    assert(payoff.output_area as int == area);
    let percent: int = if payoff.was_paying {
        50
    } else {
        80
    };
    assert(step.pays == (payoff.slicer_area * 100 >= area * percent));
    if payoff.was_paying {
        assert(area * percent == area * 50);
    } else {
        assert(area * percent == area * 80);
    }
}

/// A render is asked for exactly if it pays, the textures are missing or stale,
/// and no failed attempt is being waited out; a beat makes them stale, and only a
/// render that succeeds makes them fresh.
pub proof fn law_stale_backdrop_is_rendered<T>(
    before: SharedBlur<T>,
    after: SharedBlur<T>,
    frame: SharedFrame,
    step: SharedStep,
)
    requires
        shared_stepped(before, after, frame, step),
    ensures
        step.render <==> step.pays && (step.beat || before.stale || after.textures is None)
            && before.backoff.skip_frames == 0,
        step.render ==> after.backoff == before.backoff,
        before.backoff.skip_frames > 0 && step.pays && step.beat ==> after.backoff.skip_frames
            < before.backoff.skip_frames,
        step.beat ==> !after.sliceable(true),
        !after.sliceable(false),
{
}

/// Fewer than two slicers and an empty background never pay.
pub proof fn law_lone_window_never_pays(input: SharedPayoff)
    requires
        input.slicers < 2 || input.background_empty,
    ensures
        !pays(input),
{
}

/// What pays unclaimed also pays once claimed; between the two thresholds the
/// decision stays what it was.
pub proof fn law_payoff_band_holds(input: SharedPayoff)
    requires
        input.slicers >= 2,
        !input.background_empty,
        input.output_area > 0,
        input.output_area * 50 <= input.slicer_area * 100 < input.output_area * 80,
    ensures
        pays(input) == input.was_paying,
{
}

/// The frame interval is within half a nanosecond of the exact one.
pub proof fn law_frame_interval_is_nearest(fps: int)
    requires
        fps > 0,
    ensures
        2 * 1_000_000_000 - fps <= 2 * fps * frame_interval(fps) <= 2 * 1_000_000_000 + fps,
{
    let down = 1_000_000_000int / fps;
    let rest = 1_000_000_000int % fps;
    let got = frame_interval(fps);
    assert(fps * down + rest == 1_000_000_000 && 0 <= rest < fps) by (nonlinear_arith)
        requires
            fps > 0,
            down == 1_000_000_000int / fps,
            rest == 1_000_000_000int % fps,
    ;
    assert(2 * fps * down == 2 * (1_000_000_000 - rest)) by (nonlinear_arith)
        requires
            fps * down + rest == 1_000_000_000,
    ;
    assert(2 * fps * (down + 1) == 2 * (1_000_000_000 - rest) + 2 * fps) by (nonlinear_arith)
        requires
            fps * down + rest == 1_000_000_000,
    ;
}

/// A rate whose interval lies half way between two whole numbers gets the upper one,
/// but for the three at which the double-precision quotient is exact or falls short.
pub proof fn law_half_way_goes_up(fps: int, n: int)
    requires
        fps > 0,
        2 * (fps * n) + fps == 2_000_000_000,
    ensures
        fps == 1024 || fps == 16_000_000 || fps == 80_000_000 ==> frame_interval(fps) == n,
        fps != 1024 && fps != 16_000_000 && fps != 80_000_000 ==> frame_interval(fps) == n + 1,
{
    let r = 1_000_000_000 - fps * n;
    assert(n * fps == fps * n) by (nonlinear_arith);
    vstd::arithmetic::div_mod::lemma_fundamental_div_mod_converse(1_000_000_000, fps, n, r);
}

} // verus!
