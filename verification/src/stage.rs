//! Which elements of the stage a frame or a capture draws, and with what.

use crate::chrome::DrawnChrome;
use crate::frame::{
    Bucket, CapturedWindow, ChromeMetrics, Frame, PartPlan, Scene, Shaders, StageFlags,
    WindowParts, bucket_for, can_frame, captures_element, drawable, is_drawable,
    law_widgets_are_below_the_windows, optional, parts_of, stands_at, suspended_box,
    suspended_box_fits, suspended_draw_box, window_box, window_box_fits, window_draw_box,
    window_parts,
};
use crate::geometry::{Point, Rect};
use crate::state::output::{PinPlace, WindowTransform, window_render_transform, window_transform};
use vstd::prelude::*;

verus! {

/// A stage element as far as drawing it depends on its own state.
#[derive(Clone, Copy, Debug, PartialEq, Eq, Structural)]
pub struct StageEntry {
    pub id: u64,
    pub flags: StageFlags,
    /// Its place on the canvas, if it is placed.
    pub loc: Point,
    /// The place of a window among its surfaces.
    pub geometry: Point,
    /// A window's bounding box with its popups, or a stand-in's body, on the
    /// canvas.
    pub bbox: Rect,
    /// The box it sweeps while it is animated.
    pub animated: Option<Rect>,
    /// The chrome its configuration asks for.
    pub configured: DrawnChrome,
    /// It asked for no decoration.
    pub undecorated: bool,
    /// The picture it shows is that of a fullscreen window. It may lag behind.
    pub shows_fullscreen: bool,
    /// The picture it shows is stacked with the pinned windows. It may lag
    /// behind.
    pub shows_pinned: bool,
    /// The output that it is fullscreen on.
    pub fullscreen_on: Option<u64>,
    /// Where on a screen it is pinned.
    pub pin: Option<PinPlace>,
    /// Its destination frame covers the usable area.
    pub covers_usable_area: bool,
    pub widget: bool,
}

/// What is drawn of an element, by its index on the stage.
#[derive(Clone, Copy, Debug, PartialEq, Eq, Structural)]
pub enum StageDraw {
    /// A stand-in, among the windows.
    StandIn { index: usize },
    Window {
        index: usize,
        bucket: Bucket,
        chrome: DrawnChrome,
        parts: PartPlan,
        place: WindowTransform,
    },
}

/// What a frame or a capture shows of the stage.
#[derive(Clone, Copy, Debug, PartialEq, Eq, Structural)]
pub struct StageView {
    /// The output of a frame.
    pub output: u64,
    pub output_fullscreen: bool,
    /// The part of the canvas that is visible.
    pub visible: Rect,
    pub metrics: ChromeMetrics,
    pub shaders: Shaders,
}

impl StageEntry {
    pub open spec fn place(self) -> Option<Point> {
        if self.flags.placed {
            Some(self.loc)
        } else {
            None
        }
    }

    /// It is a client's window.
    pub open spec fn is_client(self) -> bool {
        !self.flags.suspended
    }

    pub open spec fn is_pinned(self) -> bool {
        self.pin is Some
    }

    pub open spec fn is_fullscreen(self) -> bool {
        self.fullscreen_on is Some
    }

    /// Where it is drawn on an output, or in a picture of the canvas.
    pub open spec fn transform(self, output: Option<u64>) -> WindowTransform {
        window_transform(self.place(), self.geometry, self.fullscreen_on, self.pin, output)
    }

    /// The box it can draw into, as a fullscreen window or not.
    pub open spec fn draw_box(self, fullscreen: bool, metrics: ChromeMetrics) -> Rect {
        if self.flags.suspended {
            suspended_box(self.bbox, metrics)
        } else {
            window_box(self.bbox, self.configured.gated(fullscreen, false), metrics)
        }
    }

    /// That box has coordinates of their type.
    pub open spec fn box_fits(self, fullscreen: bool, metrics: ChromeMetrics) -> bool {
        if self.flags.suspended {
            suspended_box_fits(self.bbox, metrics)
        } else {
            window_box_fits(self.bbox, self.configured.gated(fullscreen, false), metrics)
        }
    }

    /// The box that a frame measures has coordinates of their type.
    pub open spec fn fits_frame(self, view: StageView) -> bool {
        drawable(self.flags, view.output_fullscreen) && self.animated is None ==> self.box_fits(
            self.shows_fullscreen,
            view.metrics,
        )
    }

    /// The box that a capture measures has coordinates of their type.
    pub open spec fn fits_capture(self, view: StageView, isolate: Option<u64>) -> bool {
        (isolate is None || isolate == Some(self.id)) && self.is_client() && self.flags.placed
            && self.flags.has_surface ==> self.box_fits(self.is_fullscreen(), view.metrics)
    }

    /// The chrome it is drawn with. Covering the usable area only matters to a
    /// window that has chrome to lose by it.
    pub open spec fn drawn_chrome(self) -> DrawnChrome {
        self.configured.gated(
            self.shows_fullscreen,
            self.covers_usable_area && (self.configured.corner_radius > 0 || self.configured.shadow
                || self.configured.border_width > 0),
        )
    }

    /// Whether a frame draws it: the stage allows it, what it can draw into is
    /// visible, and it has a place on the output.
    pub open spec fn in_frame(self, view: StageView) -> bool {
        &&& drawable(self.flags, view.output_fullscreen)
        &&& view.visible.meets(
            match self.animated {
                Some(swept) => swept,
                None => self.draw_box(self.shows_fullscreen, view.metrics),
            },
        )
        &&& self.flags.suspended || !(self.transform(Some(view.output)) is Hidden)
    }

    /// Where a capture draws it. An isolated window is drawn at its place on the
    /// canvas, whatever it is.
    pub open spec fn capture_place(self, isolate: Option<u64>) -> WindowTransform {
        if isolate is Some {
            window_transform(self.place(), self.geometry, None, None, None)
        } else {
            self.transform(None)
        }
    }

    /// Whether a capture draws it. A stand-in is never culled.
    pub open spec fn in_capture(self, view: StageView, isolate: Option<u64>) -> bool {
        &&& isolate is None || isolate == Some(self.id)
        &&& self.flags.placed
        &&& self.flags.suspended || {
            &&& self.flags.has_surface
            &&& view.visible.meets(self.draw_box(self.is_fullscreen(), view.metrics))
            &&& !(self.capture_place(isolate) is Hidden)
        }
    }
}

/// What a frame draws of one element.
pub open spec fn frame_draw(e: StageEntry, index: usize, view: StageView) -> Option<StageDraw> {
    if !e.in_frame(view) {
        None
    } else if e.flags.suspended {
        Some(StageDraw::StandIn { index })
    } else {
        Some(
            StageDraw::Window {
                index,
                bucket: if e.shows_pinned {
                    Bucket::Pinned
                } else if e.widget {
                    Bucket::Widget
                } else {
                    Bucket::Normal
                },
                chrome: e.drawn_chrome(),
                parts: parts_of(
                    e.drawn_chrome(),
                    e.undecorated,
                    e.shows_fullscreen,
                    view.shaders,
                ),
                place: e.transform(Some(view.output)),
            },
        )
    }
}

/// What a capture draws of one element: there is no usable area to cover, and
/// nothing is stacked with pinned windows.
pub open spec fn capture_draw(
    e: StageEntry,
    index: usize,
    view: StageView,
    isolate: Option<u64>,
) -> Option<StageDraw> {
    if !e.in_capture(view, isolate) {
        None
    } else if e.flags.suspended {
        Some(StageDraw::StandIn { index })
    } else {
        let chrome = e.configured.gated(e.is_fullscreen(), false);
        Some(
            StageDraw::Window {
                index,
                bucket: if e.widget {
                    Bucket::Widget
                } else {
                    Bucket::Normal
                },
                chrome,
                parts: parts_of(chrome, e.undecorated, e.is_fullscreen(), view.shaders),
                place: e.capture_place(isolate),
            },
        )
    }
}

/// What a frame draws of the topmost `n` elements, topmost first. The stage
/// lists its elements from the bottom.
pub open spec fn frame_draws(stage: Seq<StageEntry>, view: StageView, n: int) -> Seq<StageDraw>
    decreases n,
{
    if n <= 0 {
        Seq::empty()
    } else {
        let i = stage.len() - n;
        frame_draws(stage, view, n - 1) + optional(
            frame_draw(stage[i], i as usize, view),
        )
    }
}

/// What a capture draws of the topmost `n` elements, topmost first.
pub open spec fn capture_draws(
    stage: Seq<StageEntry>,
    view: StageView,
    isolate: Option<u64>,
    n: int,
) -> Seq<StageDraw>
    decreases n,
{
    if n <= 0 {
        Seq::empty()
    } else {
        let i = stage.len() - n;
        capture_draws(stage, view, isolate, n - 1) + optional(
            capture_draw(stage[i], i as usize, view, isolate),
        )
    }
}

impl StageEntry {
    fn placed_at(&self) -> (loc: Option<Point>)
        ensures
            loc == self.place(),
    {
        if self.flags.placed {
            Some(self.loc)
        } else {
            None
        }
    }

    fn own_box(&self, fullscreen: bool, metrics: &ChromeMetrics) -> (r: Rect)
        requires
            self.box_fits(fullscreen, *metrics),
        ensures
            r == self.draw_box(fullscreen, *metrics),
    {
        if self.flags.suspended {
            suspended_draw_box(self.bbox, metrics)
        } else {
            let chrome = self.configured.drawn(fullscreen, false);
            window_draw_box(self.bbox, &chrome, metrics)
        }
    }

    /// What a frame draws of this element.
    pub fn plan_frame(&self, index: usize, view: &StageView) -> (d: Option<StageDraw>)
        requires
            self.fits_frame(*view),
        ensures
            d == frame_draw(*self, index, *view),
    {
        if !is_drawable(&self.flags, view.output_fullscreen) {
            return None;
        }
        let culled = match self.animated {
            Some(swept) => swept,
            None => self.own_box(self.shows_fullscreen, &view.metrics),
        };
        if !view.visible.overlaps(culled) {
            return None;
        }
        if self.flags.suspended {
            return Some(StageDraw::StandIn { index });
        }
        let place = window_render_transform(
            self.placed_at(),
            self.geometry,
            self.fullscreen_on,
            self.pin,
            Some(view.output),
        );
        if matches!(place, WindowTransform::Hidden) {
            return None;
        }
        let judged = self.configured.corner_radius > 0 || self.configured.shadow
            || self.configured.border_width > 0;
        let chrome = self.configured.drawn(
            self.shows_fullscreen,
            self.covers_usable_area && judged,
        );
        Some(
            StageDraw::Window {
                index,
                bucket: bucket_for(self.shows_pinned, self.widget),
                chrome,
                parts: window_parts(
                    &chrome,
                    self.undecorated,
                    self.shows_fullscreen,
                    &view.shaders,
                ),
                place,
            },
        )
    }

    /// What a capture draws of this element.
    pub fn plan_capture(&self, index: usize, view: &StageView, isolate: Option<u64>) -> (d: Option<
        StageDraw,
    >)
        requires
            self.fits_capture(*view, isolate),
        ensures
            d == capture_draw(*self, index, *view, isolate),
    {
        if !captures_element(isolate, self.id) || !self.flags.placed {
            return None;
        }
        if self.flags.suspended {
            return Some(StageDraw::StandIn { index });
        }
        let fullscreen = self.fullscreen_on.is_some();
        if !self.flags.has_surface || !view.visible.overlaps(
            self.own_box(fullscreen, &view.metrics),
        ) {
            return None;
        }
        let place = if isolate.is_some() {
            window_render_transform(self.placed_at(), self.geometry, None, None, None)
        } else {
            window_render_transform(
                self.placed_at(),
                self.geometry,
                self.fullscreen_on,
                self.pin,
                None,
            )
        };
        if matches!(place, WindowTransform::Hidden) {
            return None;
        }
        let chrome = self.configured.drawn(fullscreen, false);
        Some(
            StageDraw::Window {
                index,
                bucket: bucket_for(false, self.widget),
                chrome,
                parts: window_parts(&chrome, self.undecorated, fullscreen, &view.shaders),
                place,
            },
        )
    }
}

impl StageEntry {
    fn box_is_representable(&self, fullscreen: bool, metrics: &ChromeMetrics) -> (r: bool)
        ensures
            r == self.box_fits(fullscreen, *metrics),
    {
        let radius: i64 = metrics.shadow_radius as i64;
        let bar: i64 = metrics.title_bar_height as i64;
        if self.flags.suspended {
            let side: i64 = radius + metrics.border_width as i64;
            return can_frame(self.bbox, side, side + bar, side);
        }
        let chrome = self.configured.drawn(fullscreen, false);
        let border: i64 = if chrome.border_width > 0 {
            chrome.border_width as i64
        } else {
            0
        };
        if chrome.ssd_bar {
            let side: i64 = radius + border;
            can_frame(self.bbox, side, side + bar, side)
        } else {
            can_frame(self.bbox, border, border, border)
        }
    }

    /// Whether a frame can measure this element.
    pub fn frame_can_measure(&self, view: &StageView) -> (r: bool)
        ensures
            r == self.fits_frame(*view),
    {
        !is_drawable(&self.flags, view.output_fullscreen) || self.animated.is_some()
            || self.box_is_representable(self.shows_fullscreen, &view.metrics)
    }

    /// Whether a capture can measure this element.
    pub fn capture_can_measure(&self, view: &StageView, isolate: Option<u64>) -> (r: bool)
        ensures
            r == self.fits_capture(*view, isolate),
    {
        !captures_element(isolate, self.id) || self.flags.suspended || !self.flags.placed
            || !self.flags.has_surface || self.box_is_representable(
            self.fullscreen_on.is_some(),
            &view.metrics,
        )
    }

    /// This element in a capture, drawn with these parts.
    pub fn captured<E>(&self, parts: WindowParts<E>) -> (w: CapturedWindow<E>)
        ensures
            w.id == self.id,
            w.widget == (self.is_client() && self.widget),
            w.pinned == (self.is_client() && self.is_pinned()),
            w.fullscreen == (self.is_client() && self.is_fullscreen()),
            w.parts == parts,
    {
        let client = !self.flags.suspended;
        CapturedWindow {
            id: self.id,
            widget: client && self.widget,
            pinned: client && self.pin.is_some(),
            fullscreen: client && self.fullscreen_on.is_some(),
            parts,
        }
    }
}

/// What a frame draws of the stage, topmost first.
pub fn plan_frame(stage: &[StageEntry], view: &StageView) -> (draws: Vec<StageDraw>)
    requires
        forall|i: int| 0 <= i < stage@.len() ==> (#[trigger] stage@[i]).fits_frame(*view),
    ensures
        draws@ == frame_draws(stage@, *view, stage@.len() as int),
{
    let mut draws: Vec<StageDraw> = Vec::new();
    let mut i: usize = stage.len();
    while i > 0
        invariant
            i <= stage@.len(),
            forall|k: int| 0 <= k < stage@.len() ==> (#[trigger] stage@[k]).fits_frame(*view),
            draws@ == frame_draws(stage@, *view, stage@.len() - i),
        decreases i,
    {
        i = i - 1;
        let ghost before = draws@;
        if let Some(d) = stage[i].plan_frame(i, view) {
            draws.push(d);
        }
        assert(draws@ =~= before + optional(
            frame_draw(stage@[i as int], i, *view),
        ));
    }
    draws
}

/// What a capture draws of the stage, topmost first.
pub fn plan_capture(stage: &[StageEntry], view: &StageView, isolate: Option<u64>) -> (draws: Vec<
    StageDraw,
>)
    requires
        forall|i: int|
            0 <= i < stage@.len() ==> (#[trigger] stage@[i]).fits_capture(*view, isolate),
    ensures
        draws@ == capture_draws(stage@, *view, isolate, stage@.len() as int),
        forall|k: int|
            0 <= k < draws@.len() ==> 0 <= drawn_index(#[trigger] draws@[k]) < stage@.len(),
        isolate matches Some(target) ==> forall|k: int|
            0 <= k < draws@.len() ==> stage@[drawn_index(#[trigger] draws@[k])].id == target,
        isolate is None ==> forall|k: int|
            0 <= k < draws@.len() && (#[trigger] draws@[k]) is Window ==> {
                let e = stage@[drawn_index(draws@[k])];
                e.is_client() && !e.is_pinned() && !e.is_fullscreen()
            },
{
    let mut draws: Vec<StageDraw> = Vec::new();
    let mut i: usize = stage.len();
    while i > 0
        invariant
            i <= stage@.len(),
            forall|k: int|
                0 <= k < stage@.len() ==> (#[trigger] stage@[k]).fits_capture(*view, isolate),
            draws@ == capture_draws(stage@, *view, isolate, stage@.len() - i),
        decreases i,
    {
        i = i - 1;
        let ghost before = draws@;
        if let Some(d) = stage[i].plan_capture(i, view, isolate) {
            draws.push(d);
        }
        assert(draws@ =~= before + optional(
            capture_draw(stage@[i as int], i, *view, isolate),
        ));
    }
    proof {
        let n = stage@.len() as int;
        assert forall|k: int| 0 <= k < draws@.len() implies 0 <= drawn_index(
            #[trigger] draws@[k],
        ) < stage@.len() by {
            lemma_capture_indices(stage@, *view, isolate, n, k);
        }
        if let Some(target) = isolate {
            assert forall|k: int| 0 <= k < draws@.len() implies stage@[drawn_index(
                #[trigger] draws@[k],
            )].id == target by {
                law_isolated_capture_draws_its_target(stage@, *view, target, n, k);
            }
        } else {
            assert forall|k: int|
                0 <= k < draws@.len() && (#[trigger] draws@[k]) is Window implies ({
                let e = stage@[drawn_index(draws@[k])];
                e.is_client() && !e.is_pinned() && !e.is_fullscreen()
            }) by {
                law_canvas_capture_draws_the_canvas(stage@, *view, n, k);
            }
        }
    }
    draws
}

/// The stage index of what is drawn.
pub open spec fn drawn_index(d: StageDraw) -> int {
    match d {
        StageDraw::StandIn { index } => index as int,
        StageDraw::Window { index, .. } => index as int,
    }
}

/// A covered output draws nothing but windows of the covering picture.
pub proof fn law_covered_output_draws_its_picture(
    stage: Seq<StageEntry>,
    view: StageView,
    n: int,
    k: int,
)
    requires
        view.output_fullscreen,
        0 <= n <= stage.len() <= usize::MAX,
        0 <= k < frame_draws(stage, view, n).len(),
    ensures
        ({
            let d = frame_draws(stage, view, n)[k];
            &&& d is Window
            &&& 0 <= drawn_index(d) < stage.len()
            &&& stage[drawn_index(d)].flags.fullscreen_here
        }),
    decreases n,
{
    if k < frame_draws(stage, view, n - 1).len() {
        law_covered_output_draws_its_picture(stage, view, n - 1, k);
    }
}

proof fn lemma_draw_indices(stage: Seq<StageEntry>, view: StageView, n: int, k: int)
    requires
        0 <= n <= stage.len() <= usize::MAX,
        0 <= k < frame_draws(stage, view, n).len(),
    ensures
        stage.len() - n <= drawn_index(frame_draws(stage, view, n)[k]) < stage.len(),
    decreases n,
{
    if k < frame_draws(stage, view, n - 1).len() {
        lemma_draw_indices(stage, view, n - 1, k);
    }
}

/// A frame draws the stage from the top down, each element at most once.
pub proof fn law_frame_follows_the_stacking(
    stage: Seq<StageEntry>,
    view: StageView,
    n: int,
    j: int,
    k: int,
)
    requires
        0 <= n <= stage.len() <= usize::MAX,
        0 <= j < k < frame_draws(stage, view, n).len(),
    ensures
        drawn_index(frame_draws(stage, view, n)[k]) < drawn_index(frame_draws(stage, view, n)[j]),
    decreases n,
{
    if k < frame_draws(stage, view, n - 1).len() {
        law_frame_follows_the_stacking(stage, view, n - 1, j, k);
    } else {
        lemma_draw_indices(stage, view, n - 1, j);
    }
}

proof fn lemma_capture_indices(
    stage: Seq<StageEntry>,
    view: StageView,
    isolate: Option<u64>,
    n: int,
    k: int,
)
    requires
        0 <= n <= stage.len() <= usize::MAX,
        0 <= k < capture_draws(stage, view, isolate, n).len(),
    ensures
        0 <= drawn_index(capture_draws(stage, view, isolate, n)[k]) < stage.len(),
    decreases n,
{
    if k < capture_draws(stage, view, isolate, n - 1).len() {
        lemma_capture_indices(stage, view, isolate, n - 1, k);
    }
}

/// A capture of the whole canvas draws no window that is pinned to a screen or
/// fullscreen.
pub proof fn law_canvas_capture_draws_the_canvas(
    stage: Seq<StageEntry>,
    view: StageView,
    n: int,
    k: int,
)
    requires
        0 <= n <= stage.len() <= usize::MAX,
        0 <= k < capture_draws(stage, view, None, n).len(),
        capture_draws(stage, view, None, n)[k] is Window,
    ensures
        ({
            let i = drawn_index(capture_draws(stage, view, None, n)[k]);
            &&& 0 <= i < stage.len()
            &&& stage[i].is_client()
            &&& !stage[i].is_pinned()
            &&& !stage[i].is_fullscreen()
        }),
    decreases n,
{
    if k < capture_draws(stage, view, None, n - 1).len() {
        law_canvas_capture_draws_the_canvas(stage, view, n - 1, k);
    }
}

/// An isolated capture draws at most its target.
pub proof fn law_isolated_capture_draws_its_target(
    stage: Seq<StageEntry>,
    view: StageView,
    target: u64,
    n: int,
    k: int,
)
    requires
        0 <= n <= stage.len() <= usize::MAX,
        0 <= k < capture_draws(stage, view, Some(target), n).len(),
    ensures
        ({
            let i = drawn_index(capture_draws(stage, view, Some(target), n)[k]);
            0 <= i < stage.len() && stage[i].id == target
        }),
    decreases n,
{
    if k < capture_draws(stage, view, Some(target), n - 1).len() {
        law_isolated_capture_draws_its_target(stage, view, target, n - 1, k);
    }
}

proof fn lemma_drawn_of(stage: Seq<StageEntry>, view: StageView, n: int, k: int)
    requires
        0 <= n <= stage.len() <= usize::MAX,
        0 <= k < frame_draws(stage, view, n).len(),
    ensures
        ({
            let d = frame_draws(stage, view, n)[k];
            let i = drawn_index(d);
            &&& stage.len() - n <= i < stage.len()
            &&& frame_draw(stage[i], i as usize, view) == Some(d)
        }),
    decreases n,
{
    if k < frame_draws(stage, view, n - 1).len() {
        lemma_drawn_of(stage, view, n - 1, k);
    }
}

proof fn lemma_frame_holds(stage: Seq<StageEntry>, view: StageView, n: int, i: int)
    requires
        0 <= n <= stage.len() <= usize::MAX,
        stage.len() - n <= i < stage.len(),
        frame_draw(stage[i], i as usize, view) is Some,
    ensures
        exists|k: int|
            0 <= k < frame_draws(stage, view, n).len() && drawn_index(
                #[trigger] frame_draws(stage, view, n)[k],
            ) == i,
    decreases n,
{
    let all = frame_draws(stage, view, n);
    let init = frame_draws(stage, view, n - 1);
    if i == stage.len() - n {
        assert(drawn_index(all[init.len() as int]) == i);
    } else {
        lemma_frame_holds(stage, view, n - 1, i);
        let k = choose|k: int| 0 <= k < init.len() && drawn_index(#[trigger] init[k]) == i;
        assert(all[k] == init[k]);
    }
}

proof fn lemma_captured_of(
    stage: Seq<StageEntry>,
    view: StageView,
    isolate: Option<u64>,
    n: int,
    k: int,
)
    requires
        0 <= n <= stage.len() <= usize::MAX,
        0 <= k < capture_draws(stage, view, isolate, n).len(),
    ensures
        ({
            let d = capture_draws(stage, view, isolate, n)[k];
            let i = drawn_index(d);
            &&& stage.len() - n <= i < stage.len()
            &&& capture_draw(stage[i], i as usize, view, isolate) == Some(d)
        }),
    decreases n,
{
    if k < capture_draws(stage, view, isolate, n - 1).len() {
        lemma_captured_of(stage, view, isolate, n - 1, k);
    }
}

proof fn lemma_capture_holds(
    stage: Seq<StageEntry>,
    view: StageView,
    isolate: Option<u64>,
    n: int,
    i: int,
)
    requires
        0 <= n <= stage.len() <= usize::MAX,
        stage.len() - n <= i < stage.len(),
        capture_draw(stage[i], i as usize, view, isolate) is Some,
    ensures
        exists|k: int|
            0 <= k < capture_draws(stage, view, isolate, n).len() && drawn_index(
                #[trigger] capture_draws(stage, view, isolate, n)[k],
            ) == i,
    decreases n,
{
    let all = capture_draws(stage, view, isolate, n);
    let init = capture_draws(stage, view, isolate, n - 1);
    if i == stage.len() - n {
        assert(drawn_index(all[init.len() as int]) == i);
    } else {
        lemma_capture_holds(stage, view, isolate, n - 1, i);
        let k = choose|k: int| 0 <= k < init.len() && drawn_index(#[trigger] init[k]) == i;
        assert(all[k] == init[k]);
    }
}

/// A window is stacked by the picture it shows: with the pinned windows exactly
/// if that picture is pinned, else with the widgets exactly if it is a widget,
/// else with the ordinary windows.
pub proof fn law_windows_are_stacked_by_their_picture(
    stage: Seq<StageEntry>,
    view: StageView,
    n: int,
    k: int,
)
    requires
        0 <= n <= stage.len() <= usize::MAX,
        0 <= k < frame_draws(stage, view, n).len(),
    ensures
        ({
            let d = frame_draws(stage, view, n)[k];
            let e = stage[drawn_index(d)];
            d matches StageDraw::Window { bucket, .. } ==> {
                &&& bucket is Pinned <==> e.shows_pinned
                &&& bucket is Widget <==> e.widget && !e.shows_pinned
                &&& bucket is Normal <==> !e.widget && !e.shows_pinned
            }
        }),
{
    lemma_drawn_of(stage, view, n, k);
}

/// In a frame composed of what is drawn of the stage, every part of a widget that
/// is not pinned comes after every part of an ordinary window that is not pinned,
/// and after the canvas layers.
pub proof fn law_widgets_are_below_on_every_frame<E>(
    stage: Seq<StageEntry>,
    view: StageView,
    scene: Scene<E>,
    frame: Frame<E>,
    window: int,
    widget: int,
)
    requires
        stage.len() <= usize::MAX,
        scene.composed(frame),
        ({
            let draws = frame_draws(stage, view, stage.len() as int);
            &&& scene.windows@.len() == draws.len()
            &&& forall|k: int|
                0 <= k < draws.len() ==> (#[trigger] draws[k] matches StageDraw::Window {
                    bucket,
                    ..
                } ==> scene.windows@[k].bucket == bucket)
            &&& 0 <= window < draws.len() && 0 <= widget < draws.len()
            &&& draws[window] is Window && draws[widget] is Window
            &&& !stage[drawn_index(draws[window])].shows_pinned
            &&& !stage[drawn_index(draws[window])].widget
            &&& !stage[drawn_index(draws[widget])].shows_pinned
            &&& stage[drawn_index(draws[widget])].widget
        }),
    ensures
        exists|a: int, b: int|
            a + scene.windows@[window].parts.all().len() <= b && #[trigger] stands_at(
                frame.elements@,
                scene.windows@[window].parts.all(),
                a,
            ) && #[trigger] stands_at(frame.elements@, scene.windows@[widget].parts.all(), b),
        !scene.coverage.fullscreen_conceals ==> exists|a: int, c: int, b: int|
            a + scene.windows@[window].parts.all().len() <= c <= c + scene.canvas_layers@.len() <= b
                && #[trigger] stands_at(frame.elements@, scene.windows@[window].parts.all(), a)
                && #[trigger] stands_at(frame.elements@, scene.canvas_layers@, c)
                && #[trigger] stands_at(frame.elements@, scene.windows@[widget].parts.all(), b),
{
    let n = stage.len() as int;
    law_windows_are_stacked_by_their_picture(stage, view, n, window);
    law_windows_are_stacked_by_their_picture(stage, view, n, widget);
    law_widgets_are_below_the_windows(scene, frame, window, widget);
}

/// A frame draws an element exactly if it is placed, the output lets it be seen,
/// it is not bound to another output, and the box that it draws into reaches
/// into view: the box it sweeps while animated, else its bounding box with its
/// chrome round it. A covered output shows the windows of its picture alone.
pub proof fn law_frame_draws_what_is_in_view(
    stage: Seq<StageEntry>,
    view: StageView,
    i: int,
    reach: Rect,
)
    requires
        stage.len() <= usize::MAX,
        0 <= i < stage.len(),
        stage[i].fits_frame(view),
        ({
            let e = stage[i];
            let barred = e.flags.suspended || (e.configured.ssd_bar && !e.shows_fullscreen);
            let border: int = if e.flags.suspended {
                view.metrics.border_width as int
            } else if e.shows_fullscreen || e.configured.border_width < 0 {
                0
            } else {
                e.configured.border_width as int
            };
            let side = border + if barred {
                view.metrics.shadow_radius as int
            } else {
                0
            };
            let bar: int = if barred {
                view.metrics.title_bar_height as int
            } else {
                0
            };
            match e.animated {
                Some(swept) => reach == swept,
                None => {
                    &&& reach.loc.x == e.bbox.loc.x - side
                    &&& reach.loc.y == e.bbox.loc.y - side - bar
                    &&& reach.size.w == e.bbox.size.w + side + side
                    &&& reach.size.h == e.bbox.size.h + side + side + bar
                },
            }
        }),
    ensures
        ({
            let e = stage[i];
            let draws = frame_draws(stage, view, stage.len() as int);
            (exists|k: int| 0 <= k < draws.len() && drawn_index(#[trigger] draws[k]) == i) <==> {
                &&& e.flags.placed
                &&& view.visible.meets(reach)
                &&& e.flags.suspended ==> !view.output_fullscreen
                &&& !e.flags.suspended ==> {
                    &&& e.flags.has_surface
                    &&& !e.flags.hidden_by_adopt
                    &&& view.output_fullscreen ==> e.flags.fullscreen_here
                    &&& e.fullscreen_on is Some ==> e.fullscreen_on == Some(view.output)
                    &&& e.pin is Some ==> e.pin->0.output == Some(view.output)
                }
            }
        }),
{
    let e = stage[i];
    let draws = frame_draws(stage, view, stage.len() as int);
    if frame_draw(e, i as usize, view) is Some {
        lemma_frame_holds(stage, view, stage.len() as int, i);
    }
    if exists|k: int| 0 <= k < draws.len() && drawn_index(#[trigger] draws[k]) == i {
        let k = choose|k: int| 0 <= k < draws.len() && drawn_index(#[trigger] draws[k]) == i;
        lemma_drawn_of(stage, view, stage.len() as int, k);
    }
}

/// A drawn element is a stand-in exactly if no client runs it. A window is drawn
/// at its place on the screen if it is pinned, else at its place on the canvas,
/// in either case moved so that its geometry starts there.
pub proof fn law_drawn_where_it_belongs(
    stage: Seq<StageEntry>,
    view: StageView,
    n: int,
    k: int,
)
    requires
        0 <= n <= stage.len() <= usize::MAX,
        0 <= k < frame_draws(stage, view, n).len(),
    ensures
        ({
            let d = frame_draws(stage, view, n)[k];
            let e = stage[drawn_index(d)];
            &&& d is StandIn <==> e.flags.suspended
            &&& d matches StageDraw::Window { place, .. } ==> match place {
                WindowTransform::Hidden => false,
                WindowTransform::Screen { x, y } => e.pin matches Some(p) && x + e.geometry.x
                    == p.screen_pos.x && y + e.geometry.y == p.screen_pos.y,
                WindowTransform::Canvas { x, y } => e.pin is None && x + e.geometry.x == e.loc.x
                    && y + e.geometry.y == e.loc.y,
            }
        }),
{
    lemma_drawn_of(stage, view, n, k);
}

/// A window wears what its configuration asks for, but a picture that is
/// fullscreen wears nothing, and one that covers the usable area is square and
/// casts no shadow. Of what it wears it is drawn with what a shader draws; one
/// without a bar has a border and a shadow only where its corners can be clipped
/// and it did not ask for no decoration.
pub proof fn law_drawn_with_its_chrome(
    stage: Seq<StageEntry>,
    view: StageView,
    n: int,
    k: int,
)
    requires
        0 <= n <= stage.len() <= usize::MAX,
        0 <= k < frame_draws(stage, view, n).len(),
    ensures
        ({
            let d = frame_draws(stage, view, n)[k];
            let e = stage[drawn_index(d)];
            let bare = e.shows_fullscreen;
            let square = e.shows_fullscreen || e.covers_usable_area;
            let dressed = !bare && (e.configured.ssd_bar || (view.shaders.corner_clip
                && !e.undecorated));
            d matches StageDraw::Window { chrome, parts, .. } ==> {
                &&& chrome.ssd_bar <==> e.configured.ssd_bar && !bare
                &&& chrome.border_width == if bare {
                    0
                } else {
                    e.configured.border_width
                }
                &&& e.configured.corner_radius >= 0 ==> chrome.corner_radius == if square {
                    0
                } else {
                    e.configured.corner_radius
                }
                &&& chrome.shadow <==> e.configured.shadow && !square
                &&& parts.bar <==> e.configured.ssd_bar && !bare
                &&& parts.border <==> dressed && e.configured.border_width > 0
                    && view.shaders.border
                &&& parts.shadow <==> dressed && !square && e.configured.shadow
                    && view.shaders.shadow
                &&& parts.clip is All <==> dressed && !e.configured.ssd_bar
                &&& parts.clip is Bottom ==> e.configured.ssd_bar && !bare
                    && view.shaders.corner_clip
                &&& (!bare && e.configured.ssd_bar && view.shaders.corner_clip && (
                e.configured.border_width > 0 || (e.configured.corner_radius > 0 && !square))
                    ==> parts.clip is Bottom)
                &&& (parts.clip is Bottom ==> e.configured.border_width > 0
                    || e.configured.corner_radius > 0)
            }
        }),
{
    lemma_drawn_of(stage, view, n, k);
}

/// A capture draws an element exactly if it is placed, is asked for, and is a
/// stand-in or a client's window whose box, its chrome round it, reaches into
/// view. Among all of them, neither pinned nor fullscreen windows are drawn; an
/// isolated one is drawn whatever it is.
pub proof fn law_capture_draws_what_is_asked_for(
    stage: Seq<StageEntry>,
    view: StageView,
    isolate: Option<u64>,
    i: int,
    reach: Rect,
)
    requires
        stage.len() <= usize::MAX,
        0 <= i < stage.len(),
        stage[i].fits_capture(view, isolate),
        ({
            let e = stage[i];
            let barred = e.configured.ssd_bar && e.fullscreen_on is None;
            let border: int = if e.fullscreen_on is Some || e.configured.border_width < 0 {
                0
            } else {
                e.configured.border_width as int
            };
            let side = border + if barred {
                view.metrics.shadow_radius as int
            } else {
                0
            };
            let bar: int = if barred {
                view.metrics.title_bar_height as int
            } else {
                0
            };
            &&& reach.loc.x == e.bbox.loc.x - side
            &&& reach.loc.y == e.bbox.loc.y - side - bar
            &&& reach.size.w == e.bbox.size.w + side + side
            &&& reach.size.h == e.bbox.size.h + side + side + bar
        }),
    ensures
        ({
            let e = stage[i];
            let draws = capture_draws(stage, view, isolate, stage.len() as int);
            (exists|k: int| 0 <= k < draws.len() && drawn_index(#[trigger] draws[k]) == i) <==> {
                &&& e.flags.placed
                &&& isolate is Some ==> isolate == Some(e.id)
                &&& !e.flags.suspended ==> {
                    &&& e.flags.has_surface
                    &&& view.visible.meets(reach)
                    &&& isolate is None ==> e.pin is None && e.fullscreen_on is None
                }
            }
        }),
{
    let e = stage[i];
    let draws = capture_draws(stage, view, isolate, stage.len() as int);
    if capture_draw(e, i as usize, view, isolate) is Some {
        lemma_capture_holds(stage, view, isolate, stage.len() as int, i);
    }
    if exists|k: int| 0 <= k < draws.len() && drawn_index(#[trigger] draws[k]) == i {
        let k = choose|k: int| 0 <= k < draws.len() && drawn_index(#[trigger] draws[k]) == i;
        lemma_captured_of(stage, view, isolate, stage.len() as int, k);
    }
}

/// A captured window stands at its place on the canvas, among the widgets exactly
/// if it is one, and wears what its configuration asks for unless it is
/// fullscreen. Captures follow the stacking, topmost first.
pub proof fn law_captured_as_it_stands(
    stage: Seq<StageEntry>,
    view: StageView,
    isolate: Option<u64>,
    n: int,
    k: int,
)
    requires
        0 <= n <= stage.len() <= usize::MAX,
        0 <= k < capture_draws(stage, view, isolate, n).len(),
    ensures
        ({
            let draws = capture_draws(stage, view, isolate, n);
            let e = stage[drawn_index(draws[k])];
            let bare = e.fullscreen_on is Some;
            let dressed = !bare && (e.configured.ssd_bar || (view.shaders.corner_clip
                && !e.undecorated));
            &&& forall|j: int|
                0 <= j < k ==> drawn_index(draws[k]) < drawn_index(#[trigger] draws[j])
            &&& draws[k] is StandIn <==> e.flags.suspended
            &&& draws[k] matches StageDraw::Window { bucket, chrome, parts, place, .. } ==> {
                &&& bucket is Widget <==> e.widget
                &&& bucket is Normal <==> !e.widget
                &&& place matches WindowTransform::Canvas { x, y } && x + e.geometry.x == e.loc.x
                    && y + e.geometry.y == e.loc.y
                &&& chrome.ssd_bar <==> e.configured.ssd_bar && !bare
                &&& chrome.shadow <==> e.configured.shadow && !bare
                &&& chrome.border_width == if bare {
                    0
                } else {
                    e.configured.border_width
                }
                &&& chrome.corner_radius == if bare {
                    0
                } else {
                    e.configured.corner_radius
                }
                &&& parts.bar <==> e.configured.ssd_bar && !bare
                &&& parts.border <==> dressed && e.configured.border_width > 0
                    && view.shaders.border
                &&& parts.shadow <==> dressed && e.configured.shadow && view.shaders.shadow
                &&& parts.clip is All <==> dressed && !e.configured.ssd_bar
                &&& parts.clip is Bottom <==> !bare && e.configured.ssd_bar
                    && view.shaders.corner_clip && (e.configured.border_width > 0
                    || e.configured.corner_radius > 0)
            }
        }),
{
    lemma_captured_of(stage, view, isolate, n, k);
    assert forall|j: int| 0 <= j < k implies drawn_index(capture_draws(stage, view, isolate, n)[k])
        < drawn_index(#[trigger] capture_draws(stage, view, isolate, n)[j]) by {
        lemma_captures_descend(stage, view, isolate, n, j, k);
    }
}

proof fn lemma_captures_descend(
    stage: Seq<StageEntry>,
    view: StageView,
    isolate: Option<u64>,
    n: int,
    j: int,
    k: int,
)
    requires
        0 <= n <= stage.len() <= usize::MAX,
        0 <= j < k < capture_draws(stage, view, isolate, n).len(),
    ensures
        drawn_index(capture_draws(stage, view, isolate, n)[k]) < drawn_index(
            capture_draws(stage, view, isolate, n)[j],
        ),
    decreases n,
{
    let init = capture_draws(stage, view, isolate, n - 1);
    if k < init.len() {
        lemma_captures_descend(stage, view, isolate, n - 1, j, k);
    } else {
        lemma_captured_of(stage, view, isolate, n - 1, j);
        lemma_captured_of(stage, view, isolate, n, k);
        assert(capture_draws(stage, view, isolate, n)[j] == init[j]);
    }
}

} // verus!
