//! What one frame is composed of, and in which order.
//!
//! A frame is a list of elements, topmost first. Windows are sorted into groups
//! by how they are stacked; each frosted window's place in its group is recorded
//! so that its blur can be put behind it.

use crate::blur::plan::{BlurLayer, BlurRequestData, Prefixes};
use crate::chrome::DrawnChrome;
use crate::geometry::{Point, Rect, Size, max_of};
use crate::state::lock::SessionLock;
use crate::state::render_cache::{RenderCache, blurs_elsewhere};
use vstd::prelude::*;

verus! {

/// Whether anything covers an output's scene.
#[derive(Clone, Copy, Debug, PartialEq, Eq, Structural)]
pub struct Coverage {
    /// A fullscreen picture covers the output.
    pub output_fullscreen: bool,
    /// That picture is opaque, so the canvas cannot be seen through it.
    pub fullscreen_conceals: bool,
}

/// Which groups are drawn at all.
#[derive(Clone, Copy, Debug, PartialEq, Eq, Structural)]
pub struct Gates {
    pub closing: bool,
    pub top_layer: bool,
    pub bottom_layer: bool,
    pub background_layer: bool,
    pub canvas_layers: bool,
    pub outlines: bool,
    pub background: bool,
}

/// A fullscreen picture occludes the closing windows and every layer but the
/// overlay. The canvas goes only if the picture conceals it.
pub fn gates(coverage: &Coverage) -> (g: Gates)
    ensures
        g == (Gates {
            closing: !coverage.output_fullscreen,
            top_layer: !coverage.output_fullscreen,
            bottom_layer: !coverage.output_fullscreen,
            background_layer: !coverage.output_fullscreen,
            canvas_layers: !coverage.fullscreen_conceals,
            outlines: !coverage.fullscreen_conceals,
            background: !coverage.fullscreen_conceals,
        }),
{
    let uncovered = !coverage.output_fullscreen;
    let unconcealed = !coverage.fullscreen_conceals;
    Gates {
        closing: uncovered,
        top_layer: uncovered,
        bottom_layer: uncovered,
        background_layer: uncovered,
        canvas_layers: unconcealed,
        outlines: unconcealed,
        background: unconcealed,
    }
}

/// Which background caches an output has.
#[derive(Clone, Copy, Debug, PartialEq, Eq, Structural)]
pub struct BackgroundCaches {
    pub element: bool,
    pub tile_chunks: bool,
    pub shader_chunks: bool,
}

/// What happens to the background caches before a frame.
#[derive(Clone, Copy, Debug, PartialEq, Eq, Structural)]
pub enum BackgroundStep {
    /// The canvas is concealed: free the bulk of them.
    Shrink,
    /// There is none yet.
    Init,
    Keep,
}

/// What `background_step` returns.
pub open spec fn step_for(conceals: bool, caches: BackgroundCaches) -> BackgroundStep {
    if conceals {
        BackgroundStep::Shrink
    } else if !caches.element && !caches.tile_chunks && !caches.shader_chunks {
        BackgroundStep::Init
    } else {
        BackgroundStep::Keep
    }
}

pub fn background_step(conceals: bool, caches: &BackgroundCaches) -> (step: BackgroundStep)
    ensures
        step == step_for(conceals, *caches),
{
    if conceals {
        BackgroundStep::Shrink
    } else if !caches.element && !caches.tile_chunks && !caches.shader_chunks {
        BackgroundStep::Init
    } else {
        BackgroundStep::Keep
    }
}

/// Where the background comes from.
#[derive(Clone, Copy, Debug, PartialEq, Eq, Structural)]
pub enum BackgroundSource {
    Nothing,
    ShaderChunks,
    TileChunks,
    Element,
}

/// Shader chunks win over tile chunks, and both over the plain element.
pub fn background_source(conceals: bool, caches: &BackgroundCaches) -> (source: BackgroundSource)
    ensures
        source == if conceals {
            BackgroundSource::Nothing
        } else if caches.shader_chunks {
            BackgroundSource::ShaderChunks
        } else if caches.tile_chunks {
            BackgroundSource::TileChunks
        } else if caches.element {
            BackgroundSource::Element
        } else {
            BackgroundSource::Nothing
        },
{
    if conceals {
        BackgroundSource::Nothing
    } else if caches.shader_chunks {
        BackgroundSource::ShaderChunks
    } else if caches.tile_chunks {
        BackgroundSource::TileChunks
    } else if caches.element {
        BackgroundSource::Element
    } else {
        BackgroundSource::Nothing
    }
}

/// A stage element as far as drawing it depends on the stage.
#[derive(Clone, Copy, Debug, PartialEq, Eq, Structural)]
pub struct StageFlags {
    /// A stand-in for a window that is not running.
    pub suspended: bool,
    pub placed: bool,
    pub has_surface: bool,
    /// Waiting for a stand-in's slot: placed but not shown.
    pub hidden_by_adopt: bool,
    /// Part of the picture that covers the output.
    pub fullscreen_here: bool,
}

/// Whether an element is drawn at all, as far as the stage decides.
pub open spec fn drawable(e: StageFlags, output_fullscreen: bool) -> bool {
    &&& e.placed
    &&& if e.suspended {
        !output_fullscreen
    } else {
        &&& e.has_surface
        &&& !e.hidden_by_adopt
        &&& output_fullscreen ==> e.fullscreen_here
    }
}

/// Whether an element is drawn. A covered output shows only the windows of the
/// covering picture.
pub fn is_drawable(e: &StageFlags, output_fullscreen: bool) -> (r: bool)
    ensures
        r == drawable(*e, output_fullscreen),
{
    if !e.placed {
        return false;
    }
    if e.suspended {
        return !output_fullscreen;
    }
    e.has_surface && !e.hidden_by_adopt && (!output_fullscreen || e.fullscreen_here)
}

/// Chrome metrics that do not depend on the window.
#[derive(Clone, Copy, Debug, PartialEq, Eq, Structural)]
pub struct ChromeMetrics {
    pub shadow_radius: i32,
    pub title_bar_height: i32,
    pub border_width: i32,
}

/// `r` grown by `side` left and right, `top` above and `bottom` below.
pub open spec fn framed(r: Rect, side: int, top: int, bottom: int) -> Rect {
    Rect {
        loc: Point { x: (r.loc.x - side) as i32, y: (r.loc.y - top) as i32 },
        size: Size { w: (r.size.w + 2 * side) as i32, h: (r.size.h + top + bottom) as i32 },
    }
}

/// The grown rectangle has coordinates of their type.
pub open spec fn frames(r: Rect, side: int, top: int, bottom: int) -> bool {
    &&& i32::MIN <= r.loc.x - side <= i32::MAX
    &&& i32::MIN <= r.loc.y - top <= i32::MAX
    &&& i32::MIN <= r.size.w + 2 * side <= i32::MAX
    &&& i32::MIN <= r.size.h + top + bottom <= i32::MAX
}

pub(crate) fn can_frame(r: Rect, side: i64, top: i64, bottom: i64) -> (can: bool)
    requires
        -0x10_0000_0000 <= side <= 0x10_0000_0000,
        -0x10_0000_0000 <= top <= 0x10_0000_0000,
        -0x10_0000_0000 <= bottom <= 0x10_0000_0000,
    ensures
        can == frames(r, side as int, top as int, bottom as int),
{
    let x: i64 = r.loc.x as i64 - side;
    let y: i64 = r.loc.y as i64 - top;
    let w: i64 = r.size.w as i64 + 2 * side;
    let h: i64 = r.size.h as i64 + top + bottom;
    let lo: i64 = i32::MIN as i64;
    let hi: i64 = i32::MAX as i64;
    lo <= x && x <= hi && lo <= y && y <= hi && lo <= w && w <= hi && lo <= h && h <= hi
}

fn frame_rect(r: Rect, side: i64, top: i64, bottom: i64) -> (f: Rect)
    requires
        frames(r, side as int, top as int, bottom as int),
        -0x10_0000_0000 <= side <= 0x10_0000_0000,
        -0x10_0000_0000 <= top <= 0x10_0000_0000,
        -0x10_0000_0000 <= bottom <= 0x10_0000_0000,
    ensures
        f == framed(r, side as int, top as int, bottom as int),
{
    Rect {
        loc: Point { x: (r.loc.x as i64 - side) as i32, y: (r.loc.y as i64 - top) as i32 },
        size: Size {
            w: (r.size.w as i64 + 2 * side) as i32,
            h: (r.size.h as i64 + top + bottom) as i32,
        },
    }
}

/// How far a window's chrome reaches past its sides and above it: the shadow and
/// the title bar where the compositor draws the bar, and the border.
pub open spec fn window_reach(chrome: DrawnChrome, metrics: ChromeMetrics) -> (int, int) {
    let border = max_of(chrome.border_width as int, 0);
    if chrome.ssd_bar {
        let side = metrics.shadow_radius + border;
        (side, side + metrics.title_bar_height)
    } else {
        (border, border)
    }
}

/// A window's bounding box grown by its chrome.
pub open spec fn window_box(bbox: Rect, chrome: DrawnChrome, metrics: ChromeMetrics) -> Rect {
    let (side, top) = window_reach(chrome, metrics);
    framed(bbox, side, top, side)
}

/// That box has coordinates of their type.
pub open spec fn window_box_fits(bbox: Rect, chrome: DrawnChrome, metrics: ChromeMetrics) -> bool {
    let (side, top) = window_reach(chrome, metrics);
    frames(bbox, side, top, side)
}

/// The box a window and its chrome can draw into.
pub fn window_draw_box(bbox: Rect, chrome: &DrawnChrome, metrics: &ChromeMetrics) -> (r: Rect)
    requires
        window_box_fits(bbox, *chrome, *metrics),
    ensures
        r == window_box(bbox, *chrome, *metrics),
{
    let border: i64 = if chrome.border_width > 0 {
        chrome.border_width as i64
    } else {
        0
    };
    if chrome.ssd_bar {
        let side: i64 = metrics.shadow_radius as i64 + border;
        frame_rect(bbox, side, side + metrics.title_bar_height as i64, side)
    } else {
        frame_rect(bbox, border, border, border)
    }
}

/// How far a stand-in's chrome reaches past its sides and above it: its bar,
/// shadow and border.
pub open spec fn suspended_reach(metrics: ChromeMetrics) -> (int, int) {
    let side = metrics.shadow_radius + metrics.border_width;
    (side, side + metrics.title_bar_height)
}

/// A stand-in's body grown by its chrome.
pub open spec fn suspended_box(body: Rect, metrics: ChromeMetrics) -> Rect {
    let (side, top) = suspended_reach(metrics);
    framed(body, side, top, side)
}

/// That box has coordinates of their type.
pub open spec fn suspended_box_fits(body: Rect, metrics: ChromeMetrics) -> bool {
    let (side, top) = suspended_reach(metrics);
    frames(body, side, top, side)
}

/// The box a stand-in and its chrome can draw into.
pub fn suspended_draw_box(body: Rect, metrics: &ChromeMetrics) -> (r: Rect)
    requires
        suspended_box_fits(body, *metrics),
    ensures
        r == suspended_box(body, *metrics),
{
    let side: i64 = metrics.shadow_radius as i64 + metrics.border_width as i64;
    frame_rect(body, side, side + metrics.title_bar_height as i64, side)
}

/// How a window's content is clipped to its rounded corners.
#[derive(Clone, Copy, Debug, PartialEq, Eq, Structural)]
pub enum CornerClip {
    Plain,
    /// The title bar covers the top edge, so only the bottom corners round.
    Bottom,
    All,
}

/// Which parts a window is drawn with.
#[derive(Clone, Copy, Debug, PartialEq, Eq, Structural)]
pub struct PartPlan {
    pub bar: bool,
    pub clip: CornerClip,
    pub border: bool,
    pub shadow: bool,
}

/// Which shaders compiled.
#[derive(Clone, Copy, Debug, PartialEq, Eq, Structural)]
pub struct Shaders {
    pub corner_clip: bool,
    pub border: bool,
    pub shadow: bool,
}

pub open spec fn parts_of(
    chrome: DrawnChrome,
    undecorated: bool,
    is_fullscreen: bool,
    shaders: Shaders,
) -> PartPlan {
    let framed = chrome.ssd_bar || (shaders.corner_clip && !undecorated && !is_fullscreen);
    PartPlan {
        bar: chrome.ssd_bar,
        clip: if chrome.ssd_bar {
            if shaders.corner_clip && (chrome.border_width > 0 || chrome.corner_radius > 0) {
                CornerClip::Bottom
            } else {
                CornerClip::Plain
            }
        } else if framed {
            CornerClip::All
        } else {
            CornerClip::Plain
        },
        border: framed && chrome.border_width > 0 && shaders.border,
        shadow: framed && chrome.shadow && shaders.shadow,
    }
}

/// Which parts a window is drawn with. A window without decoration, or a
/// fullscreen one, is passed through untouched.
pub fn window_parts(
    chrome: &DrawnChrome,
    undecorated: bool,
    is_fullscreen: bool,
    shaders: &Shaders,
) -> (plan: PartPlan)
    ensures
        plan == parts_of(*chrome, undecorated, is_fullscreen, *shaders),
{
    if chrome.ssd_bar {
        let clip = if shaders.corner_clip && (chrome.border_width > 0 || chrome.corner_radius
            > 0) {
            CornerClip::Bottom
        } else {
            CornerClip::Plain
        };
        PartPlan {
            bar: true,
            clip,
            border: chrome.border_width > 0 && shaders.border,
            shadow: chrome.shadow && shaders.shadow,
        }
    } else if shaders.corner_clip && !undecorated && !is_fullscreen {
        PartPlan {
            bar: false,
            clip: CornerClip::All,
            border: chrome.border_width > 0 && shaders.border,
            shadow: chrome.shadow && shaders.shadow,
        }
    } else {
        PartPlan { bar: false, clip: CornerClip::Plain, border: false, shadow: false }
    }
}

/// The group a window's elements go into.
#[derive(Clone, Copy, Debug, PartialEq, Eq, Structural)]
pub enum Bucket {
    Pinned,
    Normal,
    Widget,
}

/// A pinned widget is pinned first: it belongs above the windows, not below.
pub fn bucket_for(pinned: bool, widget: bool) -> (bucket: Bucket)
    ensures
        bucket == if pinned {
            Bucket::Pinned
        } else if widget {
            Bucket::Widget
        } else {
            Bucket::Normal
        },
{
    if pinned {
        Bucket::Pinned
    } else if widget {
        Bucket::Widget
    } else {
        Bucket::Normal
    }
}

pub open spec fn layer_of(bucket: Bucket) -> BlurLayer {
    match bucket {
        Bucket::Pinned => BlurLayer::Pinned,
        Bucket::Normal => BlurLayer::Normal,
        Bucket::Widget => BlurLayer::Widget,
    }
}

fn blur_layer(bucket: Bucket) -> (layer: BlurLayer)
    ensures
        layer == layer_of(bucket),
{
    match bucket {
        Bucket::Pinned => BlurLayer::Pinned,
        Bucket::Normal => BlurLayer::Normal,
        Bucket::Widget => BlurLayer::Widget,
    }
}

/// What a window asks of the blur.
pub struct BlurWish {
    pub surface_id: u64,
    /// The blur shaders compiled.
    pub enabled: bool,
    /// The configuration asks for it.
    pub window_blur: bool,
    pub screen_rect: Rect,
    /// The client's blur region relative to `screen_rect`; an empty one opts
    /// out.
    pub client_rects: Option<Vec<Rect>>,
}

/// The elements a window is drawn with.
pub struct WindowParts<E> {
    pub popups: Vec<E>,
    pub bar: Option<E>,
    /// The content before a resize, fading out over the new one.
    pub crossfade: Option<E>,
    pub content: Vec<E>,
    pub border: Option<E>,
    pub shadow: Option<E>,
}

/// A window that is drawn.
pub struct DrawnWindow<E> {
    pub bucket: Bucket,
    pub parts: WindowParts<E>,
    pub blur: BlurWish,
}

pub open spec fn optional<E>(e: Option<E>) -> Seq<E> {
    match e {
        Some(e) => seq![e],
        None => Seq::empty(),
    }
}

impl<E> WindowParts<E> {
    /// The elements above the window's blur, topmost first.
    pub open spec fn body(self) -> Seq<E> {
        self.popups@ + optional(self.bar) + optional(self.crossfade) + self.content@ + optional(
            self.border,
        )
    }

    /// All of them: the shadow comes last.
    pub open spec fn all(self) -> Seq<E> {
        self.body() + optional(self.shadow)
    }

    pub open spec fn trailing(self) -> int {
        if self.shadow is Some {
            1
        } else {
            0
        }
    }
}

/// The parts of `rects` within `bounds`, in order.
pub open spec fn clipped_rects(rects: Seq<Rect>, bounds: Rect) -> Seq<Rect>
    decreases rects.len(),
{
    if rects.len() == 0 {
        Seq::empty()
    } else {
        clipped_rects(rects.drop_last(), bounds) + optional(rects.last().clip(bounds))
    }
}

/// A blur request by its values.
pub struct RequestView {
    pub surface_id: u64,
    pub screen_rect: Rect,
    pub elem_start: int,
    pub elem_count: int,
    pub trailing_chrome: int,
    pub layer: BlurLayer,
    pub region_rects: Option<Seq<Rect>>,
}

impl View for BlurRequestData {
    type V = RequestView;

    open spec fn view(&self) -> RequestView {
        RequestView {
            surface_id: self.surface_id,
            screen_rect: self.screen_rect,
            elem_start: self.elem_start as int,
            elem_count: self.elem_count as int,
            trailing_chrome: self.trailing_chrome as int,
            layer: self.layer,
            region_rects: crate::blur::mask::owned_regions(self.region_rects),
        }
    }
}

impl BlurWish {
    /// The client set a region with something in it.
    pub open spec fn client_blur(self) -> bool {
        self.client_rects matches Some(r) && r@.len() > 0
    }

    /// The client's region within the window; `None` where nothing is left of
    /// it.
    pub open spec fn region(self) -> Option<Seq<Rect>> {
        let bounds = Rect { loc: Point { x: 0, y: 0 }, size: self.screen_rect.size };
        if self.client_blur() && clipped_rects((self.client_rects->0)@, bounds).len() > 0 {
            Some(clipped_rects((self.client_rects->0)@, bounds))
        } else {
            None
        }
    }

    /// Blur is asked for, by the configuration or by a client region of which
    /// something is left.
    pub open spec fn granted(self) -> bool {
        self.enabled && (self.window_blur || self.region() is Some)
    }
}

/// The request of a window whose elements start at `start` of its group.
pub open spec fn request_of<E>(w: DrawnWindow<E>, start: int) -> Option<RequestView> {
    if w.blur.granted() && w.parts.body().len() > 0 {
        Some(
            RequestView {
                surface_id: w.blur.surface_id,
                screen_rect: w.blur.screen_rect,
                elem_start: start,
                elem_count: w.parts.body().len() as int,
                trailing_chrome: w.parts.trailing(),
                layer: layer_of(w.bucket),
                region_rects: w.blur.region(),
            },
        )
    } else {
        None
    }
}

/// The elements of the first `n` windows that go into `bucket`.
pub open spec fn bucket_elements<E>(windows: Seq<DrawnWindow<E>>, bucket: Bucket, n: int) -> Seq<E>
    decreases n,
{
    if n <= 0 {
        Seq::empty()
    } else {
        bucket_elements(windows, bucket, n - 1) + if windows[n - 1].bucket == bucket {
            windows[n - 1].parts.all()
        } else {
            Seq::empty()
        }
    }
}

/// The requests of the first `n` windows.
pub open spec fn window_requests<E>(windows: Seq<DrawnWindow<E>>, n: int) -> Seq<RequestView>
    decreases n,
{
    if n <= 0 {
        Seq::empty()
    } else {
        let w = windows[n - 1];
        window_requests(windows, n - 1) + optional(
            request_of(w, bucket_elements(windows, w.bucket, n - 1).len() as int),
        )
    }
}

/// The client's region within the window.
fn clip_region(rects: &Vec<Rect>, bounds: Rect) -> (out: Vec<Rect>)
    ensures
        out@ == clipped_rects(rects@, bounds),
{
    let mut out: Vec<Rect> = Vec::new();
    let mut i: usize = 0;
    while i < rects.len()
        invariant
            i <= rects.len(),
            out@ =~= clipped_rects(rects@.subrange(0, i as int), bounds),
        decreases rects.len() - i,
    {
        let ghost next = rects@.subrange(0, i + 1);
        assert(next.drop_last() =~= rects@.subrange(0, i as int));
        if let Some(c) = rects[i].intersection(bounds) {
            out.push(c);
        }
        i = i + 1;
    }
    assert(rects@.subrange(0, i as int) =~= rects@);
    out
}

fn push_optional<E>(target: &mut Vec<E>, e: Option<E>)
    ensures
        final(target)@ == old(target)@ + optional(e),
{
    match e {
        Some(e) => {
            target.push(e);
            assert(target@ =~= old(target)@ + optional(Some(e)));
        },
        None => {
            assert(target@ =~= old(target)@ + optional(None::<E>));
        },
    }
}

/// Pushes a window's elements, and returns how many are above its blur and how
/// many below.
fn push_parts<E>(target: &mut Vec<E>, parts: WindowParts<E>) -> (counts: (usize, usize))
    ensures
        final(target)@ == old(target)@ + parts.all(),
        counts.0 == parts.body().len(),
        counts.1 == parts.trailing(),
{
    let ghost before = target@;
    let ghost whole = parts;
    let start: usize = target.len();
    let WindowParts { popups, bar, crossfade, content, border, shadow } = parts;
    let mut popups = popups;
    let mut content = content;
    target.append(&mut popups);
    push_optional(target, bar);
    push_optional(target, crossfade);
    target.append(&mut content);
    push_optional(target, border);
    assert(target@ =~= before + whole.body());
    let count: usize = target.len() - start;
    let trailing: usize = match shadow {
        Some(_) => 1,
        None => 0,
    };
    push_optional(target, shadow);
    assert(target@ =~= before + whole.all());
    (count, trailing)
}

/// Draws a window into its group and returns its blur request, if it has one.
///
/// The request counts the elements that were pushed, not those that were
/// configured: chrome without a shader pushes nothing.
pub fn place_window<E>(target: &mut Vec<E>, window: DrawnWindow<E>) -> (request: Option<
    BlurRequestData,
>)
    ensures
        final(target)@ == old(target)@ + window.parts.all(),
        match request {
            Some(r) => request_of(window, old(target)@.len() as int) == Some(r@),
            None => request_of(window, old(target)@.len() as int) is None,
        },
{
    let elem_start: usize = target.len();
    let DrawnWindow { bucket, parts, blur } = window;
    let (elem_count, trailing_chrome) = push_parts(target, parts);
    if !blur.enabled || elem_count == 0 {
        return None;
    }
    let bounds = Rect::from_size(blur.screen_rect.size);
    let region_rects: Option<Vec<Rect>> = match &blur.client_rects {
        Some(rects) => {
            if rects.len() > 0 {
                let clipped = clip_region(rects, bounds);
                if clipped.len() > 0 {
                    Some(clipped)
                } else {
                    None
                }
            } else {
                None
            }
        },
        None => None,
    };
    assert(crate::blur::mask::owned_regions(region_rects) == blur.region());
    if !blur.window_blur && region_rects.is_none() {
        return None;
    }
    Some(
        BlurRequestData {
            surface_id: blur.surface_id,
            screen_rect: blur.screen_rect,
            elem_start,
            elem_count,
            trailing_chrome,
            layer: blur_layer(bucket),
            region_rects,
        },
    )
}

/// Everything a frame can be made of, each list topmost first. What covers the
/// output decides which lists are drawn.
pub struct Scene<E> {
    pub coverage: Coverage,
    pub cursor: Vec<E>,
    pub overlay: Vec<E>,
    pub overlay_blur: Vec<BlurRequestData>,
    pub top: Vec<E>,
    pub top_blur: Vec<BlurRequestData>,
    pub closing: Vec<E>,
    /// The drawn windows, topmost first.
    pub windows: Vec<DrawnWindow<E>>,
    pub canvas_layers: Vec<E>,
    pub bottom: Vec<E>,
    pub outlines: Vec<E>,
    pub background: Vec<E>,
    pub background_layer: Vec<E>,
}

/// A composed frame.
pub struct Frame<E> {
    pub elements: Vec<E>,
    pub requests: Vec<BlurRequestData>,
    pub prefixes: Prefixes,
    /// First element of the scene background.
    pub background_start: usize,
    pub cursor_count: usize,
}

/// A list, where its gate is open.
pub open spec fn seen<A>(list: Seq<A>, open: bool) -> Seq<A> {
    if open {
        list
    } else {
        Seq::empty()
    }
}

impl<E> Scene<E> {
    /// No fullscreen picture covers the output.
    pub open spec fn uncovered(self) -> bool {
        !self.coverage.output_fullscreen
    }

    /// The canvas can be seen.
    pub open spec fn unconcealed(self) -> bool {
        !self.coverage.fullscreen_conceals
    }

    pub open spec fn top_seen(self) -> Seq<E> {
        seen(self.top@, self.uncovered())
    }

    pub open spec fn group(self, bucket: Bucket) -> Seq<E> {
        bucket_elements(self.windows@, bucket, self.windows@.len() as int)
    }

    /// The elements above the windows, and those of each group, as one list.
    pub open spec fn front(self) -> Seq<E> {
        self.cursor@ + self.overlay@ + self.top_seen()
    }

    pub open spec fn before_normal(self) -> Seq<E> {
        self.front() + self.group(Bucket::Pinned) + seen(self.closing@, self.uncovered())
    }

    pub open spec fn before_widgets(self) -> Seq<E> {
        self.before_normal() + self.group(Bucket::Normal) + seen(
            self.canvas_layers@,
            self.unconcealed(),
        )
    }

    pub open spec fn foreground(self) -> Seq<E> {
        self.before_widgets() + self.group(Bucket::Widget)
    }

    /// Everything below the windows and widgets.
    pub open spec fn scene_background(self) -> Seq<E> {
        seen(self.bottom@, self.uncovered()) + seen(self.outlines@, self.unconcealed()) + seen(
            self.background@,
            self.unconcealed(),
        ) + seen(self.background_layer@, self.uncovered())
    }

    pub open spec fn layer_start(self, layer: BlurLayer) -> int {
        match layer {
            BlurLayer::Overlay => self.cursor@.len() as int,
            BlurLayer::Top => (self.cursor@ + self.overlay@).len() as int,
            BlurLayer::Pinned => self.front().len() as int,
            BlurLayer::Normal => self.before_normal().len() as int,
            BlurLayer::Widget => self.before_widgets().len() as int,
        }
    }

    /// The frame is what this scene composes to.
    pub open spec fn composed(self, frame: Frame<E>) -> bool {
        &&& frame.elements@ == self.foreground() + self.scene_background()
        &&& request_views(frame.requests@) == request_views(self.overlay_blur@) + request_views(
            seen(self.top_blur@, self.uncovered()),
        ) + window_requests(self.windows@, self.windows@.len() as int)
        &&& forall|layer: BlurLayer| #[trigger]
            frame.prefixes.start_of(layer) == self.layer_start(layer)
        &&& frame.background_start == self.foreground().len()
        &&& frame.cursor_count == self.cursor@.len()
    }

    /// The frame is that of a locked session: nothing of the scene but its cursor,
    /// over the output's lock surface, and nothing is blurred.
    pub open spec fn locked(self, lock_surface: Option<Vec<E>>, frame: Frame<E>) -> bool {
        &&& frame.elements@ == self.cursor@ + match lock_surface {
            Some(surface) => surface@,
            None => Seq::empty(),
        }
        &&& frame.requests@.len() == 0
        &&& forall|layer: BlurLayer| #[trigger]
            frame.prefixes.start_of(layer) == self.cursor@.len()
        &&& frame.background_start == frame.elements@.len()
        &&& frame.cursor_count == self.cursor@.len()
    }

    pub open spec fn layer_elements(self, layer: BlurLayer) -> Seq<E> {
        match layer {
            BlurLayer::Overlay => self.overlay@,
            BlurLayer::Top => self.top_seen(),
            BlurLayer::Pinned => self.group(Bucket::Pinned),
            BlurLayer::Normal => self.group(Bucket::Normal),
            BlurLayer::Widget => self.group(Bucket::Widget),
        }
    }
}

pub open spec fn request_views(requests: Seq<BlurRequestData>) -> Seq<RequestView> {
    requests.map_values(|r: BlurRequestData| r@)
}

proof fn lemma_views_add(a: Seq<BlurRequestData>, b: Seq<BlurRequestData>)
    ensures
        request_views(a + b) == request_views(a) + request_views(b),
{
    assert(request_views(a + b) =~= request_views(a) + request_views(b));
}

fn behind_gate<A>(list: Vec<A>, open: bool) -> (drawn: Vec<A>)
    ensures
        drawn@ == seen(list@, open),
{
    if open {
        list
    } else {
        Vec::new()
    }
}

/// Composes a frame: cursor, overlay and top layers, pinned windows, closing
/// windows, windows, canvas layers, widgets, and the scene background of bottom
/// layer, outlines, background and background layer. A fullscreen picture leaves
/// out what it covers.
#[verifier::rlimit(40)]
pub fn compose_frame<E>(scene: Scene<E>) -> (frame: Frame<E>)
    ensures
        scene.composed(frame),
{
    let ghost whole = scene;
    let Scene {
        coverage,
        cursor,
        overlay,
        overlay_blur,
        top,
        top_blur,
        closing,
        windows,
        canvas_layers,
        bottom,
        outlines,
        background,
        background_layer,
    } = scene;
    let ghost all = windows@;
    let open = gates(&coverage);
    let mut requests = overlay_blur;
    let mut top_blur = behind_gate(top_blur, open.top_layer);
    proof {
        lemma_views_add(requests@, top_blur@);
    }
    requests.append(&mut top_blur);
    let ghost layer_requests = request_views(requests@);
    let mut pinned: Vec<E> = Vec::new();
    let mut normal: Vec<E> = Vec::new();
    let mut widgets: Vec<E> = Vec::new();
    for w in it: windows
        invariant
            it.seq() == all,
            pinned@ == bucket_elements(all, Bucket::Pinned, it.index() as int),
            normal@ == bucket_elements(all, Bucket::Normal, it.index() as int),
            widgets@ == bucket_elements(all, Bucket::Widget, it.index() as int),
            request_views(requests@) == layer_requests + window_requests(all, it.index() as int),
    {
        let ghost n = it.index() as int;
        let ghost before = requests@;
        assert(w == all[n]);
        let request = match w.bucket {
            Bucket::Pinned => place_window(&mut pinned, w),
            Bucket::Widget => place_window(&mut widgets, w),
            Bucket::Normal => place_window(&mut normal, w),
        };
        proof {
            assert(pinned@ =~= bucket_elements(all, Bucket::Pinned, n + 1));
            assert(normal@ =~= bucket_elements(all, Bucket::Normal, n + 1));
            assert(widgets@ =~= bucket_elements(all, Bucket::Widget, n + 1));
        }
        match request {
            Some(r) => {
                requests.push(r);
                proof {
                    lemma_views_add(before, seq![r]);
                    assert(requests@ =~= before + seq![r]);
                    assert(request_views(seq![r]) =~= seq![r@]);
                    assert(request_views(requests@) =~= layer_requests + window_requests(
                        all,
                        n + 1,
                    ));
                }
            },
            None => {
                assert(request_views(requests@) =~= layer_requests + window_requests(all, n + 1));
            },
        }
    }
    let mut elements = cursor;
    let mut overlay = overlay;
    let mut top = behind_gate(top, open.top_layer);
    let mut closing = behind_gate(closing, open.closing);
    let mut canvas_layers = behind_gate(canvas_layers, open.canvas_layers);
    let mut bottom = behind_gate(bottom, open.bottom_layer);
    let mut outlines = behind_gate(outlines, open.outlines);
    let mut background = behind_gate(background, open.background);
    let mut background_layer = behind_gate(background_layer, open.background_layer);
    let cursor_count: usize = elements.len();
    elements.append(&mut overlay);
    let top_prefix: usize = elements.len();
    elements.append(&mut top);
    let pinned_prefix: usize = elements.len();
    elements.append(&mut pinned);
    elements.append(&mut closing);
    let normal_prefix: usize = elements.len();
    elements.append(&mut normal);
    elements.append(&mut canvas_layers);
    let widget_prefix: usize = elements.len();
    elements.append(&mut widgets);
    assert(elements@ =~= whole.foreground());
    let background_start: usize = elements.len();
    elements.append(&mut bottom);
    elements.append(&mut outlines);
    elements.append(&mut background);
    elements.append(&mut background_layer);
    assert(elements@ =~= whole.foreground() + whole.scene_background());
    let prefixes = Prefixes {
        overlay: cursor_count,
        top: top_prefix,
        pinned: pinned_prefix,
        normal: normal_prefix,
        widget: widget_prefix,
    };
    Frame { elements, requests, prefixes, background_start, cursor_count }
}

/// Puts the error bar above everything but the cursor.
pub fn insert_error_bar<E>(elements: &mut Vec<E>, cursor_count: usize, bar: Vec<E>)
    requires
        cursor_count <= old(elements)@.len(),
    ensures
        final(elements)@ == old(elements)@.take(cursor_count as int) + bar@
            + old(elements)@.skip(cursor_count as int),
{
    let mut bar = bar;
    let mut rest = elements.split_off(cursor_count);
    elements.append(&mut bar);
    elements.append(&mut rest);
}

/// The frame of a locked session: the lock surface, and the cursor over it.
pub fn compose_lock_frame<E>(cursor: Vec<E>, lock_surface: Option<Vec<E>>) -> (elements: Vec<E>)
    ensures
        elements@ == cursor@ + match lock_surface {
            Some(surface) => surface@,
            None => Seq::empty(),
        },
{
    let mut elements = cursor;
    match lock_surface {
        Some(surface) => {
            let mut surface = surface;
            elements.append(&mut surface);
        },
        None => {
            assert(elements@ =~= elements@ + Seq::empty());
        },
    }
    elements
}

/// Composes an output's frame. While the session shows lock frames, it is the
/// cursor over the output's lock surface, and the output's blurs are dropped: a
/// lock may last for hours. Otherwise it is the desktop.
pub fn compose_output_frame<E, L, T, B, X, P, D>(
    lock: &SessionLock<L>,
    cache: &mut RenderCache<T, B, X, P, D>,
    output_name: &str,
    lock_surface: Option<Vec<E>>,
    scene: Scene<E>,
) -> (frame: Frame<E>)
    requires
        old(cache).wf(),
    ensures
        final(cache).wf(),
        lock.shows_lock_frame() ==> {
            &&& scene.locked(lock_surface, frame)
            &&& final(cache).shared_blur@ == old(cache).shared_blur@.remove(output_name@)
            &&& final(cache).blur_scratch@ == old(cache).blur_scratch@.remove(output_name@)
            &&& final(cache).blur_cache@ == blurs_elsewhere(old(cache).blur_cache@, output_name@)
            &&& *final(cache) == (RenderCache {
                shared_blur: final(cache).shared_blur,
                blur_scratch: final(cache).blur_scratch,
                blur_cache: final(cache).blur_cache,
                ..*old(cache)
            })
        },
        !lock.shows_lock_frame() ==> scene.composed(frame) && *final(cache) == *old(cache),
{
    if lock.renders_lock_frame() {
        cache.remove_blur_caches(output_name);
        let cursor_count: usize = scene.cursor.len();
        let elements = compose_lock_frame(scene.cursor, lock_surface);
        let background_start: usize = elements.len();
        let prefixes = Prefixes {
            overlay: cursor_count,
            top: cursor_count,
            pinned: cursor_count,
            normal: cursor_count,
            widget: cursor_count,
        };
        Frame { elements, requests: Vec::new(), prefixes, background_start, cursor_count }
    } else {
        compose_frame(scene)
    }
}

/// A window, or a stand-in, of a capture.
pub struct CapturedWindow<E> {
    pub id: u64,
    pub widget: bool,
    /// A client's window that is pinned to the screen.
    pub pinned: bool,
    /// A client's window that is fullscreen.
    pub fullscreen: bool,
    pub parts: WindowParts<E>,
}

/// What a capture of the canvas is made of.
pub struct CaptureScene<E> {
    /// The only element that is captured, if not all of them are.
    pub isolate: Option<u64>,
    /// The windows, topmost first.
    pub windows: Vec<CapturedWindow<E>>,
    pub canvas_layers: Vec<E>,
    pub background: Vec<E>,
}

/// Whether a capture shows an element: an isolated one shows its target alone.
pub fn captures_element(isolate: Option<u64>, element: u64) -> (r: bool)
    ensures
        r == (isolate is None || isolate == Some(element)),
{
    match isolate {
        Some(target) => target == element,
        None => true,
    }
}

impl<E> CapturedWindow<E> {
    /// A capture shows it: an isolated one its target alone, whatever it is, and
    /// one of the whole canvas neither pinned nor fullscreen windows.
    pub open spec fn shown(self, isolate: Option<u64>) -> bool {
        match isolate {
            Some(target) => self.id == target,
            None => !self.pinned && !self.fullscreen,
        }
    }

    fn is_shown(&self, isolate: Option<u64>) -> (r: bool)
        ensures
            r == self.shown(isolate),
    {
        match isolate {
            Some(target) => self.id == target,
            None => !self.pinned && !self.fullscreen,
        }
    }
}

/// The elements that a capture shows of the first `n` windows, either of the
/// widgets or of the others.
pub open spec fn captured<E>(
    windows: Seq<CapturedWindow<E>>,
    isolate: Option<u64>,
    widget: bool,
    n: int,
) -> Seq<E>
    decreases n,
{
    if n <= 0 {
        Seq::empty()
    } else {
        captured(windows, isolate, widget, n - 1) + if windows[n - 1].widget == widget
            && windows[n - 1].shown(isolate) {
            windows[n - 1].parts.all()
        } else {
            Seq::empty()
        }
    }
}

impl<E> CaptureScene<E> {
    /// What a capture shows of the windows, either of the widgets or of the
    /// others.
    pub open spec fn shown(self, widget: bool) -> Seq<E> {
        captured(self.windows@, self.isolate, widget, self.windows@.len() as int)
    }

    /// Everything that a capture shows above the background.
    pub open spec fn foreground(self) -> Seq<E> {
        self.shown(false) + seen(self.canvas_layers@, self.isolate is None) + self.shown(true)
    }
}

/// Composes a capture of the canvas: windows, canvas layers, widgets and the
/// background. Nothing is blurred. An isolated capture shows its target and the
/// background alone, one of the whole canvas neither pinned nor fullscreen
/// windows.
#[verifier::rlimit(30)]
pub fn compose_capture_elements<E>(scene: CaptureScene<E>) -> (elements: Vec<E>)
    ensures
        elements@ == scene.foreground() + scene.background@,
{
    let CaptureScene { isolate, windows, canvas_layers, background } = scene;
    let ghost all = windows@;
    let mut normal: Vec<E> = Vec::new();
    let mut widgets: Vec<E> = Vec::new();
    for w in it: windows
        invariant
            it.seq() == all,
            normal@ == captured(all, isolate, false, it.index() as int),
            widgets@ == captured(all, isolate, true, it.index() as int),
    {
        let ghost n = it.index() as int;
        assert(w == all[n]);
        if w.is_shown(isolate) {
            if w.widget {
                push_parts(&mut widgets, w.parts);
            } else {
                push_parts(&mut normal, w.parts);
            }
        }
        proof {
            assert(normal@ =~= captured(all, isolate, false, n + 1));
            assert(widgets@ =~= captured(all, isolate, true, n + 1));
        }
    }
    let mut canvas_layers = behind_gate(canvas_layers, isolate.is_none());
    let mut background = background;
    let mut elements = normal;
    elements.append(&mut canvas_layers);
    elements.append(&mut widgets);
    elements.append(&mut background);
    assert(elements@ =~= scene.foreground() + scene.background@);
    elements
}

/// `e` is drawn of a window that a capture shows.
pub open spec fn drawn_of_shown<E>(scene: CaptureScene<E>, i: int, e: E) -> bool {
    &&& 0 <= i < scene.windows@.len()
    &&& scene.windows@[i].shown(scene.isolate)
    &&& scene.windows@[i].parts.all().contains(e)
}

proof fn lemma_captured_is_shown<E>(scene: CaptureScene<E>, widget: bool, n: int, e: E)
    requires
        0 <= n <= scene.windows@.len(),
        captured(scene.windows@, scene.isolate, widget, n).contains(e),
    ensures
        exists|i: int| #[trigger] drawn_of_shown(scene, i, e),
    decreases n,
{
    if n > 0 {
        let all = captured(scene.windows@, scene.isolate, widget, n);
        let init = captured(scene.windows@, scene.isolate, widget, n - 1);
        let k = choose|k: int| 0 <= k < all.len() && all[k] == e;
        if k < init.len() {
            assert(init[k] == e);
            lemma_captured_is_shown(scene, widget, n - 1, e);
        } else {
            assert(scene.windows@[n - 1].parts.all()[k - init.len()] == e);
            assert(drawn_of_shown(scene, n - 1, e));
        }
    }
}

/// An isolated capture holds nothing but its target beside the background: no
/// neighbour and no canvas layer leaks in.
pub proof fn law_isolated_capture_holds_its_target<E>(scene: CaptureScene<E>, target: u64, e: E)
    requires
        scene.isolate == Some(target),
        scene.foreground().contains(e),
    ensures
        exists|i: int| #[trigger]
            drawn_of_shown(scene, i, e) && scene.windows@[i].id == target,
{
    lemma_foreground(scene, e);
    let i = choose|i: int| #[trigger] drawn_of_shown(scene, i, e);
    assert(drawn_of_shown(scene, i, e) && scene.windows@[i].id == target);
}

/// A capture of the whole canvas holds no window that is pinned to the screen or
/// fullscreen: beside the background, all of it is a canvas layer's or of a
/// window that is neither.
pub proof fn law_canvas_capture_holds_the_canvas<E>(scene: CaptureScene<E>, e: E)
    requires
        scene.isolate is None,
        scene.foreground().contains(e),
    ensures
        scene.canvas_layers@.contains(e) || exists|i: int| #[trigger]
            drawn_of_shown(scene, i, e) && !scene.windows@[i].pinned
                && !scene.windows@[i].fullscreen,
{
    lemma_foreground(scene, e);
    if !scene.canvas_layers@.contains(e) {
        let i = choose|i: int| #[trigger] drawn_of_shown(scene, i, e);
        assert(drawn_of_shown(scene, i, e) && !scene.windows@[i].pinned
            && !scene.windows@[i].fullscreen);
    }
}

proof fn lemma_foreground<E>(scene: CaptureScene<E>, e: E)
    requires
        scene.foreground().contains(e),
    ensures
        (scene.isolate is None && scene.canvas_layers@.contains(e)) || exists|i: int| #[trigger]
            drawn_of_shown(scene, i, e),
{
    let n = scene.windows@.len() as int;
    let first = scene.shown(false);
    let layers = seen(scene.canvas_layers@, scene.isolate is None);
    let last = scene.shown(true);
    let k = choose|k: int| 0 <= k < scene.foreground().len() && scene.foreground()[k] == e;
    if k < first.len() {
        assert(first[k] == e);
        lemma_captured_is_shown(scene, false, n, e);
    } else if k < first.len() + layers.len() {
        assert(layers[k - first.len()] == e);
    } else {
        assert(last[k - first.len() - layers.len()] == e);
        lemma_captured_is_shown(scene, true, n, e);
    }
}

/// The elements of a group stand in the frame where its prefix says.
pub proof fn law_prefixes_locate_groups<E>(scene: Scene<E>, layer: BlurLayer)
    ensures
        ({
            let frame = scene.foreground() + scene.scene_background();
            let start = scene.layer_start(layer);
            let group = scene.layer_elements(layer);
            start + group.len() <= scene.foreground().len() && frame.subrange(
                start,
                start + group.len(),
            ) == group
        }),
{
    let frame = scene.foreground() + scene.scene_background();
    let start = scene.layer_start(layer);
    let group = scene.layer_elements(layer);
    assert(frame.subrange(start, start + group.len()) =~= group);
}

proof fn lemma_bucket_prefix<E>(windows: Seq<DrawnWindow<E>>, bucket: Bucket, i: int, n: int)
    requires
        0 <= i < n <= windows.len(),
        windows[i].bucket == bucket,
    ensures
        ({
            let start = bucket_elements(windows, bucket, i).len() as int;
            let all = bucket_elements(windows, bucket, n);
            start + windows[i].parts.all().len() <= all.len() && all.subrange(
                start,
                start + windows[i].parts.all().len(),
            ) == windows[i].parts.all()
        }),
    decreases n,
{
    let start = bucket_elements(windows, bucket, i).len() as int;
    let len = windows[i].parts.all().len() as int;
    let all = bucket_elements(windows, bucket, n);
    if i < n - 1 {
        lemma_bucket_prefix(windows, bucket, i, n - 1);
        let init = bucket_elements(windows, bucket, n - 1);
        assert(all.subrange(start, start + len) =~= init.subrange(start, start + len));
    } else {
        assert(all.subrange(start, start + len) =~= windows[i].parts.all());
    }
}

/// A window's request names exactly its own elements: those above its blur
/// stand at the recorded place in the frame, with its shadow right behind them.
pub proof fn law_requests_locate_windows<E>(scene: Scene<E>, i: int)
    requires
        0 <= i < scene.windows@.len(),
    ensures
        ({
            let w = scene.windows@[i];
            let frame = scene.foreground() + scene.scene_background();
            let start = scene.layer_start(layer_of(w.bucket)) + bucket_elements(
                scene.windows@,
                w.bucket,
                i,
            ).len();
            let end = start + w.parts.body().len();
            &&& end + w.parts.trailing() <= scene.foreground().len()
            &&& frame.subrange(start, end) == w.parts.body()
            &&& frame.subrange(end, end + w.parts.trailing()) == optional(w.parts.shadow)
        }),
{
    let w = scene.windows@[i];
    let n = scene.windows@.len() as int;
    let layer = layer_of(w.bucket);
    let frame = scene.foreground() + scene.scene_background();
    let base = scene.layer_start(layer);
    let offset = bucket_elements(scene.windows@, w.bucket, i).len() as int;
    let group = scene.layer_elements(layer);
    let all = w.parts.all();
    lemma_bucket_prefix(scene.windows@, w.bucket, i, n);
    law_prefixes_locate_groups(scene, layer);
    assert(group == scene.group(w.bucket));
    let start = base + offset;
    let len = all.len() as int;
    assert(frame.subrange(start, start + len) =~= frame.subrange(
        base,
        base + group.len(),
    ).subrange(offset, offset + len));
    assert(frame.subrange(start, start + len) == all);
    let b = w.parts.body().len() as int;
    let whole = frame.subrange(start, start + len);
    assert(frame.subrange(start, start + b) =~= whole.subrange(0, b));
    assert(all.subrange(0, b) =~= w.parts.body());
    assert(frame.subrange(start + b, start + len) =~= whole.subrange(b, len));
    assert(all.subrange(b, len) =~= optional(w.parts.shadow));
}

/// A locked session shows no part of the desktop: every element of its frame is
/// one of the cursor's or of the lock surface's.
pub proof fn law_lock_frames_hide_the_desktop<E>(
    scene: Scene<E>,
    lock_surface: Option<Vec<E>>,
    frame: Frame<E>,
    i: int,
)
    requires
        scene.locked(lock_surface, frame),
        0 <= i < frame.elements@.len(),
    ensures
        scene.cursor@.contains(frame.elements@[i]) || (lock_surface matches Some(surface)
            && surface@.contains(frame.elements@[i])),
{
    let n = scene.cursor@.len();
    if i < n {
        assert(scene.cursor@[i] == frame.elements@[i]);
    } else {
        assert((lock_surface->0)@[i - n] == frame.elements@[i]);
    }
}

/// Under a concealing fullscreen picture a frame is the cursor, the overlay layer
/// and the windows of that picture.
pub proof fn law_concealed_frame<E>(scene: Scene<E>)
    requires
        scene.coverage.output_fullscreen,
        scene.coverage.fullscreen_conceals,
    ensures
        scene.foreground() + scene.scene_background() == scene.cursor@ + scene.overlay@
            + scene.group(Bucket::Pinned) + scene.group(Bucket::Normal) + scene.group(
            Bucket::Widget,
        ),
{
    assert(scene.foreground() + scene.scene_background() =~= scene.cursor@ + scene.overlay@
        + scene.group(Bucket::Pinned) + scene.group(Bucket::Normal) + scene.group(
        Bucket::Widget,
    ));
}

/// A fullscreen window sheds every part but its content.
pub proof fn law_fullscreen_draws_content_only(
    configured: DrawnChrome,
    covers_usable_area: bool,
    undecorated: bool,
    shaders: Shaders,
)
    ensures
        parts_of(configured.gated(true, covers_usable_area), undecorated, true, shaders) == (
        PartPlan { bar: false, clip: CornerClip::Plain, border: false, shadow: false }),
{
}

/// A window is drawn, from the top down, with its popups, its bar, its old
/// content while that fades, its content, its border and its shadow. All but the
/// shadow is above its blur.
pub proof fn law_parts_from_top_to_bottom<E>(parts: WindowParts<E>)
    ensures
        parts.body() == parts.popups@ + (if parts.bar is Some {
            seq![parts.bar->0]
        } else {
            Seq::empty()
        }) + (if parts.crossfade is Some {
            seq![parts.crossfade->0]
        } else {
            Seq::empty()
        }) + parts.content@ + (if parts.border is Some {
            seq![parts.border->0]
        } else {
            Seq::empty()
        }),
        parts.all() == if parts.shadow is Some {
            parts.body().push(parts.shadow->0)
        } else {
            parts.body()
        },
        parts.trailing() == parts.all().len() - parts.body().len(),
{
    assert(parts.all() =~= if parts.shadow is Some {
        parts.body().push(parts.shadow->0)
    } else {
        parts.body()
    });
}

/// A group holds the parts of its own windows and nothing else, window after
/// window, in the order of the stacking.
pub proof fn law_groups_hold_their_windows<E>(windows: Seq<DrawnWindow<E>>, bucket: Bucket)
    ensures
        bucket_elements(windows, bucket, windows.len() as int) == windows.filter(
            |w: DrawnWindow<E>| w.bucket == bucket,
        ).map_values(|w: DrawnWindow<E>| w.parts.all()).flatten(),
    decreases windows.len(),
{
    let own = |w: DrawnWindow<E>| w.bucket == bucket;
    let drawn = |w: DrawnWindow<E>| w.parts.all();
    let n = windows.len() as int;
    reveal(Seq::filter);
    if n > 0 {
        let init = windows.drop_last();
        law_groups_hold_their_windows(init, bucket);
        lemma_bucket_of_prefix(windows, bucket, n - 1);
        assert(windows.take(n - 1) =~= init);
        let kept = init.filter(own).map_values(drawn);
        if windows[n - 1].bucket == bucket {
            assert(windows.filter(own).map_values(drawn) =~= kept.push(windows[n - 1].parts.all()));
            kept.lemma_flatten_push(windows[n - 1].parts.all());
        } else {
            assert(windows.filter(own) == init.filter(own));
            assert(bucket_elements(windows, bucket, n) =~= bucket_elements(init, bucket, n - 1));
        }
    } else {
        assert(windows.filter(own).map_values(drawn) =~= Seq::empty());
    }
}

proof fn lemma_bucket_of_prefix<E>(windows: Seq<DrawnWindow<E>>, bucket: Bucket, n: int)
    requires
        0 <= n <= windows.len(),
    ensures
        bucket_elements(windows, bucket, n) == bucket_elements(windows.take(n), bucket, n),
    decreases n,
{
    if n > 0 {
        lemma_bucket_of_prefix(windows, bucket, n - 1);
        lemma_bucket_of_prefix(windows.take(n), bucket, n - 1);
        assert(windows.take(n).take(n - 1) =~= windows.take(n - 1));
    }
}

/// A frame shows, from the top down: the cursor, the overlay layer, the top
/// layer, the pinned windows, the closing windows, the windows, the canvas
/// layers, the widgets, the bottom layer, the outlines, the background and the
/// background layer. A fullscreen picture takes away the top layer, the closing
/// windows, the bottom layer and the background layer; one that conceals the
/// canvas takes away the canvas layers, the outlines and the background.
pub proof fn law_frame_from_top_to_bottom<E>(scene: Scene<E>, frame: Frame<E>)
    requires
        scene.composed(frame),
    ensures
        ({
            let none = Seq::<E>::empty();
            let covered = scene.coverage.output_fullscreen;
            let concealed = scene.coverage.fullscreen_conceals;
            frame.elements@ == scene.cursor@ + scene.overlay@ + (if covered {
                none
            } else {
                scene.top@
            }) + scene.group(Bucket::Pinned) + (if covered {
                none
            } else {
                scene.closing@
            }) + scene.group(Bucket::Normal) + (if concealed {
                none
            } else {
                scene.canvas_layers@
            }) + scene.group(Bucket::Widget) + (if covered {
                none
            } else {
                scene.bottom@
            }) + (if concealed {
                none
            } else {
                scene.outlines@
            }) + (if concealed {
                none
            } else {
                scene.background@
            }) + (if covered {
                none
            } else {
                scene.background_layer@
            })
        }),
        frame.cursor_count == scene.cursor@.len(),
        frame.background_start == frame.elements@.len() - (if scene.coverage.output_fullscreen {
            0
        } else {
            scene.bottom@.len() + scene.background_layer@.len()
        }) - (if scene.coverage.fullscreen_conceals {
            0
        } else {
            scene.outlines@.len() + scene.background@.len()
        }),
{
    let none = Seq::<E>::empty();
    let covered = scene.coverage.output_fullscreen;
    let concealed = scene.coverage.fullscreen_conceals;
    assert(frame.elements@ =~= scene.cursor@ + scene.overlay@ + (if covered {
        none
    } else {
        scene.top@
    }) + scene.group(Bucket::Pinned) + (if covered {
        none
    } else {
        scene.closing@
    }) + scene.group(Bucket::Normal) + (if concealed {
        none
    } else {
        scene.canvas_layers@
    }) + scene.group(Bucket::Widget) + (if covered {
        none
    } else {
        scene.bottom@
    }) + (if concealed {
        none
    } else {
        scene.outlines@
    }) + (if concealed {
        none
    } else {
        scene.background@
    }) + (if covered {
        none
    } else {
        scene.background_layer@
    }));
}

/// The prefixes are how many elements stand above each layer.
pub proof fn law_prefixes_count_what_is_above<E>(scene: Scene<E>, frame: Frame<E>)
    requires
        scene.composed(frame),
    ensures
        frame.prefixes.start_of(BlurLayer::Overlay) == scene.cursor@.len(),
        frame.prefixes.start_of(BlurLayer::Top) == scene.cursor@.len() + scene.overlay@.len(),
        frame.prefixes.start_of(BlurLayer::Pinned) == frame.prefixes.start_of(BlurLayer::Top) + (
        if scene.coverage.output_fullscreen {
            0
        } else {
            scene.top@.len()
        }),
        frame.prefixes.start_of(BlurLayer::Normal) == frame.prefixes.start_of(BlurLayer::Pinned)
            + scene.group(Bucket::Pinned).len() + (if scene.coverage.output_fullscreen {
            0
        } else {
            scene.closing@.len()
        }),
        frame.prefixes.start_of(BlurLayer::Widget) == frame.prefixes.start_of(BlurLayer::Normal)
            + scene.group(Bucket::Normal).len() + (if scene.coverage.fullscreen_conceals {
            0
        } else {
            scene.canvas_layers@.len()
        }),
{
    assert(frame.prefixes.start_of(BlurLayer::Overlay) == scene.layer_start(BlurLayer::Overlay));
    assert(frame.prefixes.start_of(BlurLayer::Top) == scene.layer_start(BlurLayer::Top));
    assert(frame.prefixes.start_of(BlurLayer::Pinned) == scene.layer_start(BlurLayer::Pinned));
    assert(frame.prefixes.start_of(BlurLayer::Normal) == scene.layer_start(BlurLayer::Normal));
    assert(frame.prefixes.start_of(BlurLayer::Widget) == scene.layer_start(BlurLayer::Widget));
}

/// `part` stands in `whole` from `at` on.
pub open spec fn stands_at<E>(whole: Seq<E>, part: Seq<E>, at: int) -> bool {
    0 <= at <= at + part.len() <= whole.len() && whole.subrange(at, at + part.len()) == part
}

/// Every part of a drawn window stands in the frame, together and in order.
pub proof fn law_every_window_is_in_the_frame<E>(scene: Scene<E>, frame: Frame<E>, i: int)
    requires
        scene.composed(frame),
        0 <= i < scene.windows@.len(),
    ensures
        exists|start: int| #[trigger]
            stands_at(frame.elements@, scene.windows@[i].parts.all(), start),
{
    let start = lemma_window_place(scene, frame, i);
    assert(stands_at(frame.elements@, scene.windows@[i].parts.all(), start));
}

/// Where a window stands in the frame.
proof fn lemma_window_place<E>(scene: Scene<E>, frame: Frame<E>, i: int) -> (start: int)
    requires
        scene.composed(frame),
        0 <= i < scene.windows@.len(),
    ensures
        ({
            let w = scene.windows@[i];
            let base = scene.layer_start(layer_of(w.bucket));
            &&& start == base + bucket_elements(scene.windows@, w.bucket, i).len()
            &&& base <= start <= start + w.parts.all().len() <= base + scene.group(w.bucket).len()
            &&& base + scene.group(w.bucket).len() <= frame.background_start
                <= frame.elements@.len()
            &&& frame.elements@.subrange(start, start + w.parts.all().len()) == w.parts.all()
        }),
{
    let w = scene.windows@[i];
    let n = scene.windows@.len() as int;
    let layer = layer_of(w.bucket);
    let base = scene.layer_start(layer);
    let offset = bucket_elements(scene.windows@, w.bucket, i).len() as int;
    let group = scene.layer_elements(layer);
    let len = w.parts.all().len() as int;
    lemma_bucket_prefix(scene.windows@, w.bucket, i, n);
    law_prefixes_locate_groups(scene, layer);
    assert(group == scene.group(w.bucket));
    let start = base + offset;
    assert(frame.elements@.subrange(start, start + len) =~= frame.elements@.subrange(
        base,
        base + group.len(),
    ).subrange(offset, offset + len));
    start
}

/// Every part of a widget comes after every part of an ordinary window, and after
/// the canvas layers, which come after that window.
pub proof fn law_widgets_are_below_the_windows<E>(
    scene: Scene<E>,
    frame: Frame<E>,
    window: int,
    widget: int,
)
    requires
        scene.composed(frame),
        0 <= window < scene.windows@.len(),
        0 <= widget < scene.windows@.len(),
        scene.windows@[window].bucket is Normal,
        scene.windows@[widget].bucket is Widget,
    ensures
        exists|a: int, b: int|
            a + scene.windows@[window].parts.all().len() <= b && #[trigger] stands_at(
                frame.elements@,
                scene.windows@[window].parts.all(),
                a,
            ) && #[trigger] stands_at(frame.elements@, scene.windows@[widget].parts.all(), b),
        !scene.coverage.fullscreen_conceals ==> exists|a: int, c: int, b: int|
            a + scene.windows@[window].parts.all().len() <= c <= c + scene.canvas_layers@.len() <= b
                && #[trigger] stands_at(frame.elements@, scene.windows@[window].parts.all(), a)
                && #[trigger] stands_at(frame.elements@, scene.canvas_layers@, c)
                && #[trigger] stands_at(frame.elements@, scene.windows@[widget].parts.all(), b),
{
    let upper = scene.windows@[window].parts.all();
    let lower = scene.windows@[widget].parts.all();
    let layers = if scene.coverage.fullscreen_conceals {
        Seq::<E>::empty()
    } else {
        scene.canvas_layers@
    };
    let a = lemma_window_place(scene, frame, window);
    let b = lemma_window_place(scene, frame, widget);
    let c = (scene.before_normal() + scene.group(Bucket::Normal)).len() as int;
    assert(scene.layer_start(BlurLayer::Widget) == c + layers.len());
    assert(frame.elements@.subrange(c, c + layers.len()) =~= layers);
    assert(stands_at(frame.elements@, layers, c));
    assert(stands_at(frame.elements@, upper, a));
    assert(stands_at(frame.elements@, lower, b));
}

/// Every part of a pinned window comes before every part of one that is not.
pub proof fn law_pinned_windows_are_on_top<E>(
    scene: Scene<E>,
    frame: Frame<E>,
    pinned: int,
    other: int,
)
    requires
        scene.composed(frame),
        0 <= pinned < scene.windows@.len(),
        0 <= other < scene.windows@.len(),
        scene.windows@[pinned].bucket is Pinned,
        !(scene.windows@[other].bucket is Pinned),
    ensures
        exists|a: int, b: int|
            a + scene.windows@[pinned].parts.all().len() <= b && #[trigger] stands_at(
                frame.elements@,
                scene.windows@[pinned].parts.all(),
                a,
            ) && #[trigger] stands_at(frame.elements@, scene.windows@[other].parts.all(), b),
{
    let upper = scene.windows@[pinned].parts.all();
    let lower = scene.windows@[other].parts.all();
    let a = lemma_window_place(scene, frame, pinned);
    let b = lemma_window_place(scene, frame, other);
    assert(stands_at(frame.elements@, upper, a));
    assert(stands_at(frame.elements@, lower, b));
}

/// The region within `bounds` is that part of the region which `bounds` cover.
/// It is empty exactly if no rectangle of it overlaps them.
pub proof fn law_region_is_clipped(rects: Seq<Rect>, bounds: Rect, x: int, y: int)
    requires
        bounds.valid(),
        crate::region::all_valid(rects),
    ensures
        crate::region::covered(clipped_rects(rects, bounds), x, y) <==> crate::region::covered(
            rects,
            x,
            y,
        ) && bounds.covers(x, y),
    decreases rects.len(),
{
    let out = clipped_rects(rects, bounds);
    if rects.len() > 0 {
        let init = rects.drop_last();
        let cut = clipped_rects(init, bounds);
        assert(crate::region::all_valid(init));
        law_region_is_clipped(init, bounds, x, y);
        crate::geometry::law_intersection_covers(rects.last(), bounds, x, y);
        if crate::region::covered(cut, x, y) {
            let i = choose|i: int| 0 <= i < cut.len() && (#[trigger] cut[i]).covers(x, y);
            assert(out[i].covers(x, y));
            let j = choose|j: int| 0 <= j < init.len() && (#[trigger] init[j]).covers(x, y);
            assert(rects[j].covers(x, y));
        }
        if rects.last().clip(bounds) is Some {
            assert(out[cut.len() as int] == rects.last().clip(bounds)->0);
        }
        if crate::region::covered(rects, x, y) {
            let j = choose|j: int| 0 <= j < rects.len() && (#[trigger] rects[j]).covers(x, y);
            if j < init.len() {
                assert(init[j].covers(x, y));
            }
        }
        if crate::region::covered(out, x, y) {
            let i = choose|i: int| 0 <= i < out.len() && (#[trigger] out[i]).covers(x, y);
            if i < cut.len() {
                assert(cut[i].covers(x, y));
            } else {
                assert(rects[rects.len() - 1].covers(x, y));
            }
        }
    }
}

proof fn lemma_clipped_away(rects: Seq<Rect>, bounds: Rect)
    ensures
        clipped_rects(rects, bounds).len() == 0 <==> forall|i: int|
            0 <= i < rects.len() ==> !(#[trigger] rects[i]).meets(bounds),
    decreases rects.len(),
{
    if rects.len() > 0 {
        let init = rects.drop_last();
        lemma_clipped_away(init, bounds);
        assert(rects[rects.len() - 1] == rects.last());
        assert(forall|i: int| 0 <= i < init.len() ==> init[i] == #[trigger] rects[i]);
        if clipped_rects(init, bounds).len() > 0 {
            let i = choose|i: int| 0 <= i < init.len() && (#[trigger] init[i]).meets(bounds);
            assert(rects[i].meets(bounds));
        }
    }
}

/// A window is frosted exactly if the shaders compiled, something of it is drawn
/// above its blur, and the configuration asks for it or its client's region
/// reaches into the window. Its request then names it, its place, its own
/// elements above the blur, whether a shadow follows them, and its group.
pub proof fn law_frosted_exactly_where_asked<E>(w: DrawnWindow<E>, start: int)
    ensures
        ({
            let bounds = Rect { loc: Point { x: 0, y: 0 }, size: w.blur.screen_rect.size };
            let reaches = w.blur.client_rects is Some && exists|i: int|
                0 <= i < (w.blur.client_rects->0)@.len() && (
                #[trigger] (w.blur.client_rects->0)@[i]).meets(bounds);
            let drawn = w.parts.popups@.len() > 0 || w.parts.bar is Some || w.parts.crossfade is Some
                || w.parts.content@.len() > 0 || w.parts.border is Some;
            &&& request_of(w, start) is Some <==> w.blur.enabled && drawn && (w.blur.window_blur
                || reaches)
            &&& request_of(w, start) matches Some(r) ==> {
                &&& r.surface_id == w.blur.surface_id
                &&& r.screen_rect == w.blur.screen_rect
                &&& r.elem_start == start
                &&& r.elem_count == w.parts.popups@.len() + w.parts.content@.len() + (
                if w.parts.bar is Some {
                    1int
                } else {
                    0
                }) + (if w.parts.crossfade is Some {
                    1int
                } else {
                    0
                }) + (if w.parts.border is Some {
                    1int
                } else {
                    0
                })
                &&& r.trailing_chrome == (if w.parts.shadow is Some {
                    1int
                } else {
                    0
                })
                &&& w.bucket is Pinned ==> r.layer is Pinned
                &&& w.bucket is Normal ==> r.layer is Normal
                &&& w.bucket is Widget ==> r.layer is Widget
                &&& r.region_rects is Some <==> reaches
                &&& r.region_rects matches Some(left) ==> left == clipped_rects(
                    (w.blur.client_rects->0)@,
                    bounds,
                )
            }
        }),
{
    let bounds = Rect { loc: Point { x: 0, y: 0 }, size: w.blur.screen_rect.size };
    if w.blur.client_rects is Some {
        lemma_clipped_away((w.blur.client_rects->0)@, bounds);
    }
}

/// The request at place `m` of a frame is that of window `i`.
pub open spec fn requested_by<E>(scene: Scene<E>, frame: Frame<E>, m: int, i: int) -> bool {
    &&& 0 <= i < scene.windows@.len()
    &&& request_of(
        scene.windows@[i],
        bucket_elements(scene.windows@, scene.windows@[i].bucket, i).len() as int,
    ) == Some(frame.requests@[m]@)
}

/// The request at place `m` of a frame is that of some window.
pub open spec fn comes_from_a_window<E>(scene: Scene<E>, frame: Frame<E>, m: int) -> bool {
    exists|i: int| #[trigger] requested_by(scene, frame, m, i)
}

/// A frame's blur requests are those of the overlay layer, those of the top layer
/// unless it is covered, and those of the frosted windows: each of these comes
/// from a window, and none is left out. The request's elements stand in the frame
/// where it says, counted from its layer's prefix.
pub proof fn law_frame_requests_every_blur<E>(scene: Scene<E>, frame: Frame<E>)
    requires
        scene.composed(frame),
    ensures
        ({
            let top = if scene.coverage.output_fullscreen {
                Seq::empty()
            } else {
                scene.top_blur@
            };
            let layers = scene.overlay_blur@.len() + top.len();
            &&& layers <= frame.requests@.len()
            &&& forall|m: int|
                0 <= m < scene.overlay_blur@.len() ==> (#[trigger] frame.requests@[m])@
                    == scene.overlay_blur@[m]@
            &&& forall|m: int|
                scene.overlay_blur@.len() <= m < layers ==> (#[trigger] frame.requests@[m])@
                    == top[m - scene.overlay_blur@.len()]@
            &&& forall|m: int|
                layers <= m < frame.requests@.len() ==> #[trigger] comes_from_a_window(
                    scene,
                    frame,
                    m,
                )
            &&& forall|i: int|
                0 <= i < scene.windows@.len() && request_of(#[trigger] scene.windows@[i], 0) is Some
                    ==> exists|m: int|
                    layers <= m < frame.requests@.len() && #[trigger] requested_by(
                        scene,
                        frame,
                        m,
                        i,
                    )
        }),
        forall|m: int, i: int| #[trigger]
            requested_by(scene, frame, m, i) ==> ({
                let r = frame.requests@[m]@;
                let start = frame.prefixes.start_of(r.layer) + r.elem_start;
                frame.elements@.subrange(start, start + r.elem_count)
                    == scene.windows@[i].parts.body()
            }),
{
    let n = scene.windows@.len() as int;
    let top = if scene.coverage.output_fullscreen {
        Seq::empty()
    } else {
        scene.top_blur@
    };
    let front = request_views(scene.overlay_blur@) + request_views(top);
    let layers = front.len() as int;
    let own = window_requests(scene.windows@, n);
    let views = request_views(frame.requests@);
    assert(views == front + own);
    assert(forall|m: int|
        0 <= m < frame.requests@.len() ==> (#[trigger] frame.requests@[m])@ == views[m]);
    assert(layers == scene.overlay_blur@.len() + top.len());
    assert(views.len() == frame.requests@.len());
    assert forall|m: int| 0 <= m < scene.overlay_blur@.len() implies (
    #[trigger] frame.requests@[m])@ == scene.overlay_blur@[m]@ by {
        assert(views[m] == request_views(scene.overlay_blur@)[m]);
    }
    assert forall|m: int| scene.overlay_blur@.len() <= m < layers implies (
    #[trigger] frame.requests@[m])@ == top[m - scene.overlay_blur@.len()]@ by {
        assert(views[m] == request_views(top)[m - scene.overlay_blur@.len()]);
    }
    assert forall|m: int|
        layers <= m < frame.requests@.len() implies #[trigger] comes_from_a_window(
        scene,
        frame,
        m,
    ) by {
        assert(views[m] == own[m - layers]);
        let i = lemma_request_source(scene.windows@, n, m - layers);
        assert(requested_by(scene, frame, m, i));
    }
    assert forall|i: int|
        0 <= i < n && request_of(#[trigger] scene.windows@[i], 0) is Some implies exists|m: int|
        layers <= m < frame.requests@.len() && #[trigger] requested_by(scene, frame, m, i) by {
        let k = lemma_request_place(scene.windows@, n, i);
        assert(views[layers + k] == own[k]);
        assert(requested_by(scene, frame, layers + k, i));
    }
    assert forall|m: int, i: int| #[trigger] requested_by(scene, frame, m, i) implies ({
        let r = frame.requests@[m]@;
        let start = frame.prefixes.start_of(r.layer) + r.elem_start;
        frame.elements@.subrange(start, start + r.elem_count) == scene.windows@[i].parts.body()
    }) by {
        law_requests_locate_windows(scene, i);
    }
}

proof fn lemma_request_source<E>(windows: Seq<DrawnWindow<E>>, n: int, k: int) -> (i: int)
    requires
        0 <= n <= windows.len(),
        0 <= k < window_requests(windows, n).len(),
    ensures
        0 <= i < n,
        request_of(windows[i], bucket_elements(windows, windows[i].bucket, i).len() as int) == Some(
            window_requests(windows, n)[k],
        ),
    decreases n,
{
    if k < window_requests(windows, n - 1).len() {
        lemma_request_source(windows, n - 1, k)
    } else {
        n - 1
    }
}

proof fn lemma_request_place<E>(windows: Seq<DrawnWindow<E>>, n: int, i: int) -> (k: int)
    requires
        0 <= i < n <= windows.len(),
        request_of(windows[i], 0) is Some,
    ensures
        0 <= k < window_requests(windows, n).len(),
        request_of(windows[i], bucket_elements(windows, windows[i].bucket, i).len() as int) == Some(
            window_requests(windows, n)[k],
        ),
    decreases n,
{
    if i < n - 1 {
        lemma_request_place(windows, n - 1, i)
    } else {
        window_requests(windows, n - 1).len() as int
    }
}

/// A locked session's frame is the cursor, all of it, over the lock surface.
pub proof fn law_lock_frame_is_the_cursor_over_the_surface<E>(
    scene: Scene<E>,
    lock_surface: Option<Vec<E>>,
    frame: Frame<E>,
)
    requires
        scene.locked(lock_surface, frame),
    ensures
        frame.elements@.take(scene.cursor@.len() as int) == scene.cursor@,
        lock_surface matches Some(surface) ==> frame.elements@.skip(scene.cursor@.len() as int)
            == surface@,
        lock_surface is None ==> frame.elements@.len() == scene.cursor@.len(),
        frame.requests@.len() == 0,
        frame.cursor_count == scene.cursor@.len(),
        frame.background_start == frame.elements@.len(),
{
    assert(frame.elements@.take(scene.cursor@.len() as int) =~= scene.cursor@);
    if let Some(surface) = lock_surface {
        assert(frame.elements@.skip(scene.cursor@.len() as int) =~= surface@);
    }
}

proof fn lemma_captured_group<E>(
    windows: Seq<CapturedWindow<E>>,
    isolate: Option<u64>,
    widget: bool,
)
    ensures
        captured(windows, isolate, widget, windows.len() as int) == windows.filter(
            |w: CapturedWindow<E>| w.widget == widget && w.shown(isolate),
        ).map_values(|w: CapturedWindow<E>| w.parts.all()).flatten(),
    decreases windows.len(),
{
    let own = |w: CapturedWindow<E>| w.widget == widget && w.shown(isolate);
    let drawn = |w: CapturedWindow<E>| w.parts.all();
    let n = windows.len() as int;
    reveal(Seq::filter);
    if n > 0 {
        let init = windows.drop_last();
        lemma_captured_group(init, isolate, widget);
        lemma_captured_of_prefix(windows, isolate, widget, n - 1);
        assert(windows.take(n - 1) =~= init);
        let kept = init.filter(own).map_values(drawn);
        let last = windows[n - 1];
        if last.widget == widget && last.shown(isolate) {
            assert(windows.filter(own).map_values(drawn) =~= kept.push(last.parts.all()));
            kept.lemma_flatten_push(last.parts.all());
        } else {
            assert(windows.filter(own) == init.filter(own));
            assert(captured(windows, isolate, widget, n) =~= captured(init, isolate, widget, n - 1));
        }
    } else {
        assert(windows.filter(own).map_values(drawn) =~= Seq::empty());
    }
}

proof fn lemma_captured_of_prefix<E>(
    windows: Seq<CapturedWindow<E>>,
    isolate: Option<u64>,
    widget: bool,
    n: int,
)
    requires
        0 <= n <= windows.len(),
    ensures
        captured(windows, isolate, widget, n) == captured(windows.take(n), isolate, widget, n),
    decreases n,
{
    if n > 0 {
        lemma_captured_of_prefix(windows, isolate, widget, n - 1);
        lemma_captured_of_prefix(windows.take(n), isolate, widget, n - 1);
        assert(windows.take(n).take(n - 1) =~= windows.take(n - 1));
    }
}

/// A capture of the whole canvas shows, from the top down, every window that is
/// neither a widget nor bound to a screen, the canvas layers, and every such
/// widget.
pub proof fn law_canvas_capture_from_top_to_bottom<E>(scene: CaptureScene<E>)
    requires
        scene.isolate is None,
    ensures
        scene.foreground() == scene.windows@.filter(
            |w: CapturedWindow<E>| w.widget == false && !w.pinned && !w.fullscreen,
        ).map_values(|w: CapturedWindow<E>| w.parts.all()).flatten() + scene.canvas_layers@
            + scene.windows@.filter(
            |w: CapturedWindow<E>| w.widget == true && !w.pinned && !w.fullscreen,
        ).map_values(|w: CapturedWindow<E>| w.parts.all()).flatten(),
{
    lemma_captured_group(scene.windows@, scene.isolate, false);
    lemma_captured_group(scene.windows@, scene.isolate, true);
    assert((|w: CapturedWindow<E>| w.widget == false && w.shown(scene.isolate)) =~= (
    |w: CapturedWindow<E>| w.widget == false && !w.pinned && !w.fullscreen));
    assert((|w: CapturedWindow<E>| w.widget == true && w.shown(scene.isolate)) =~= (
    |w: CapturedWindow<E>| w.widget == true && !w.pinned && !w.fullscreen));
}

/// An isolated capture shows its target, all of it, and no canvas layer.
pub proof fn law_isolated_capture_from_top_to_bottom<E>(scene: CaptureScene<E>, target: u64)
    requires
        scene.isolate == Some(target),
    ensures
        scene.foreground() == scene.windows@.filter(
            |w: CapturedWindow<E>| w.widget == false && w.id == target,
        ).map_values(|w: CapturedWindow<E>| w.parts.all()).flatten() + scene.windows@.filter(
            |w: CapturedWindow<E>| w.widget == true && w.id == target,
        ).map_values(|w: CapturedWindow<E>| w.parts.all()).flatten(),
{
    lemma_captured_group(scene.windows@, scene.isolate, false);
    lemma_captured_group(scene.windows@, scene.isolate, true);
    assert((|w: CapturedWindow<E>| w.widget == false && w.shown(scene.isolate)) =~= (
    |w: CapturedWindow<E>| w.widget == false && w.id == target));
    assert((|w: CapturedWindow<E>| w.widget == true && w.shown(scene.isolate)) =~= (
    |w: CapturedWindow<E>| w.widget == true && w.id == target));
    let upper = scene.shown(false);
    assert(scene.foreground() =~= upper + scene.shown(true));
}

/// A background cache is made only where the canvas can be seen and there is
/// none, and shrunk exactly while the canvas is concealed.
pub proof fn law_background_is_made_once(conceals: bool, caches: BackgroundCaches)
    ensures
        step_for(conceals, caches) is Shrink <==> conceals,
        step_for(conceals, caches) is Init <==> !conceals && !(caches.element || caches.tile_chunks
            || caches.shader_chunks),
{
}

} // verus!
