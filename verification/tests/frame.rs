use driftwm::blur::cadence::SharedBlur;
use driftwm::blur::plan::{BlurLayer, BlurRequestData};
use driftwm::chrome::DrawnChrome;
use driftwm::frame::{
    BackgroundCaches, BackgroundSource, BackgroundStep, BlurWish, Bucket, CaptureScene,
    CapturedWindow, ChromeMetrics, CornerClip, Coverage, DrawnWindow, PartPlan, Scene, Shaders,
    StageFlags, WindowParts, background_source, background_step, bucket_for, captures_element,
    compose_capture_elements, compose_frame, compose_lock_frame,
    compose_output_frame, gates, insert_error_bar,
    is_drawable, place_window, suspended_draw_box, window_draw_box, window_parts,
};
use driftwm::geometry::{Point, Rect, Size};
use driftwm::state::lock::SessionLock;
use driftwm::state::output::{PinPlace, WindowTransform};
use driftwm::state::render_cache::RenderCache;
use driftwm::stage::{StageDraw, StageEntry, StageView, plan_capture, plan_frame};

fn rect(x: i32, y: i32, w: i32, h: i32) -> Rect {
    Rect::new(Point::new(x, y), Size::new(w, h))
}

fn no_blur() -> BlurWish {
    BlurWish {
        surface_id: 0,
        enabled: true,
        window_blur: false,
        screen_rect: rect(0, 0, 0, 0),
        client_rects: None,
    }
}

fn blur(surface_id: u64, client_rects: Option<Vec<Rect>>, window_blur: bool) -> BlurWish {
    BlurWish {
        surface_id,
        enabled: true,
        window_blur,
        screen_rect: rect(5, 6, 100, 50),
        client_rects,
    }
}

fn window(bucket: Bucket, content: &'static str, blur: BlurWish) -> DrawnWindow<&'static str> {
    DrawnWindow {
        bucket,
        parts: WindowParts {
            popups: vec![],
            bar: None,
            crossfade: None,
            content: vec![content],
            border: None,
            shadow: None,
        },
        blur,
    }
}

fn decorated(bucket: Bucket, blur: BlurWish) -> DrawnWindow<&'static str> {
    DrawnWindow {
        bucket,
        parts: WindowParts {
            popups: vec!["popup"],
            bar: Some("bar"),
            crossfade: Some("crossfade"),
            content: vec!["content"],
            border: Some("border"),
            shadow: Some("shadow"),
        },
        blur,
    }
}

fn layer_request(surface_id: u64, layer: BlurLayer) -> BlurRequestData {
    BlurRequestData {
        surface_id,
        screen_rect: rect(0, 0, 10, 10),
        elem_start: 0,
        elem_count: 1,
        trailing_chrome: 0,
        layer,
        region_rects: None,
    }
}

fn scene(coverage: Coverage, windows: Vec<DrawnWindow<&'static str>>) -> Scene<&'static str> {
    Scene {
        coverage,
        cursor: vec!["cursor"],
        overlay: vec!["overlay"],
        overlay_blur: vec![layer_request(1, BlurLayer::Overlay)],
        top: vec!["top"],
        top_blur: vec![layer_request(2, BlurLayer::Top)],
        closing: vec!["closing"],
        windows,
        canvas_layers: vec!["canvas layer"],
        bottom: vec!["bottom"],
        outlines: vec!["outline"],
        background: vec!["background"],
        background_layer: vec!["background layer"],
    }
}

fn open_scene() -> Coverage {
    Coverage {
        output_fullscreen: false,
        fullscreen_conceals: false,
    }
}

#[test]
fn a_frame_is_stacked_from_cursor_to_background() {
    let frame = compose_frame(scene(
        open_scene(),
        vec![
            window(Bucket::Widget, "widget", no_blur()),
            window(Bucket::Normal, "first", no_blur()),
            window(Bucket::Pinned, "pinned", no_blur()),
            window(Bucket::Normal, "second", no_blur()),
        ],
    ));
    assert_eq!(
        frame.elements,
        vec![
            "cursor",
            "overlay",
            "top",
            "pinned",
            "closing",
            "first",
            "second",
            "canvas layer",
            "widget",
            "bottom",
            "outline",
            "background",
            "background layer",
        ]
    );
    assert_eq!(frame.cursor_count, 1);
    assert_eq!(frame.background_start, 9);
    assert_eq!(frame.prefixes.overlay, 1);
    assert_eq!(frame.prefixes.top, 2);
    assert_eq!(frame.prefixes.pinned, 3);
    assert_eq!(frame.prefixes.normal, 5);
    assert_eq!(frame.prefixes.widget, 8);
}

#[test]
fn a_concealing_picture_leaves_cursor_overlay_and_its_windows() {
    let coverage = Coverage {
        output_fullscreen: true,
        fullscreen_conceals: true,
    };
    let frame = compose_frame(scene(
        coverage,
        vec![window(Bucket::Normal, "fullscreen", no_blur())],
    ));
    assert_eq!(frame.elements, vec!["cursor", "overlay", "fullscreen"]);
    assert_eq!(frame.requests.len(), 1);
    assert_eq!(frame.requests[0].surface_id, 1);
    assert_eq!(frame.background_start, 3);
}

#[test]
fn a_translucent_picture_shows_the_canvas_but_not_the_layers() {
    let coverage = Coverage {
        output_fullscreen: true,
        fullscreen_conceals: false,
    };
    let frame = compose_frame(scene(
        coverage,
        vec![window(Bucket::Normal, "fullscreen", no_blur())],
    ));
    assert_eq!(
        frame.elements,
        vec!["cursor", "overlay", "fullscreen", "canvas layer", "outline", "background"]
    );
    let g = gates(&coverage);
    assert!(!g.closing && !g.top_layer && !g.bottom_layer && !g.background_layer);
    assert!(g.canvas_layers && g.outlines && g.background);
}

#[test]
fn requests_name_a_windows_own_elements() {
    let frame = compose_frame(scene(
        open_scene(),
        vec![
            window(Bucket::Normal, "above", no_blur()),
            decorated(Bucket::Normal, blur(7, None, true)),
        ],
    ));
    let ids: Vec<u64> = frame.requests.iter().map(|r| r.surface_id).collect();
    assert_eq!(ids, vec![1, 2, 7]);
    let r = &frame.requests[2];
    assert_eq!(r.layer, BlurLayer::Normal);
    assert_eq!((r.elem_start, r.elem_count, r.trailing_chrome), (1, 5, 1));
    assert_eq!(r.screen_rect, rect(5, 6, 100, 50));
    let start = frame.prefixes.normal + r.elem_start;
    assert_eq!(
        frame.elements[start..start + r.elem_count],
        ["popup", "bar", "crossfade", "content", "border"]
    );
    assert_eq!(frame.elements[start + r.elem_count], "shadow");
}

#[test]
fn a_client_region_is_clipped_to_its_window() {
    let mut target: Vec<&str> = vec![];
    let regions = vec![rect(-10, -10, 30, 30), rect(200, 0, 5, 5), rect(90, 40, 50, 50)];
    let r = place_window(&mut target, window(Bucket::Widget, "w", blur(3, Some(regions), false)));
    let r = r.unwrap();
    assert_eq!(r.layer, BlurLayer::Widget);
    assert_eq!(
        r.region_rects,
        Some(vec![rect(0, 0, 20, 20), rect(90, 40, 10, 10)])
    );
}

#[test]
fn requests_need_a_region_and_elements() {
    let outside = || Some(vec![rect(200, 0, 5, 5)]);
    let mut target: Vec<&str> = vec![];
    let none = place_window(&mut target, window(Bucket::Normal, "w", blur(3, outside(), false)));
    assert!(none.is_none());
    let whole = place_window(&mut target, window(Bucket::Normal, "w", blur(3, outside(), true)));
    assert_eq!(whole.unwrap().region_rects, None);
    let opted_out =
        place_window(&mut target, window(Bucket::Normal, "w", blur(3, Some(vec![]), false)));
    assert!(opted_out.is_none());
    let mut target: Vec<&str> = vec!["before"];
    let empty = DrawnWindow {
        bucket: Bucket::Normal,
        parts: WindowParts {
            popups: vec![],
            bar: None,
            crossfade: None,
            content: vec![],
            border: None,
            shadow: Some("shadow"),
        },
        blur: blur(3, None, true),
    };
    assert!(place_window(&mut target, empty).is_none());
    assert_eq!(target, vec!["before", "shadow"]);
}

#[test]
fn a_lock_frame_is_cursor_and_lock_surface() {
    let mut elements = vec!["cursor", "overlay", "window"];
    insert_error_bar(&mut elements, 1, vec!["bar", "text"]);
    assert_eq!(elements, vec!["cursor", "bar", "text", "overlay", "window"]);
    assert_eq!(
        compose_lock_frame(vec!["cursor"], Some(vec!["lock"])),
        vec!["cursor", "lock"]
    );
    assert_eq!(compose_lock_frame(vec!["cursor"], None), vec!["cursor"]);

    let mut cache: RenderCache<u8, u8, u8, u8, u8> = RenderCache::new();
    cache.shared_blur.insert("A".to_string(), SharedBlur::new());
    cache.shared_blur.insert("B".to_string(), SharedBlur::new());
    let pending = |keep_lock_frames| SessionLock::Pending {
        locker: 1u8,
        ready_outputs: vec![],
        keep_lock_frames,
    };
    let desktop = || scene(open_scene(), vec![window(Bucket::Normal, "window", no_blur())]);
    let lock = Some(vec!["lock"]);
    let frame = compose_output_frame(&pending(false), &mut cache, "A", lock.clone(), desktop());
    assert_eq!(frame.elements, compose_frame(desktop()).elements);
    assert!(cache.shared_blur.contains("A"));
    let frame = compose_output_frame(&pending(true), &mut cache, "A", lock, desktop());
    assert_eq!(frame.elements, vec!["cursor", "lock"]);
    assert!(frame.requests.is_empty());
    assert_eq!((frame.cursor_count, frame.background_start), (1, 2));
    assert!(!cache.shared_blur.contains("A") && cache.shared_blur.contains("B"));
    let locked = SessionLock::Locked {
        lock: 1u8,
        unconfirmed: false,
        awaiting_present: vec![],
    };
    let frame = compose_output_frame(&locked, &mut cache, "B", None, desktop());
    assert_eq!(frame.elements, vec!["cursor"]);
}

#[test]
fn a_capture_has_windows_layers_widgets_and_background() {
    let captured = |id: u64, name: &'static str| CapturedWindow {
        id,
        widget: false,
        pinned: false,
        fullscreen: false,
        parts: window(Bucket::Normal, name, no_blur()).parts,
    };
    let scene = |isolate| CaptureScene {
        isolate,
        windows: vec![
            CapturedWindow {
                widget: true,
                ..captured(1, "widget")
            },
            CapturedWindow {
                pinned: true,
                ..captured(2, "pinned")
            },
            captured(3, "window"),
            CapturedWindow {
                fullscreen: true,
                ..captured(4, "fullscreen")
            },
        ],
        canvas_layers: vec!["canvas layer"],
        background: vec!["background"],
    };
    assert_eq!(
        compose_capture_elements(scene(None)),
        vec!["window", "canvas layer", "widget", "background"]
    );
    for (id, name) in [(1, "widget"), (2, "pinned"), (3, "window"), (4, "fullscreen")] {
        assert_eq!(compose_capture_elements(scene(Some(id))), vec![name, "background"]);
    }
    assert_eq!(compose_capture_elements(scene(Some(5))), vec!["background"]);
    assert!(captures_element(None, 4));
    assert!(captures_element(Some(4), 4));
    assert!(!captures_element(Some(4), 5));
}

#[test]
fn background_caches_are_shrunk_built_or_kept() {
    let no_cache = BackgroundCaches {
        element: false,
        tile_chunks: false,
        shader_chunks: false,
    };
    let tiles = BackgroundCaches {
        tile_chunks: true,
        ..no_cache
    };
    assert_eq!(background_step(true, &no_cache), BackgroundStep::Shrink);
    assert_eq!(background_step(false, &no_cache), BackgroundStep::Init);
    assert_eq!(background_step(false, &tiles), BackgroundStep::Keep);
    assert_eq!(background_source(true, &tiles), BackgroundSource::Nothing);
    assert_eq!(background_source(false, &tiles), BackgroundSource::TileChunks);
    let all = BackgroundCaches {
        element: true,
        tile_chunks: true,
        shader_chunks: true,
    };
    assert_eq!(background_source(false, &all), BackgroundSource::ShaderChunks);
    let element = BackgroundCaches {
        element: true,
        ..no_cache
    };
    assert_eq!(background_source(false, &element), BackgroundSource::Element);
    assert_eq!(background_source(false, &no_cache), BackgroundSource::Nothing);
}

const METRICS: ChromeMetrics = ChromeMetrics {
    shadow_radius: 10,
    title_bar_height: 25,
    border_width: 2,
};

const CHROME: DrawnChrome = DrawnChrome {
    ssd_bar: true,
    border_width: 3,
    corner_radius: 8,
    shadow: true,
};

const SHADERS: Shaders = Shaders {
    corner_clip: true,
    border: true,
    shadow: true,
};

#[test]
fn window_parts_follow_the_chrome() {
    let bbox = rect(100, 100, 50, 40);
    assert_eq!(window_draw_box(bbox, &CHROME, &METRICS), rect(87, 62, 76, 91));
    assert_eq!(window_draw_box(bbox, &DrawnChrome::none(), &METRICS), bbox);
    assert_eq!(suspended_draw_box(bbox, &METRICS), rect(88, 63, 74, 89));
    let plan = window_parts(&CHROME, false, false, &SHADERS);
    assert_eq!(
        plan,
        PartPlan {
            bar: true,
            clip: CornerClip::Bottom,
            border: true,
            shadow: true
        }
    );
    let barless = DrawnChrome {
        ssd_bar: false,
        ..CHROME
    };
    assert_eq!(window_parts(&barless, false, false, &SHADERS).clip, CornerClip::All);
    let bare = window_parts(&barless, true, false, &SHADERS);
    assert_eq!(
        bare,
        PartPlan {
            bar: false,
            clip: CornerClip::Plain,
            border: false,
            shadow: false
        }
    );
    assert_eq!(window_parts(&CHROME.drawn(true, false), false, true, &SHADERS), bare);
    let no_clip = Shaders {
        corner_clip: false,
        ..SHADERS
    };
    assert_eq!(window_parts(&barless, false, false, &no_clip), bare);
    assert_eq!(bucket_for(true, true), Bucket::Pinned);
    assert_eq!(bucket_for(false, true), Bucket::Widget);
    assert_eq!(bucket_for(false, false), Bucket::Normal);
}

const FLAGS: StageFlags = StageFlags {
    suspended: false,
    placed: true,
    has_surface: true,
    hidden_by_adopt: false,
    fullscreen_here: false,
};

fn entry(id: u64, x: i32) -> StageEntry {
    StageEntry {
        id,
        flags: FLAGS,
        loc: Point::new(x, 0),
        geometry: Point::new(3, 4),
        bbox: rect(x, 0, 100, 100),
        animated: None,
        configured: CHROME,
        undecorated: false,
        shows_fullscreen: false,
        shows_pinned: false,
        fullscreen_on: None,
        pin: None,
        covers_usable_area: false,
        widget: false,
    }
}

fn stage_view(output_fullscreen: bool) -> StageView {
    StageView {
        output: 1,
        output_fullscreen,
        visible: rect(0, 0, 1000, 1000),
        metrics: METRICS,
        shaders: SHADERS,
    }
}

fn indices(draws: &[StageDraw]) -> Vec<usize> {
    draws
        .iter()
        .map(|d| match d {
            StageDraw::StandIn { index } => *index,
            StageDraw::Window { index, .. } => *index,
        })
        .collect()
}

#[test]
fn a_frame_draws_the_stage_from_the_top() {
    let mut far = entry(2, 5000);
    let stage = [entry(1, 0), far, entry(3, 200)];
    assert_eq!(indices(&plan_frame(&stage, &stage_view(false))), vec![2, 0]);
    // An animation that sweeps the visible part keeps the window drawn.
    far.animated = Some(rect(900, 0, 5000, 100));
    let stage = [entry(1, 0), far, entry(3, 200)];
    assert_eq!(indices(&plan_frame(&stage, &stage_view(false))), vec![2, 1, 0]);
}

#[test]
fn chrome_past_the_window_keeps_it_drawn() {
    // The window ends at -5; its shadow and border reach 8 pixels in.
    assert_eq!(indices(&plan_frame(&[entry(1, -105)], &stage_view(false))), vec![0]);
    assert_eq!(indices(&plan_frame(&[entry(1, -113)], &stage_view(false))), vec![] as Vec<usize>);
    // Chrome can reach past the coordinates there are.
    let view = stage_view(false);
    let mut edge = entry(1, i32::MIN + 7);
    assert!(!edge.frame_can_measure(&view));
    assert!(!edge.capture_can_measure(&view, None));
    assert!(edge.capture_can_measure(&view, Some(2)));
    edge.bbox.loc.x = i32::MIN + 13;
    assert!(edge.frame_can_measure(&view));
    assert!(edge.capture_can_measure(&view, Some(1)));
}

#[test]
fn a_covered_output_draws_only_its_picture() {
    let mut full = entry(2, 0);
    full.flags.fullscreen_here = true;
    full.shows_fullscreen = true;
    full.fullscreen_on = Some(1);
    let mut stand_in = entry(3, 0);
    stand_in.flags.suspended = true;
    let stage = [entry(1, 0), full, stand_in];
    let draws = plan_frame(&stage, &stage_view(true));
    assert_eq!(indices(&draws), vec![1]);
    match draws[0] {
        StageDraw::Window { bucket, chrome, parts, .. } => {
            assert_eq!(bucket, Bucket::Normal);
            assert_eq!(chrome, DrawnChrome::none());
            assert!(!parts.bar && !parts.border && !parts.shadow);
        }
        _ => panic!("the picture is a window"),
    }
    let uncovered = plan_frame(&stage, &stage_view(false));
    assert_eq!(uncovered[0], StageDraw::StandIn { index: 2 });
    assert!(!is_drawable(&stage[2].flags, true));
}

#[test]
fn windows_that_are_not_shown_are_not_drawn() {
    let mut unplaced = entry(1, 0);
    unplaced.flags.placed = false;
    let mut no_surface = entry(2, 0);
    no_surface.flags.has_surface = false;
    let mut adopting = entry(3, 0);
    adopting.flags.hidden_by_adopt = true;
    let mut elsewhere = entry(4, 0);
    elsewhere.fullscreen_on = Some(2);
    let mut pinned_elsewhere = entry(5, 0);
    pinned_elsewhere.pin = Some(PinPlace {
        output: Some(2),
        screen_pos: Point::new(0, 0),
    });
    let stage = [unplaced, no_surface, adopting, elsewhere, pinned_elsewhere];
    assert!(plan_frame(&stage, &stage_view(false)).is_empty());
}

#[test]
fn covering_the_usable_area_squares_the_drawn_window() {
    let mut e = entry(1, 0);
    e.covers_usable_area = true;
    e.shows_pinned = true;
    e.pin = Some(PinPlace {
        output: Some(1),
        screen_pos: Point::new(20, 30),
    });
    e.widget = true;
    match plan_frame(&[e], &stage_view(false))[0] {
        StageDraw::Window {
            bucket,
            chrome,
            parts,
            place,
            ..
        } => {
            assert_eq!(bucket, Bucket::Pinned);
            assert_eq!(place, WindowTransform::Screen { x: 17, y: 26 });
            assert_eq!(chrome, CHROME.drawn(false, true));
            assert!(parts.bar && parts.border && !parts.shadow);
        }
        _ => panic!("a window"),
    }
}

#[test]
fn captures_keep_their_own_rules() {
    let mut pinned = entry(1, 0);
    pinned.shows_pinned = true;
    pinned.pin = Some(PinPlace {
        output: Some(1),
        screen_pos: Point::new(0, 0),
    });
    let mut stand_in = entry(2, 5000);
    stand_in.flags.suspended = true;
    let mut covering = entry(3, 0);
    covering.covers_usable_area = true;
    let mut fullscreen = entry(4, 0);
    fullscreen.fullscreen_on = Some(1);
    let stage = [pinned, stand_in, covering, fullscreen];
    let view = stage_view(false);
    let all = plan_capture(&stage, &view, None);
    assert_eq!(indices(&all), vec![2, 1]);
    match all[0] {
        StageDraw::Window { chrome, .. } => assert_eq!(chrome, CHROME),
        _ => panic!("a window"),
    }
    let isolated = plan_capture(&stage, &view, Some(1));
    assert_eq!(indices(&isolated), vec![0]);
    match isolated[0] {
        StageDraw::Window { bucket, place, .. } => {
            assert_eq!(bucket, Bucket::Normal);
            assert_eq!(place, WindowTransform::Canvas { x: -3, y: -4 });
        }
        _ => panic!("a window"),
    }
    assert_eq!(indices(&plan_capture(&stage, &view, Some(4))), vec![3]);
    let parts = |e: &StageEntry| {
        let window = e.captured(window(Bucket::Normal, "x", no_blur()).parts);
        (window.id, window.pinned, window.fullscreen)
    };
    assert_eq!(parts(&stage[0]), (1, true, false));
    assert_eq!(parts(&stage[1]), (2, false, false));
    assert_eq!(parts(&stage[3]), (4, false, true));
}
