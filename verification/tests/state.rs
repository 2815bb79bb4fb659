use driftwm::blur::cache::BlurCache;
use driftwm::blur::cadence::SharedBlur;
use driftwm::capture::get_capture_state;
use driftwm::frame::BackgroundStep;
use driftwm::geometry::{Point, Rect, Size};
use driftwm::help::describe::Direction;
use driftwm::state::activation::{
    HintedWindow, activate_exclusive, activate_riding_batch, set_activated_exclusive,
};
use driftwm::state::edge_pan::LayoutCell;
use driftwm::state::fit::{
    FillState, FillStep, FillTarget, FillWindow, FitState, FitStep, compute_fill_geometry,
    inflate_constraint,
};
use driftwm::state::interaction::{
    ButtonEvent, Inhibitor, InteractiveMoves, MoveTarget, PendingMiddleClick,
    client_is_unrestricted, flush_middle_click, flush_pending_middle_click, is_canvas_window,
    log_err, refresh_idle_inhibit,
};
use driftwm::state::invariants::{DecorationKey, OutputFacts, StageFacts, Violation};
use driftwm::state::layers::{
    canvas_layer_applied_rule, canvas_layer_indices_sorted, layers_on_sorted,
};
use driftwm::state::lock::SessionLock;
use driftwm::state::output::{
    OutputEntry, OutputPosition, Outputs, PendingCapture, PendingKind, PinPlace, PointerMove,
    WindowTransform, active_output, fail_dead_captures, output_at_layout_pos, output_by_name,
    output_for_window, output_in_direction, output_showing_canvas_point,
    output_shows_canvas_point, recompute_decoration_scale, update_output_from_camera,
    window_render_transform,
};
use driftwm::state::pinned::{
    Chrome, Pin, PinError, PinnedSite, UnpinStep, canvas_layer_chrome, clamp_pin_frame,
    pin_window, reassign_orphaned_pinned, send_pinned_to_output, sync_pinned_locs, unpin_window,
};
use driftwm::state::redraw::{
    BackgroundOutput, DirtyTarget, OtherMotion, OutputMotion, Redraws, VisibleOutput,
    background_animation_due, background_animation_due_any, background_render_eligible_outputs,
    dirty_target, has_active_animations,
};
use driftwm::state::render_cache::{
    BlurEntry, DecorationEntry, RenderCache, ShaderChunks, StateCounts, find_blur,
};
use driftwm::tiles::cache::{BgChunkCache, Upload, UploadRound};
use driftwm::tiles::lru::ChunkKey;
use driftwm::tiles::pyramid::plan_pyramid;
use driftwm::tiles::tiff::{LodMetadata, TiffColor};

fn rect(x: i32, y: i32, w: i32, h: i32) -> Rect {
    Rect::new(Point::new(x, y), Size::new(w, h))
}

fn names(list: &[&str]) -> Vec<String> {
    list.iter().map(|s| s.to_string()).collect()
}

// Layers

#[test]
fn layers_are_stacked_by_rank_and_age() {
    let orders = [None, Some(5), Some(-1), None];
    assert_eq!(layers_on_sorted(&orders, true), vec![1, 3, 0, 2]);
    assert_eq!(canvas_layer_indices_sorted(&orders, true), vec![1, 0, 3, 2]);
    let orders = [None, Some(5), None];
    assert_eq!(layers_on_sorted(&orders, false), vec![2, 1, 0]);
    assert_eq!(canvas_layer_indices_sorted(&orders, false), vec![0, 1, 2]);
}

#[test]
fn rules_apply_by_instance() {
    let spaces = names(&["conky", "clock", "conky", "conky"]);
    assert_eq!(canvas_layer_applied_rule(&spaces, 0), Some(0));
    assert_eq!(canvas_layer_applied_rule(&spaces, 1), Some(0));
    assert_eq!(canvas_layer_applied_rule(&spaces, 3), Some(2));
    assert_eq!(canvas_layer_applied_rule(&spaces, 4), None);
}

// Pins

const CHROME: Chrome = Chrome { bar: 30, border: 2 };

#[test]
fn a_pinned_frame_stays_on_the_output() {
    let output = Size::new(1000, 800);
    let content = Size::new(200, 100);
    let clamp = |x, y| clamp_pin_frame(Point::new(x, y), content, output, CHROME);
    assert_eq!(clamp(300, 300), Point::new(300, 300));
    assert_eq!(clamp(-50, 0), Point::new(2, 32));
    assert_eq!(clamp(2000, 2000), Point::new(798, 698));
    let small = clamp_pin_frame(Point::new(90, 90), content, Size::new(100, 100), CHROME);
    assert_eq!(small, Point::new(2, 32));
}

#[test]
fn pinning_needs_an_output_and_a_place() {
    assert_eq!(canvas_layer_chrome(Some(4)), Chrome { bar: 0, border: 4 });
    assert_eq!(canvas_layer_chrome(None), Chrome { bar: 0, border: 0 });
    let at = Point::new(10, 20);
    assert!(pin_window(true, None, None).unwrap().is_none());
    let site = pin_window(false, Some("DP-1"), Some(at)).unwrap().unwrap();
    assert_eq!(site.output, "DP-1");
    assert_eq!(site.screen_pos, at);
    let no_output = pin_window(false, None, Some(at)).err().unwrap();
    assert_eq!(no_output, PinError::NoOutput);
    assert_eq!(no_output.message(), "no output to pin to");
    let no_position = pin_window(false, Some("DP-1"), None).err().unwrap();
    assert_eq!(no_position, PinError::NoPosition);
    assert_eq!(no_position.message(), "window has no position");
}

fn pin(window: u64, output: &str, x: i32) -> Pin {
    Pin {
        window,
        site: PinnedSite {
            output: output.to_string(),
            screen_pos: Point::new(x, 100),
        },
        size: Size::new(200, 100),
        chrome: CHROME,
    }
}

#[test]
fn pins_belong_to_live_outputs() {
    let p = pin(1, "A", 0);
    assert_eq!(unpin_window(None, &names(&["A"])), UnpinStep::Nothing);
    assert_eq!(
        unpin_window(Some(&p.site), &names(&["A"])),
        UnpinStep::Unpin { remap: true }
    );
    assert_eq!(
        unpin_window(Some(&p.site), &names(&["B"])),
        UnpinStep::Unpin { remap: false }
    );
    let pins = [pin(1, "A", 0), pin(2, "B", 0), pin(3, "A", 0)];
    assert_eq!(sync_pinned_locs(&pins, &names(&["A"])), vec![0, 2]);
}

#[test]
fn pins_move_between_outputs() {
    let mut p = pin(1, "A", 5000);
    assert!(!send_pinned_to_output(&mut p, "A", Size::new(1000, 800)));
    assert_eq!(p.site.screen_pos, Point::new(5000, 100));
    assert!(send_pinned_to_output(&mut p, "B", Size::new(1000, 800)));
    assert_eq!(p.site.output, "B");
    assert_eq!(p.site.screen_pos, Point::new(798, 100));
    let mut pins = vec![pin(1, "A", 10), pin(2, "gone", 5000)];
    let live = names(&["A"]);
    assert!(reassign_orphaned_pinned(&mut pins, &live, "A", Size::new(1000, 800)));
    assert_eq!(pins[0].site.screen_pos, Point::new(10, 100));
    assert_eq!(pins[1].site.output, "A");
    assert_eq!(pins[1].site.screen_pos, Point::new(798, 100));
    assert!(!reassign_orphaned_pinned(&mut pins, &live, "A", Size::new(1000, 800)));
}

// Activation

fn hinted(id: u64, activated: bool) -> HintedWindow {
    HintedWindow {
        id,
        client: true,
        activated,
        configured: true,
    }
}

#[test]
fn one_window_has_the_hint() {
    let mut windows = vec![hinted(1, true), hinted(2, false), hinted(3, false)];
    windows[2].activated = true;
    windows[2].configured = false;
    assert_eq!(set_activated_exclusive(&mut windows, 2), vec![0, 1]);
    let hints: Vec<bool> = windows.iter().map(|w| w.activated).collect();
    assert_eq!(hints, vec![false, true, false]);
    assert_eq!(set_activated_exclusive(&mut windows, 2), vec![] as Vec<usize>);
    let mut windows = vec![hinted(1, true), hinted(2, false)];
    assert_eq!(activate_riding_batch(&mut windows, 2), vec![0]);
    assert!(windows[1].activated);
    let mut windows = vec![hinted(1, true), hinted(2, false)];
    assert_eq!(activate_exclusive(&mut windows, 2, true), vec![0, 1]);
}

// Outputs

fn output(id: u64, name: &str, at: Point, size: Size) -> OutputEntry {
    OutputEntry {
        id,
        name: name.to_string(),
        layout_position: at,
        size,
        visible: rect(at.x, at.y, size.w, size.h),
    }
}

fn two_outputs() -> Vec<OutputEntry> {
    vec![
        output(1, "A", Point::new(0, 0), Size::new(1000, 800)),
        output(2, "B", Point::new(1000, 0), Size::new(1000, 800)),
    ]
}

#[test]
fn outputs_are_found() {
    let outputs = two_outputs();
    assert_eq!(output_by_name(&outputs, "B"), Some(1));
    assert_eq!(output_by_name(&outputs, "C"), None);
    assert_eq!(active_output(Some(2), &outputs), Some(2));
    assert_eq!(active_output(None, &outputs), Some(1));
    assert_eq!(active_output(None, &[]), None);
    assert!(output_shows_canvas_point(&outputs[1], Point::new(1500, 10)));
    assert!(!output_shows_canvas_point(&outputs[0], Point::new(1500, 10)));
    assert_eq!(output_showing_canvas_point(&outputs, Point::new(1500, 10)), Some(1));
    assert_eq!(output_showing_canvas_point(&outputs, Point::new(1500, 1000)), None);
    assert_eq!(output_at_layout_pos(&outputs, LayoutCell { x: 999, y: 0 }), Some(0));
    assert_eq!(output_at_layout_pos(&outputs, LayoutCell { x: 1000, y: 0 }), Some(1));
    assert_eq!(output_at_layout_pos(&outputs, LayoutCell { x: -1, y: 0 }), None);
    let outputs = two_outputs();
    let center = Some(Point::new(1500, 10));
    assert_eq!(output_for_window(&outputs, Some(1), None, center), Some(2));
    assert_eq!(output_for_window(&outputs, Some(1), Some("A"), center), Some(1));
    let nowhere = Some(Point::new(0, 9999));
    assert_eq!(output_for_window(&outputs, Some(2), None, nowhere), Some(2));
    assert_eq!(output_for_window(&outputs, None, None, nowhere), Some(1));
    assert_eq!(output_for_window(&outputs, None, None, None), None);
}

#[test]
fn outputs_are_placed_side_by_side() {
    let mut outputs = Outputs {
        entries: vec![],
        placeholders: vec![],
        focused: None,
    };
    let size = Size::new(1000, 800);
    let view = rect(0, 0, 1000, 800);
    let first = outputs.output_connected(1, "A", size, view, OutputPosition::Auto);
    assert_eq!(first.position, Point::new(0, 0));
    assert!(first.takes_pointer);
    let second = outputs.output_connected(2, "B", size, view, OutputPosition::Auto);
    assert_eq!(second.position, Point::new(1000, 0));
    assert!(!second.takes_pointer);
    let at = Point::new(-500, 7);
    let third = outputs.output_connected(3, "C", size, view, OutputPosition::Fixed(at));
    assert_eq!(third.position, at);
    assert_eq!(outputs.focused, Some(1));
    assert_eq!(outputs.entries.len(), 3);
}

#[test]
fn a_lost_output_hands_on_focus_and_pointer() {
    let mut outputs = Outputs {
        entries: two_outputs(),
        placeholders: vec![],
        focused: Some(1),
    };
    assert_eq!(
        outputs.output_disconnected(1, "A", false, false),
        PointerMove::Center(2)
    );
    assert_eq!(outputs.focused, Some(2));
    let mut locked = Outputs {
        entries: two_outputs(),
        placeholders: vec![],
        focused: Some(1),
    };
    assert_eq!(locked.output_disconnected(1, "A", false, true), PointerMove::Clamp(2));
    assert_eq!(locked.output_disconnected(9, "C", false, true), PointerMove::Stay);
}

#[test]
fn the_last_output_stands_in_until_another_comes() {
    let mut outputs = Outputs {
        entries: vec![output(1, "A", Point::new(0, 0), Size::new(1000, 800))],
        placeholders: vec![],
        focused: Some(1),
    };
    assert_eq!(outputs.output_disconnected(1, "A", true, false), PointerMove::Stay);
    assert_eq!(outputs.placeholders, vec!["A"]);
    assert_eq!(outputs.entries.len(), 1);
    let step = outputs.output_connected(
        2,
        "B",
        Size::new(640, 480),
        rect(0, 0, 640, 480),
        OutputPosition::Auto,
    );
    assert_eq!(step.retired, vec![1]);
    assert_eq!(step.position, Point::new(0, 0));
    assert!(step.takes_pointer);
    assert_eq!(outputs.focused, Some(2));
    assert_eq!(outputs.entries.len(), 1);
    assert!(outputs.placeholders.is_empty());
}

fn pending(kind: PendingKind, frame: u8) -> PendingCapture<u8> {
    PendingCapture { kind, frame }
}

#[test]
fn captures_of_a_lost_output_fail() {
    let mut list = vec![
        pending(PendingKind::Output(1), 10),
        pending(PendingKind::Toplevel, 20),
        pending(PendingKind::Output(2), 30),
    ];
    assert_eq!(fail_dead_captures(&mut list, 1, false), vec![10]);
    assert_eq!(list.iter().map(|p| p.frame).collect::<Vec<u8>>(), vec![30, 20]);
    assert_eq!(fail_dead_captures(&mut list, 2, true), vec![30, 20]);
    assert!(list.is_empty());
}

#[test]
fn windows_are_drawn_on_canvas_or_screen() {
    let loc = Some(Point::new(100, 200));
    let geometry = Point::new(10, 5);
    let canvas = WindowTransform::Canvas { x: 90, y: 195 };
    assert_eq!(window_render_transform(loc, geometry, None, None, Some(1)), canvas);
    assert_eq!(window_render_transform(loc, geometry, None, None, None), canvas);
    assert_eq!(
        window_render_transform(None, geometry, None, None, Some(1)),
        WindowTransform::Hidden
    );
    let place = Some(PinPlace {
        output: Some(1),
        screen_pos: Point::new(40, 50),
    });
    assert_eq!(
        window_render_transform(loc, geometry, None, place, Some(1)),
        WindowTransform::Screen { x: 30, y: 45 }
    );
    assert_eq!(
        window_render_transform(loc, geometry, None, place, Some(2)),
        WindowTransform::Hidden
    );
    assert_eq!(
        window_render_transform(loc, geometry, None, place, None),
        WindowTransform::Hidden
    );
    assert_eq!(window_render_transform(loc, geometry, Some(1), None, Some(1)), canvas);
    assert_eq!(
        window_render_transform(loc, geometry, Some(1), None, None),
        WindowTransform::Hidden
    );
}

#[test]
fn the_nearest_output_in_a_direction_is_found() {
    let mut outputs = two_outputs();
    outputs.push(output(3, "C", Point::new(2000, 0), Size::new(1000, 800)));
    outputs.push(output(4, "D", Point::new(0, 800), Size::new(1000, 800)));
    assert_eq!(output_in_direction(&outputs, 0, Direction::Right), Some(1));
    assert_eq!(output_in_direction(&outputs, 2, Direction::Left), Some(1));
    assert_eq!(output_in_direction(&outputs, 0, Direction::Down), Some(3));
    assert_eq!(output_in_direction(&outputs, 0, Direction::Up), None);
    assert_eq!(output_in_direction(&outputs, 1, Direction::DownLeft), Some(0));
}

#[test]
fn outputs_follow_their_cameras_and_scales() {
    let here = Point::new(1, 2);
    assert!(!update_output_from_camera(&[Some(here)], &[here]));
    assert!(update_output_from_camera(&[Some(here)], &[Point::new(1, 3)]));
    assert!(update_output_from_camera(&[None], &[here]));
    assert!(!update_output_from_camera(&[], &[]));
    assert_eq!(recompute_decoration_scale(&[]), 1);
    assert_eq!(recompute_decoration_scale(&[1, 3, 2]), 3);
}

// Redraws

#[test]
fn a_surface_is_drawn_where_it_is_known_to_be() {
    let w = Some(rect(10, 20, 30, 40));
    assert_eq!(
        dirty_target(w, 5, None, Some(1), None),
        DirtyTarget::Canvas(rect(5, 15, 40, 50))
    );
    assert_eq!(
        dirty_target(None, 5, w, Some(1), None),
        DirtyTarget::Canvas(rect(10, 20, 30, 40))
    );
    assert_eq!(dirty_target(None, 5, None, Some(1), Some(2)), DirtyTarget::Output(1));
    assert_eq!(dirty_target(None, 5, None, None, Some(2)), DirtyTarget::Output(2));
    assert_eq!(dirty_target(None, 5, None, None, None), DirtyTarget::Unknown);
}

#[test]
fn outputs_that_show_a_surface_are_redrawn() {
    let outputs = [
        VisibleOutput {
            id: 1,
            visible: rect(0, 0, 100, 100),
        },
        VisibleOutput {
            id: 2,
            visible: rect(200, 0, 100, 100),
        },
    ];
    let mut redraws = Redraws { needed: vec![] };
    let canvas = DirtyTarget::Canvas(rect(90, 0, 20, 20));
    redraws.mark_dirty_for_surface(canvas, &outputs, &[1, 2]);
    assert_eq!(redraws.needed, vec![1]);
    redraws.mark_dirty_for_surface(DirtyTarget::Output(2), &outputs, &[1, 2]);
    redraws.mark_dirty_for_surface(canvas, &outputs, &[1, 2]);
    assert_eq!(redraws.needed, vec![1, 2]);
    let nowhere = DirtyTarget::Canvas(rect(500, 500, 1, 1));
    let mut clean = Redraws { needed: vec![] };
    clean.mark_dirty_for_surface(nowhere, &outputs, &[1, 2]);
    assert!(clean.needed.is_empty());
    clean.mark_dirty_for_surface(DirtyTarget::Unknown, &outputs, &[2, 1]);
    assert_eq!(clean.needed, vec![2, 1]);
    clean.mark_all_dirty(&[1]);
    assert_eq!(clean.needed, vec![1]);
}

#[test]
fn a_background_moves_at_its_pace() {
    let second = 1_000_000_000u128;
    assert!(!background_animation_due(false, 0, None, 0));
    assert!(background_animation_due(true, 0, Some(5), 5));
    assert!(background_animation_due(true, 30, None, 0));
    assert!(!background_animation_due(true, 1, Some(second), 2 * second - 1));
    assert!(background_animation_due(true, 1, Some(second), 2 * second));
    assert!(!background_animation_due(true, 1, Some(second), 0));
    let seen = BackgroundOutput {
        id: 1,
        concealed: false,
        dpms_off: false,
        last: Some(0),
    };
    let concealed = BackgroundOutput {
        concealed: true,
        last: None,
        ..seen
    };
    let off = BackgroundOutput {
        dpms_off: true,
        last: None,
        ..seen
    };
    let active = [concealed, seen, off];
    assert_eq!(background_render_eligible_outputs(&active), vec![1]);
    assert!(!background_animation_due_any(&active, true, 1, 999_999_999));
    assert!(background_animation_due_any(&active, true, 1, 1_000_000_000));
}

#[test]
fn anything_that_moves_is_an_animation() {
    let still = OutputMotion {
        camera_target: false,
        zoom_target: false,
        edge_pan: false,
        momentum: false,
        window_animation: false,
    };
    let quiet = OtherMotion {
        held_action: false,
        exec_cursor: false,
        cursor_animated: false,
        window_animations: false,
        closing_snapshots: 0,
        standin_fades: 0,
        resize_crossfades: 0,
    };
    assert!(!still.output_has_active_animations());
    assert!(!has_active_animations(&[still], &quiet));
    let panning = OutputMotion {
        edge_pan: true,
        ..still
    };
    assert!(panning.output_has_active_animations());
    assert!(has_active_animations(&[still, panning], &quiet));
    let closing = OtherMotion {
        closing_snapshots: 1,
        ..quiet
    };
    assert!(has_active_animations(&[], &closing));
}

// Caches

type Cache = RenderCache<u8, u8, u8, u8, u8>;

fn tile_cache() -> BgChunkCache<u8> {
    let level = LodMetadata {
        image_dims: (8192, 8192),
        tile_dims: (256, 256),
        color: TiffColor::Rgb8,
    };
    let coarse = LodMetadata {
        image_dims: (4096, 4096),
        ..level
    };
    let mut tiles = BgChunkCache::new(plan_pyramid(&[level, coarse], &[256, 512]).ok().unwrap());
    let key = |cx: i32| ChunkKey { lod: 0, cx, cy: 0 };
    let mut round = UploadRound::new(2);
    tiles.drain_response(
        &mut round,
        key(1),
        Some(Upload {
            texture: 7,
            width: 16,
            height: 16,
        }),
    );
    tiles.drain_response(&mut round, key(2), None);
    tiles.in_flight.push(key(3));
    tiles
}

fn filled_cache() -> Cache {
    let mut cache: Cache = RenderCache::new();
    cache.background_shader = Some(8);
    cache.tile_shader = Some(9);
    let decoration = |key| DecorationEntry { key, element: 0 };
    cache.shadow_cache.push(decoration(DecorationKey::Surface(1)));
    cache.border_cache.push(decoration(DecorationKey::Surface(1)));
    cache.border_cache.push(decoration(DecorationKey::Suspended(1)));
    for name in ["A", "B"] {
        cache.cached_bg.insert(name.to_string(), 1);
        let chunks = ShaderChunks {
            cover: 2,
            chunks: vec![5, 6],
            pending_bakes: 3,
        };
        cache.cached_shader_chunks.insert(name.to_string(), chunks);
        cache.cached_tile_chunks.insert(name.to_string(), tile_cache());
        cache.cached_error_bar.insert(name.to_string(), 3);
        cache.background_last_animate.insert(name.to_string(), 4);
        cache.shared_blur.insert(name.to_string(), SharedBlur::new());
        for surface in [1, 2] {
            cache.blur_cache.push(BlurEntry {
                output: name.to_string(),
                surface,
                cache: BlurCache::new(0, 0, Size::new(1, 1)),
            });
        }
        get_capture_state(&mut cache.capture_state, format!("sc:{name}"), false, 0);
    }
    cache
}

fn blurs(cache: &Cache) -> Vec<(&str, u64)> {
    cache.blur_cache.iter().map(|b| (b.output.as_str(), b.surface)).collect()
}

#[test]
fn a_gone_output_leaves_nothing_in_the_caches() {
    let mut cache = filled_cache();
    cache.remove_output("A");
    assert_eq!(blurs(&cache), vec![("B", 1), ("B", 2)]);
    assert!(!cache.cached_bg.contains("A") && cache.cached_bg.contains("B"));
    assert!(!cache.cached_shader_chunks.contains("A") && cache.cached_shader_chunks.contains("B"));
    assert!(!cache.cached_error_bar.contains("A") && cache.cached_error_bar.contains("B"));
    assert!(!cache.background_last_animate.contains("A"));
    assert_eq!((cache.background_shader, cache.tile_shader), (Some(8), Some(9)));
    assert_eq!((cache.shadow_cache.len(), cache.border_cache.len()), (1, 2));
    assert!(!cache.shared_blur.contains("A") && cache.shared_blur.contains("B"));
    assert!(!cache.capture_state.contains("sc:A") && cache.capture_state.contains("sc:B"));
}

#[test]
fn caches_are_pruned() {
    let mut cache = filled_cache();
    cache.prune_blur_cache("A", &[2]);
    assert_eq!(blurs(&cache), vec![("A", 2), ("B", 1), ("B", 2)]);
    cache.remove_blur_caches("B");
    assert_eq!(blurs(&cache), vec![("A", 2)]);
    assert!(!cache.shared_blur.contains("B"));
    // The last blurred window takes the shared backdrop with it.
    assert!(cache.shared_blur.contains("A"));
    cache.prune_blur_cache("A", &[]);
    assert!(cache.blur_cache.is_empty() && !cache.shared_blur.contains("A"));
    cache.insert_blur("A", 7, BlurCache::new(0, 0, Size::new(1, 1)));
    assert_eq!(find_blur(&cache.blur_cache, "A", 7), Some(0));
    assert_eq!(find_blur(&cache.blur_cache, "B", 7), None);
    let mut cache = filled_cache();
    cache.shrink_background_for_fullscreen("A");
    let shader = cache.cached_shader_chunks.get("A").unwrap();
    assert!(shader.cover == 2 && shader.chunks.is_empty() && !shader.has_pending_bakes());
    let tiles = cache.cached_tile_chunks.get("A").unwrap();
    assert_eq!((tiles.chunks.len(), tiles.vram_bytes, tiles.failed.len()), (0, 0, 1));
    assert!(!tiles.has_pending_loads());
    assert!(cache.cached_tile_chunks.get("B").unwrap().has_pending_loads());
    assert_eq!(cache.cached_shader_chunks.get("B").unwrap().chunks, vec![5, 6]);
    assert_eq!(cache.cached_tile_chunks.get("B").unwrap().vram_bytes, 16 * 16 * 4);
    assert_eq!(cache.prepare_background("B", false), BackgroundStep::Keep);
    assert_eq!(cache.cached_tile_chunks.get("B").unwrap().chunks.len(), 1);
    assert_eq!(cache.prepare_background("B", true), BackgroundStep::Shrink);
    assert_eq!(cache.cached_tile_chunks.get("B").unwrap().chunks.len(), 0);
    assert_eq!(cache.prepare_background("C", false), BackgroundStep::Init);
    cache.remove_background_chunks("A");
    assert!(!cache.cached_shader_chunks.contains("A") && !cache.cached_tile_chunks.contains("A"));
    cache.remove_capture_state("B");
    assert!(cache.capture_state.contains("sc:A") && !cache.capture_state.contains("sc:B"));
}

#[test]
fn counters_tell_what_is_cached() {
    let counts = StateCounts {
        stage_entries: 5,
        unmap_snapshots: 1,
        ..StateCounts::default()
    };
    let counters = filled_cache().debug_counters(&counts);
    let count = |name: &str| counters.iter().find(|c| c.name == name).unwrap().count;
    assert_eq!(count("blur_cache"), 4);
    assert_eq!((count("shadow_cache"), count("border_cache")), (1, 2));
    assert_eq!(count("shader_chunk_caches_pending"), 2);
    assert_eq!(count("bg_chunk_loads_in_flight"), 2);
    assert_eq!(count("stage_entries"), 5);
    assert_eq!(count("pending_fit"), 0);
    // One each, by name.
    assert_eq!(counters.len(), 51);
    assert!(counters.windows(2).all(|c| c[0].name < c[1].name));
    assert_eq!(counters[50].name, "window_animations");
    let empty: Cache = RenderCache::new();
    assert!(empty.debug_counters(&StateCounts::default()).iter().all(|c| c.count == 0));
}

// Fit and fill

#[test]
fn fitting_twice_gives_the_size_back() {
    let mut fit = FitState { saved: None };
    let size = Size::new(300, 200);
    assert_eq!(fit.toggle_fit_window(false, size), FitStep::Fit);
    assert!(fit.is_fit());
    assert_eq!(fit.toggle_fit_window(false, Size::new(1000, 800)), FitStep::Restore(size));
    assert!(!fit.is_fit());
    assert_eq!(fit.toggle_fit_window(true, size), FitStep::Stay);
    assert_eq!(fit.unfit_window(), FitStep::Stay);
    assert_eq!(fit.fit_window(false, size), FitStep::Fit);
    fit.clear_fit_state();
    assert!(!fit.is_fit());
}

#[test]
fn a_filled_window_goes_back() {
    assert_eq!(inflate_constraint(100, 8), 108);
    assert_eq!(inflate_constraint(0, 8), 0);
    let here = Point::new(1, 2);
    let size = Size::new(10, 10);
    assert_eq!(compute_fill_geometry(here, 10, 10, here, size), None);
    assert_eq!(
        compute_fill_geometry(here, -5, 0, here, size),
        Some(FillTarget {
            loc: here,
            size: Size::new(1, 1)
        })
    );
    let window = FillWindow {
        pinned: false,
        widget: false,
        restore_size: Some(Size::new(30, 20)),
        size: Size::new(31, 21),
        position: Some(Point::new(5, 6)),
        pre_fit_position: Point::new(0, 0),
    };
    let target = Some(FillTarget {
        loc: Point::new(1, 1),
        size: Size::new(100, 100),
    });
    let mut fill = FillState { saved: None };
    let mut fit = FitState { saved: None };
    let widget = FillWindow {
        widget: true,
        ..window
    };
    assert_eq!(fill.fill_window(&mut fit, &widget, target, "A"), None);
    assert!(!fill.is_fill());
    assert_eq!(fill.fill_window(&mut fit, &window, target, "A"), target);
    assert!(fill.is_fill());
    let room = Size::new(10, 10);
    assert!(fill.fill_restore_view("A", Some(Point::new(1, 1)), room));
    assert!(!fill.fill_restore_view("B", Some(Point::new(1, 1)), room));
    assert!(!fill.fill_restore_view("A", Some(Point::new(2, 1)), room));
    assert!(!fill.fill_restore_view("A", Some(Point::new(1, 1)), Size::new(0, 10)));
    assert_eq!(
        fill.unfill_window(),
        Some(FillTarget {
            loc: Point::new(5, 6),
            size: Size::new(30, 20)
        })
    );
    assert_eq!(fill.unfill_window(), None);
    assert_eq!(fill.toggle_fill_window(&mut fit, &widget, target, "A"), FillStep::Stay);
    let filled = FillStep::Fill(target.unwrap());
    assert_eq!(fill.toggle_fill_window(&mut fit, &window, target, "A"), filled);
    assert_eq!(
        fill.toggle_fill_window(&mut fit, &window, target, "A"),
        FillStep::Restore(FillTarget {
            loc: Point::new(5, 6),
            size: Size::new(30, 20)
        })
    );
    assert!(!fill.is_fill());
}

#[test]
fn a_fitted_window_fills_from_its_size_before() {
    let window = FillWindow {
        pinned: false,
        widget: false,
        restore_size: Some(Size::new(30, 20)),
        size: Size::new(31, 21),
        position: Some(Point::new(5, 6)),
        pre_fit_position: Point::new(7, 8),
    };
    let target = FillTarget {
        loc: Point::new(1, 1),
        size: Size::new(100, 100),
    };
    let mut fill = FillState { saved: None };
    let mut fit = FitState {
        saved: Some(Size::new(40, 40)),
    };
    fill.fill_window(&mut fit, &window, Some(target), "A");
    assert!(!fit.is_fit());
    assert_eq!(
        fill.unfill_window(),
        Some(FillTarget {
            loc: Point::new(7, 8),
            size: Size::new(40, 40)
        })
    );
}

// Interaction

#[test]
fn a_held_window_is_let_go_once_per_hold() {
    let mut moves = InteractiveMoves { targets: vec![] };
    let w = MoveTarget::Client(1);
    moves.arm_interactive_move(w);
    moves.arm_interactive_move(w);
    moves.disarm_interactive_move(w);
    assert!(moves.element_under_interactive_move(w));
    assert!(!moves.element_under_interactive_move(MoveTarget::Suspended(1)));
    moves.disarm_interactive_move(w);
    assert!(!moves.element_under_interactive_move(w));
    moves.disarm_interactive_move(w);
    assert!(moves.targets.is_empty());
}

#[test]
fn clicks_and_inhibitors() {
    let press = ButtonEvent {
        pressed: true,
        time: 5,
    };
    let release = ButtonEvent {
        pressed: false,
        time: 9,
    };
    assert_eq!(flush_middle_click(5, Some(9)), vec![press, release]);
    let mut pending = Some(PendingMiddleClick {
        press_time: 5,
        release_time: None,
    });
    assert_eq!(flush_pending_middle_click(&mut pending), vec![press]);
    assert_eq!(flush_pending_middle_click(&mut pending), vec![]);
    let inhibitor = |surface: u64, alive: bool, scanned_out: bool| Inhibitor {
        surface,
        alive,
        scanned_out,
    };
    let mut list = vec![inhibitor(1, false, true), inhibitor(2, true, false)];
    assert!(!refresh_idle_inhibit(&mut list));
    assert_eq!(list, vec![inhibitor(2, true, false)]);
    list.push(inhibitor(3, true, true));
    assert!(refresh_idle_inhibit(&mut list));
    assert_eq!(list.len(), 2);
}

#[test]
fn small_predicates() {
    assert!(is_canvas_window(false, false, false, false));
    assert!(!is_canvas_window(true, false, false, false));
    assert!(!is_canvas_window(false, false, false, true));
    assert!(client_is_unrestricted(None));
    assert!(client_is_unrestricted(Some(false)));
    assert!(!client_is_unrestricted(Some(true)));
    assert_eq!(log_err("flush", Some("gone")), Some("flush: gone".to_string()));
    assert_eq!(log_err("flush", None), None);
}

// Invariants and the lock

fn facts() -> StageFacts {
    StageFacts {
        outputs: vec![OutputFacts {
            name: "A".to_string(),
            fullscreen: true,
            fullscreen_return: true,
            suspended_pin: Some("A".to_string()),
        }],
        fullscreen_on: names(&["A"]),
        pinned_to: names(&["A"]),
        decorations: vec![DecorationKey::Surface(1), DecorationKey::Suspended(2)],
        windows: vec![DecorationKey::Suspended(2), DecorationKey::Surface(1)],
    }
}

#[test]
fn broken_invariants_are_named() {
    assert_eq!(facts().verify_stage_invariants(), Ok(()));
    let mut f = facts();
    f.outputs[0].fullscreen_return = false;
    assert_eq!(f.verify_stage_invariants(), Err(Violation::FullscreenDiverged));
    let mut f = facts();
    f.fullscreen_on = names(&["B"]);
    assert_eq!(f.verify_stage_invariants(), Err(Violation::FullscreenOutlivedOutput));
    let mut f = facts();
    f.pinned_to = names(&["A", "B"]);
    assert_eq!(f.verify_stage_invariants(), Err(Violation::PinOnDeadOutput));
    let mut f = facts();
    f.outputs[0].suspended_pin = Some("B".to_string());
    assert_eq!(f.verify_stage_invariants(), Err(Violation::SuspendedPinOnDeadOutput));
    let mut f = facts();
    f.windows.pop();
    assert_eq!(f.verify_stage_invariants(), Err(Violation::OrphanDecoration));
}

#[test]
fn a_pending_lock_is_locked_before_it_shows() {
    let unlocked: SessionLock<u8> = SessionLock::Unlocked;
    assert!(!unlocked.is_locked() && !unlocked.renders_lock_frame());
    assert_eq!(unlocked.incumbent(), None);
    let pending = |keep_lock_frames| SessionLock::Pending {
        locker: 3u8,
        ready_outputs: vec![],
        keep_lock_frames,
    };
    assert!(pending(false).is_locked() && !pending(false).renders_lock_frame());
    assert!(pending(true).renders_lock_frame());
    let locked = SessionLock::Locked {
        lock: 4u8,
        unconfirmed: true,
        awaiting_present: vec![1],
    };
    assert!(locked.is_locked() && locked.renders_lock_frame());
    assert_eq!(locked.incumbent(), Some(&4));
}
