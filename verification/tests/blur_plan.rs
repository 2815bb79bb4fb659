use driftwm::blur::cache::{BlurCache, CaptureOutcome, FORCED_FRAMES, MaskOutcome};
use driftwm::blur::cadence::{SharedBlur, SharedOutcome, ViewKey, ViewStamp};
use driftwm::blur::fingerprint::ElementInfo;
use driftwm::blur::passes::{blur_pass, render_blur};
use driftwm::blur::plan::{
    BlurInputs, BlurLayer, BlurRequestData, CapturePath, Prefixes, choose_path, mask_range,
    plan_windows, process_blur_requests, slicer_totals, splice_blurs,
};
use driftwm::blur::window::{WindowAction, WindowEvent, WindowFrame, WindowStage, advance};
use driftwm::geometry::{Point, Rect, Size};
use driftwm::state::render_cache::{BlurEntry, shown_blurs};

fn rect(x: i32, y: i32, w: i32, h: i32) -> Rect {
    Rect::new(Point::new(x, y), Size::new(w, h))
}

fn element(id: u64, geometry: Rect) -> ElementInfo {
    ElementInfo {
        id,
        commit: 1,
        geometry,
    }
}

fn request(layer: BlurLayer, elem_start: usize, screen_rect: Rect) -> BlurRequestData {
    BlurRequestData {
        surface_id: 1,
        screen_rect,
        elem_start,
        elem_count: 1,
        trailing_chrome: 1,
        layer,
        region_rects: None,
    }
}

const PREFIXES: Prefixes = Prefixes {
    overlay: 0,
    top: 0,
    pinned: 0,
    normal: 0,
    widget: 4,
};

/// Two windows with a shadow each over a background.
fn two_windows() -> (Vec<ElementInfo>, Vec<BlurRequestData>) {
    let upper = rect(100, 100, 200, 200);
    let lower = rect(150, 150, 200, 200);
    let elements = vec![
        element(1, upper),
        element(2, rect(90, 90, 220, 220)),
        element(3, lower),
        element(4, rect(140, 140, 220, 220)),
        element(5, rect(0, 0, 1000, 1000)),
    ];
    let requests = vec![
        request(BlurLayer::Normal, 0, upper),
        request(BlurLayer::Normal, 2, lower),
    ];
    (elements, requests)
}

const OUTPUT: Size = Size { w: 1000, h: 1000 };

#[test]
fn a_window_over_another_is_occluded() {
    let (elements, requests) = two_windows();
    let plans = plan_windows(&requests, &elements, &PREFIXES, 4, 16);
    assert_eq!(plans[0].behind_start, 1);
    assert_eq!(plans[0].backdrop_start, 2);
    assert!(plans[0].fingerprint.occluded_by_lower);
    assert_eq!(plans[1].behind_start, 3);
    assert_eq!(plans[1].backdrop_start, 4);
    assert!(!plans[1].fingerprint.occluded_by_lower);
    assert_eq!(slicer_totals(&requests, &plans, 16, OUTPUT), (1, 232 * 232));
}

#[test]
fn an_occluded_window_renders_its_own_backdrop() {
    let (elements, requests) = two_windows();
    let plans = plan_windows(&requests, &elements, &PREFIXES, 4, 16);
    match choose_path(&requests[0], &plans[0], true, &elements, 16, OUTPUT) {
        CapturePath::Own {
            capture,
            pad_live,
            below,
        } => {
            assert_eq!(capture.clipped, rect(84, 84, 232, 232));
            assert!(capture.direct);
            assert_eq!(pad_live, Size::new(232, 232));
            assert_eq!(below, vec![2, 3, 4]);
        }
        _ => panic!("a capture of its own"),
    }
    assert!(matches!(
        choose_path(&requests[1], &plans[1], true, &elements, 16, OUTPUT),
        CapturePath::Slice
    ));
    assert!(matches!(
        choose_path(&requests[1], &plans[1], false, &elements, 16, OUTPUT),
        CapturePath::Own { .. }
    ));
}

#[test]
fn nothing_to_capture_is_told_apart() {
    let away = request(BlurLayer::Normal, 0, rect(5000, 0, 100, 100));
    let elements = vec![element(1, away.screen_rect), element(2, rect(0, 0, 10, 10))];
    let plans = plan_windows(&[away], &elements, &PREFIXES, 2, 16);
    let away = request(BlurLayer::Normal, 0, rect(5000, 0, 100, 100));
    assert!(matches!(
        choose_path(&away, &plans[0], false, &elements, 16, OUTPUT),
        CapturePath::OffOutput
    ));
    let bare = request(BlurLayer::Normal, 0, rect(500, 500, 100, 100));
    let plans = plan_windows(&[bare], &elements, &PREFIXES, 2, 16);
    let bare = request(BlurLayer::Normal, 0, rect(500, 500, 100, 100));
    assert!(matches!(
        choose_path(&bare, &plans[0], false, &elements, 16, OUTPUT),
        CapturePath::Empty
    ));
}

#[test]
fn blurs_are_spliced_right_behind_their_windows() {
    let (_, requests) = two_windows();
    let mut elements = vec!["a", "a shadow", "b", "b shadow", "background"];
    splice_blurs(&mut elements, &requests, vec![Some("a blur"), Some("b blur")], &PREFIXES);
    assert_eq!(
        elements,
        vec!["a", "a blur", "a shadow", "b", "b blur", "b shadow", "background"]
    );
    let (_, mut requests) = two_windows();
    let mut elements = vec!["a", "a shadow", "b", "b shadow", "background"];
    splice_blurs(&mut elements, &requests, vec![None, Some("b blur")], &PREFIXES);
    assert_eq!(elements, vec!["a", "a shadow", "b", "b blur", "b shadow", "background"]);
    requests[1].screen_rect = rect(0, 0, 0, 5);
    let mut elements = vec!["a", "b"];
    splice_blurs(&mut elements, &requests, vec![None, Some("b blur")], &PREFIXES);
    assert_eq!(elements, vec!["a", "b"]);
    // A blur is drawn once its texture holds something, and on its own output.
    let (_, mut requests) = two_windows();
    requests[1].surface_id = 2;
    let entry = |output: &str, surface: u64, zeroed: bool| {
        let mut cache = BlurCache::new(0u8, 0, Size::new(1, 1));
        assert!(!cache.is_shown());
        cache.zeroed = zeroed;
        BlurEntry {
            output: output.to_string(),
            surface,
            cache,
        }
    };
    let kept = [entry("A", 1, true), entry("B", 1, false), entry("A", 2, false)];
    assert_eq!(shown_blurs(&kept, "A", &requests), vec![None, Some(2)]);
    assert_eq!(shown_blurs(&kept, "B", &requests), vec![Some(1), None]);
}

#[test]
fn a_mask_is_made_of_the_windows_own_elements() {
    let r = request(BlurLayer::Widget, 2, rect(0, 0, 5, 5));
    assert_eq!(mask_range(&r, &PREFIXES, 10), (6, 7));
    assert_eq!(mask_range(&r, &PREFIXES, 6), (6, 6));
    assert_eq!(PREFIXES.prefix(BlurLayer::Widget), 4);
}

fn view(zoom: u64) -> ViewStamp {
    ViewStamp::at(ViewKey {
        camera_x: 1,
        camera_y: 2,
        zoom,
    })
}

fn inputs(now: u128, zoom: u64) -> BlurInputs {
    BlurInputs {
        now,
        view: view(zoom),
        animate_blur_fps: 30,
        output_size: OUTPUT,
        pad: 16,
        prefixes: PREFIXES,
        background_start: 2,
    }
}

#[test]
fn large_windows_share_one_backdrop() {
    let left = rect(16, 16, 600, 900);
    let right = rect(650, 16, 300, 900);
    let elements = vec![
        element(1, left),
        element(2, right),
        element(3, rect(0, 0, 1000, 1000)),
    ];
    let mut requests = vec![
        request(BlurLayer::Normal, 0, left),
        request(BlurLayer::Normal, 1, right),
    ];
    requests[0].trailing_chrome = 0;
    requests[1].trailing_chrome = 0;
    let mut shared: SharedBlur<u8> = SharedBlur::new();
    let (plans, step) = process_blur_requests(&mut shared, &requests, &elements, &inputs(0, 1));
    assert_eq!(plans.len(), 2);
    assert!(step.beat && step.pays && step.render);
    assert!(!shared.slice_ok(step.pays));
    shared.finish_render(SharedOutcome::Rendered(1, 2));
    assert!(shared.slice_ok(step.pays));
    let (_, still) = process_blur_requests(&mut shared, &requests, &elements, &inputs(1, 1));
    assert!(!still.beat && still.pays && !still.render);
    let (_, zoomed) = process_blur_requests(&mut shared, &requests, &elements, &inputs(2, 5));
    assert!(zoomed.beat && zoomed.render);
    assert!(!shared.slice_ok(zoomed.pays));
}

#[test]
fn a_failed_backdrop_is_waited_out() {
    let left = rect(16, 16, 900, 900);
    let elements = vec![
        element(1, left),
        element(2, rect(0, 0, 10, 10)),
        element(3, rect(0, 0, 1000, 1000)),
    ];
    let mut requests = vec![
        request(BlurLayer::Normal, 1, left),
        request(BlurLayer::Normal, 1, left),
    ];
    requests[0].trailing_chrome = 0;
    requests[1].trailing_chrome = 0;
    let mut shared: SharedBlur<u8> = SharedBlur::new();
    let (_, step) = process_blur_requests(&mut shared, &requests, &elements, &inputs(0, 1));
    assert!(step.render);
    shared.finish_render(SharedOutcome::RenderFailed);
    assert!(shared.textures.is_none() && shared.stale);
    let (_, waiting) = process_blur_requests(&mut shared, &requests, &elements, &inputs(1, 1));
    assert!(waiting.pays && !waiting.render);
    shared.finish_render(SharedOutcome::AllocationFailed);
    assert!(shared.textures.is_none());
}

#[test]
fn a_new_cache_is_forced_and_then_settles() {
    let live = Size::new(100, 100);
    let mut cache = BlurCache::new(1u8, 2u8, BlurCache::<u8>::initial_alloc(live));
    assert_eq!(cache.alloc, Size::new(128, 128));
    assert_eq!(cache.wanted_alloc(live), None);
    for _ in 0..FORCED_FRAMES {
        let step = cache.begin_frame(7, 1, view(1), false);
        assert!(step.recompute && step.mask_forced);
        assert!(cache.finish_capture(CaptureOutcome::Rebuilt));
        assert!(cache.mask_stale(step.mask_forced, 1, live, None));
        assert!(cache.finish_mask(true, 1, live, None, MaskOutcome::Applied));
    }
    assert!(!cache.zeroed && !cache.dirty);
    let still = cache.begin_frame(7, 1, view(1), false);
    assert!(!still.recompute && !still.mask_forced);
    assert!(!cache.mask_stale(false, 1, live, None));
    assert!(cache.begin_frame(8, 1, view(1), false).recompute);
}

#[test]
fn a_failure_leaves_the_cache_dirty() {
    let live = Size::new(100, 100);
    let mut cache = BlurCache::new(1u8, 2u8, BlurCache::<u8>::initial_alloc(live));
    cache.begin_frame(7, 1, view(1), false);
    assert!(!cache.finish_capture(CaptureOutcome::Unchanged));
    assert!(cache.dirty);
    assert!(!cache.finish_mask(true, 1, live, None, MaskOutcome::CaptureFailed));
    assert!(cache.mask_stamp.is_none());
    assert!(!cache.finish_mask(true, 1, live, None, MaskOutcome::NotApplied));
    assert!(cache.mask_stamp.is_some() && cache.dirty);
    assert!(!cache.finish_capture(CaptureOutcome::Cleared));
    assert!(cache.zeroed && !cache.dirty);
}

#[test]
fn a_resized_cache_starts_over() {
    let live = Size::new(100, 100);
    let mut cache = BlurCache::new(1u8, 2u8, BlurCache::<u8>::initial_alloc(live));
    cache.finish_mask(true, 1, live, None, MaskOutcome::Applied);
    let wanted = cache.wanted_alloc(Size::new(300, 100)).unwrap();
    assert_eq!(wanted, Size::new(320, 128));
    cache.resize(3, 4, wanted);
    assert_eq!((cache.texture, cache.mask), (3, 4));
    assert!(cache.zeroed && cache.dirty && cache.mask_stamp.is_none());
}

#[test]
fn an_idle_pad_pair_is_freed() {
    let mut cache = BlurCache::new(1u8, 2u8, Size::new(128, 128));
    let pad = Size::new(160, 160);
    assert!(!cache.pads_fit(pad));
    assert!(!cache.ensure_pads(pad, None));
    assert!(cache.ensure_pads(pad, Some((5, 6))));
    assert!(cache.pads_fit(pad));
    cache.age_pads(1);
    assert!(cache.pads_fit(pad));
    cache.use_pads();
    cache.age_pads(1);
    assert!(cache.pads_fit(pad));
    cache.age_pads(1);
    assert!(!cache.pads_fit(pad));
}

#[test]
fn passes_go_down_and_up_again() {
    let chain = render_blur(Size::new(256, 3), 2);
    let steps: Vec<(i32, i32)> = chain.iter().map(|p| (p.src.w, p.dst.w)).collect();
    assert_eq!(steps, vec![(256, 128), (128, 64), (64, 128), (128, 256)]);
    let heights: Vec<i32> = chain.iter().map(|p| p.dst.h).collect();
    assert_eq!(heights, vec![1, 1, 1, 3]);
    let up = blur_pass(Size::new(256, 3), 0, 2, false);
    assert_eq!((up.src_shift, up.dst_shift), (2, 1));
    assert!(render_blur(Size::new(256, 3), 0).is_empty());
}

#[test]
fn a_window_is_captured_masked_and_left_alone() {
    let (elements, requests) = two_windows();
    let plans = plan_windows(&requests, &elements, &PREFIXES, 4, 16);
    let (req, plan) = (&requests[0], &plans[0]);
    let now = inputs(1, 1);
    let frame = WindowFrame {
        slice_ok: true,
        beat: false,
        geometry_generation: 1,
    };
    let mut cache = BlurCache::new(1u8, 2u8, Size::new(64, 64));
    let mut run =
        |stage, event| advance(stage, event, &mut cache, req, plan, &elements, &now, &frame);

    let (stage, action) = run(WindowStage::Start, WindowEvent::Begin);
    assert_eq!(stage, WindowStage::Resizing(Size::new(256, 256)));
    assert!(matches!(action, WindowAction::MakeTextures(Size { w: 256, h: 256 })));

    let (stage, action) = run(stage, WindowEvent::Textures(Some((3, 4))));
    match action {
        WindowAction::Own {
            capture,
            pad_live,
            below,
            fresh_pads,
        } => {
            assert_eq!(capture.clipped, rect(84, 84, 232, 232));
            assert_eq!(pad_live, Size::new(232, 232));
            assert_eq!(below, vec![2, 3, 4]);
            assert!(fresh_pads);
        }
        _ => panic!("a capture of its own"),
    }
    let (stage, action) = run(stage, WindowEvent::Pads(Some((5, 6))));
    assert!(matches!(action, WindowAction::Continue));
    let (stage, action) = run(stage, WindowEvent::Rebuilt(CaptureOutcome::Rebuilt));
    assert_eq!(stage, WindowStage::Capturing);
    match action {
        WindowAction::CaptureMask {
            start,
            end,
            outside,
        } => {
            assert_eq!((start, end), (0, 1));
            assert!(outside.is_empty());
        }
        _ => panic!("a new mask"),
    }
    let (stage, action) = run(stage, WindowEvent::MaskCaptured(true));
    assert!(matches!(action, WindowAction::Multiply));
    let (stage, action) = run(stage, WindowEvent::Masked(true));
    assert_eq!(stage, WindowStage::Settled);
    assert!(matches!(action, WindowAction::Leave { changed: true }));

    let (stage, action) = run(WindowStage::Start, WindowEvent::Begin);
    assert!(matches!(stage, WindowStage::Rebuilding { mask_forced: true }));
    assert!(matches!(action, WindowAction::Own { fresh_pads: false, .. }));
    let (stage, action) = run(stage, WindowEvent::Rebuilt(CaptureOutcome::Unchanged));
    assert_eq!(stage, WindowStage::Settled);
    assert!(matches!(action, WindowAction::Leave { changed: false }));

    let (stage, _) = run(WindowStage::Start, WindowEvent::Begin);
    assert_eq!(stage, WindowStage::Rebuilding { mask_forced: false });
    let (stage, action) = run(stage, WindowEvent::Rebuilt(CaptureOutcome::Rebuilt));
    assert_eq!(stage, WindowStage::Masking { captured: false });
    assert!(matches!(action, WindowAction::Multiply));
    let (stage, _) = run(stage, WindowEvent::Masked(true));
    assert_eq!(stage, WindowStage::Settled);
    let (stage, action) = run(WindowStage::Start, WindowEvent::Begin);
    assert_eq!(stage, WindowStage::Settled);
    assert!(matches!(action, WindowAction::Leave { changed: false }));

    let frame = WindowFrame { beat: true, ..frame };
    let (req, plan) = (&requests[1], &plans[1]);
    let mut run =
        |stage, event| advance(stage, event, &mut cache, req, plan, &elements, &now, &frame);
    let (stage, action) = run(WindowStage::Start, WindowEvent::Begin);
    assert!(matches!(action, WindowAction::Slice));
    run(stage, WindowEvent::Rebuilt(CaptureOutcome::Cleared));
    assert!(cache.zeroed && !cache.dirty);
    assert_eq!((cache.texture, cache.mask, cache.pads), (3, 4, Some((5, 6))));
}
