use driftwm::blur::backdrop::{backdrop_capture, pad_extent};
use driftwm::blur::backoff::{BACKOFF_MAX_SKIP, RenderBackoff};
use driftwm::blur::cadence::{
    SHARED_CLAIM_PERCENT, SHARED_RELEASE_PERCENT, SharedPayoff, SharedRefreshInputs, ViewKey,
    ViewStamp, shared_backdrop_pays, shared_refresh_due,
};
use driftwm::blur::extent::{quantized_alloc, quantized_extent};
use driftwm::blur::fingerprint::{
    BackdropFingerprint, ElementInfo, backdrop_fingerprint, background_structure_changed,
};
use driftwm::blur::mask::{MaskStamp, mask_region_complement};
use driftwm::blur::plan::behind_own_chrome;
use driftwm::blur::scratch::{SCRATCH_KEEP_FRAMES, ScratchPool, scratch_bytes};
use driftwm::geometry::{Point, Rect, Size};

const FINGERPRINT_PAD: i32 = 16;

fn rect(x: i32, y: i32, w: i32, h: i32) -> Rect {
    Rect::new(Point::new(x, y), Size::new(w, h))
}

fn size(w: i32, h: i32) -> Size {
    Size::new(w, h)
}

fn area(rects: &[Rect]) -> i32 {
    rects.iter().map(|r| r.size.w * r.size.h).sum()
}

fn any_overlap(a: &[Rect], b: &[Rect]) -> bool {
    a.iter()
        .any(|x| b.iter().any(|y| x.intersection(*y).is_some()))
}

fn millis(ms: u128) -> u128 {
    ms * 1_000_000
}

#[test]
fn no_client_region_frosts_the_whole_window() {
    assert!(mask_region_complement(size(200, 100), None).is_empty());
}

#[test]
fn a_full_window_region_leaves_nothing_to_zero() {
    let win = size(200, 100);
    assert!(mask_region_complement(win, Some(&[rect(0, 0, 200, 100)])).is_empty());
}

#[test]
fn a_partial_region_zeroes_exactly_the_rest() {
    let win: Size = size(200, 100);
    let region = [rect(50, 20, 100, 40)];
    let outside = mask_region_complement(win, Some(&region));

    assert!(!outside.is_empty());
    assert!(!any_overlap(&outside, &region));
    assert_eq!(area(&outside), 200 * 100 - 100 * 40);
}

#[test]
fn several_region_rects_are_all_kept() {
    let win: Size = size(200, 100);
    let region = [rect(0, 0, 40, 50), rect(160, 50, 40, 50)];
    let outside = mask_region_complement(win, Some(&region));

    assert!(!any_overlap(&outside, &region));
    assert_eq!(area(&outside), 200 * 100 - 2 * 40 * 50);
}

#[test]
fn region_rects_reaching_past_the_window_dont_widen_the_kept_area() {
    let win: Size = size(200, 100);
    let outside = mask_region_complement(win, Some(&[rect(150, -20, 100, 200)]));

    assert_eq!(area(&outside), 200 * 100 - 50 * 100);
}

#[test]
fn an_empty_region_list_zeroes_the_whole_mask() {
    let win: Size = size(200, 100);
    assert_eq!(area(&mask_region_complement(win, Some(&[]))), 200 * 100);
}

#[test]
fn a_padded_rect_on_the_output_is_captured_directly() {
    let capture = backdrop_capture(rect(100, 80, 300, 200), size(1920, 1080)).unwrap();

    assert!(capture.direct);
    assert_eq!(capture.clipped, rect(100, 80, 300, 200));
    assert_eq!(capture.src_loc, Point::new(0, 0));
}

#[test]
fn a_padded_rect_flush_with_the_output_corners_is_still_direct() {
    let capture = backdrop_capture(rect(0, 0, 1920, 1080), size(1920, 1080)).unwrap();

    assert!(capture.direct);
    assert_eq!(capture.src_loc, Point::new(0, 0));
}

#[test]
fn overhanging_the_top_left_shifts_the_crop_negative() {
    let capture = backdrop_capture(rect(-30, -20, 300, 200), size(1920, 1080)).unwrap();

    assert!(!capture.direct);
    // The capture starts where real backdrop starts...
    assert_eq!(capture.clipped, rect(0, 0, 270, 180));
    // ...and the crop reaches that far back past it, into the mirror.
    assert_eq!(capture.src_loc, Point::new(-30, -20));
}

#[test]
fn overhanging_the_bottom_right_keeps_the_crop_at_the_origin() {
    let capture = backdrop_capture(rect(1800, 1000, 300, 200), size(1920, 1080)).unwrap();

    assert!(!capture.direct);
    assert_eq!(capture.clipped, rect(1800, 1000, 120, 80));
    // Only the far side overhangs, so the crop starts inside the texture and
    // runs off its far edge instead.
    assert_eq!(capture.src_loc, Point::new(0, 0));
}

#[test]
fn a_padded_rect_larger_than_the_output_captures_the_whole_output() {
    let capture = backdrop_capture(rect(-100, -50, 4000, 2000), size(1920, 1080)).unwrap();

    assert!(!capture.direct);
    assert_eq!(capture.clipped, rect(0, 0, 1920, 1080));
    assert_eq!(capture.src_loc, Point::new(-100, -50));
}

#[test]
fn a_padded_rect_off_the_output_has_nothing_to_capture() {
    let out = size(1920, 1080);
    assert!(backdrop_capture(rect(-400, 100, 300, 200), out).is_none());
    assert!(backdrop_capture(rect(1920, 100, 300, 200), out).is_none());
    // Sharing only an edge is no overlap either — a zero-width capture has
    // no content to mirror.
    assert!(backdrop_capture(rect(-300, 100, 300, 200), out).is_none());
}

#[test]
fn the_crop_always_starts_inside_the_captured_texture() {
    // The crop samples the whole padded extent from `src_loc`, so `src_loc`
    // may never run positive: that would drop real backdrop off the near
    // edge of the pad.
    let out: Size = size(800, 600);
    for x in [-299, -1, 0, 1, 400, 799] {
        for y in [-199, -1, 0, 1, 300, 599] {
            let capture = backdrop_capture(rect(x, y, 300, 200), out).unwrap();
            assert!(capture.src_loc.x <= 0 && capture.src_loc.y <= 0);
            assert_eq!(capture.clipped.loc.x + capture.src_loc.x, x);
            assert_eq!(capture.clipped.loc.y + capture.src_loc.y, y);
        }
    }
}

/// A window whose own chrome is one trailing shadow element. `elem_count`
/// stops short of it, so `behind_start` lands *on* the shadow.
#[test]
fn the_windows_own_shadow_is_not_behind_it() {
    assert_eq!(behind_own_chrome(7, 1, 40), 8);
}

/// `decoration = "none"`, fullscreen, `shadow = false`, a shadow shader that
/// failed to compile, and every layer surface by default. Skipping anything
/// here would step over a genuinely lower element and call an occluded
/// window unoccluded, whose frost then silently drops that element.
#[test]
fn an_unshadowed_window_starts_at_the_element_right_below_it() {
    assert_eq!(behind_own_chrome(7, 0, 40), 7);
}

/// A layer surface can carry a border *and* a shadow below its blur.
#[test]
fn several_trailing_chrome_elements_are_all_skipped() {
    assert_eq!(behind_own_chrome(7, 2, 40), 9);
}

#[test]
fn the_scan_never_starts_past_the_background() {
    // The bottom-most window: nothing below it but scene background, so the
    // scan range collapses to empty rather than running off the slice.
    assert_eq!(behind_own_chrome(39, 1, 40), 40);
    assert_eq!(behind_own_chrome(40, 3, 40), 40);
}

#[test]
fn a_backdrop_that_was_never_blurred_is_due() {
    let input = SharedRefreshInputs {
        since_refresh: None,
        ..settled_backdrop()
    };
    assert!(shared_refresh_due(&input));
}

#[test]
fn a_settled_backdrop_is_not_due() {
    assert!(!shared_refresh_due(&settled_backdrop()));
}

#[test]
fn a_view_change_bypasses_the_fps_cap() {
    // 10 ms into a 50 ms interval: a content change would have to wait.
    let input = SharedRefreshInputs {
        view_changed: true,
        ..settled_backdrop()
    };
    assert!(shared_refresh_due(&input));
}

#[test]
fn background_content_waits_for_the_fps_cap() {
    let early = SharedRefreshInputs {
        bg_content_changed: true,
        ..settled_backdrop()
    };
    assert!(!shared_refresh_due(&early));

    let late = SharedRefreshInputs {
        since_refresh: Some(millis(60)),
        ..early
    };
    assert!(shared_refresh_due(&late));
}

#[test]
fn zero_fps_holds_background_content_without_computing_an_interval() {
    // No interval exists at a rate of zero: that case has to return first.
    let input = SharedRefreshInputs {
        bg_content_changed: true,
        since_refresh: Some(millis(3_600_000)),
        animate_blur_fps: 0,
        ..settled_backdrop()
    };
    assert!(!shared_refresh_due(&input));
}

#[test]
fn zero_fps_still_follows_the_view() {
    let input = SharedRefreshInputs {
        view_changed: true,
        animate_blur_fps: 0,
        ..settled_backdrop()
    };
    assert!(shared_refresh_due(&input));
}

/// The one `animate_blur_fps = 0` must not swallow: a wallpaper daemon
/// restarting, a Background-layer surface mapping or unmapping, a wallpaper
/// swap. Capping it strands every window on a backdrop of a background that
/// is no longer on screen, until the camera happens to move.
#[test]
fn zero_fps_still_follows_a_structural_background_change() {
    let input = SharedRefreshInputs {
        bg_structure_changed: true,
        bg_content_changed: true,
        animate_blur_fps: 0,
        ..settled_backdrop()
    };
    assert!(shared_refresh_due(&input));
}

/// Same split at a live cap: the element set changing is not the background
/// animating, so it does not wait for the interval either.
#[test]
fn a_structural_background_change_bypasses_the_fps_cap() {
    let input = SharedRefreshInputs {
        bg_structure_changed: true,
        bg_content_changed: true,
        ..settled_backdrop()
    };
    assert!(shared_refresh_due(&input));
}

/// A wallpaper daemon drawing every frame into one long-lived surface. This
/// is what the fps cap is for, so it must not read as structural.
#[test]
fn new_content_in_the_same_elements_is_not_structural() {
    let ids: Vec<u64> = (0..3).collect();
    let before = signature(&[(0, 3), (1, 7)], &ids);
    let after = signature(&[(0, 4), (1, 7)], &ids);

    assert!(!background_structure_changed(&before, &after));
    assert_ne!(before, after, "the content change still has to register");
}

#[test]
fn adding_removing_or_reordering_an_element_is_structural() {
    let ids: Vec<u64> = (0..3).collect();
    let before = signature(&[(0, 3), (1, 7)], &ids);

    assert!(background_structure_changed(
        &before,
        &signature(&[(0, 3), (1, 7), (2, 0)], &ids)
    ));
    assert!(background_structure_changed(
        &before,
        &signature(&[(0, 3)], &ids)
    ));
    assert!(background_structure_changed(
        &before,
        &signature(&[(1, 7), (0, 3)], &ids)
    ));
    assert!(!background_structure_changed(&before, &before.clone()));
}

/// A video playing in a window below a frosted one. It redraws into one
/// long-lived element, so nothing but the commit counter can catch it, and
/// this is the path an overlapped window takes.
#[test]
fn new_content_in_a_lower_window_invalidates_the_frost() {
    let ids: Vec<u64> = (0..3).collect();
    let background = signature(&[(2, 5)], &ids);

    assert_ne!(
        fingerprint(&stacked(&[(0, 3), (1, 7)], &ids), &background).hash,
        fingerprint(&stacked(&[(0, 3), (1, 8)], &ids), &background).hash,
    );
}

/// The same redraw in the scene background must not, or an animated
/// wallpaper would drive every window on this path at its own frame rate —
/// the rate `animate_blur_fps` caps on the shared backdrop's beat.
#[test]
fn new_content_in_the_scene_background_does_not() {
    let ids: Vec<u64> = (0..3).collect();
    let lower = stacked(&[(0, 3)], &ids);

    assert_eq!(
        fingerprint(&lower, &signature(&[(1, 7), (2, 5)], &ids)).hash,
        fingerprint(&lower, &signature(&[(1, 8), (2, 5)], &ids)).hash,
    );
}

#[test]
fn a_changed_element_set_registers_on_both_sides_of_the_split() {
    let ids: Vec<u64> = (0..4).collect();
    let lower = stacked(&[(0, 3), (1, 7)], &ids);
    let background = signature(&[(2, 5)], &ids);
    let settled = fingerprint(&lower, &background).hash;

    for changed in [
        stacked(&[(0, 3)], &ids),
        stacked(&[(1, 7), (0, 3)], &ids),
        stacked(&[(0, 3), (1, 7), (3, 0)], &ids),
    ] {
        assert_ne!(settled, fingerprint(&changed, &background).hash);
    }
    for changed in [
        signature(&[(3, 5)], &ids),
        signature(&[(2, 5), (3, 0)], &ids),
        Vec::new(),
    ] {
        assert_ne!(settled, fingerprint(&lower, &changed).hash);
    }
}

/// A window redrawing *beside* a frosted one, not under it, is in none of
/// its frost — so it must not invalidate it, and must not push it off the
/// shared backdrop either. Otherwise a video playing next to a frosted
/// window re-slices it every frame for a pixel-identical result.
#[test]
fn a_lower_element_clear_of_the_padded_capture_changes_nothing() {
    let ids: Vec<u64> = (0..2).collect();
    let beside = rect(400, 100, 50, 50);

    let settled = fingerprint(&lower(&[(0, 3, beside)], &ids), &[]);
    let redrawn = fingerprint(&lower(&[(0, 4, beside)], &ids), &[]);

    assert_eq!(settled.hash, redrawn.hash);
    assert!(!settled.occluded_by_lower);
    // Its very presence is invisible too: the count is of what survived the
    // filter, so mapping or unmapping it out there is not a change either.
    assert_eq!(settled.hash, fingerprint(&[], &[]).hash);
}

/// What reaches into the capture and which elements the background is made of:
/// nothing else shows.
#[test]
fn two_frames_with_the_same_surroundings_have_one_fingerprint() {
    let ids: Vec<u64> = (0..4).collect();
    let (under, beside) = (under_the_window(), rect(400, 100, 50, 50));
    let one = fingerprint(
        &lower(&[(0, 3, under), (1, 9, beside)], &ids),
        &signature(&[(2, 7)], &ids),
    );
    let other = fingerprint(
        &lower(&[(3, 1, beside), (0, 3, rect(90, 90, 300, 300))], &ids),
        &signature(&[(2, 8)], &ids),
    );
    assert_eq!(one, other);
    assert!(one.occluded_by_lower);
}

/// The capture is padded, so the blur reach owns a band outside the window
/// rect — an element that only reaches into that band is still in the
/// frost, and the filter has to be the padded rect, not the window's.
#[test]
fn a_lower_element_reaching_into_the_padded_capture_registers() {
    let ids: Vec<u64> = (0..2).collect();
    let under = under_the_window();
    let in_the_pad_band = rect(88, 88, 4, 4);

    for geometry in [under, in_the_pad_band] {
        let settled = fingerprint(&lower(&[(0, 3, geometry)], &ids), &[]);
        let redrawn = fingerprint(&lower(&[(0, 4, geometry)], &ids), &[]);

        assert_ne!(settled.hash, redrawn.hash);
        assert!(settled.occluded_by_lower);
    }
}

#[test]
fn a_new_cache_takes_the_step_above_its_extent() {
    assert_eq!(quantized_extent(1, 0), 64);
    assert_eq!(quantized_extent(64, 0), 64);
    assert_eq!(quantized_extent(65, 0), 128);
    assert_eq!(quantized_extent(1920, 0), 1920);
    assert_eq!(quantized_extent(1921, 0), 1984);
}

#[test]
fn growth_is_immediate() {
    assert_eq!(quantized_extent(200, 128), 256);
    // Several steps at once — a zoom-in frame can skip the ones between.
    assert_eq!(quantized_extent(1000, 128), 1024);
}

#[test]
fn a_step_is_given_back_only_past_the_hysteresis_band() {
    // 192 covers up to 192; 128 covers up to 128. Anywhere in between, and
    // for half a step below 128, the allocation stays put.
    assert_eq!(quantized_extent(160, 192), 192);
    assert_eq!(quantized_extent(128, 192), 192);
    assert_eq!(quantized_extent(97, 192), 192);
    assert_eq!(quantized_extent(96, 192), 128);
}

#[test]
fn the_allocation_never_drops_below_one_step() {
    assert_eq!(quantized_extent(1, 64), 64);
    assert_eq!(quantized_extent(0, 64), 64);
}

/// The one that matters: an extent parked on a step boundary — where a slow
/// zoom or a resize drag leaves it — must not reallocate in both directions
/// on alternate frames, which is the churn this quantization exists to
/// remove.
#[test]
fn an_extent_hovering_on_a_boundary_reallocates_once() {
    let mut alloc = quantized_extent(128, 0);
    let mut changes = 0;
    for live in [129, 127, 130, 126, 128, 129, 127, 131, 125] {
        let next = quantized_extent(live, alloc);
        if next != alloc {
            changes += 1;
        }
        alloc = next;
    }
    assert_eq!(changes, 1);
    assert_eq!(alloc, 192);
}

#[test]
fn a_continuous_zoom_reallocates_per_step_not_per_frame() {
    let mut alloc = quantized_extent(1024, 0);
    let mut changes = 0;
    // One pixel per frame is the worst case for realloc count.
    for live in (128..=1024).rev() {
        let next = quantized_extent(live, alloc);
        assert!(next <= alloc, "a shrinking extent must never grow");
        if next != alloc {
            changes += 1;
        }
        alloc = next;
    }
    assert_eq!(changes, (1024 - 192) / 64);
}

#[test]
fn the_allocation_always_covers_the_live_extent() {
    for current in [0, 64, 128, 192, 1024] {
        for live in [1, 63, 64, 65, 127, 128, 129, 191, 192, 700, 1023, 1024] {
            assert!(quantized_extent(live, current) >= live);
        }
    }
}

#[test]
fn nothing_to_slice_never_pays() {
    assert!(!shared_backdrop_pays(&SharedPayoff {
        was_paying: true,
        ..slicers(0, 4.0)
    }));
}

/// The flagship configuration: one frosted terminal over a static
/// background. A full-output render plus a full-output blur per frame,
/// where the window's own padded backdrop is a fraction of that.
#[test]
fn a_lone_modest_window_renders_its_own_backdrop() {
    assert!(!shared_backdrop_pays(&slicers(1, 0.42)));
}

/// The shared backdrop replaces one window's own render with a full-output
/// one, so however much of the output that window covers, it never buys
/// less work — and flipping to it would swap the frost content underneath a
/// resize, since only the per-window capture can include what sits below
/// the window but above the background.
#[test]
fn a_lone_window_over_most_of_the_output_still_renders_its_own_backdrop() {
    assert!(!shared_backdrop_pays(&slicers(1, 0.95)));
    assert!(!shared_backdrop_pays(&SharedPayoff {
        was_paying: true,
        ..slicers(1, 4.0)
    }));
}

/// Counting windows instead of area would take the shared path here and pay
/// a full-output blur for two widgets covering a tenth of the screen.
#[test]
fn several_small_windows_still_render_their_own_backdrops() {
    assert!(!shared_backdrop_pays(&slicers(4, 0.2)));
}

#[test]
fn windows_that_together_outweigh_a_full_output_pass_share_one() {
    assert!(shared_backdrop_pays(&slicers(3, 1.4)));
}

/// A visually-fullscreen output: the background buckets are emptied, so the
/// shared render would blur the clear colour and any overlay-layer frost
/// would slice a full-output rectangle of black.
#[test]
fn an_empty_background_never_pays() {
    assert!(!shared_backdrop_pays(&SharedPayoff {
        background_empty: true,
        was_paying: true,
        ..slicers(4, 3.0)
    }));
}

#[test]
fn the_payoff_band_holds_its_decision_both_ways() {
    let claim = SHARED_CLAIM_PERCENT as f64 / 100.0;
    let release = SHARED_RELEASE_PERCENT as f64 / 100.0;
    let between = (claim + release) / 2.0;
    assert!(!shared_backdrop_pays(&slicers(2, between)));
    assert!(shared_backdrop_pays(&SharedPayoff {
        was_paying: true,
        ..slicers(2, between)
    }));
}

#[test]
fn the_shared_backdrop_is_given_up_below_the_band() {
    let release = SHARED_RELEASE_PERCENT as f64 / 100.0;
    assert!(!shared_backdrop_pays(&SharedPayoff {
        was_paying: true,
        ..slicers(2, release - 0.01)
    }));
}

#[test]
fn an_unchanged_mask_is_reused() {
    assert!(captured_mask().matches(7, size(400, 300), None));
}

#[test]
fn a_geometry_change_restages_the_mask() {
    assert!(!captured_mask().matches(8, size(400, 300), None));
}

/// Zoom moves the live extent without touching the geometry generation, and
/// quantization means it can move without reallocating either. Miss this
/// and the mask keeps the previous zoom's rasterization while the blur
/// texture updates — an alpha multiply misaligned by the zoom step.
#[test]
fn a_zoom_step_inside_one_allocation_restages_the_mask() {
    assert!(!captured_mask().matches(7, size(399, 300), None));
}

/// A client can change its blur region without moving or resizing. The
/// region lives in the mask and nowhere else, so nothing else would notice.
#[test]
fn a_region_change_at_rest_restages_the_mask() {
    let stamp = MaskStamp {
        regions: Some(vec![rect(0, 0, 100, 100)]),
        ..captured_mask()
    };
    let live = size(400, 300);

    assert!(stamp.matches(7, live, Some(&[rect(0, 0, 100, 100)])));
    assert!(!stamp.matches(7, live, Some(&[rect(0, 0, 100, 200)])));
    assert!(!stamp.matches(7, live, Some(&[])));
    assert!(!stamp.matches(7, live, None));
    assert!(!captured_mask().matches(7, live, Some(&[rect(0, 0, 100, 100)])));
}

/// The pad pair holds exactly what the blur runs over, while the textures
/// the *result* is kept in are quantized so a zoom stops reallocating them
/// per frame. Slack in the pads is a strip no pass writes and
/// `create_buffer` never initializes, sitting where the taps read.
#[test]
fn the_pad_pair_is_not_quantized_with_the_rest() {
    for extent in [1, 63, 65, 300, 1919] {
        let live: Size = size(extent, extent);
        let alloc = quantized_alloc(live, size(0, 0));
        assert_ne!(alloc, live, "the step is what the pads must not follow");

        let pads = pad_extent(live, 16);
        assert_eq!(pads, size(live.w + 32, live.h + 32));
        assert_ne!(pads, size(alloc.w + 32, alloc.h + 32));
    }
}

/// The reason the stamp holds the f64 camera and not a counter bumped off
/// `camera.to_i32_round()`: an easing tail moves the scene by most of a
/// canvas unit — `zoom * output_scale` physical pixels, ~8 px at zoom 4 on a
/// HiDPI output — between two rounded values, and the backdrop every window
/// slices has to follow it.
#[test]
fn a_sub_unit_camera_drift_is_a_view_change() {
    let settled = at_view(120.0, 40.0, 4.0);
    let drifting = at_view(120.4, 40.0, 4.0);

    assert!(!settled.same(&drifting));
    assert!(settled.same(&settled));
    assert_eq!(
        120.0f64.round() as i32,
        120.4f64.round() as i32,
        "the rounded camera is what missed it"
    );
}

#[test]
fn a_zoom_change_alone_is_a_view_change() {
    assert!(!at_view(120.0, 40.0, 1.0).same(&at_view(120.0, 40.0, 1.01)));
}

/// The seed has to compare unequal to every real view, or the first frame
/// would find the backdrop already up to date and slice a texture that has
/// never been rendered.
#[test]
fn a_never_captured_view_matches_nothing() {
    assert!(!ViewStamp::never_captured().same(&at_view(0.0, 0.0, 1.0)));
    assert!(!ViewStamp::never_captured().same(&ViewStamp::never_captured()));
}

/// The case the pool exists for: a window parked against an output edge
/// asks for the same clipped extent every dirty frame, which during a pan
/// is every frame.
#[test]
fn a_recurring_extent_is_handed_back_instead_of_reallocated() {
    let mut pool: ScratchPool<u32> = ScratchPool::default();
    let size: Size = size(1920, 200);
    let budget = 8 * scratch_bytes(size);

    for frame in 0..10 {
        assert_eq!(acquired(&mut pool, size, frame, budget), 0);
        pool.end_frame();
    }
    assert_eq!(pool.len(), 1);
}

#[test]
fn an_extent_that_stops_recurring_is_dropped() {
    let mut pool: ScratchPool<u32> = ScratchPool::default();
    let size: Size = size(800, 600);
    acquired(&mut pool, size, 1, usize::MAX as u128);

    for _ in 0..SCRATCH_KEEP_FRAMES {
        pool.end_frame();
    }
    assert_eq!(pool.hit(size), Some(1), "still inside the keep window");

    for _ in 0..=SCRATCH_KEEP_FRAMES {
        pool.end_frame();
    }
    assert_eq!(pool.hit(size), None);
}

/// One entry can be nearly output-sized, so the bound has to be in bytes: a
/// window sliding off an edge asks for a different extent every frame.
#[test]
fn the_pool_stays_inside_its_byte_budget() {
    let mut pool: ScratchPool<u32> = ScratchPool::default();
    let budget = 2 * scratch_bytes(size(1920, 1080));

    for i in 0..40 {
        let size: Size = size(1920, 1000 + i);
        // Peak, not resting: the room is made before the allocation, so
        // this bound covers the moment the new texture exists too.
        pool.make_room(size, budget);
        assert!(
            pool.held_bytes() + scratch_bytes(size) <= budget,
            "{} + {} over budget {budget}",
            pool.held_bytes(),
            scratch_bytes(size)
        );
        pool.store(size, i as u32);
    }
    assert!(pool.len() >= 1, "the newest entry always survives");
}

/// Eviction takes the entry that has gone longest without being asked for,
/// not the oldest one — a bar that is still on screen must outlive the
/// extents a moving window left behind.
#[test]
fn eviction_takes_the_least_recently_used_entry() {
    let mut pool: ScratchPool<u32> = ScratchPool::default();
    let bar: Size = size(1920, 100);
    let stale: Size = size(1920, 900);
    let budget = scratch_bytes(bar) + scratch_bytes(stale);

    acquired(&mut pool, stale, 1, budget);
    acquired(&mut pool, bar, 2, budget);
    for _ in 0..5 {
        pool.end_frame();
        pool.hit(bar);
    }

    acquired(&mut pool, size(1920, 800), 3, budget);
    assert_eq!(pool.hit(bar), Some(2));
    assert_eq!(pool.hit(stale), None);
}

#[test]
fn a_settled_renderer_never_backs_off() {
    let mut backoff = RenderBackoff::default();
    for _ in 0..10 {
        assert!(backoff.ready());
        backoff.note_success();
    }
}

/// Each retry re-allocates two output-sized textures, so a renderer that is
/// failing persistently must not be asked every frame.
#[test]
fn repeated_failures_back_off_further_each_time() {
    let mut backoff = RenderBackoff::default();
    let mut waits = Vec::new();

    for _ in 0..4 {
        assert!(backoff.ready());
        backoff.note_failure();
        let mut skipped = 0;
        while !backoff.ready() {
            skipped += 1;
        }
        waits.push(skipped);
    }

    assert_eq!(waits, vec![2, 4, 8, 16]);
}

#[test]
fn the_backoff_is_capped_and_a_success_clears_it() {
    let mut backoff = RenderBackoff::default();
    for _ in 0..50 {
        backoff.note_failure();
    }
    let mut skipped = 0;
    while !backoff.ready() {
        skipped += 1;
    }
    assert_eq!(skipped, BACKOFF_MAX_SKIP);

    backoff.note_failure();
    backoff.note_success();
    assert!(backoff.ready(), "a working renderer is picked up at once");
}

fn settled_backdrop() -> SharedRefreshInputs {
    SharedRefreshInputs {
        since_refresh: Some(millis(10)),
        view_changed: false,
        bg_structure_changed: false,
        bg_content_changed: false,
        animate_blur_fps: 20,
    }
}

fn slicers(slicers: usize, coverage: f64) -> SharedPayoff {
    SharedPayoff {
        slicers,
        slicer_area: (coverage * 1000.0).round() as u128,
        output_area: 1000,
        background_empty: false,
        was_paying: false,
    }
}

fn captured_mask() -> MaskStamp {
    MaskStamp {
        geometry_generation: 7,
        live: size(400, 300),
        regions: None,
    }
}

fn at_view(x: f64, y: f64, zoom: f64) -> ViewStamp {
    ViewStamp::at(ViewKey {
        camera_x: x.to_bits(),
        camera_y: y.to_bits(),
        zoom: zoom.to_bits(),
    })
}

/// Stand-in for `acquire` without a GL context: the miss path, which is
/// what has to make room before it takes any.
fn acquired<T: Clone>(
    pool: &mut ScratchPool<T>,
    size: Size,
    texture: T,
    budget: u128,
) -> T {
    if let Some(hit) = pool.hit(size) {
        return hit;
    }
    pool.make_room(size, budget);
    pool.store(size, texture.clone());
    texture
}

/// The frosted window every fingerprint test is taken for.
fn frosted() -> Rect {
    rect(100, 100, 200, 200)
}

/// Squarely under it, so it is in the frost on any reading of the rect.
fn under_the_window() -> Rect {
    rect(150, 150, 50, 50)
}

/// Lower elements from `(id index, commit count, geometry)`.
fn lower(elements: &[(usize, u64, Rect)], ids: &[u64]) -> Vec<ElementInfo> {
    elements
        .iter()
        .map(|&(id, commit, geometry)| ElementInfo {
            id: ids[id],
            commit,
            geometry,
        })
        .collect()
}

/// Lower elements all sitting under the window, for the tests that are
/// about something other than where they sit.
fn stacked(elements: &[(usize, u64)], ids: &[u64]) -> Vec<ElementInfo> {
    let placed: Vec<_> = elements
        .iter()
        .map(|&(id, commits)| (id, commits, under_the_window()))
        .collect();
    lower(&placed, ids)
}

fn fingerprint(lower: &[ElementInfo], background: &[(u64, u64)]) -> BackdropFingerprint {
    let background: Vec<ElementInfo> = background
        .iter()
        .map(|&(id, commit)| ElementInfo {
            id,
            commit,
            geometry: rect(0, 0, 1920, 1080),
        })
        .collect();
    backdrop_fingerprint(lower, &background, frosted(), FINGERPRINT_PAD, None)
}

fn signature(elements: &[(usize, u64)], ids: &[u64]) -> Vec<(u64, u64)> {
    elements
        .iter()
        .map(|&(id, commits)| (ids[id], commits))
        .collect()
}
