use driftwm::blur::backdrop::{backdrop_wrap_mode, blur_pad};
use driftwm::capture::{
    CAPTURE_MAX_IDLE, CaptureEvent, CaptureOutputState, CaptureProtocol, CaptureReply,
    CaptureRequest, CaptureTarget, ExportRequest, capture_elements, capture_key, capture_reply,
    copy_len, evict_idle_capture_state, get_capture_state, presentation_time,
    remove_capture_state, render_capture_frames, render_hyprland_toplevel_exports,
    render_screencopy, take_for_output,
};
use driftwm::geometry::Size;
use driftwm::names::NamedMap;

fn request(output: u64, reply: u32) -> CaptureRequest<u32> {
    CaptureRequest {
        output,
        buffer_size: Size::new(1920, 1080),
        paint_cursors: reply % 2 == 0,
        target: CaptureTarget::Shm,
        reply,
    }
}

fn replies(requests: &[CaptureRequest<u32>]) -> Vec<u32> {
    requests.iter().map(|r| r.reply).collect()
}

#[test]
fn serving_an_output_takes_its_requests() {
    let mut pending = vec![request(1, 10), request(2, 20), request(1, 30), request(2, 40)];
    let mine = take_for_output(&mut pending, 1);
    // The last request fills the gap of one that is taken.
    assert_eq!(replies(&mine), vec![10, 30]);
    assert_eq!(replies(&pending), vec![40, 20]);
}

#[test]
fn plans_leave_the_cursor_out_unless_asked() {
    let mut pending = vec![request(1, 1), request(1, 2), request(3, 4)];
    pending[1].buffer_size = Size::new(640, 480);
    let cursors = [true, false, false];
    let plans = render_capture_frames(&mut pending, 1, &cursors, Size::new(1080, 1920), true);
    assert_eq!(plans.len(), 2);
    assert_eq!(plans[0].request.reply, 1);
    assert_eq!(plans[0].elements, vec![1, 2]);
    assert!(plans[0].persistent);
    assert_eq!(plans[1].request.reply, 2);
    assert_eq!(plans[1].elements, vec![0, 1, 2]);
    assert!(!plans[1].persistent);
    assert_eq!(replies(&pending), vec![4]);
    let plans = render_capture_frames(&mut pending, 3, &cursors, Size::new(1080, 1920), false);
    assert!(!plans[0].persistent);
}

#[test]
fn captured_elements_are_in_order() {
    assert_eq!(capture_elements(&[true, false, true], true), vec![0, 1, 2]);
    assert_eq!(capture_elements(&[true, false, true], false), vec![1]);
    assert_eq!(capture_elements(&[], false), vec![] as Vec<usize>);
    let mut pending = vec![request(1, 3), request(2, 4)];
    let plans = render_screencopy(&mut pending, 2, &[false, true], Size::new(1920, 1080));
    assert_eq!(plans.len(), 1);
    assert_eq!(plans[0].elements, vec![0, 1]);
    assert!(plans[0].persistent);
    assert_eq!(replies(&pending), vec![3]);
}

#[test]
fn keys_tell_the_protocols_apart() {
    assert_eq!(capture_key(CaptureProtocol::Screencopy, "DP-1"), "sc:DP-1");
    assert_eq!(capture_key(CaptureProtocol::ImageCopy, "DP-1"), "cap:DP-1");
}

#[test]
fn a_capture_state_is_made_once_and_starts_over_with_the_cursor() {
    let mut states: NamedMap<CaptureOutputState<u8>> = NamedMap::new();
    let at = get_capture_state(&mut states, "sc:a".to_string(), false, 5);
    let state = &mut states.entries[at].value;
    assert!(state.offscreen_texture.is_none());
    assert_eq!((state.age, state.last_paint_cursors, state.last_used), (0, false, 5));
    assert!(!state.texture_fits(Size::new(2, 2)));
    state.replace_texture(9, Size::new(2, 2));
    assert!(state.texture_fits(Size::new(2, 2)));
    assert!(!state.texture_fits(Size::new(2, 3)));
    state.rendered(7);
    state.rendered(8);
    assert_eq!((state.age, state.last_used), (2, 8));
    let again = get_capture_state(&mut states, "sc:a".to_string(), false, 9);
    assert_eq!((again, states.entries[again].value.age), (at, 2));
    let cursor = get_capture_state(&mut states, "sc:a".to_string(), true, 9);
    let state = &states.entries[cursor].value;
    assert_eq!((state.age, state.last_paint_cursors), (0, true));
    assert!(state.offscreen_texture.is_some());
}

#[test]
fn states_are_evicted_with_age_and_output() {
    let mut states: NamedMap<CaptureOutputState<u8>> = NamedMap::new();
    get_capture_state(&mut states, "sc:a".to_string(), false, 0);
    get_capture_state(&mut states, "sc:b".to_string(), false, 1);
    get_capture_state(&mut states, "sc:later".to_string(), false, CAPTURE_MAX_IDLE * 2);
    evict_idle_capture_state(&mut states, CAPTURE_MAX_IDLE + 1);
    assert!(!states.contains("sc:a"));
    assert!(states.contains("sc:b"));
    assert!(states.contains("sc:later"));
    let mut states: NamedMap<CaptureOutputState<u8>> = NamedMap::new();
    for key in ["sc:DP-1", "cap:DP-1", "sc:HDMI-DP-1", "cap:DP-2"] {
        get_capture_state(&mut states, key.to_string(), false, 0);
    }
    remove_capture_state(&mut states, &":DP-1".chars().collect());
    assert!(!states.contains("sc:DP-1"));
    assert!(!states.contains("cap:DP-1"));
    assert!(states.contains("sc:HDMI-DP-1"));
    assert!(states.contains("cap:DP-2"));
}

#[test]
fn replies_follow_the_outcome() {
    let t = presentation_time(0x5_0000_0007, 12);
    assert_eq!((t.secs_hi, t.secs_lo, t.nanos), (5, 7, 12));
    let size = Size::new(3, 4);
    assert_eq!(
        capture_reply(CaptureEvent::RenderFailed, size, 1, 2),
        CaptureReply::Failed
    );
    assert_eq!(
        capture_reply(CaptureEvent::DeliveryFailed, size, 1, 2),
        CaptureReply::Failed
    );
    assert_eq!(
        capture_reply(CaptureEvent::Delivered, size, 1, 2),
        CaptureReply::Ready {
            damage: size,
            time: presentation_time(1, 2)
        }
    );
    assert_eq!(copy_len(10, 7), 7);
    assert_eq!(copy_len(4, 7), 4);
}

#[test]
fn exports_without_an_area_fail() {
    let export = |reply: u8, w: i32, h: i32| ExportRequest {
        window: 1,
        buffer_size: Size::new(w, h),
        target: CaptureTarget::Dmabuf,
        reply,
    };
    let (render, fail) = render_hyprland_toplevel_exports(vec![
        export(1, 10, 10),
        export(2, 0, 10),
        export(3, 5, 5),
        export(4, 5, -1),
    ]);
    assert_eq!(render.iter().map(|e| e.reply).collect::<Vec<u8>>(), vec![1, 3]);
    assert_eq!(fail.iter().map(|e| e.reply).collect::<Vec<u8>>(), vec![2, 4]);
}

#[test]
fn mirrored_backdrops_take_gles3() {
    assert!(backdrop_wrap_mode("OpenGL ES 3.2 Mesa 24.0"));
    assert!(!backdrop_wrap_mode("OpenGL ES 2.0 Mesa 24.0"));
    assert!(!backdrop_wrap_mode("OpenGL ES "));
    assert!(!backdrop_wrap_mode("4.6 (Core Profile)"));
}

fn reach(strength: f32, passes: usize) -> i32 {
    (strength * (1u32 << (passes + 1)) as f32).ceil() as i32
}

#[test]
fn blur_pad_stays_within_its_clamp() {
    assert_eq!(blur_pad(reach(1.0, 0)), 16);
    assert_eq!(blur_pad(reach(8.0, 5)), 128);
    let mid = blur_pad(reach(4.0, 3));
    assert!((16..=128).contains(&mid));
}
