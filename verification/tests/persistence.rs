use driftwm::names::{Named, NamedMap};
use driftwm::state::persistence::{
    AppWindow, CenterText, FieldKey, OutputText, OutputView, ReadField, StateFile, StateText,
    WRITE_INTERVAL, read_all_per_output_state, read_fields, state_file_text,
};

fn center(x: &str, y: &str, zoom: &str) -> CenterText {
    CenterText {
        x: x.to_string(),
        y: y.to_string(),
        zoom: zoom.to_string(),
    }
}

fn app(app_id: &str, focused: bool) -> AppWindow {
    AppWindow {
        app_id: app_id.to_string(),
        focused,
    }
}

fn output(name: &str, x: &str, y: &str, zoom: &str) -> OutputText {
    OutputText {
        name: name.to_string(),
        camera_x: x.to_string(),
        camera_y: y.to_string(),
        zoom: zoom.to_string(),
    }
}

fn state() -> StateText {
    StateText {
        center: center("12", "-34", "1.000"),
        layout: "English (US)".to_string(),
        saved: None,
        windows: vec![],
        layers: vec![],
        outputs: vec![],
    }
}

#[test]
fn the_file_names_viewport_and_layout() {
    assert_eq!(
        state_file_text(&state()),
        "x=12\ny=-34\nzoom=1.000\nlayout=English (US)\n"
    );
}

#[test]
fn lists_put_the_focused_window_first_and_name_a_layer_once() {
    let mut s = state();
    s.saved = Some(center("1", "2", "0.500"));
    s.windows = vec![app("foot", false), app("", true), app("firefox", true)];
    s.layers = ["waybar", "", "wofi", "waybar"].map(String::from).to_vec();
    s.outputs = vec![output("DP-1", "1.5", "2.5", "1")];
    assert_eq!(
        state_file_text(&s),
        "x=12\ny=-34\nzoom=1.000\nlayout=English (US)\n\
         saved_x=1\nsaved_y=2\nsaved_zoom=0.500\n\
         windows=firefox,foot\nlayers=waybar,wofi\n\
         outputs.DP-1.camera_x=1.5\noutputs.DP-1.camera_y=2.5\noutputs.DP-1.zoom=1\n"
    );
}

#[test]
fn outputs_are_read_back() {
    let mut s = state();
    s.outputs = vec![output("DP-1", "1.5", "2.5", "1"), output("eDP.1", "-3", "4", "0.25")];
    let fields = read_fields(&state_file_text(&s));
    let read: Vec<(&str, FieldKey, &str)> = fields
        .iter()
        .map(|f| (f.name.as_str(), f.key, f.value.as_str()))
        .collect();
    assert_eq!(
        read,
        vec![
            ("DP-1", FieldKey::CameraX, "1.5"),
            ("DP-1", FieldKey::CameraY, "2.5"),
            ("DP-1", FieldKey::Zoom, "1"),
            ("eDP.1", FieldKey::CameraX, "-3"),
            ("eDP.1", FieldKey::CameraY, "4"),
            ("eDP.1", FieldKey::Zoom, "0.25"),
        ]
    );
}

#[test]
fn other_lines_are_passed_over() {
    let fields = read_fields("x=1\noutputs.A.depth=8\noutputs.A.zoom\r\noutputs.A.zoom=2\r\njunk\n\n");
    assert_eq!(fields.len(), 1);
    assert_eq!(fields[0].name, "A");
    assert_eq!(fields[0].value, "2");
}

fn field(name: &str, key: FieldKey, value: i32) -> ReadField<i32> {
    ReadField {
        name: name.to_string(),
        key,
        value,
    }
}

#[test]
fn an_output_needs_all_three_fields() {
    let known = read_all_per_output_state(&[
        field("A", FieldKey::CameraX, 1),
        field("B", FieldKey::CameraX, 4),
        field("A", FieldKey::CameraY, 2),
        field("A", FieldKey::Zoom, 3),
        field("B", FieldKey::Zoom, 5),
        field("A", FieldKey::CameraX, 9),
    ]);
    assert_eq!(known.len(), 1);
    let OutputView {
        camera_x,
        camera_y,
        zoom,
    } = known.get("A").unwrap();
    assert_eq!((*camera_x, *camera_y, *zoom), (9, 2, 3));
    assert!(!known.contains("B"));
}

fn file() -> StateFile<i32> {
    StateFile {
        cameras: NamedMap::new(),
        layout: "us".to_string(),
        window_count: 0,
        layer_count: 0,
        last_write: 0,
    }
}

fn named(name: &str, value: i32) -> Named<i32> {
    Named {
        name: name.to_string(),
        value,
    }
}

#[test]
fn a_change_is_written_once_the_interval_is_over() {
    let mut f = file();
    assert!(!f.write_state_file_if_dirty(&[], &[], "us", 0, 0, WRITE_INTERVAL));
    assert_eq!(f.last_write, 0);
    let mut f = file();
    let outputs = [named("A", 7)];
    assert!(!f.write_state_file_if_dirty(&outputs, &[false], "us", 0, 0, WRITE_INTERVAL - 1));
    assert!(f.write_state_file_if_dirty(&outputs, &[false], "us", 0, 0, WRITE_INTERVAL));
    assert_eq!(f.cameras.get("A"), Some(&7));
    assert_eq!(f.last_write, WRITE_INTERVAL);
    let later = WRITE_INTERVAL * 3;
    assert!(!f.write_state_file_if_dirty(&outputs, &[false], "us", 0, 0, later));
    assert!(f.write_state_file_if_dirty(&[named("A", 8)], &[true], "us", 0, 0, later));
    assert_eq!(f.cameras.get("A"), Some(&8));
}

#[test]
fn layout_windows_and_layers_count_as_changes() {
    let now = WRITE_INTERVAL;
    assert!(file().write_state_file_if_dirty(&[], &[], "de", 0, 0, now));
    assert!(file().write_state_file_if_dirty(&[], &[], "us", 1, 0, now));
    assert!(file().write_state_file_if_dirty(&[], &[], "us", 0, 1, now));
    let mut f = file();
    f.last_write = now;
    assert!(!f.write_state_file_if_dirty(&[], &[], "de", 0, 0, 0));
}
