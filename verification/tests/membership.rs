use driftwm::geometry::{Point, Rect, Size};
use driftwm::names::NamedMap;
use driftwm::state::membership::{
    WindowPlace, desired_memberships, desired_outputs, desired_satellite_membership,
    refresh_window_outputs, send_output_leaves,
};

fn rect(x: i32, y: i32, w: i32, h: i32) -> Rect {
    Rect::new(Point::new(x, y), Size::new(w, h))
}

fn center(x: i32, y: i32) -> Point {
    Point::new(x, y)
}

fn two_outputs() -> Vec<(String, Rect)> {
    vec![
        ("A".to_string(), rect(0, 0, 100, 100)),
        ("B".to_string(), rect(100, 0, 100, 100)),
    ]
}

#[test]
fn window_spanning_two_outputs_enters_both() {
    // Spans x 50..150, y 10..60 — straddles the A|B seam at x=100.
    let bbox = rect(50, 10, 100, 50);
    let desired = desired_memberships(bbox, &two_outputs(), None);
    assert_eq!(
        desired,
        vec![(0, rect(0, 0, 50, 50)), (1, rect(50, 0, 50, 50))]
    );
}

#[test]
fn allowed_output_excludes_foreign_overlap() {
    let bbox = rect(50, 10, 100, 50);
    let desired = desired_memberships(bbox, &two_outputs(), Some("A"));
    assert_eq!(desired, vec![(0, rect(0, 0, 50, 50))]);
}

#[test]
fn allowed_output_without_overlap_is_empty() {
    // Window sits entirely over B, but only A is allowed.
    let bbox = rect(120, 0, 50, 50);
    assert!(desired_memberships(bbox, &two_outputs(), Some("A")).is_empty());
}

#[test]
fn zero_sized_output_is_excluded() {
    let outputs = vec![("A".to_string(), rect(0, 0, 0, 0))];
    let bbox = rect(0, 0, 50, 50);
    assert!(desired_memberships(bbox, &outputs, None).is_empty());
}

#[test]
fn satellite_overlap_of_both_keeps_current() {
    // Straddles the A|B seam but its center sits in A, which is current.
    let bbox = rect(40, 10, 80, 50);
    let got = desired_satellite_membership(
        bbox,
        center(80, 35),
        &two_outputs(),
        Some(("A", rect(0, 0, 60, 50))),
    );
    assert_eq!(got, vec![(0, rect(0, 0, 60, 50))]);
}

#[test]
fn satellite_center_crossing_switches_output() {
    // Center now sits on B (x = 100 belongs to B under half-open bounds).
    let bbox = rect(60, 10, 80, 50);
    let got = desired_satellite_membership(
        bbox,
        center(100, 35),
        &two_outputs(),
        Some(("A", rect(0, 0, 40, 50))),
    );
    assert_eq!(got, vec![(1, rect(40, 0, 40, 50))]);
}

#[test]
fn satellite_poison_sequence_never_enters_second_output() {
    let outputs = two_outputs();
    // Enter A.
    let step1 = desired_satellite_membership(rect(10, 10, 50, 50), center(35, 35), &outputs, None);
    assert_eq!(step1, vec![(0, rect(0, 0, 50, 50))]);
    // B now overlaps the window, but the center stays in A.
    let step2 = desired_satellite_membership(
        rect(10, 10, 120, 50),
        center(35, 35),
        &outputs,
        Some(("A", step1[0].1)),
    );
    assert_eq!(step2[0].0, 0);
    // B stops overlapping — still A, never B.
    let step3 = desired_satellite_membership(
        rect(10, 10, 50, 50),
        center(35, 35),
        &outputs,
        Some(("A", step2[0].1)),
    );
    assert_eq!(step3[0].0, 0);
}

#[test]
fn satellite_fully_offscreen_keeps_current() {
    // Nothing overlaps: A is retained with its last tracked rect (no leave).
    let got = desired_satellite_membership(
        rect(500, 500, 50, 50),
        center(525, 525),
        &two_outputs(),
        Some(("A", rect(0, 0, 50, 50))),
    );
    assert_eq!(got, vec![(0, rect(0, 0, 50, 50))]);
}

#[test]
fn satellite_current_unplugged_falls_through_to_largest_overlap() {
    // A was hot-unplugged; only B and C remain and the center lands in the
    // gap between them, so the larger overlap (C) wins.
    let outputs = vec![
        ("B".to_string(), rect(100, 0, 100, 100)),
        ("C".to_string(), rect(300, 0, 100, 100)),
    ];
    let got = desired_satellite_membership(
        rect(180, 10, 160, 50),
        center(260, 35),
        &outputs,
        Some(("A", rect(0, 0, 50, 50))),
    );
    assert_eq!(got, vec![(1, rect(120, 0, 40, 50))]);
}

#[test]
fn a_client_hears_of_changes_only() {
    let outputs = two_outputs();
    let mut entered: NamedMap<Rect> = NamedMap::new();
    let both = desired_memberships(rect(50, 10, 100, 50), &outputs, None);
    let change = refresh_window_outputs(&mut entered, &outputs, &both);
    assert_eq!(change.enters, both);
    assert!(change.leaves.is_empty());

    let again = refresh_window_outputs(&mut entered, &outputs, &both);
    assert!(again.enters.is_empty() && again.leaves.is_empty());

    // Moves onto B: a new overlap there, and A is left.
    let only_b = desired_memberships(rect(120, 10, 50, 50), &outputs, None);
    let moved = refresh_window_outputs(&mut entered, &outputs, &only_b);
    assert_eq!(moved.enters, only_b);
    assert_eq!(moved.leaves, ["A"]);

    assert_eq!(send_output_leaves(&mut entered), ["B"]);
    assert_eq!(entered.len(), 0);
}

#[test]
fn a_bound_window_keeps_to_its_output() {
    let outputs = two_outputs();
    let mut entered: NamedMap<Rect> = NamedMap::new();
    entered.insert("A".to_string(), rect(0, 0, 10, 10));
    entered.insert("B".to_string(), rect(0, 0, 20, 20));
    let place = |allowed: Option<&str>, single_output: bool| WindowPlace {
        bbox: rect(500, 500, 10, 10),
        center: center(505, 505),
        allowed: allowed.map(str::to_string),
        single_output,
    };
    assert!(desired_outputs(&place(Some("A"), true), &entered, &outputs).is_empty());
    assert!(desired_outputs(&place(None, false), &entered, &outputs).is_empty());
    // Off screen: the output it is on with the larger overlap stays.
    assert_eq!(
        desired_outputs(&place(None, true), &entered, &outputs),
        vec![(1, rect(0, 0, 20, 20))]
    );
}
