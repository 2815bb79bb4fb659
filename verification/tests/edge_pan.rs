use driftwm::geometry::{Point, Size};
use driftwm::state::edge_pan::{
    AxisMotion, EDGE_RIGHT, EDGE_TOP, EdgePan, Edges, LayoutCell, LayoutOutput, PanStep,
    monitor_facing_edges_at, shared_edges_at,
};

/// Edges beside a pointer at `(x, y)` on the output at `loc`.
fn edges_at(loc: Point, size: Size, x: f64, y: f64, other_loc: Point, other_size: Size) -> u8 {
    let at = LayoutCell {
        x: (loc.x as f64 + x).floor() as i64,
        y: (loc.y as f64 + y).floor() as i64,
    };
    shared_edges_at(loc, size, at, other_loc, other_size).bits()
}

#[test]
fn edge_pan_delay_only_covers_shared_vertical_segment() {
    let loc = Point::new(0, 0);
    let size = Size::new(1920, 1080);
    let other_loc = Point::new(1920, 300);
    let other_size = Size::new(1280, 600);

    let edges = |y| edges_at(loc, size, 1919.0, y, other_loc, other_size);
    assert_eq!(edges(299.999), 0);
    assert_eq!(edges(300.0), EDGE_RIGHT);
    assert_eq!(edges(899.999), EDGE_RIGHT);
    assert_eq!(edges(900.0), 0);
}

#[test]
fn edge_pan_delay_only_covers_shared_horizontal_segment() {
    let edges = edges_at(
        Point::new(-1000, 200),
        Size::new(1600, 900),
        750.0,
        0.0,
        Point::new(-500, -700),
        Size::new(600, 900),
    );
    assert_eq!(edges, EDGE_TOP);

    let outside = edges_at(
        Point::new(-1000, 200),
        Size::new(1600, 900),
        1100.0,
        0.0,
        Point::new(-500, -700),
        Size::new(600, 900),
    );
    assert_eq!(outside, 0);
}

#[test]
fn edge_pan_delay_ignores_corner_only_contact() {
    let edges = edges_at(
        Point::new(0, 0),
        Size::new(1000, 1000),
        999.0,
        999.0,
        Point::new(1000, 1000),
        Size::new(500, 500),
    );
    assert_eq!(edges, 0);
}

#[test]
fn edge_pan_delay_segment_endpoints_are_half_open() {
    let loc = Point::new(0, 0);
    let size = Size::new(1000, 1000);
    let upper = edges_at(
        loc,
        size,
        999.0,
        500.0,
        Point::new(1000, 0),
        Size::new(500, 500),
    );
    let lower = edges_at(
        loc,
        size,
        999.0,
        500.0,
        Point::new(1000, 500),
        Size::new(500, 500),
    );
    assert_eq!(upper, 0);
    assert_eq!(lower, EDGE_RIGHT);
}

#[test]
fn edge_pan_delay_geometry_does_not_overflow_extreme_positions() {
    let edges = edges_at(
        Point::new(i32::MAX - 10, i32::MIN),
        Size::new(100, 100),
        99.0,
        50.0,
        Point::new(i32::MIN, i32::MAX - 10),
        Size::new(100, 100),
    );
    assert_eq!(edges, 0);
}

#[test]
fn monitors_on_several_sides_add_up() {
    let output = |id, x, y| LayoutOutput {
        id,
        loc: Point::new(x, y),
        size: Size::new(100, 100),
    };
    let outputs = [
        output(1, 0, 0),
        output(2, 100, 0),
        output(3, 0, -100),
        output(4, -300, 0),
    ];
    let edges = monitor_facing_edges_at(&outputs[0], &outputs, LayoutCell { x: 99, y: 0 });
    assert_eq!(edges.bits(), EDGE_RIGHT + EDGE_TOP);
}

fn right_only() -> Edges {
    Edges {
        left: false,
        right: true,
        top: false,
        bottom: false,
    }
}

#[test]
fn motion_towards_a_monitor_waits_out_the_latency() {
    let mut pan: EdgePan<(), ()> = EdgePan {
        velocity: None,
        screen_pos: None,
        delay: None,
    };
    let step = |pan: &mut EdgePan<(), ()>, y: AxisMotion, now: u128| {
        pan.effective_edge_pan_velocity(AxisMotion::Forward, y, right_only(), false, 100, now)
    };
    assert_eq!(step(&mut pan, AxisMotion::Still, 0), PanStep::Rest);
    pan.update_edge_pan_request(Some(()), ());
    assert_eq!(step(&mut pan, AxisMotion::Still, 10), PanStep::Rest);
    // The axis that faces no monitor moves at once.
    assert_eq!(
        step(&mut pan, AxisMotion::Forward, 20),
        PanStep::Part { x: false, y: true }
    );
    assert_eq!(step(&mut pan, AxisMotion::Still, 109), PanStep::Rest);
    assert_eq!(step(&mut pan, AxisMotion::Still, 110), PanStep::Full);
    // Other edges start a wait of their own.
    let turned = pan.effective_edge_pan_velocity(
        AxisMotion::Backward,
        AxisMotion::Still,
        Edges {
            left: true,
            right: false,
            top: false,
            bottom: false,
        },
        false,
        100,
        150,
    );
    assert_eq!(turned, PanStep::Rest);
    assert_eq!(pan.delay.unwrap().entered_at, 150);
}

#[test]
fn fullscreen_rests_and_keeps_the_wait() {
    let mut pan: EdgePan<(), ()> = EdgePan {
        velocity: Some(()),
        screen_pos: Some(()),
        delay: None,
    };
    let mut at = |fullscreen: bool, latency: u128, now: u128| {
        pan.effective_edge_pan_velocity(
            AxisMotion::Forward,
            AxisMotion::Still,
            right_only(),
            fullscreen,
            latency,
            now,
        )
    };
    assert_eq!(at(false, 100, 5), PanStep::Rest);
    assert_eq!(at(true, 100, 500), PanStep::Rest);
    assert_eq!(at(false, 100, 501), PanStep::Full);
    assert_eq!(at(false, 0, 502), PanStep::Full);
    assert!(pan.delay.is_none());
    pan.clear_edge_pan();
    assert!(pan.velocity.is_none() && pan.screen_pos.is_none());
    pan.update_edge_pan_request(None, ());
    assert!(pan.screen_pos.is_none());
}
