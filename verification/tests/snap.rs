use driftwm::snap::{
    AxisSnap, SnapEdge, SnapMotion, SnapOther, SnapState, find_edge_snap, find_snap_candidate,
    try_candidate, update_axis, update_edge,
};

const THRESHOLD: f64 = 16.0;
const BREAK_FORCE: f64 = 32.0;

fn edge(position: f64, distance: f64) -> SnapEdge<f64> {
    SnapEdge {
        position,
        distance: distance.to_bits(),
    }
}

/// What a window from `low` to `high` offers to one of width `extent` at
/// `natural`, with a gap of 4.
fn other(low: f64, high: f64, natural: f64, extent: f64) -> SnapOther<f64> {
    let far = natural + extent;
    SnapOther {
        beside: true,
        meet_low: edge(low - 4.0 - extent, (far - low).abs()),
        meet_high: edge(high + 4.0, (natural - high).abs()),
        align_low: edge(low, (natural - low).abs()),
        align_high: edge(high - extent, (far - high).abs()),
    }
}

#[test]
fn the_nearest_edge_wins() {
    let natural = 110.0;
    let others = [other(0.0, 100.0, natural, 50.0), other(165.0, 300.0, natural, 50.0)];
    let best = find_snap_candidate(&others, true, THRESHOLD.to_bits()).unwrap();
    assert_eq!(best, edge(111.0, 5.0));
    assert_eq!(find_snap_candidate(&others, true, 5.0f64.to_bits()), None);
}

#[test]
fn windows_that_are_not_beside_offer_nothing() {
    let mut far = other(0.0, 100.0, 101.0, 50.0);
    far.beside = false;
    assert_eq!(find_snap_candidate(&[far], true, THRESHOLD.to_bits()), None);
}

#[test]
fn edges_line_up_only_if_asked() {
    let aligned = [other(100.0, 400.0, 103.0, 50.0)];
    let best = find_snap_candidate(&aligned, true, THRESHOLD.to_bits());
    assert_eq!(best, Some(edge(100.0, 3.0)));
    assert_eq!(find_snap_candidate(&aligned, false, THRESHOLD.to_bits()), None);
}

#[test]
fn the_first_of_two_equally_near_offers_wins() {
    let mut best = None;
    try_candidate(&mut best, edge(1.0, 5.0), THRESHOLD.to_bits());
    try_candidate(&mut best, edge(2.0, 5.0), THRESHOLD.to_bits());
    assert_eq!(best, Some(edge(1.0, 5.0)));
    try_candidate(&mut best, edge(3.0, 4.0), THRESHOLD.to_bits());
    assert_eq!(best, Some(edge(3.0, 4.0)));
    let mut none = None;
    try_candidate(&mut none, edge(1.0, THRESHOLD), THRESHOLD.to_bits());
    assert_eq!(none, None);
}

#[test]
fn a_dragged_edge_meets_the_opposite_edge() {
    let natural = 105.0;
    let others = [other(110.0, 100.0, natural, 0.0)];
    let high = find_edge_snap(&others, false, true, THRESHOLD.to_bits()).unwrap();
    assert_eq!(high, edge(106.0, 5.0));
    let low = find_edge_snap(&others, false, false, THRESHOLD.to_bits()).unwrap();
    assert_eq!(low, edge(104.0, 5.0));
    let aligned = [other(50.0, 107.0, natural, 0.0)];
    let high = find_edge_snap(&aligned, true, true, THRESHOLD.to_bits()).unwrap();
    assert_eq!(high, edge(107.0, 2.0));
    assert_eq!(find_edge_snap(&aligned, false, true, THRESHOLD.to_bits()), None);
}

fn motion(snap: &Option<AxisSnap<f64>>, cooldown: &Option<f64>, natural: f64) -> SnapMotion {
    let breaks = snap.is_some_and(|s| {
        let (retreat, overshoot) = if s.snapped_pos > s.natural_at_engage {
            (s.natural_at_engage - natural, natural - s.snapped_pos)
        } else {
            (natural - s.natural_at_engage, s.snapped_pos - natural)
        };
        retreat >= BREAK_FORCE || overshoot >= BREAK_FORCE
    });
    let clears_cooldown = cooldown.is_some_and(|cd| (natural - cd).abs() > THRESHOLD);
    SnapMotion {
        breaks,
        clears_cooldown,
    }
}

#[test]
fn a_drag_snaps_holds_breaks_and_cools_down() {
    let mut state: SnapState<f64> = SnapState::new();
    let mut drag = |natural: f64| {
        let m = motion(&state.x, &state.cooldown_x, natural);
        let others = [other(0.0, 100.0, natural, 50.0)];
        update_axis(
            &mut state.x,
            &mut state.cooldown_x,
            natural,
            m,
            &others,
            false,
            THRESHOLD.to_bits(),
        )
    };
    // Too far away.
    assert_eq!(drag(130.0), 130.0);
    // Takes hold at the gap.
    assert_eq!(drag(110.0), 104.0);
    // Holds on the way past the snap.
    assert_eq!(drag(90.0), 104.0);
    // Overshoots far enough to break.
    assert_eq!(drag(72.0), 72.0);
    // Far from the broken snap, near nothing.
    assert_eq!(drag(80.0), 80.0);
    // Takes hold again.
    assert_eq!(drag(95.0), 104.0);
    // Retreats far enough to break, while still within the threshold of nothing.
    assert_eq!(drag(60.0), 60.0);
    assert!(state.x.is_none());
    assert_eq!(state.cooldown_x, Some(104.0));
}

#[test]
fn a_broken_snap_does_not_take_hold_at_once() {
    let mut snap = Some(AxisSnap {
        snapped_pos: 104,
        natural_at_engage: 110,
    });
    let mut cooldown = None;
    let breaking = SnapMotion {
        breaks: true,
        clears_cooldown: false,
    };
    let near = [SnapOther {
        beside: true,
        meet_low: SnapEdge {
            position: 1,
            distance: 1,
        },
        meet_high: SnapEdge {
            position: 104,
            distance: 0,
        },
        align_low: SnapEdge {
            position: 1,
            distance: 9,
        },
        align_high: SnapEdge {
            position: 1,
            distance: 9,
        },
    }];
    assert_eq!(update_edge(&mut snap, &mut cooldown, 70, breaking, &near, false, false, 5), 70);
    assert_eq!((snap, cooldown), (None, Some(104)));
    let still = SnapMotion {
        breaks: false,
        clears_cooldown: false,
    };
    assert_eq!(update_edge(&mut snap, &mut cooldown, 100, still, &near, false, false, 5), 100);
    assert_eq!(snap, None);
    let away = SnapMotion {
        breaks: false,
        clears_cooldown: true,
    };
    assert_eq!(update_edge(&mut snap, &mut cooldown, 90, away, &near, false, false, 5), 104);
    assert_eq!(cooldown, None);
    assert_eq!(
        snap,
        Some(AxisSnap {
            snapped_pos: 104,
            natural_at_engage: 90
        })
    );
}
