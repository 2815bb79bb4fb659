use driftwm::state::focus::{
    ElementRaise, FocusHistory, FocusIntent, FocusLayer, FocusState, FocusUpdate, FocusWindow,
    FocusWorld, FocusedElement, Interactivity, PopupGrabState, RaiseStep, exclusive_layer_focus,
    focused_anchor_element, focused_element, focused_window, focused_window_target,
    layer_interactivity, on_demand_layer_focus, raise_and_focus, raise_and_focus_element,
    remember_window_layout, set_keyboard_focus, topmost_modal_child,
};

fn window(surface: u64, parent: Option<u64>, modal: bool) -> FocusWindow {
    FocusWindow {
        surface,
        parent,
        modal,
    }
}

fn layer(surface: u64, interactivity: Interactivity) -> FocusLayer {
    FocusLayer {
        surface,
        alive: true,
        surface_alive: true,
        interactivity,
    }
}

fn world() -> FocusWorld {
    FocusWorld {
        locked: false,
        layers: vec![],
        alive: (0..20).collect(),
        history: vec![],
        keyboard_grabbed: false,
    }
}

fn state() -> FocusState {
    FocusState {
        window_focus: None,
        on_demand_layer: None,
        suppress_auto_anchor: true,
        popup_grab: None,
        session_dirty: false,
    }
}

fn give(target: Option<u64>) -> FocusUpdate {
    FocusUpdate::Give {
        target,
        end_grab: false,
        direct: false,
    }
}

#[test]
fn the_innermost_modal_dialog_is_found() {
    let windows = [
        window(1, None, false),
        window(2, Some(1), true),
        window(3, Some(1), false),
        window(4, Some(2), true),
    ];
    assert_eq!(topmost_modal_child(&windows, 1), Some(4));
    assert_eq!(topmost_modal_child(&windows, 3), None);
    assert_eq!(topmost_modal_child(&windows, 4), None);
}

#[test]
fn a_cycle_of_dialogs_comes_to_an_end() {
    let windows = [window(1, Some(2), true), window(2, Some(1), true)];
    assert!(topmost_modal_child(&windows, 1).is_some());
}

#[test]
fn raising_a_window_focuses_its_dialog() {
    let windows = [window(1, None, false), window(2, Some(1), true)];
    assert_eq!(raise_and_focus(&windows, 1, false), RaiseStep::Raise { focus: 2 });
    assert_eq!(raise_and_focus(&windows, 2, false), RaiseStep::Raise { focus: 2 });
    assert_eq!(raise_and_focus(&windows, 1, true), RaiseStep::Nothing);
    assert_eq!(
        raise_and_focus_element(&windows, FocusedElement::Client(1), false),
        ElementRaise::Window(RaiseStep::Raise { focus: 2 })
    );
    assert_eq!(
        raise_and_focus_element(&windows, FocusedElement::Suspended(9), false),
        ElementRaise::Suspended(9)
    );
}

#[test]
fn layers_are_asked_for_the_keyboard() {
    let layers = [
        layer(1, Interactivity::Never),
        layer(2, Interactivity::OnDemand),
        layer(3, Interactivity::Exclusive),
        layer(4, Interactivity::Exclusive),
    ];
    assert_eq!(exclusive_layer_focus(&layers), Some(3));
    assert_eq!(exclusive_layer_focus(&layers[..2]), None);
    assert_eq!(layer_interactivity(&layers, 2), Some(Interactivity::OnDemand));
    assert_eq!(layer_interactivity(&layers, 9), None);
    assert_eq!(on_demand_layer_focus(&layers, Some(2)), Some(2));
    assert_eq!(on_demand_layer_focus(&layers, Some(1)), None);
    assert_eq!(on_demand_layer_focus(&layers, Some(9)), None);
    assert_eq!(on_demand_layer_focus(&layers, None), None);
    let gone = FocusLayer {
        alive: false,
        surface_alive: false,
        ..layers[1]
    };
    assert_eq!(on_demand_layer_focus(&[gone], Some(2)), None);
}

#[test]
fn a_dead_window_hands_the_keyboard_to_the_last_one_alive() {
    let history = [
        FocusHistory {
            surface: Some(7),
            alive: false,
        },
        FocusHistory {
            surface: Some(8),
            alive: true,
        },
    ];
    let wanted = Some(FocusIntent::Surface(7));
    assert_eq!(focused_window_target(wanted, &[8, 7], &history), Some(7));
    assert_eq!(focused_window_target(wanted, &[8], &history), Some(8));
    assert_eq!(focused_window_target(wanted, &[], &[]), None);
    assert_eq!(focused_window_target(None, &[7], &history), None);
    assert_eq!(focused_window_target(Some(FocusIntent::Suspended(1)), &[1], &history), None);
}

#[test]
fn an_exclusive_layer_wins_over_everything() {
    let mut s = state();
    let mut w = world();
    w.layers = vec![layer(5, Interactivity::OnDemand), layer(6, Interactivity::Exclusive)];
    s.on_demand_layer = Some(5);
    s.window_focus = Some(FocusIntent::Surface(1));
    assert_eq!(s.update_keyboard_focus(&w), give(Some(6)));
    w.layers.pop();
    assert_eq!(s.update_keyboard_focus(&w), give(Some(5)));
    w.layers.pop();
    assert_eq!(s.update_keyboard_focus(&w), give(Some(1)));
}

#[test]
fn a_locked_session_keeps_its_focus() {
    let mut s = state();
    let mut w = world();
    w.locked = true;
    assert_eq!(s.set_window_focus(Some(3), false, &w), FocusUpdate::Keep);
    assert_eq!(s.window_focus_surface(), Some(3));
}

#[test]
fn focusing_a_window_forgets_the_clicked_layer() {
    let mut s = state();
    s.on_demand_layer = Some(5);
    assert_eq!(s.set_window_focus(Some(3), false, &world()), give(Some(3)));
    assert_eq!(s.window_focus, Some(FocusIntent::Surface(3)));
    assert_eq!(s.on_demand_layer, None);
    assert!(!s.suppress_auto_anchor && s.session_dirty);
    s.session_dirty = false;
    s.set_window_focus(Some(3), false, &world());
    assert!(!s.session_dirty);
}

#[test]
fn a_hidden_window_is_not_focused() {
    let mut s = state();
    assert_eq!(s.set_window_focus(Some(3), true, &world()), FocusUpdate::Keep);
    assert_eq!(s.window_focus, None);
    assert!(!s.session_dirty);
}

#[test]
fn a_click_on_the_empty_canvas_holds_the_anchor_back() {
    let mut s = state();
    s.set_window_focus(Some(3), false, &world());
    assert_eq!(s.clear_focus_to_empty_canvas(&world()), give(None));
    assert!(s.suppress_auto_anchor);
    assert_eq!(s.window_focus_surface(), None);
}

#[test]
fn a_popup_grab_ends_when_the_focus_leaves_its_root() {
    let grab = Some(PopupGrabState {
        root: 3,
        has_keyboard_grab: true,
    });
    let mut w = world();
    w.keyboard_grabbed = true;
    let mut s = state();
    s.popup_grab = grab;
    assert_eq!(
        s.set_window_focus(Some(3), false, &w),
        FocusUpdate::Give {
            target: Some(3),
            end_grab: false,
            direct: true
        }
    );
    assert!(s.popup_grab.is_some());
    assert_eq!(
        s.set_window_focus(Some(4), false, &w),
        FocusUpdate::Give {
            target: Some(4),
            end_grab: true,
            direct: false
        }
    );
    assert!(s.popup_grab.is_none());
}

#[test]
fn a_suspended_window_has_the_focus_without_the_keyboard() {
    let mut s = state();
    assert_eq!(s.set_suspended_focus(12, &world()), give(None));
    assert_eq!(s.gated_suspended_focus(true), Some(12));
    assert_eq!(s.gated_suspended_focus(false), None);
    let windows = [window(1, None, false)];
    assert_eq!(
        focused_element(&s, &windows, &[11, 12], None),
        Some(FocusedElement::Suspended(12))
    );
    assert_eq!(focused_element(&s, &windows, &[11], None), None);
    assert_eq!(
        focused_element(&s, &windows, &[12], Some(1)),
        Some(FocusedElement::Client(1))
    );
    assert_eq!(focused_element(&s, &windows, &[12], Some(2)), None);
    assert_eq!(focused_window(&windows, Some(1)), Some(1));
    assert_eq!(focused_window(&windows, Some(2)), None);
}

#[test]
fn new_windows_go_beside_what_is_wanted() {
    let mut s = state();
    let windows = [window(1, None, false)];
    assert_eq!(focused_anchor_element(&s, &windows, &[12]), None);
    s.window_focus = Some(FocusIntent::Surface(1));
    assert_eq!(focused_anchor_element(&s, &windows, &[]), Some(FocusedElement::Client(1)));
    s.window_focus = Some(FocusIntent::Surface(2));
    assert_eq!(focused_anchor_element(&s, &windows, &[]), None);
    s.window_focus = Some(FocusIntent::Suspended(12));
    assert_eq!(
        focused_anchor_element(&s, &windows, &[11, 12]),
        Some(FocusedElement::Suspended(12))
    );
    assert_eq!(focused_anchor_element(&s, &windows, &[]), None);
}

#[test]
fn a_click_gives_an_on_demand_layer_the_keyboard() {
    let mut s = state();
    s.window_focus = Some(FocusIntent::Surface(1));
    let mut w = world();
    w.layers = vec![layer(5, Interactivity::OnDemand), layer(6, Interactivity::Never)];
    assert_eq!(s.focus_layer_if_on_demand(Some(5), &w), Some(give(Some(5))));
    assert_eq!(s.focus_layer_if_on_demand(Some(5), &w), None);
    assert_eq!(s.focus_layer_if_on_demand(Some(6), &w), Some(give(Some(1))));
    assert_eq!(s.focus_layer_if_on_demand(None, &w), None);
    // A layer that is gone is remembered, but is not given the keyboard.
    w.layers[0].alive = false;
    w.layers[0].surface_alive = false;
    assert_eq!(s.focus_layer_if_on_demand(Some(5), &w), Some(give(Some(1))));
    assert_eq!(s.on_demand_layer, Some(5));
}

#[test]
fn layouts_follow_the_focus() {
    assert!(set_keyboard_focus(true, Some(1), Some(2)));
    assert!(!set_keyboard_focus(true, Some(1), Some(1)));
    assert!(!set_keyboard_focus(false, Some(1), None));
    let switch = remember_window_layout(0, true, Some(1), 2);
    assert!(switch.save);
    assert_eq!(switch.activate, Some(1));
    assert_eq!(remember_window_layout(1, false, Some(1), 2).activate, None);
    assert_eq!(remember_window_layout(0, false, Some(2), 2).activate, None);
    assert_eq!(remember_window_layout(0, false, None, 2).activate, None);
}
