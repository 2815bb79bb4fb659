//! Keyboard focus: who gets it, and what has to happen on the way there.
//!
//! A surface is known by a number. The focus that is wanted is kept apart from
//! the focus that is given: a locked session, then a layer surface, take
//! precedence over the window that is wanted.

use vstd::prelude::*;

verus! {

/// A window, as far as focus goes.
#[derive(Clone, Copy, Debug, PartialEq, Eq, Structural)]
pub struct FocusWindow {
    pub surface: u64,
    /// The surface of the window it belongs to.
    pub parent: Option<u64>,
    pub modal: bool,
}

/// The topmost of the first `n` windows that is a modal child of a surface.
/// Windows are listed from the bottom up.
pub open spec fn modal_child(windows: Seq<FocusWindow>, surface: u64, n: int) -> Option<u64>
    decreases n,
{
    if n <= 0 {
        None
    } else if windows[n - 1].parent == Some(surface) && windows[n - 1].modal {
        Some(windows[n - 1].surface)
    } else {
        modal_child(windows, surface, n - 1)
    }
}

/// The innermost of a chain of modal children, at most `depth` long.
pub open spec fn innermost_modal(windows: Seq<FocusWindow>, surface: u64, depth: nat) -> Option<u64>
    decreases depth,
{
    if depth == 0 {
        None
    } else {
        match modal_child(windows, surface, windows.len() as int) {
            None => None,
            Some(child) => match innermost_modal(windows, child, (depth - 1) as nat) {
                Some(inner) => Some(inner),
                None => Some(child),
            },
        }
    }
}

fn find_modal_child(windows: &[FocusWindow], surface: u64) -> (child: Option<u64>)
    ensures
        child == modal_child(windows@, surface, windows@.len() as int),
{
    let mut n: usize = windows.len();
    while n > 0
        invariant
            n <= windows@.len(),
            modal_child(windows@, surface, windows@.len() as int) == modal_child(
                windows@,
                surface,
                n as int,
            ),
        decreases n,
    {
        let w = windows[n - 1];
        let mine = match w.parent {
            Some(p) => p == surface,
            None => false,
        };
        if mine && w.modal {
            return Some(w.surface);
        }
        n = n - 1;
    }
    None
}

/// The innermost of a chain of modal children, at most `depth` long.
pub fn topmost_modal_child_inner(
    windows: &[FocusWindow],
    surface: u64,
    depth: u8,
) -> (child: Option<u64>)
    ensures
        child == innermost_modal(windows@, surface, depth as nat),
    decreases depth,
{
    if depth == 0 {
        return None;
    }
    match find_modal_child(windows, surface) {
        None => None,
        Some(child) => match topmost_modal_child_inner(windows, child, depth - 1) {
            Some(inner) => Some(inner),
            None => Some(child),
        },
    }
}

/// The innermost modal window that a window is waiting on, through up to ten
/// levels.
pub fn topmost_modal_child(windows: &[FocusWindow], surface: u64) -> (child: Option<u64>)
    ensures
        child == innermost_modal(windows@, surface, 10),
{
    topmost_modal_child_inner(windows, surface, 10)
}

/// What raising and focusing a window leads to.
#[derive(Clone, Copy, Debug, PartialEq, Eq, Structural)]
pub enum RaiseStep {
    /// Nothing: the window is held back and not drawn.
    Nothing,
    /// The window is raised, and a surface is to have the focus.
    Raise { focus: u64 },
}

pub open spec fn raise_step(windows: Seq<FocusWindow>, surface: u64, held_back: bool) -> RaiseStep {
    if held_back {
        RaiseStep::Nothing
    } else {
        RaiseStep::Raise {
            focus: match innermost_modal(windows, surface, 10) {
                Some(child) => child,
                None => surface,
            },
        }
    }
}

/// Raises a window and focuses it, or the innermost modal window it waits on.
pub fn raise_and_focus(windows: &[FocusWindow], surface: u64, held_back: bool) -> (step: RaiseStep)
    ensures
        step == raise_step(windows@, surface, held_back),
{
    if held_back {
        return RaiseStep::Nothing;
    }
    match topmost_modal_child(windows, surface) {
        Some(child) => RaiseStep::Raise { focus: child },
        None => RaiseStep::Raise { focus: surface },
    }
}

/// What raising and focusing an element of the stage leads to.
#[derive(Clone, Copy, Debug, PartialEq, Eq, Structural)]
pub enum ElementRaise {
    Window(RaiseStep),
    /// The suspended window is raised and is to have the focus.
    Suspended(u64),
}

/// Raises an element of the stage and focuses it.
pub fn raise_and_focus_element(
    windows: &[FocusWindow],
    element: FocusedElement,
    held_back: bool,
) -> (step: ElementRaise)
    ensures
        match element {
            FocusedElement::Client(surface) => step == ElementRaise::Window(
                raise_step(windows@, surface, held_back),
            ),
            FocusedElement::Suspended(id) => step == ElementRaise::Suspended(id),
        },
{
    match element {
        FocusedElement::Client(surface) => ElementRaise::Window(
            raise_and_focus(windows, surface, held_back),
        ),
        FocusedElement::Suspended(id) => ElementRaise::Suspended(id),
    }
}

/// What the user wants to have the focus.
#[derive(Clone, Copy, Debug, PartialEq, Eq, Structural)]
pub enum FocusIntent {
    /// A window's surface.
    Surface(u64),
    /// A suspended window, by its id. It has no surface to hold the keyboard.
    Suspended(u64),
}

/// How a layer surface takes the keyboard.
#[derive(Clone, Copy, Debug, PartialEq, Eq, Structural)]
pub enum Interactivity {
    Never,
    Exclusive,
    OnDemand,
}

/// A layer surface, as far as focus goes.
#[derive(Clone, Copy, Debug, PartialEq, Eq, Structural)]
pub struct FocusLayer {
    pub surface: u64,
    /// The layer and its surface are alive.
    pub alive: bool,
    /// Its surface is alive; the layer may be gone.
    pub surface_alive: bool,
    pub interactivity: Interactivity,
}

/// A window in the focus history.
#[derive(Clone, Copy, Debug, PartialEq, Eq, Structural)]
pub struct FocusHistory {
    pub surface: Option<u64>,
    pub alive: bool,
}

/// An active popup grab.
#[derive(Clone, Copy, Debug, PartialEq, Eq, Structural)]
pub struct PopupGrabState {
    /// The surface it is rooted on.
    pub root: u64,
    /// It holds the keyboard, not just the pointer.
    pub has_keyboard_grab: bool,
}

/// What is known about the other owners of the keyboard.
pub struct FocusWorld {
    pub locked: bool,
    /// Layers on the canvas, then those on outputs, topmost first.
    pub layers: Vec<FocusLayer>,
    /// The windows' surfaces that are alive.
    pub alive: Vec<u64>,
    /// Most recent first.
    pub history: Vec<FocusHistory>,
    /// A grab holds the keyboard.
    pub keyboard_grabbed: bool,
}

/// The first live layer, from `i` on, that claims the keyboard for itself.
pub open spec fn exclusive_layer(layers: Seq<FocusLayer>, i: int) -> Option<u64>
    decreases layers.len() - i,
{
    if i < 0 || i >= layers.len() {
        None
    } else if layers[i].alive && layers[i].interactivity is Exclusive {
        Some(layers[i].surface)
    } else {
        exclusive_layer(layers, i + 1)
    }
}

/// The first layer that claims the keyboard for itself.
pub fn exclusive_layer_focus(layers: &[FocusLayer]) -> (surface: Option<u64>)
    ensures
        surface == exclusive_layer(layers@, 0),
{
    let mut i: usize = 0;
    while i < layers.len()
        invariant
            i <= layers@.len(),
            exclusive_layer(layers@, 0) == exclusive_layer(layers@, i as int),
        decreases layers.len() - i,
    {
        if layers[i].alive && matches!(layers[i].interactivity, Interactivity::Exclusive) {
            return Some(layers[i].surface);
        }
        i = i + 1;
    }
    None
}

/// The first layer of a surface, from `i` on.
pub open spec fn layer_of(layers: Seq<FocusLayer>, surface: u64, i: int) -> Option<FocusLayer>
    decreases layers.len() - i,
{
    if i < 0 || i >= layers.len() {
        None
    } else if layers[i].surface == surface {
        Some(layers[i])
    } else {
        layer_of(layers, surface, i + 1)
    }
}

/// How the layer of a surface takes the keyboard; nothing if it has none.
pub fn layer_interactivity(layers: &[FocusLayer], surface: u64) -> (r: Option<Interactivity>)
    ensures
        r == match layer_of(layers@, surface, 0) {
            Some(l) => Some(l.interactivity),
            None => None,
        },
{
    let mut i: usize = 0;
    while i < layers.len()
        invariant
            i <= layers@.len(),
            layer_of(layers@, surface, 0) == layer_of(layers@, surface, i as int),
        decreases layers.len() - i,
    {
        if layers[i].surface == surface {
            return Some(layers[i].interactivity);
        }
        i = i + 1;
    }
    None
}

/// A surface of a layer that takes the keyboard on demand.
pub open spec fn takes_on_demand(layers: Seq<FocusLayer>, surface: u64) -> bool {
    layer_of(layers, surface, 0) matches Some(l) && l.interactivity is OnDemand
}

fn is_on_demand(layers: &[FocusLayer], surface: u64) -> (r: bool)
    ensures
        r == takes_on_demand(layers@, surface),
{
    match layer_interactivity(layers, surface) {
        Some(i) => matches!(i, Interactivity::OnDemand),
        None => false,
    }
}

/// The surface of a layer that is alive.
pub open spec fn has_live_surface(layers: Seq<FocusLayer>, surface: u64) -> bool {
    layer_of(layers, surface, 0) matches Some(l) && l.surface_alive
}

fn is_live_surface(layers: &[FocusLayer], surface: u64) -> (r: bool)
    ensures
        r == has_live_surface(layers@, surface),
{
    let mut i: usize = 0;
    while i < layers.len()
        invariant
            i <= layers@.len(),
            layer_of(layers@, surface, 0) == layer_of(layers@, surface, i as int),
        decreases layers.len() - i,
    {
        if layers[i].surface == surface {
            return layers[i].surface_alive;
        }
        i = i + 1;
    }
    false
}

/// The on-demand layer that has the keyboard: the one that was clicked, while it
/// lives and still asks for it.
pub open spec fn on_demand_target(layers: Seq<FocusLayer>, clicked: Option<u64>) -> Option<u64> {
    match clicked {
        Some(s) if has_live_surface(layers, s) && takes_on_demand(layers, s) => Some(s),
        _ => None,
    }
}

/// The on-demand layer that has the keyboard.
pub fn on_demand_layer_focus(layers: &[FocusLayer], clicked: Option<u64>) -> (surface: Option<
    u64,
>)
    ensures
        surface == on_demand_target(layers@, clicked),
{
    match clicked {
        Some(s) => if is_live_surface(layers, s) && is_on_demand(layers, s) {
            Some(s)
        } else {
            None
        },
        None => None,
    }
}

/// The first live window of the history, from `i` on.
pub open spec fn first_alive(history: Seq<FocusHistory>, i: int) -> Option<u64>
    decreases history.len() - i,
{
    if i < 0 || i >= history.len() {
        None
    } else if history[i].alive {
        history[i].surface
    } else {
        first_alive(history, i + 1)
    }
}

fn find_alive(history: &[FocusHistory]) -> (surface: Option<u64>)
    ensures
        surface == first_alive(history@, 0),
{
    let mut i: usize = 0;
    while i < history.len()
        invariant
            i <= history@.len(),
            first_alive(history@, 0) == first_alive(history@, i as int),
        decreases history.len() - i,
    {
        if history[i].alive {
            return history[i].surface;
        }
        i = i + 1;
    }
    None
}

/// The window that has the keyboard when no layer does.
pub open spec fn window_target(
    intent: Option<FocusIntent>,
    alive: Seq<u64>,
    history: Seq<FocusHistory>,
) -> Option<u64> {
    match intent {
        None => None,
        Some(FocusIntent::Suspended(_)) => None,
        Some(FocusIntent::Surface(s)) => if alive.contains(s) {
            Some(s)
        } else {
            first_alive(history, 0)
        },
    }
}

/// The window that has the keyboard when no layer does: the wanted one; if it
/// died, the most recent one that lives; none if none is wanted.
pub fn focused_window_target(
    intent: Option<FocusIntent>,
    alive: &[u64],
    history: &[FocusHistory],
) -> (surface: Option<u64>)
    ensures
        surface == window_target(intent, alive@, history@),
{
    match intent {
        None => None,
        Some(FocusIntent::Suspended(_)) => None,
        Some(FocusIntent::Surface(s)) => {
            if holds_id(alive, s) {
                return Some(s);
            }
            find_alive(history)
        },
    }
}

pub open spec fn first_of(a: Option<u64>, b: Option<u64>) -> Option<u64> {
    match a {
        Some(x) => Some(x),
        None => b,
    }
}

/// What becomes of the keyboard focus.
#[derive(Clone, Copy, Debug, PartialEq, Eq, Structural)]
pub enum FocusUpdate {
    /// It stays: the session is locked.
    Keep,
    Give {
        target: Option<u64>,
        /// The popup grab ends first: the focus leaves the surface it is
        /// rooted on.
        end_grab: bool,
        /// A grab still holds the keyboard, and decides. Keyboard layouts are not
        /// switched.
        direct: bool,
    },
}

/// What is wanted, and who stands in its way.
pub struct FocusState {
    pub window_focus: Option<FocusIntent>,
    /// The layer that was clicked to take the keyboard.
    pub on_demand_layer: Option<u64>,
    /// New windows are not placed beside others: the empty canvas was clicked.
    pub suppress_auto_anchor: bool,
    pub popup_grab: Option<PopupGrabState>,
    /// The session has to be saved.
    pub session_dirty: bool,
}

impl FocusState {
    /// Who is to have the keyboard: an exclusive layer, else the on-demand one,
    /// else the window.
    pub open spec fn target(self, world: FocusWorld) -> Option<u64> {
        first_of(
            exclusive_layer(world.layers@, 0),
            first_of(
                on_demand_target(world.layers@, self.on_demand_layer),
                window_target(self.window_focus, world.alive@, world.history@),
            ),
        )
    }

    /// Whether the popup grab ends when the focus goes to a target.
    pub open spec fn ends_grab(self, target: Option<u64>) -> bool {
        self.popup_grab matches Some(g) && g.has_keyboard_grab && target != Some(g.root)
    }

    /// What becomes of the keyboard focus.
    pub open spec fn update(self, world: FocusWorld) -> FocusUpdate {
        if world.locked {
            FocusUpdate::Keep
        } else {
            let target = self.target(world);
            FocusUpdate::Give {
                target,
                end_grab: self.ends_grab(target),
                direct: world.keyboard_grabbed && !self.ends_grab(target),
            }
        }
    }

    /// The state after the focus has been updated.
    pub open spec fn updated(self, world: FocusWorld) -> FocusState {
        FocusState {
            popup_grab: if !world.locked && self.ends_grab(self.target(world)) {
                None
            } else {
                self.popup_grab
            },
            ..self
        }
    }

    /// The state with another window wanted.
    pub open spec fn wanting(self, intent: Option<FocusIntent>) -> FocusState {
        FocusState {
            window_focus: intent,
            session_dirty: self.session_dirty || self.window_focus != intent,
            ..self
        }
    }

    /// The state with another window wanted, no layer clicked, and new windows
    /// placed beside others.
    pub open spec fn focused_on(self, intent: Option<FocusIntent>) -> FocusState {
        FocusState {
            suppress_auto_anchor: false,
            on_demand_layer: None,
            ..self.wanting(intent)
        }
    }

    /// Wants another window to have the focus. The session has to be saved if
    /// that is a change.
    pub fn set_focus_intent(&mut self, intent: Option<FocusIntent>)
        ensures
            *final(self) == old(self).wanting(intent),
    {
        let same = match self.window_focus {
            Some(a) => match intent {
                Some(b) => a == b,
                None => false,
            },
            None => intent.is_none(),
        };
        if !same {
            self.window_focus = intent;
            self.session_dirty = true;
        }
    }

    /// Works out who has the keyboard, and what has to happen for it.
    pub fn update_keyboard_focus(&mut self, world: &FocusWorld) -> (update: FocusUpdate)
        ensures
            update == old(self).update(*world),
            *final(self) == old(self).updated(*world),
    {
        if world.locked {
            return FocusUpdate::Keep;
        }
        let target: Option<u64> = match exclusive_layer_focus(world.layers.as_slice()) {
            Some(s) => Some(s),
            None => match on_demand_layer_focus(world.layers.as_slice(), self.on_demand_layer) {
                Some(s) => Some(s),
                None => focused_window_target(
                    self.window_focus,
                    world.alive.as_slice(),
                    world.history.as_slice(),
                ),
            },
        };
        let end_grab = match self.popup_grab {
            Some(g) => g.has_keyboard_grab && match target {
                Some(t) => t != g.root,
                None => true,
            },
            None => false,
        };
        if end_grab {
            self.popup_grab = None;
        }
        FocusUpdate::Give { target, end_grab, direct: world.keyboard_grabbed && !end_grab }
    }

    /// Wants a window to have the focus, or none, and works out who has it. A
    /// window that is not drawn is not wanted, and nothing changes.
    pub fn set_window_focus(
        &mut self,
        target: Option<u64>,
        target_hidden: bool,
        world: &FocusWorld,
    ) -> (update: FocusUpdate)
        ensures
            ({
                let intent = match target {
                    Some(s) => Some(FocusIntent::Surface(s)),
                    None => None,
                };
                if target is Some && target_hidden {
                    update is Keep && *final(self) == *old(self)
                } else {
                    &&& update == old(self).focused_on(intent).update(*world)
                    &&& *final(self) == old(self).focused_on(intent).updated(*world)
                }
            }),
    {
        if target.is_some() && target_hidden {
            return FocusUpdate::Keep;
        }
        let intent = match target {
            Some(s) => Some(FocusIntent::Surface(s)),
            None => None,
        };
        self.set_focus_intent(intent);
        self.suppress_auto_anchor = false;
        self.on_demand_layer = None;
        self.update_keyboard_focus(world)
    }

    /// Wants no window to have the focus because the empty canvas was clicked:
    /// new windows are not placed beside others until a window is focused.
    pub fn clear_focus_to_empty_canvas(&mut self, world: &FocusWorld) -> (update: FocusUpdate)
        ensures
            update == old(self).focused_on(None).update(*world),
            *final(self) == (FocusState {
                suppress_auto_anchor: true,
                ..old(self).focused_on(None).updated(*world)
            }),
    {
        let update = self.set_window_focus(None, false, world);
        self.suppress_auto_anchor = true;
        update
    }

    /// Wants a suspended window to have the focus. No surface then has the
    /// keyboard, unless a layer takes it.
    pub fn set_suspended_focus(&mut self, id: u64, world: &FocusWorld) -> (update: FocusUpdate)
        ensures
            update == old(self).focused_on(Some(FocusIntent::Suspended(id))).update(*world),
            *final(self) == old(self).focused_on(Some(FocusIntent::Suspended(id))).updated(*world),
    {
        self.set_focus_intent(Some(FocusIntent::Suspended(id)));
        self.suppress_auto_anchor = false;
        self.on_demand_layer = None;
        self.update_keyboard_focus(world)
    }

    /// The surface that is wanted to have the focus.
    pub fn window_focus_surface(&self) -> (surface: Option<u64>)
        ensures
            surface == match self.window_focus {
                Some(FocusIntent::Surface(s)) => Some(s),
                _ => None,
            },
    {
        match self.window_focus {
            Some(FocusIntent::Surface(s)) => Some(s),
            _ => None,
        }
    }

    /// The suspended window that has the focus: it is wanted, and no surface has
    /// the keyboard.
    pub fn gated_suspended_focus(&self, seat_focus_empty: bool) -> (id: Option<u64>)
        ensures
            id == match self.window_focus {
                Some(FocusIntent::Suspended(i)) if seat_focus_empty => Some(i),
                _ => None,
            },
    {
        match self.window_focus {
            Some(FocusIntent::Suspended(i)) => if seat_focus_empty {
                Some(i)
            } else {
                None
            },
            _ => None,
        }
    }

    /// What a click on a layer surface, or elsewhere, does to the focus: a layer
    /// that takes the keyboard on demand gets it while its surface lives; anything
    /// else ends such a focus. Nothing is worked out anew where nothing changes.
    pub fn focus_layer_if_on_demand(
        &mut self,
        root: Option<u64>,
        world: &FocusWorld,
    ) -> (update: Option<FocusUpdate>)
        ensures
            ({
                let granted = root matches Some(s) && takes_on_demand(world.layers@, s);
                let next = FocusState {
                    on_demand_layer: if granted {
                        root
                    } else {
                        None
                    },
                    ..*old(self)
                };
                if next.on_demand_layer == old(self).on_demand_layer {
                    update is None && *final(self) == *old(self)
                } else {
                    update == Some(next.update(*world)) && *final(self) == next.updated(*world)
                }
            }),
    {
        if let Some(s) = root {
            if is_on_demand(world.layers.as_slice(), s) {
                let same = match self.on_demand_layer {
                    Some(c) => c == s,
                    None => false,
                };
                if same {
                    return None;
                }
                self.on_demand_layer = Some(s);
                return Some(self.update_keyboard_focus(world));
            }
        }
        if self.on_demand_layer.is_some() {
            self.on_demand_layer = None;
            return Some(self.update_keyboard_focus(world));
        }
        None
    }
}

/// Whether the layouts of the window that loses the focus and of the one that
/// gets it are to be switched.
pub fn set_keyboard_focus(remember_per_window: bool, old: Option<u64>, new: Option<u64>) -> (
    switch: bool)
    ensures
        switch == (remember_per_window && old != new),
{
    let same = match old {
        Some(a) => match new {
            Some(b) => a == b,
            None => false,
        },
        None => new.is_none(),
    };
    remember_per_window && !same
}

/// What happens to keyboard layouts when the focus changes.
#[derive(Clone, Copy, Debug, PartialEq, Eq, Structural)]
pub struct LayoutSwitch {
    /// The active layout is kept for the window that loses the focus.
    pub save: bool,
    /// The layout that becomes active. The focus is taken away before, so that
    /// no window sees the change of another.
    pub activate: Option<u32>,
}

/// What happens to keyboard layouts when the focus goes from one window to
/// another. `saved` is the layout of the window that gets the focus, if one does.
pub fn remember_window_layout(
    active: u32,
    old_alive: bool,
    saved: Option<u32>,
    layouts: usize,
) -> (switch: LayoutSwitch)
    ensures
        switch.save == old_alive,
        switch.activate == match saved {
            Some(l) if l != active && l < layouts => Some(l),
            _ => None,
        },
{
    let activate = match saved {
        Some(l) => if l != active && (l as usize) < layouts {
            Some(l)
        } else {
            None
        },
        None => None,
    };
    LayoutSwitch { save: old_alive, activate }
}

/// The window that actions go to.
#[derive(Clone, Copy, Debug, PartialEq, Eq, Structural)]
pub enum FocusedElement {
    Client(u64),
    Suspended(u64),
}

/// The first of some windows, from `i` on, that has a surface.
pub open spec fn window_of(windows: Seq<FocusWindow>, surface: u64, i: int) -> Option<u64>
    decreases windows.len() - i,
{
    if i < 0 || i >= windows.len() {
        None
    } else if windows[i].surface == surface {
        Some(surface)
    } else {
        window_of(windows, surface, i + 1)
    }
}

fn find_window(windows: &[FocusWindow], surface: u64) -> (r: Option<u64>)
    ensures
        r == window_of(windows@, surface, 0),
{
    let mut i: usize = 0;
    while i < windows.len()
        invariant
            i <= windows@.len(),
            window_of(windows@, surface, 0) == window_of(windows@, surface, i as int),
        decreases windows.len() - i,
    {
        if windows[i].surface == surface {
            return Some(surface);
        }
        i = i + 1;
    }
    None
}

/// The window that has the keyboard.
pub fn focused_window(windows: &[FocusWindow], seat_focus: Option<u64>) -> (surface: Option<u64>)
    ensures
        surface == match seat_focus {
            Some(s) => window_of(windows@, s, 0),
            None => None,
        },
{
    match seat_focus {
        None => None,
        Some(s) => find_window(windows, s),
    }
}

/// The window that actions go to: the one that has the keyboard, else the
/// suspended one that has the focus, if it is still there.
pub fn focused_element(
    focus: &FocusState,
    windows: &[FocusWindow],
    suspended: &[u64],
    seat_focus: Option<u64>,
) -> (element: Option<FocusedElement>)
    ensures
        element == match seat_focus {
            Some(s) => match window_of(windows@, s, 0) {
                Some(w) => Some(FocusedElement::Client(w)),
                None => None,
            },
            None => match focus.window_focus {
                Some(FocusIntent::Suspended(id)) if suspended@.contains(id) => Some(
                    FocusedElement::Suspended(id),
                ),
                _ => None,
            },
        },
{
    if let Some(w) = focused_window(windows, seat_focus) {
        return Some(FocusedElement::Client(w));
    }
    match focus.gated_suspended_focus(seat_focus.is_none()) {
        Some(id) => if holds_id(suspended, id) {
            Some(FocusedElement::Suspended(id))
        } else {
            None
        },
        None => None,
    }
}

fn holds_id(ids: &[u64], id: u64) -> (r: bool)
    ensures
        r == ids@.contains(id),
{
    let mut i: usize = 0;
    while i < ids.len()
        invariant
            i <= ids@.len(),
            forall|k: int| 0 <= k < i ==> ids@[k] != id,
        decreases ids.len() - i,
    {
        if ids[i] == id {
            return true;
        }
        i = i + 1;
    }
    false
}

/// The element that new windows are placed beside: what is wanted to have the
/// focus, if it is still there. A launcher that has the keyboard meanwhile does
/// not change it.
pub fn focused_anchor_element(
    focus: &FocusState,
    windows: &[FocusWindow],
    suspended: &[u64],
) -> (element: Option<FocusedElement>)
    ensures
        element == match focus.window_focus {
            None => None,
            Some(FocusIntent::Surface(s)) => match window_of(windows@, s, 0) {
                Some(w) => Some(FocusedElement::Client(w)),
                None => None,
            },
            Some(FocusIntent::Suspended(id)) => if suspended@.contains(id) {
                Some(FocusedElement::Suspended(id))
            } else {
                None
            },
        },
{
    match focus.window_focus {
        None => None,
        Some(FocusIntent::Surface(s)) => match find_window(windows, s) {
            Some(w) => Some(FocusedElement::Client(w)),
            None => None,
        },
        Some(FocusIntent::Suspended(id)) => if holds_id(suspended, id) {
            Some(FocusedElement::Suspended(id))
        } else {
            None
        },
    }
}

/// In a locked session the focus stays where it is, and so does a popup grab.
pub proof fn law_lock_keeps_focus(state: FocusState, world: FocusWorld)
    requires
        world.locked,
    ensures
        state.update(world) is Keep,
        state.updated(world) == state,
{
}

/// An exclusive layer has the keyboard, whatever else wants it.
pub proof fn law_exclusive_layer_wins(state: FocusState, world: FocusWorld, i: int)
    requires
        !world.locked,
        0 <= i < world.layers@.len(),
        world.layers@[i].alive,
        world.layers@[i].interactivity is Exclusive,
    ensures
        state.update(world) matches FocusUpdate::Give { target: Some(s), .. } && exists|k: int|
            0 <= k <= i && #[trigger] world.layers@[k].surface == s && world.layers@[k].alive
                && world.layers@[k].interactivity is Exclusive,
{
    lemma_exclusive_found(world.layers@, 0, i);
}

proof fn lemma_exclusive_found(layers: Seq<FocusLayer>, from: int, i: int)
    requires
        0 <= from <= i < layers.len(),
        layers[i].alive,
        layers[i].interactivity is Exclusive,
    ensures
        exclusive_layer(layers, from) matches Some(s) && exists|k: int|
            from <= k <= i && #[trigger] layers[k].surface == s && layers[k].alive
                && layers[k].interactivity is Exclusive,
    decreases i - from,
{
    if layers[from].alive && layers[from].interactivity is Exclusive {
        assert(layers[from].surface == exclusive_layer(layers, from)->0);
    } else {
        lemma_exclusive_found(layers, from + 1, i);
    }
}

/// A layer whose surface is gone is not given the keyboard on demand.
pub proof fn law_dead_layer_is_refused(state: FocusState, world: FocusWorld, layer: u64)
    requires
        state.on_demand_layer == Some(layer),
        !has_live_surface(world.layers@, layer),
    ensures
        state.target(world) == (FocusState { on_demand_layer: None, ..state }).target(world),
{
}

/// While no layer has the keyboard, the window that is wanted has it as long as
/// it lives; a suspended window leaves it to no one.
pub proof fn law_wanted_window_has_the_keyboard(state: FocusState, world: FocusWorld)
    requires
        !world.locked,
        exclusive_layer(world.layers@, 0) is None,
        on_demand_target(world.layers@, state.on_demand_layer) is None,
    ensures
        match state.window_focus {
            Some(FocusIntent::Surface(s)) => world.alive@.contains(s) ==> state.target(world)
                == Some(s),
            Some(FocusIntent::Suspended(_)) => state.target(world) is None,
            None => state.target(world) is None,
        },
{
}

/// Wanting the same window again does not make the session dirty.
pub proof fn law_same_intent_is_clean(state: FocusState)
    ensures
        state.wanting(state.window_focus) == state,
{
}

/// A focus that stays on the surface that a popup grab is rooted on leaves the
/// grab alone; one that goes elsewhere ends it.
pub proof fn law_grab_ends_with_its_root(state: FocusState, world: FocusWorld, grab: PopupGrabState)
    requires
        !world.locked,
        state.popup_grab == Some(grab),
        grab.has_keyboard_grab,
    ensures
        state.target(world) == Some(grab.root) <==> state.updated(world).popup_grab == Some(grab),
{
}

/// The modal window that a surface waits on is the topmost of its modal children;
/// there is none only if it has none.
pub proof fn law_topmost_modal_child(windows: Seq<FocusWindow>, surface: u64, n: int)
    requires
        0 <= n <= windows.len(),
    ensures
        match modal_child(windows, surface, n) {
            Some(s) => exists|k: int|
                0 <= k < n && (#[trigger] windows[k]).surface == s && windows[k].parent == Some(
                    surface,
                ) && windows[k].modal && forall|j: int|
                    k < j < n ==> !((#[trigger] windows[j]).modal && windows[j].parent == Some(
                        surface,
                    )),
            None => forall|k: int|
                0 <= k < n ==> !((#[trigger] windows[k]).modal && windows[k].parent == Some(surface)),
        },
    decreases n,
{
    if n > 0 {
        if windows[n - 1].parent == Some(surface) && windows[n - 1].modal {
            assert(windows[n - 1].surface == modal_child(windows, surface, n)->0);
        } else {
            law_topmost_modal_child(windows, surface, n - 1);
            if let Some(s) = modal_child(windows, surface, n - 1) {
                let k = choose|k: int|
                    0 <= k < n - 1 && (#[trigger] windows[k]).surface == s && windows[k].parent
                        == Some(surface) && windows[k].modal && forall|j: int|
                        k < j < n - 1 ==> !((#[trigger] windows[j]).modal && windows[j].parent
                            == Some(surface));
                assert(windows[k].surface == s);
            }
        }
    }
}

/// The surface reached from one by going to the topmost modal child `k` times.
pub open spec fn waits_on(windows: Seq<FocusWindow>, surface: u64, k: nat) -> Option<u64>
    decreases k,
{
    if k == 0 {
        Some(surface)
    } else {
        match modal_child(windows, surface, windows.len() as int) {
            Some(child) => waits_on(windows, child, (k - 1) as nat),
            None => None,
        }
    }
}

/// The innermost modal window is found by following modal children to the end of
/// their chain, or as far as may be looked. There is none only if the first has
/// none, or nothing may be looked at.
pub proof fn law_innermost_ends_the_chain(
    windows: Seq<FocusWindow>,
    surface: u64,
    depth: nat,
) -> (k: nat)
    ensures
        match innermost_modal(windows, surface, depth) {
            Some(s) => {
                &&& 1 <= k <= depth
                &&& waits_on(windows, surface, k) == Some(s)
                &&& k == depth || modal_child(windows, s, windows.len() as int) is None
            },
            None => depth == 0 || modal_child(windows, surface, windows.len() as int) is None,
        },
    decreases depth,
{
    if depth > 0 {
        match modal_child(windows, surface, windows.len() as int) {
            Some(child) => {
                let inner = law_innermost_ends_the_chain(windows, child, (depth - 1) as nat);
                reveal_with_fuel(waits_on, 2);
                if innermost_modal(windows, child, (depth - 1) as nat) is Some {
                    inner + 1
                } else {
                    1
                }
            },
            None => 0,
        }
    } else {
        0
    }
}

/// A window that is held back is not raised. One without a modal child is focused
/// itself, and one that waits leaves the focus to what it waits on.
pub proof fn law_raise_focuses_what_is_waited_on(
    windows: Seq<FocusWindow>,
    surface: u64,
    held_back: bool,
)
    ensures
        raise_step(windows, surface, held_back) is Nothing <==> held_back,
        raise_step(windows, surface, held_back) matches RaiseStep::Raise { focus } ==> exists|k: nat|
            k <= 10 && #[trigger] waits_on(windows, surface, k) == Some(focus) && (k == 10
                || modal_child(windows, focus, windows.len() as int) is None),
{
    let k = law_innermost_ends_the_chain(windows, surface, 10);
    if innermost_modal(windows, surface, 10) is Some {
        assert(waits_on(windows, surface, k) is Some);
    } else {
        assert(waits_on(windows, surface, 0) == Some(surface));
    }
}

/// The layer that claims the keyboard is the first live exclusive one.
pub proof fn law_first_exclusive_layer(layers: Seq<FocusLayer>, i: int)
    requires
        0 <= i,
    ensures
        match exclusive_layer(layers, i) {
            Some(s) => exists|k: int|
                i <= k < layers.len() && (#[trigger] layers[k]).surface == s && layers[k].alive
                    && layers[k].interactivity is Exclusive && forall|j: int|
                    i <= j < k ==> !((#[trigger] layers[j]).alive
                        && layers[j].interactivity is Exclusive),
            None => forall|j: int|
                i <= j < layers.len() ==> !((#[trigger] layers[j]).alive
                    && layers[j].interactivity is Exclusive),
        },
    decreases layers.len() - i,
{
    if i < layers.len() {
        if layers[i].alive && layers[i].interactivity is Exclusive {
            assert(layers[i].surface == exclusive_layer(layers, i)->0);
        } else {
            law_first_exclusive_layer(layers, i + 1);
            if let Some(s) = exclusive_layer(layers, i + 1) {
                let k = choose|k: int|
                    i + 1 <= k < layers.len() && (#[trigger] layers[k]).surface == s
                        && layers[k].alive && layers[k].interactivity is Exclusive && forall|j: int|
                        i + 1 <= j < k ==> !((#[trigger] layers[j]).alive
                            && layers[j].interactivity is Exclusive);
                assert(layers[k].surface == s);
            }
        }
    }
}

proof fn lemma_layer_of(layers: Seq<FocusLayer>, surface: u64, from: int, i: int)
    requires
        0 <= from <= i < layers.len(),
        layers[i].surface == surface,
        forall|j: int| from <= j < i ==> (#[trigger] layers[j]).surface != surface,
    ensures
        layer_of(layers, surface, from) == Some(layers[i]),
    decreases i - from,
{
    if from < i {
        lemma_layer_of(layers, surface, from + 1, i);
    }
}

proof fn lemma_no_layer_of(layers: Seq<FocusLayer>, surface: u64, from: int)
    requires
        0 <= from,
        forall|j: int| from <= j < layers.len() ==> (#[trigger] layers[j]).surface != surface,
    ensures
        layer_of(layers, surface, from) is None,
    decreases layers.len() - from,
{
    if from < layers.len() {
        lemma_no_layer_of(layers, surface, from + 1);
    }
}

/// While no live layer claims the keyboard, the layer that was clicked has it
/// exactly if its surface lives and it asks for the keyboard on demand; else the
/// layer makes no difference.
pub proof fn law_clicked_layer_has_the_keyboard(
    state: FocusState,
    world: FocusWorld,
    i: int,
)
    requires
        forall|j: int|
            0 <= j < world.layers@.len() ==> !((#[trigger] world.layers@[j]).alive
                && world.layers@[j].interactivity is Exclusive),
        0 <= i < world.layers@.len(),
        forall|j: int|
            0 <= j < i ==> (#[trigger] world.layers@[j]).surface != world.layers@[i].surface,
        state.on_demand_layer == Some(world.layers@[i].surface),
    ensures
        world.layers@[i].surface_alive && world.layers@[i].interactivity is OnDemand
            ==> state.target(world) == Some(world.layers@[i].surface),
        !(world.layers@[i].surface_alive && world.layers@[i].interactivity is OnDemand)
            ==> state.target(world) == (FocusState { on_demand_layer: None, ..state }).target(
            world,
        ),
{
    law_first_exclusive_layer(world.layers@, 0);
    lemma_layer_of(world.layers@, world.layers@[i].surface, 0, i);
}

/// A surface that is none of the layers' is not given the keyboard on demand.
pub proof fn law_stranger_is_no_layer(state: FocusState, world: FocusWorld, surface: u64)
    requires
        state.on_demand_layer == Some(surface),
        forall|j: int|
            0 <= j < world.layers@.len() ==> (#[trigger] world.layers@[j]).surface != surface,
    ensures
        state.target(world) == (FocusState { on_demand_layer: None, ..state }).target(world),
        !takes_on_demand(world.layers@, surface),
{
    lemma_no_layer_of(world.layers@, surface, 0);
}

/// While no layer has the keyboard and the wanted window is dead, the most recent
/// window that lives has it.
pub proof fn law_most_recent_window_follows(
    state: FocusState,
    world: FocusWorld,
    wanted: u64,
    i: int,
)
    requires
        forall|j: int|
            0 <= j < world.layers@.len() ==> !((#[trigger] world.layers@[j]).alive
                && world.layers@[j].interactivity is Exclusive),
        state.on_demand_layer is None,
        state.window_focus == Some(FocusIntent::Surface(wanted)),
        !world.alive@.contains(wanted),
        0 <= i <= world.history@.len(),
        i < world.history@.len() ==> world.history@[i].alive,
        forall|j: int| 0 <= j < i ==> !(#[trigger] world.history@[j]).alive,
    ensures
        state.target(world) == if i < world.history@.len() {
            world.history@[i].surface
        } else {
            None
        },
{
    law_first_exclusive_layer(world.layers@, 0);
    lemma_first_alive(world.history@, 0, i);
}

proof fn lemma_first_alive(history: Seq<FocusHistory>, from: int, i: int)
    requires
        0 <= from <= i <= history.len(),
        i < history.len() ==> history[i].alive,
        forall|j: int| from <= j < i ==> !(#[trigger] history[j]).alive,
    ensures
        first_alive(history, from) == if i < history.len() {
            history[i].surface
        } else {
            None
        },
    decreases i - from,
{
    if from < i {
        lemma_first_alive(history, from + 1, i);
    }
}

/// Outside a locked session the keyboard is given to whom it is due. A popup grab
/// that holds it ends exactly if that is another than its root, and only a grab
/// that goes on decides in its place. Nothing else of the state changes.
pub proof fn law_focus_goes_where_it_is_due(state: FocusState, world: FocusWorld)
    requires
        !world.locked,
    ensures
        ({
            let due = state.target(world);
            let ends = state.popup_grab is Some && state.popup_grab->0.has_keyboard_grab && Some(
                state.popup_grab->0.root,
            ) != due;
            let after = state.updated(world);
            &&& state.update(world) matches FocusUpdate::Give { target, end_grab, direct } && target
                == due && (end_grab <==> ends) && (direct <==> world.keyboard_grabbed && !ends)
            &&& after.popup_grab == if ends {
                None
            } else {
                state.popup_grab
            }
            &&& after.window_focus == state.window_focus
            &&& after.on_demand_layer == state.on_demand_layer
            &&& after.suppress_auto_anchor == state.suppress_auto_anchor
            &&& after.session_dirty == state.session_dirty
        }),
{
}

/// Focusing a window, or none, makes it the wanted one, forgets a clicked layer,
/// and lets new windows be placed beside others. A change has to be saved, and
/// nothing that had to be is forgotten; a popup grab is not touched.
pub proof fn law_focusing_wants_the_window(state: FocusState, intent: Option<FocusIntent>)
    ensures
        ({
            let after = state.focused_on(intent);
            &&& after.window_focus == intent
            &&& after.on_demand_layer is None
            &&& !after.suppress_auto_anchor
            &&& after.popup_grab == state.popup_grab
            &&& after.session_dirty <==> state.session_dirty || intent != state.window_focus
        }),
        ({
            let after = state.wanting(intent);
            &&& after.window_focus == intent
            &&& after.on_demand_layer == state.on_demand_layer
            &&& after.suppress_auto_anchor == state.suppress_auto_anchor
            &&& after.popup_grab == state.popup_grab
            &&& after.session_dirty <==> state.session_dirty || intent != state.window_focus
        }),
{
}

/// A surface is a window's exactly if some window has it.
pub proof fn law_window_is_found_by_its_surface(windows: Seq<FocusWindow>, surface: u64, i: int)
    requires
        0 <= i,
    ensures
        window_of(windows, surface, i) == if exists|k: int|
            i <= k < windows.len() && (#[trigger] windows[k]).surface == surface {
            Some(surface)
        } else {
            None
        },
    decreases windows.len() - i,
{
    if i < windows.len() && windows[i].surface != surface {
        law_window_is_found_by_its_surface(windows, surface, i + 1);
    }
}

} // verus!
