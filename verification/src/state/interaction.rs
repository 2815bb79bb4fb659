//! Moves and clicks that are under way.

use vstd::prelude::*;
use vstd::string::StringExecFns;

verus! {

/// A window under an interactive move.
#[derive(Clone, Copy, Debug, PartialEq, Eq, Structural)]
pub enum MoveTarget {
    Client(u64),
    Suspended(u64),
}

/// The windows under interactive moves, each as often as it is held: a pointer
/// and a touch may move at once.
pub struct InteractiveMoves {
    pub targets: Vec<MoveTarget>,
}

impl InteractiveMoves {
    /// Takes note that a window is held.
    pub fn arm_interactive_move(&mut self, target: MoveTarget)
        ensures
            final(self).targets@ == old(self).targets@.push(target),
    {
        self.targets.push(target);
    }

    /// Takes note that a window is let go of once.
    pub fn disarm_interactive_move(&mut self, target: MoveTarget)
        ensures
            final(self).targets@ == if old(self).targets@.contains(target) {
                old(self).targets@.remove(old(self).targets@.index_of_first(target)->0)
            } else {
                old(self).targets@
            },
    {
        let mut i: usize = 0;
        while i < self.targets.len()
            invariant
                i <= self.targets@.len(),
                self.targets@ == old(self).targets@,
                forall|k: int| 0 <= k < i ==> self.targets@[k] != target,
            decreases self.targets.len() - i,
        {
            if self.targets[i] == target {
                proof {
                    let s = old(self).targets@;
                    assert(s.contains(target));
                    s.index_of_first_ensures(target);
                }
                self.targets.remove(i);
                return;
            }
            i = i + 1;
        }
    }

    /// Whether a window is held.
    pub fn element_under_interactive_move(&self, target: MoveTarget) -> (r: bool)
        ensures
            r == self.targets@.contains(target),
    {
        let mut i: usize = 0;
        while i < self.targets.len()
            invariant
                i <= self.targets@.len(),
                forall|k: int| 0 <= k < i ==> self.targets@[k] != target,
            decreases self.targets.len() - i,
        {
            if self.targets[i] == target {
                return true;
            }
            i = i + 1;
        }
        false
    }
}

/// A button event.
#[derive(Clone, Copy, Debug, PartialEq, Eq, Structural)]
pub struct ButtonEvent {
    pub pressed: bool,
    /// Milliseconds.
    pub time: u32,
}

/// A middle click that is held back.
#[derive(Clone, Copy, Debug, PartialEq, Eq, Structural)]
pub struct PendingMiddleClick {
    pub press_time: u32,
    pub release_time: Option<u32>,
}

/// The events of a middle click: the press, and the release once there was one.
pub fn flush_middle_click(press_time: u32, release_time: Option<u32>) -> (events: Vec<ButtonEvent>)
    ensures
        events@ == match release_time {
            Some(t) => seq![
                ButtonEvent { pressed: true, time: press_time },
                ButtonEvent { pressed: false, time: t },
            ],
            None => seq![ButtonEvent { pressed: true, time: press_time }],
        },
{
    let mut events: Vec<ButtonEvent> = Vec::new();
    events.push(ButtonEvent { pressed: true, time: press_time });
    if let Some(t) = release_time {
        events.push(ButtonEvent { pressed: false, time: t });
        assert(events@ =~= seq![
            ButtonEvent { pressed: true, time: press_time },
            ButtonEvent { pressed: false, time: t },
        ]);
    } else {
        assert(events@ =~= seq![ButtonEvent { pressed: true, time: press_time }]);
    }
    events
}

/// The events of the click that is held back, if one is. It is then no longer.
pub fn flush_pending_middle_click(pending: &mut Option<PendingMiddleClick>) -> (events: Vec<
    ButtonEvent,
>)
    ensures
        *final(pending) is None,
        events@ == match *old(pending) {
            None => Seq::empty(),
            Some(p) => match p.release_time {
                Some(t) => seq![
                    ButtonEvent { pressed: true, time: p.press_time },
                    ButtonEvent { pressed: false, time: t },
                ],
                None => seq![ButtonEvent { pressed: true, time: p.press_time }],
            },
        },
{
    match *pending {
        None => Vec::new(),
        Some(p) => {
            *pending = None;
            flush_middle_click(p.press_time, p.release_time)
        },
    }
}

/// A surface that keeps the screen awake while it is seen.
#[derive(Clone, Copy, Debug, PartialEq, Eq, Structural)]
pub struct Inhibitor {
    pub surface: u64,
    pub alive: bool,
    /// An output shows it.
    pub scanned_out: bool,
}

/// Drops dead inhibitors. Returns whether one that is seen keeps the screen
/// awake.
pub fn refresh_idle_inhibit(inhibitors: &mut Vec<Inhibitor>) -> (inhibited: bool)
    ensures
        final(inhibitors)@ == old(inhibitors)@.filter(|i: Inhibitor| i.alive),
        inhibited == exists|k: int|
            0 <= k < old(inhibitors)@.len() && (#[trigger] old(inhibitors)@[k]).alive
                && old(inhibitors)@[k].scanned_out,
{
    let ghost all = inhibitors@;
    let ghost pred = |i: Inhibitor| i.alive;
    let mut kept: Vec<Inhibitor> = Vec::new();
    let mut inhibited = false;
    let mut i: usize = 0;
    assert(all.subrange(0, 0).filter(pred) =~= Seq::empty()) by {
        reveal(Seq::filter);
    }
    while i < inhibitors.len()
        invariant
            i <= inhibitors@.len(),
            inhibitors@ == all,
            pred == (|i: Inhibitor| i.alive),
            kept@ == all.subrange(0, i as int).filter(pred),
            inhibited == exists|k: int|
                0 <= k < i && (#[trigger] all[k]).alive && all[k].scanned_out,
        decreases inhibitors.len() - i,
    {
        proof {
            let next = all.subrange(0, i + 1);
            assert(next.drop_last() =~= all.subrange(0, i as int));
            assert(next.last() == all[i as int]);
            reveal(Seq::filter);
        }
        let it = inhibitors[i];
        if it.alive {
            kept.push(it);
            if it.scanned_out {
                assert(all[i as int].alive);
                inhibited = true;
            }
        }
        i = i + 1;
    }
    assert(all.subrange(0, i as int) =~= all);
    *inhibitors = kept;
    inhibited
}

/// Whether a window is a canvas window: not a widget, pinned, fullscreen or held
/// back.
pub fn is_canvas_window(widget: bool, pinned: bool, fullscreen: bool, held_back: bool) -> (r: bool)
    ensures
        r == !(widget || pinned || fullscreen || held_back),
{
    !widget && !pinned && !fullscreen && !held_back
}

/// Whether a client may use privileged protocols: one that nothing is known of
/// may.
pub fn client_is_unrestricted(restricted: Option<bool>) -> (r: bool)
    ensures
        r == (restricted != Some(true)),
{
    match restricted {
        Some(b) => !b,
        None => true,
    }
}

/// The line that is logged for a result: its context and the error.
pub fn log_err(context: &str, error: Option<&str>) -> (line: Option<String>)
    ensures
        match error {
            None => line is None,
            Some(e) => line matches Some(l) && l@ == context@ + ": "@ + e@,
        },
{
    match error {
        None => None,
        Some(e) => {
            let mut s = String::from_str(context);
            s.append(": ");
            s.append(e);
            Some(s)
        },
    }
}

/// Holding a window and letting go of it leaves the windows that are held as
/// they were, each as often.
pub proof fn law_disarm_undoes_arm(targets: Seq<MoveTarget>, target: MoveTarget)
    ensures
        ({
            let armed = targets.push(target);
            armed.remove(armed.index_of_first(target)->0).to_multiset() == targets.to_multiset()
        }),
{
    broadcast use vstd::seq_lib::group_to_multiset_ensures;

    let armed = targets.push(target);
    assert(armed[targets.len() as int] == target);
    assert(armed.contains(target));
    armed.index_of_first_ensures(target);
    let i = armed.index_of_first(target)->0;
    let m = armed.to_multiset();
    assert(armed.remove(i).to_multiset() =~= m.remove(target));
    assert(m =~= targets.to_multiset().insert(target));
    assert(m.remove(target) =~= targets.to_multiset());
}

} // verus!
