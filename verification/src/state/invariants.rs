//! What holds between the parts of the state at the end of every turn.

use crate::text::same_text;
use vstd::prelude::*;

verus! {

/// An output, as far as the invariants go.
pub struct OutputFacts {
    pub name: String,
    /// A window is fullscreen on it.
    pub fullscreen: bool,
    /// A view to return to from fullscreen is kept.
    pub fullscreen_return: bool,
    /// The output that the fullscreen window was pinned to.
    pub suspended_pin: Option<String>,
}

/// What a window decoration belongs to.
#[derive(Clone, Copy, Debug, PartialEq, Eq, Structural)]
pub enum DecorationKey {
    Surface(u64),
    Suspended(u64),
}

/// What the invariants speak of.
pub struct StageFacts {
    pub outputs: Vec<OutputFacts>,
    /// The outputs that windows are fullscreen on.
    pub fullscreen_on: Vec<String>,
    /// The outputs that windows are pinned to.
    pub pinned_to: Vec<String>,
    pub decorations: Vec<DecorationKey>,
    /// Windows on the stage.
    pub windows: Vec<DecorationKey>,
}

/// An invariant that does not hold.
#[derive(Clone, Copy, Debug, PartialEq, Eq, Structural)]
pub enum Violation {
    /// A window is fullscreen and no view to return to is kept, or the other way
    /// round.
    FullscreenDiverged,
    /// A window is fullscreen on an output that is gone.
    FullscreenOutlivedOutput,
    /// A window is pinned to an output that is gone.
    PinOnDeadOutput,
    /// A fullscreen window was pinned to an output that is gone.
    SuspendedPinOnDeadOutput,
    /// A decoration belongs to no window.
    OrphanDecoration,
}

pub open spec fn has_output(outputs: Seq<OutputFacts>, name: Seq<char>) -> bool {
    exists|i: int| 0 <= i < outputs.len() && (#[trigger] outputs[i]).name@ == name
}

impl StageFacts {
    pub open spec fn fullscreen_agrees(self) -> bool {
        forall|i: int|
            0 <= i < self.outputs@.len() ==> (#[trigger] self.outputs@[i]).fullscreen
                == self.outputs@[i].fullscreen_return
    }

    pub open spec fn fullscreen_lives(self) -> bool {
        forall|i: int|
            0 <= i < self.fullscreen_on@.len() ==> has_output(
                self.outputs@,
                (#[trigger] self.fullscreen_on@[i])@,
            )
    }

    pub open spec fn pins_live(self) -> bool {
        forall|i: int|
            0 <= i < self.pinned_to@.len() ==> has_output(
                self.outputs@,
                (#[trigger] self.pinned_to@[i])@,
            )
    }

    pub open spec fn suspended_pins_live(self) -> bool {
        forall|i: int|
            0 <= i < self.outputs@.len() ==> ((
            #[trigger] self.outputs@[i]).suspended_pin matches Some(p) ==> has_output(
                self.outputs@,
                p@,
            ))
    }

    pub open spec fn decorations_belong(self) -> bool {
        forall|i: int|
            0 <= i < self.decorations@.len() ==> self.windows@.contains(
                #[trigger] self.decorations@[i],
            )
    }

    fn is_output(&self, name: &str) -> (r: bool)
        ensures
            r == has_output(self.outputs@, name@),
    {
        let mut i: usize = 0;
        while i < self.outputs.len()
            invariant
                i <= self.outputs@.len(),
                forall|k: int| 0 <= k < i ==> (#[trigger] self.outputs@[k]).name@ != name@,
            decreases self.outputs.len() - i,
        {
            if same_text(self.outputs[i].name.as_str(), name) {
                return true;
            }
            i = i + 1;
        }
        false
    }

    fn all_outputs(&self, names: &Vec<String>) -> (r: bool)
        ensures
            r == forall|i: int|
                0 <= i < names@.len() ==> has_output(self.outputs@, (#[trigger] names@[i])@),
    {
        let mut i: usize = 0;
        while i < names.len()
            invariant
                i <= names@.len(),
                forall|k: int|
                    0 <= k < i ==> has_output(self.outputs@, (#[trigger] names@[k])@),
            decreases names.len() - i,
        {
            if !self.is_output(names[i].as_str()) {
                assert(!has_output(self.outputs@, names@[i as int]@));
                return false;
            }
            i = i + 1;
        }
        true
    }

    fn check_fullscreen(&self) -> (r: bool)
        ensures
            r == self.fullscreen_agrees(),
    {
        let mut i: usize = 0;
        while i < self.outputs.len()
            invariant
                i <= self.outputs@.len(),
                forall|k: int|
                    0 <= k < i ==> (#[trigger] self.outputs@[k]).fullscreen
                        == self.outputs@[k].fullscreen_return,
            decreases self.outputs.len() - i,
        {
            if self.outputs[i].fullscreen != self.outputs[i].fullscreen_return {
                assert(self.outputs@[i as int].fullscreen
                    != self.outputs@[i as int].fullscreen_return);
                return false;
            }
            i = i + 1;
        }
        true
    }

    fn check_suspended(&self) -> (r: bool)
        ensures
            r == self.suspended_pins_live(),
    {
        let mut i: usize = 0;
        while i < self.outputs.len()
            invariant
                i <= self.outputs@.len(),
                forall|k: int|
                    0 <= k < i ==> ((
                    #[trigger] self.outputs@[k]).suspended_pin matches Some(p) ==> has_output(
                        self.outputs@,
                        p@,
                    )),
            decreases self.outputs.len() - i,
        {
            if let Some(p) = &self.outputs[i].suspended_pin {
                if !self.is_output(p.as_str()) {
                    assert(self.outputs@[i as int].suspended_pin is Some);
                    return false;
                }
            }
            i = i + 1;
        }
        true
    }

    fn has_window(&self, key: DecorationKey) -> (r: bool)
        ensures
            r == self.windows@.contains(key),
    {
        let mut i: usize = 0;
        while i < self.windows.len()
            invariant
                i <= self.windows@.len(),
                forall|k: int| 0 <= k < i ==> self.windows@[k] != key,
            decreases self.windows.len() - i,
        {
            if self.windows[i] == key {
                return true;
            }
            i = i + 1;
        }
        false
    }

    fn check_decorations(&self) -> (r: bool)
        ensures
            r == self.decorations_belong(),
    {
        let mut i: usize = 0;
        while i < self.decorations.len()
            invariant
                i <= self.decorations@.len(),
                forall|k: int|
                    0 <= k < i ==> self.windows@.contains(#[trigger] self.decorations@[k]),
            decreases self.decorations.len() - i,
        {
            if !self.has_window(self.decorations[i]) {
                assert(!self.windows@.contains(self.decorations@[i as int]));
                return false;
            }
            i = i + 1;
        }
        true
    }

    /// The first invariant that does not hold, if one does not.
    pub fn verify_stage_invariants(&self) -> (r: Result<(), Violation>)
        ensures
            match r {
                Ok(()) => self.fullscreen_agrees() && self.fullscreen_lives() && self.pins_live()
                    && self.suspended_pins_live() && self.decorations_belong(),
                Err(Violation::FullscreenDiverged) => !self.fullscreen_agrees(),
                Err(Violation::FullscreenOutlivedOutput) => self.fullscreen_agrees()
                    && !self.fullscreen_lives(),
                Err(Violation::PinOnDeadOutput) => self.fullscreen_agrees()
                    && self.fullscreen_lives() && !self.pins_live(),
                Err(Violation::SuspendedPinOnDeadOutput) => self.fullscreen_agrees()
                    && self.fullscreen_lives() && self.pins_live() && !self.suspended_pins_live(),
                Err(Violation::OrphanDecoration) => self.fullscreen_agrees()
                    && self.fullscreen_lives() && self.pins_live() && self.suspended_pins_live()
                    && !self.decorations_belong(),
            },
    {
        if !self.check_fullscreen() {
            return Err(Violation::FullscreenDiverged);
        }
        if !self.all_outputs(&self.fullscreen_on) {
            return Err(Violation::FullscreenOutlivedOutput);
        }
        if !self.all_outputs(&self.pinned_to) {
            return Err(Violation::PinOnDeadOutput);
        }
        if !self.check_suspended() {
            return Err(Violation::SuspendedPinOnDeadOutput);
        }
        if !self.check_decorations() {
            return Err(Violation::OrphanDecoration);
        }
        Ok(())
    }
}

/// Whatever is wrong is seen: an output where fullscreen and the view to return to
/// disagree, either way; a fullscreen window, a pin or a suspended pin whose output
/// is gone; a decoration without a window.
pub proof fn law_every_violation_is_seen(facts: StageFacts, i: int)
    ensures
        0 <= i < facts.outputs@.len() && facts.outputs@[i].fullscreen
            && !facts.outputs@[i].fullscreen_return ==> !facts.fullscreen_agrees(),
        0 <= i < facts.outputs@.len() && !facts.outputs@[i].fullscreen
            && facts.outputs@[i].fullscreen_return ==> !facts.fullscreen_agrees(),
        0 <= i < facts.fullscreen_on@.len() && (forall|k: int|
            0 <= k < facts.outputs@.len() ==> (#[trigger] facts.outputs@[k]).name@
                != facts.fullscreen_on@[i]@) ==> !facts.fullscreen_lives(),
        0 <= i < facts.pinned_to@.len() && (forall|k: int|
            0 <= k < facts.outputs@.len() ==> (#[trigger] facts.outputs@[k]).name@
                != facts.pinned_to@[i]@) ==> !facts.pins_live(),
        0 <= i < facts.outputs@.len() && facts.outputs@[i].suspended_pin is Some && (forall|k: int|
            0 <= k < facts.outputs@.len() ==> (#[trigger] facts.outputs@[k]).name@
                != facts.outputs@[i].suspended_pin->0@) ==> !facts.suspended_pins_live(),
        0 <= i < facts.decorations@.len() && !facts.windows@.contains(facts.decorations@[i])
            ==> !facts.decorations_belong(),
{
    if 0 <= i < facts.fullscreen_on@.len() && facts.fullscreen_lives() {
        assert(has_output(facts.outputs@, facts.fullscreen_on@[i]@));
    }
    if 0 <= i < facts.pinned_to@.len() && facts.pins_live() {
        assert(has_output(facts.outputs@, facts.pinned_to@[i]@));
    }
}

/// Where nothing is wrong, nothing is seen.
pub proof fn law_a_sound_stage_passes(facts: StageFacts)
    requires
        forall|i: int|
            0 <= i < facts.outputs@.len() ==> {
                let o = #[trigger] facts.outputs@[i];
                &&& o.fullscreen <==> o.fullscreen_return
                &&& o.suspended_pin is Some ==> exists|k: int|
                    0 <= k < facts.outputs@.len() && (#[trigger] facts.outputs@[k]).name@
                        == o.suspended_pin->0@
            },
        forall|i: int|
            0 <= i < facts.fullscreen_on@.len() ==> exists|k: int|
                0 <= k < facts.outputs@.len() && (#[trigger] facts.outputs@[k]).name@ == (
                #[trigger] facts.fullscreen_on@[i])@,
        forall|i: int|
            0 <= i < facts.pinned_to@.len() ==> exists|k: int|
                0 <= k < facts.outputs@.len() && (#[trigger] facts.outputs@[k]).name@ == (
                #[trigger] facts.pinned_to@[i])@,
        forall|i: int|
            0 <= i < facts.decorations@.len() ==> facts.windows@.contains(
                #[trigger] facts.decorations@[i],
            ),
    ensures
        facts.fullscreen_agrees(),
        facts.fullscreen_lives(),
        facts.pins_live(),
        facts.suspended_pins_live(),
        facts.decorations_belong(),
{
}

} // verus!
