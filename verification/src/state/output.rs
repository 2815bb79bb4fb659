//! Outputs coming and going, and which output a window or a point is on.

use crate::capture::{lemma_single_multiset, lemma_swapped_multiset, swapped_out};
use crate::geometry::{Point, Rect, Size};
use crate::help::describe::Direction;
use crate::state::edge_pan::LayoutCell;
use crate::text::same_text;
use vstd::prelude::*;

verus! {

/// An output in the order of connection.
pub struct OutputEntry {
    pub id: u64,
    pub name: String,
    /// Place in the layout.
    pub layout_position: Point,
    /// Logical size.
    pub size: Size,
    /// The part of the canvas that it shows.
    pub visible: Rect,
}

/// The first output of a name, from `i` on.
pub open spec fn entry_named(outputs: Seq<OutputEntry>, name: Seq<char>, i: int) -> Option<int>
    decreases outputs.len() - i,
{
    if i < 0 || i >= outputs.len() {
        None
    } else if outputs[i].name@ == name {
        Some(i)
    } else {
        entry_named(outputs, name, i + 1)
    }
}

pub open spec fn place(at: Option<usize>) -> Option<int> {
    match at {
        Some(i) => Some(i as int),
        None => None,
    }
}

/// The output of a name.
pub fn output_by_name(outputs: &[OutputEntry], name: &str) -> (at: Option<usize>)
    ensures
        place(at) == entry_named(outputs@, name@, 0),
        at matches Some(i) ==> i < outputs@.len(),
{
    let mut i: usize = 0;
    while i < outputs.len()
        invariant
            i <= outputs@.len(),
            entry_named(outputs@, name@, 0) == entry_named(outputs@, name@, i as int),
        decreases outputs.len() - i,
    {
        if same_text(outputs[i].name.as_str(), name) {
            return Some(i);
        }
        i = i + 1;
    }
    None
}

/// The output the pointer is on, else the first one.
pub open spec fn active(focused: Option<u64>, outputs: Seq<OutputEntry>) -> Option<u64> {
    match focused {
        Some(id) => Some(id),
        None => if outputs.len() > 0 {
            Some(outputs[0].id)
        } else {
            None
        },
    }
}

/// The output the pointer is on, else the first one.
pub fn active_output(focused: Option<u64>, outputs: &[OutputEntry]) -> (id: Option<u64>)
    ensures
        id == active(focused, outputs@),
{
    match focused {
        Some(id) => Some(id),
        None => if outputs.len() > 0 {
            Some(outputs[0].id)
        } else {
            None
        },
    }
}

/// Whether an output shows a point of the canvas.
pub fn output_shows_canvas_point(output: &OutputEntry, point: Point) -> (shows: bool)
    ensures
        shows == output.visible.covers(point.x as int, point.y as int),
{
    output.visible.contains(point)
}

/// The first output, from `i` on, that shows a point of the canvas.
pub open spec fn entry_showing(outputs: Seq<OutputEntry>, point: Point, i: int) -> Option<int>
    decreases outputs.len() - i,
{
    if i < 0 || i >= outputs.len() {
        None
    } else if outputs[i].visible.covers(point.x as int, point.y as int) {
        Some(i)
    } else {
        entry_showing(outputs, point, i + 1)
    }
}

/// The first output that shows a point of the canvas.
pub fn output_showing_canvas_point(outputs: &[OutputEntry], point: Point) -> (at: Option<usize>)
    ensures
        place(at) == entry_showing(outputs@, point, 0),
        at matches Some(i) ==> i < outputs@.len(),
{
    let mut i: usize = 0;
    while i < outputs.len()
        invariant
            i <= outputs@.len(),
            entry_showing(outputs@, point, 0) == entry_showing(outputs@, point, i as int),
        decreases outputs.len() - i,
    {
        if output_shows_canvas_point(&outputs[i], point) {
            return Some(i);
        }
        i = i + 1;
    }
    None
}

pub open spec fn id_at(outputs: Seq<OutputEntry>, at: Option<int>) -> Option<u64> {
    match at {
        Some(i) => Some(outputs[i].id),
        None => None,
    }
}

/// The output a window is on: the one it is pinned to; else the first that shows
/// its centre; else the active one. None for a window without a place.
pub fn output_for_window(
    outputs: &[OutputEntry],
    focused: Option<u64>,
    pinned_to: Option<&str>,
    center: Option<Point>,
) -> (id: Option<u64>)
    ensures
        id == match pinned_to {
            Some(name) => id_at(outputs@, entry_named(outputs@, name@, 0)),
            None => match center {
                None => None,
                Some(p) => match entry_showing(outputs@, p, 0) {
                    Some(i) => Some(outputs@[i].id),
                    None => active(focused, outputs@),
                },
            },
        },
{
    match pinned_to {
        Some(name) => match output_by_name(outputs, name) {
            Some(i) => Some(outputs[i].id),
            None => None,
        },
        None => match center {
            None => None,
            Some(p) => match output_showing_canvas_point(outputs, p) {
                Some(i) => Some(outputs[i].id),
                None => active_output(focused, outputs),
            },
        },
    }
}

/// Whether a place in the layout is on an output.
pub open spec fn in_layout(output: OutputEntry, at: LayoutCell) -> bool {
    &&& output.layout_position.x <= at.x < output.layout_position.x + output.size.w
    &&& output.layout_position.y <= at.y < output.layout_position.y + output.size.h
}

/// The first output, from `i` on, that a place in the layout is on.
pub open spec fn entry_at(outputs: Seq<OutputEntry>, at: LayoutCell, i: int) -> Option<int>
    decreases outputs.len() - i,
{
    if i < 0 || i >= outputs.len() {
        None
    } else if in_layout(outputs[i], at) {
        Some(i)
    } else {
        entry_at(outputs, at, i + 1)
    }
}

/// The first output that a place in the layout is on.
pub fn output_at_layout_pos(outputs: &[OutputEntry], at: LayoutCell) -> (found: Option<usize>)
    ensures
        place(found) == entry_at(outputs@, at, 0),
        found matches Some(i) ==> i < outputs@.len(),
{
    let mut i: usize = 0;
    while i < outputs.len()
        invariant
            i <= outputs@.len(),
            entry_at(outputs@, at, 0) == entry_at(outputs@, at, i as int),
        decreases outputs.len() - i,
    {
        let p = outputs[i].layout_position;
        let s = outputs[i].size;
        if p.x as i64 <= at.x && at.x < p.x as i64 + s.w as i64 && p.y as i64 <= at.y && at.y
            < p.y as i64 + s.h as i64 {
            return Some(i);
        }
        i = i + 1;
    }
    None
}

pub open spec fn listed(names: Seq<String>, name: Seq<char>) -> bool {
    exists|i: int| 0 <= i < names.len() && (#[trigger] names[i])@ == name
}

fn is_listed(names: &[String], name: &str) -> (r: bool)
    ensures
        r == listed(names@, name@),
{
    let mut i: usize = 0;
    while i < names.len()
        invariant
            i <= names@.len(),
            forall|k: int| 0 <= k < i ==> (#[trigger] names@[k])@ != name@,
        decreases names.len() - i,
    {
        if same_text(names[i].as_str(), name) {
            return true;
        }
        i = i + 1;
    }
    false
}

/// The outputs, and those that stand in for monitors that are gone.
pub struct Outputs {
    pub entries: Vec<OutputEntry>,
    /// Names of outputs kept while no monitor is connected.
    pub placeholders: Vec<String>,
    /// The output the pointer is on.
    pub focused: Option<u64>,
}

/// Where the pointer goes when the output under it is gone.
#[derive(Clone, Copy, Debug, PartialEq, Eq, Structural)]
pub enum PointerMove {
    Stay,
    /// To the centre of an output's view.
    Center(u64),
    /// Onto an output's screen, as little as needed.
    Clamp(u64),
}

/// Where the user wants an output.
#[derive(Clone, Copy, Debug, PartialEq, Eq, Structural)]
pub enum OutputPosition {
    Auto,
    Fixed(Point),
}

/// Widths of some outputs together.
pub open spec fn total_width(outputs: Seq<OutputEntry>) -> int
    decreases outputs.len(),
{
    if outputs.len() == 0 {
        0
    } else {
        total_width(outputs.drop_last()) + outputs.last().size.w
    }
}

pub open spec fn is_placeholder(names: Seq<String>) -> spec_fn(OutputEntry) -> bool {
    |o: OutputEntry| listed(names, o.name@)
}

pub open spec fn is_real(names: Seq<String>) -> spec_fn(OutputEntry) -> bool {
    |o: OutputEntry| !listed(names, o.name@)
}

proof fn lemma_width_prefix(outputs: Seq<OutputEntry>, n: int)
    requires
        0 <= n <= outputs.len(),
        forall|i: int| 0 <= i < outputs.len() ==> (#[trigger] outputs[i]).size.w >= 0,
    ensures
        0 <= total_width(outputs.subrange(0, n)) <= total_width(outputs),
    decreases outputs.len(),
{
    if n == outputs.len() {
        assert(outputs.subrange(0, n) =~= outputs);
        if n > 0 {
            lemma_width_prefix(outputs.drop_last(), n - 1);
            assert(outputs.drop_last().subrange(0, n - 1) =~= outputs.drop_last());
            assert(outputs.last() == outputs[n - 1]);
        }
    } else {
        lemma_width_prefix(outputs.drop_last(), n);
        assert(outputs.drop_last().subrange(0, n) =~= outputs.subrange(0, n));
        assert(outputs.last() == outputs[outputs.len() - 1]);
    }
}

proof fn lemma_kept_widths(outputs: Seq<OutputEntry>, names: Seq<String>)
    requires
        forall|i: int| 0 <= i < outputs.len() ==> (#[trigger] outputs[i]).size.w >= 0,
    ensures
        0 <= total_width(outputs.filter(is_real(names))) <= total_width(outputs),
        forall|i: int|
            0 <= i < outputs.filter(is_real(names)).len() ==> (#[trigger] outputs.filter(
                is_real(names),
            )[i]).size.w >= 0,
    decreases outputs.len(),
{
    reveal(Seq::filter);
    if outputs.len() > 0 {
        let init = outputs.drop_last();
        lemma_kept_widths(init, names);
        assert(outputs.last() == outputs[outputs.len() - 1]);
        let kept = outputs.filter(is_real(names));
        if is_real(names)(outputs.last()) {
            assert(kept.drop_last() =~= init.filter(is_real(names)));
            assert(kept.last() == outputs.last());
        }
    }
}

/// Where an output that is connected goes: where the user wants it, else to the
/// right of those that are there.
pub open spec fn position_for(there: Seq<OutputEntry>, wish: OutputPosition) -> (int, int) {
    match wish {
        OutputPosition::Fixed(p) => (p.x as int, p.y as int),
        OutputPosition::Auto => (total_width(there), 0),
    }
}

/// What connecting an output leads to.
pub struct ConnectStep {
    /// Outputs that stood in for monitors.
    pub retired: Vec<u64>,
    pub position: Point,
    /// The pointer goes to its centre.
    pub takes_pointer: bool,
}

impl Outputs {
    /// Drops the outputs that stand in for monitors, and the focus with them.
    /// Nothing changes if there are none. Returns their ids, in order: fullscreen
    /// on them ends, and what is drawn for them is dropped.
    pub fn retire_placeholders(&mut self) -> (retired: Vec<u64>)
        ensures
            old(self).placeholders@.len() == 0 ==> *final(self) == *old(self) && retired@.len()
                == 0,
            old(self).placeholders@.len() > 0 ==> {
                &&& final(self).placeholders@.len() == 0
                &&& final(self).focused is None
                &&& final(self).entries@ == old(self).entries@.filter(
                    is_real(old(self).placeholders@),
                )
                &&& retired@ == old(self).entries@.filter(
                    is_placeholder(old(self).placeholders@),
                ).map_values(|o: OutputEntry| o.id)
            },
    {
        if self.placeholders.len() == 0 {
            return Vec::new();
        }
        let ghost all = self.entries@;
        let ghost genuine = is_real(self.placeholders@);
        let ghost stand_in = is_placeholder(self.placeholders@);
        let ghost by_id = |o: OutputEntry| o.id;
        let mut entries: Vec<OutputEntry> = Vec::new();
        std::mem::swap(&mut entries, &mut self.entries);
        let mut kept: Vec<OutputEntry> = Vec::new();
        let mut retired: Vec<u64> = Vec::new();
        proof {
            reveal(Seq::filter);
            assert(all.subrange(0, 0).filter(genuine) =~= Seq::empty());
            assert(all.subrange(0, 0).filter(stand_in).map_values(by_id) =~= Seq::empty());
        }
        for o in it: entries
            invariant
                it.seq() == all,
                genuine == is_real(self.placeholders@),
                stand_in == is_placeholder(self.placeholders@),
                by_id == (|o: OutputEntry| o.id),
                self.placeholders@ == old(self).placeholders@,
                kept@ == all.subrange(0, it.index() as int).filter(genuine),
                retired@ == all.subrange(0, it.index() as int).filter(stand_in).map_values(by_id),
        {
            let ghost before = all.subrange(0, it.index() as int).filter(stand_in);
            proof {
                let next = all.subrange(0, it.index() + 1);
                assert(next.drop_last() =~= all.subrange(0, it.index() as int));
                assert(next.last() == o);
                reveal(Seq::filter);
            }
            if is_listed(self.placeholders.as_slice(), o.name.as_str()) {
                retired.push(o.id);
                assert(retired@ =~= before.push(o).map_values(by_id));
            } else {
                kept.push(o);
            }
        }
        assert(all.subrange(0, all.len() as int) =~= all);
        self.entries = kept;
        self.placeholders = Vec::new();
        self.focused = None;
        retired
    }

    /// The outputs without those that stand in for monitors.
    pub open spec fn genuine_entries(self) -> Seq<OutputEntry> {
        if self.placeholders@.len() == 0 {
            self.entries@
        } else {
            self.entries@.filter(is_real(self.placeholders@))
        }
    }

    /// The focus without those.
    pub open spec fn genuine_focus(self) -> Option<u64> {
        if self.placeholders@.len() == 0 {
            self.focused
        } else {
            None
        }
    }

    /// Takes in an output that was connected, in place of those that stand in
    /// for monitors. Returns the ids of those, where the output goes in the
    /// layout, and whether the pointer goes to its centre: it does on the first
    /// output.
    pub fn output_connected(
        &mut self,
        id: u64,
        name: &str,
        size: Size,
        visible: Rect,
        wish: OutputPosition,
    ) -> (step: ConnectStep)
        requires
            forall|i: int|
                0 <= i < old(self).entries@.len() ==> (#[trigger] old(self).entries@[i]).size.w
                    >= 0,
            wish is Auto ==> total_width(old(self).entries@) <= i32::MAX,
        ensures
            (step.position.x as int, step.position.y as int) == position_for(
                old(self).genuine_entries(),
                wish,
            ),
            step.takes_pointer == (old(self).genuine_focus() is None),
            step.retired@ == if old(self).placeholders@.len() == 0 {
                Seq::empty()
            } else {
                old(self).entries@.filter(is_placeholder(old(self).placeholders@)).map_values(
                    |o: OutputEntry| o.id,
                )
            },
            final(self).focused == match old(self).genuine_focus() {
                Some(f) => Some(f),
                None => Some(id),
            },
            final(self).placeholders@.len() == 0,
            final(self).entries@.len() == old(self).genuine_entries().len() + 1,
            final(self).entries@.drop_last() == old(self).genuine_entries(),
            final(self).entries@.last().id == id,
            final(self).entries@.last().name@ == name@,
            final(self).entries@.last().layout_position == step.position,
            final(self).entries@.last().size == size,
            final(self).entries@.last().visible == visible,
    {
        proof {
            lemma_kept_widths(self.entries@, self.placeholders@);
        }
        let retired = self.retire_placeholders();
        let ghost there = old(self).genuine_entries();
        assert(self.entries@ == there);
        assert(retired@ =~= if old(self).placeholders@.len() == 0 {
            Seq::empty()
        } else {
            old(self).entries@.filter(is_placeholder(old(self).placeholders@)).map_values(
                |o: OutputEntry| o.id,
            )
        });
        let position = match wish {
            OutputPosition::Fixed(p) => p,
            OutputPosition::Auto => {
                let mut x: i32 = 0;
                let mut i: usize = 0;
                assert(there.subrange(0, 0).len() == 0);
                while i < self.entries.len()
                    invariant
                        i <= there.len(),
                        self.entries@ == there,
                        forall|k: int| 0 <= k < there.len() ==> (#[trigger] there[k]).size.w >= 0,
                        total_width(there) <= i32::MAX,
                        x == total_width(there.subrange(0, i as int)),
                        0 <= x,
                    decreases self.entries.len() - i,
                {
                    proof {
                        let next = there.subrange(0, i + 1);
                        assert(next.drop_last() =~= there.subrange(0, i as int));
                        assert(next.last() == there[i as int]);
                        lemma_width_prefix(there, i + 1);
                    }
                    assert(self.entries@[i as int] == there[i as int]);
                    x = x + self.entries[i].size.w;
                    i = i + 1;
                }
                assert(there.subrange(0, i as int) =~= there);
                Point { x, y: 0 }
            },
        };
        let takes_pointer = self.focused.is_none();
        if takes_pointer {
            self.focused = Some(id);
        }
        self.entries.push(
            OutputEntry { id, name: name.to_owned(), layout_position: position, size, visible },
        );
        assert(self.entries@.drop_last() =~= there);
        ConnectStep { retired, position, takes_pointer }
    }

    /// Takes out an output that was disconnected. The last one stays, to stand in
    /// for a monitor until one is connected. Else the focus goes to the first
    /// output that is left, and the pointer with it: to the centre of its view,
    /// or in a locked session onto its screen.
    pub fn output_disconnected(&mut self, id: u64, name: &str, is_last: bool, locked: bool) -> (
        pointer: PointerMove)
        ensures
            is_last ==> {
                &&& final(self).entries@ == old(self).entries@
                &&& final(self).focused == old(self).focused
                &&& listed(final(self).placeholders@, name@)
                &&& forall|n: Seq<char>| #[trigger]
                    listed(final(self).placeholders@, n) <==> listed(
                        old(self).placeholders@,
                        n,
                    ) || n == name@
                &&& pointer is Stay
            },
            !is_last ==> {
                let left = old(self).entries@.filter(|o: OutputEntry| o.id != id);
                &&& final(self).entries@ == left
                &&& final(self).placeholders@ == old(self).placeholders@
                &&& final(self).focused == if old(self).focused == Some(id) {
                    active(None, left)
                } else {
                    old(self).focused
                }
                &&& pointer == if old(self).focused == Some(id) && left.len() > 0 {
                    if locked {
                        PointerMove::Clamp(left[0].id)
                    } else {
                        PointerMove::Center(left[0].id)
                    }
                } else {
                    PointerMove::Stay
                }
            },
    {
        if is_last {
            if !is_listed(self.placeholders.as_slice(), name) {
                let ghost before = self.placeholders@;
                self.placeholders.push(name.to_owned());
                proof {
                    let after = self.placeholders@;
                    assert(after[before.len() as int]@ == name@);
                    assert forall|n: Seq<char>| #[trigger]
                        listed(after, n) <==> listed(before, n) || n == name@ by {
                        if listed(before, n) {
                            let i = choose|i: int|
                                0 <= i < before.len() && (#[trigger] before[i])@ == n;
                            assert(after[i] == before[i]);
                        }
                        if listed(after, n) {
                            let i = choose|i: int|
                                0 <= i < after.len() && (#[trigger] after[i])@ == n;
                            if i < before.len() {
                                assert(before[i] == after[i]);
                            }
                        }
                    }
                }
            }
            return PointerMove::Stay;
        }
        let ghost all = self.entries@;
        let ghost pred = |o: OutputEntry| o.id != id;
        let mut entries: Vec<OutputEntry> = Vec::new();
        std::mem::swap(&mut entries, &mut self.entries);
        let mut kept: Vec<OutputEntry> = Vec::new();
        assert(all.subrange(0, 0).filter(pred) =~= Seq::empty()) by {
            reveal(Seq::filter);
        }
        for o in it: entries
            invariant
                it.seq() == all,
                pred == (|o: OutputEntry| o.id != id),
                self.placeholders@ == old(self).placeholders@,
                self.focused == old(self).focused,
                kept@ == all.subrange(0, it.index() as int).filter(pred),
        {
            proof {
                let next = all.subrange(0, it.index() + 1);
                assert(next.drop_last() =~= all.subrange(0, it.index() as int));
                assert(next.last() == o);
                reveal(Seq::filter);
            }
            if o.id != id {
                kept.push(o);
            }
        }
        assert(all.subrange(0, all.len() as int) =~= all);
        self.entries = kept;
        let was_focused = match self.focused {
            Some(f) => f == id,
            None => false,
        };
        if !was_focused {
            return PointerMove::Stay;
        }
        self.focused = active_output(None, self.entries.as_slice());
        match self.focused {
            Some(f) => if locked {
                PointerMove::Clamp(f)
            } else {
                PointerMove::Center(f)
            },
            None => PointerMove::Stay,
        }
    }
}

/// What a pending capture is of.
#[derive(Clone, Copy, Debug, PartialEq, Eq, Structural)]
pub enum PendingKind {
    Output(u64),
    Toplevel,
}

/// A pending capture; `F` is the frame to answer.
pub struct PendingCapture<F> {
    pub kind: PendingKind,
    pub frame: F,
}

/// A capture that can no longer be drawn once an output is gone. Captures of
/// windows are drawn with any output, while there is one.
pub open spec fn is_dead<F>(p: PendingCapture<F>, output: u64, is_last: bool) -> bool {
    match p.kind {
        PendingKind::Output(o) => o == output,
        PendingKind::Toplevel => is_last,
    }
}

/// The captures to fail, in the order they are taken out, searching from `i`.
pub open spec fn dead_frames<F>(
    pending: Seq<PendingCapture<F>>,
    output: u64,
    is_last: bool,
    i: int,
) -> Seq<F>
    decreases pending.len() - i,
{
    if i < 0 || i >= pending.len() {
        Seq::empty()
    } else if is_dead(pending[i], output, is_last) {
        seq![pending[i].frame] + dead_frames(swapped_out(pending, i), output, is_last, i)
    } else {
        dead_frames(pending, output, is_last, i + 1)
    }
}

/// The captures that are left after that.
pub open spec fn live_captures<F>(
    pending: Seq<PendingCapture<F>>,
    output: u64,
    is_last: bool,
    i: int,
) -> Seq<PendingCapture<F>>
    decreases pending.len() - i,
{
    if i < 0 || i >= pending.len() {
        pending
    } else if is_dead(pending[i], output, is_last) {
        live_captures(swapped_out(pending, i), output, is_last, i)
    } else {
        live_captures(pending, output, is_last, i + 1)
    }
}

/// Takes out the captures that can no longer be drawn once an output is gone.
/// Returns their frames, which fail.
pub fn fail_dead_captures<F>(
    pending: &mut Vec<PendingCapture<F>>,
    output: u64,
    is_last: bool,
) -> (failed: Vec<F>)
    ensures
        failed@ == dead_frames(old(pending)@, output, is_last, 0),
        final(pending)@ == live_captures(old(pending)@, output, is_last, 0),
{
    let ghost all = pending@;
    let mut failed: Vec<F> = Vec::new();
    let mut i: usize = 0;
    assert(failed@ + dead_frames(pending@, output, is_last, 0) =~= dead_frames(
        all,
        output,
        is_last,
        0,
    ));
    while i < pending.len()
        invariant
            i <= pending@.len(),
            failed@ + dead_frames(pending@, output, is_last, i as int) =~= dead_frames(
                all,
                output,
                is_last,
                0,
            ),
            live_captures(pending@, output, is_last, i as int) == live_captures(
                all,
                output,
                is_last,
                0,
            ),
        decreases pending@.len() - i,
    {
        let ghost before = pending@;
        let ghost so_far = failed@;
        let dead = match pending[i].kind {
            PendingKind::Output(o) => o == output,
            PendingKind::Toplevel => is_last,
        };
        if dead {
            let p = pending.swap_remove(i);
            assert(pending@ =~= swapped_out(before, i as int));
            failed.push(p.frame);
            assert(so_far + dead_frames(before, output, is_last, i as int) =~= failed@
                + dead_frames(pending@, output, is_last, i as int));
        } else {
            i = i + 1;
        }
    }
    assert(dead_frames(pending@, output, is_last, i as int) =~= Seq::empty());
    assert(failed@ =~= dead_frames(all, output, is_last, 0));
    failed
}

/// How a window is drawn on an output.
#[derive(Clone, Copy, Debug, PartialEq, Eq, Structural)]
pub enum WindowTransform {
    /// Not at all.
    Hidden,
    /// At a place of the screen, at its own size: the origin of its surfaces.
    Screen { x: i64, y: i64 },
    /// Where the camera sees it, at the zoom: the origin of its surfaces on the
    /// canvas.
    Canvas { x: i64, y: i64 },
}

/// Where a window is pinned, by output id.
#[derive(Clone, Copy, Debug, PartialEq, Eq, Structural)]
pub struct PinPlace {
    pub output: Option<u64>,
    pub screen_pos: Point,
}

pub open spec fn window_transform(
    loc: Option<Point>,
    geometry: Point,
    fullscreen_on: Option<u64>,
    pin: Option<PinPlace>,
    output: Option<u64>,
) -> WindowTransform {
    if loc is None || (fullscreen_on is Some && output != fullscreen_on) {
        WindowTransform::Hidden
    } else {
        match pin {
            Some(p) => if output is Some && output == p.output {
                WindowTransform::Screen {
                    x: (p.screen_pos.x - geometry.x) as i64,
                    y: (p.screen_pos.y - geometry.y) as i64,
                }
            } else {
                WindowTransform::Hidden
            },
            None => WindowTransform::Canvas {
                x: (loc->0.x - geometry.x) as i64,
                y: (loc->0.y - geometry.y) as i64,
            },
        }
    }
}

/// How a window is drawn on an output, or in a picture of the canvas (`None`).
/// `loc` is its place on the canvas, `geometry` its place among its surfaces. A
/// fullscreen window is drawn on its output only; a pinned one on its output
/// only, at its place on the screen.
pub fn window_render_transform(
    loc: Option<Point>,
    geometry: Point,
    fullscreen_on: Option<u64>,
    pin: Option<PinPlace>,
    output: Option<u64>,
) -> (t: WindowTransform)
    ensures
        t == window_transform(loc, geometry, fullscreen_on, pin, output),
{
    let p = match loc {
        Some(p) => p,
        None => {
            return WindowTransform::Hidden;
        },
    };
    if let Some(f) = fullscreen_on {
        let here = match output {
            Some(o) => o == f,
            None => false,
        };
        if !here {
            return WindowTransform::Hidden;
        }
    }
    match pin {
        Some(site) => {
            let here = match output {
                Some(o) => match site.output {
                    Some(s) => o == s,
                    None => false,
                },
                None => false,
            };
            if here {
                WindowTransform::Screen {
                    x: site.screen_pos.x as i64 - geometry.x as i64,
                    y: site.screen_pos.y as i64 - geometry.y as i64,
                }
            } else {
                WindowTransform::Hidden
            }
        },
        None => WindowTransform::Canvas {
            x: p.x as i64 - geometry.x as i64,
            y: p.y as i64 - geometry.y as i64,
        },
    }
}

/// An output's centre in the layout, in half pixels.
pub open spec fn doubled_center(o: OutputEntry) -> (int, int) {
    (2 * o.layout_position.x + o.size.w, 2 * o.layout_position.y + o.size.h)
}

/// How far apart two outputs' centres are, squared, in half pixels.
pub open spec fn squared_distance(a: OutputEntry, b: OutputEntry) -> int {
    let x = doubled_center(b).0 - doubled_center(a).0;
    let y = doubled_center(b).1 - doubled_center(a).1;
    x * x + y * y
}

/// A direction as steps on the two axes.
pub open spec fn steps(dir: Direction) -> (int, int) {
    match dir {
        Direction::Up => (0, -1),
        Direction::Down => (0, 1),
        Direction::Left => (-1, 0),
        Direction::Right => (1, 0),
        Direction::UpLeft => (-1, -1),
        Direction::UpRight => (1, -1),
        Direction::DownLeft => (-1, 1),
        Direction::DownRight => (1, 1),
    }
}

/// An output lies in a direction from another: its centre is at least a pixel
/// away, and within 60 degrees of the direction. With `v` the way to it and `d`
/// the direction, that is `v·d > |v||d| / 2`.
pub open spec fn lies_towards(from: OutputEntry, o: OutputEntry, dir: Direction) -> bool {
    let x = doubled_center(o).0 - doubled_center(from).0;
    let y = doubled_center(o).1 - doubled_center(from).1;
    let (dx, dy) = steps(dir);
    let dot = x * dx + y * dy;
    &&& x * x + y * y >= 4
    &&& dot > 0
    &&& 4 * (dot * dot) > (x * x + y * y) * (dx * dx + dy * dy)
}

/// The nearest of the first `n` outputs that lie in a direction from one; the
/// first of several.
pub open spec fn nearest_towards(
    outputs: Seq<OutputEntry>,
    from: int,
    dir: Direction,
    n: int,
) -> Option<int>
    decreases n,
{
    if n <= 0 {
        None
    } else {
        let best = nearest_towards(outputs, from, dir, n - 1);
        let o = outputs[n - 1];
        if o.id == outputs[from].id || !lies_towards(outputs[from], o, dir) {
            best
        } else {
            match best {
                Some(b) if squared_distance(outputs[from], outputs[b]) <= squared_distance(
                    outputs[from],
                    o,
                ) => best,
                _ => Some(n - 1),
            }
        }
    }
}

/// The way from one output's centre to another's, in half pixels.
fn way(from: &OutputEntry, o: &OutputEntry) -> (v: (i128, i128))
    ensures
        v.0 == doubled_center(*o).0 - doubled_center(*from).0,
        v.1 == doubled_center(*o).1 - doubled_center(*from).1,
        -0x10_0000_0000 <= v.0 <= 0x10_0000_0000,
        -0x10_0000_0000 <= v.1 <= 0x10_0000_0000,
{
    let x: i128 = (2 * o.layout_position.x as i128 + o.size.w as i128) - (2
        * from.layout_position.x as i128 + from.size.w as i128);
    let y: i128 = (2 * o.layout_position.y as i128 + o.size.h as i128) - (2
        * from.layout_position.y as i128 + from.size.h as i128);
    (x, y)
}

proof fn lemma_product_bound(a: int, b: int)
    requires
        -0x20_0000_0000 <= a <= 0x20_0000_0000,
        -0x20_0000_0000 <= b <= 0x20_0000_0000,
    ensures
        -0x400_0000_0000_0000_0000 <= a * b <= 0x400_0000_0000_0000_0000,
{
    assert(-0x400_0000_0000_0000_0000 <= a * b <= 0x400_0000_0000_0000_0000) by (nonlinear_arith)
        requires
            -0x20_0000_0000 <= a <= 0x20_0000_0000,
            -0x20_0000_0000 <= b <= 0x20_0000_0000,
    ;
}

fn distance_squared(from: &OutputEntry, o: &OutputEntry) -> (d: i128)
    ensures
        d == squared_distance(*from, *o),
        0 <= d <= 0x800_0000_0000_0000_0000,
{
    let (x, y) = way(from, o);
    proof {
        lemma_product_bound(x as int, x as int);
        lemma_product_bound(y as int, y as int);
        assert(0 <= x * x && 0 <= y * y) by (nonlinear_arith);
    }
    x * x + y * y
}

fn is_towards(from: &OutputEntry, o: &OutputEntry, dir: Direction) -> (r: bool)
    ensures
        r == lies_towards(*from, *o, dir),
{
    let (x, y) = way(from, o);
    let far: i128 = distance_squared(from, o);
    let dot: i128 = match dir {
        Direction::Up => -y,
        Direction::Down => y,
        Direction::Left => -x,
        Direction::Right => x,
        Direction::UpLeft => -x - y,
        Direction::UpRight => x - y,
        Direction::DownLeft => y - x,
        Direction::DownRight => x + y,
    };
    let len: i128 = match dir {
        Direction::Up => 1,
        Direction::Down => 1,
        Direction::Left => 1,
        Direction::Right => 1,
        _ => 2,
    };
    proof {
        lemma_product_bound(dot as int, dot as int);
        let (dx, dy) = steps(dir);
        assert(x * dx + y * dy == dot) by (nonlinear_arith)
            requires
                (dx == 0 && dy == -1 && dot == -y) || (dx == 0 && dy == 1 && dot == y) || (dx == -1
                    && dy == 0 && dot == -x) || (dx == 1 && dy == 0 && dot == x) || (dx == -1 && dy
                    == -1 && dot == -x - y) || (dx == 1 && dy == -1 && dot == x - y) || (dx == -1
                    && dy == 1 && dot == y - x) || (dx == 1 && dy == 1 && dot == x + y),
        ;
        assert(dx * dx + dy * dy == len) by (nonlinear_arith)
            requires
                (dx == 0 && (dy == 1 || dy == -1) && len == 1) || (dy == 0 && (dx == 1 || dx == -1)
                    && len == 1) || ((dx == 1 || dx == -1) && (dy == 1 || dy == -1) && len == 2),
        ;
    }
    far >= 4 && dot > 0 && 4 * (dot * dot) > far * len
}

/// The nearest output that lies in a direction from one; the first of several.
pub fn output_in_direction(outputs: &[OutputEntry], from: usize, dir: Direction) -> (at: Option<
    usize,
>)
    requires
        from < outputs@.len(),
    ensures
        place(at) == nearest_towards(outputs@, from as int, dir, outputs@.len() as int),
        at matches Some(i) ==> i < outputs@.len(),
{
    let mut best: Option<usize> = None;
    let mut n: usize = 0;
    while n < outputs.len()
        invariant
            from < outputs@.len(),
            n <= outputs@.len(),
            place(best) == nearest_towards(outputs@, from as int, dir, n as int),
            best matches Some(b) ==> b < n,
        decreases outputs.len() - n,
    {
        if outputs[n].id != outputs[from].id && is_towards(&outputs[from], &outputs[n], dir) {
            let better = match best {
                Some(b) => distance_squared(&outputs[from], &outputs[b]) > distance_squared(
                    &outputs[from],
                    &outputs[n],
                ),
                None => true,
            };
            if better {
                best = Some(n);
            }
        }
        n = n + 1;
    }
    best
}

/// Whether pinned windows have to follow: the camera of an output is not where
/// the output is mapped. `mapped` and `cameras` are by output.
pub fn update_output_from_camera(mapped: &[Option<Point>], cameras: &[Point]) -> (changed: bool)
    requires
        mapped@.len() == cameras@.len(),
    ensures
        changed == exists|i: int|
            0 <= i < mapped@.len() && #[trigger] mapped@[i] != Some(cameras@[i]),
{
    let mut i: usize = 0;
    while i < mapped.len()
        invariant
            i <= mapped@.len() == cameras@.len(),
            forall|k: int| 0 <= k < i ==> #[trigger] mapped@[k] == Some(cameras@[k]),
        decreases mapped.len() - i,
    {
        let same = match mapped[i] {
            Some(p) => p == cameras[i],
            None => false,
        };
        if !same {
            assert(mapped@[i as int] != Some(cameras@[i as int]));
            return true;
        }
        i = i + 1;
    }
    false
}

/// The largest of 1 and some scales.
pub open spec fn largest_scale(scales: Seq<i32>) -> int
    decreases scales.len(),
{
    if scales.len() == 0 {
        1
    } else {
        crate::geometry::max_of(largest_scale(scales.drop_last()), scales.last() as int)
    }
}

/// Density of window decorations: the largest of the outputs' scales, each
/// rounded up.
pub fn recompute_decoration_scale(scales: &[i32]) -> (scale: i32)
    ensures
        scale == largest_scale(scales@),
        scale >= 1,
{
    let mut scale: i32 = 1;
    let mut i: usize = 0;
    assert(scales@.subrange(0, 0).len() == 0);
    while i < scales.len()
        invariant
            i <= scales@.len(),
            scale == largest_scale(scales@.subrange(0, i as int)),
            scale >= 1,
        decreases scales.len() - i,
    {
        proof {
            let next = scales@.subrange(0, i + 1);
            assert(next.drop_last() =~= scales@.subrange(0, i as int));
            assert(next.last() == scales@[i as int]);
        }
        if scales[i] > scale {
            scale = scales[i];
        }
        i = i + 1;
    }
    assert(scales@.subrange(0, i as int) =~= scales@);
    scale
}

/// A fullscreen or pinned window is drawn on its own output only, and never in a
/// picture of the canvas.
pub proof fn law_bound_windows_stay_on_their_output(
    loc: Option<Point>,
    geometry: Point,
    fullscreen_on: Option<u64>,
    pin: Option<PinPlace>,
    output: Option<u64>,
)
    requires
        fullscreen_on is Some || pin is Some,
    ensures
        !(window_transform(loc, geometry, fullscreen_on, pin, output) is Hidden) ==> output is Some
            && (fullscreen_on is Some ==> output == fullscreen_on) && (pin matches Some(p)
            ==> output == p.output),
{
}

/// Once an output is gone, no pending capture is left that waits for it, and
/// none at all for a window if it was the last.
pub proof fn law_no_capture_is_stranded<F>(
    pending: Seq<PendingCapture<F>>,
    output: u64,
    is_last: bool,
    k: int,
)
    requires
        0 <= k < live_captures(pending, output, is_last, 0).len(),
    ensures
        !is_dead(live_captures(pending, output, is_last, 0)[k], output, is_last),
{
    lemma_none_dead(pending, output, is_last, 0, k);
}

proof fn lemma_none_dead<F>(
    pending: Seq<PendingCapture<F>>,
    output: u64,
    is_last: bool,
    i: int,
    k: int,
)
    requires
        0 <= i <= pending.len(),
        forall|j: int| 0 <= j < i ==> !is_dead(#[trigger] pending[j], output, is_last),
        0 <= k < live_captures(pending, output, is_last, i).len(),
    ensures
        !is_dead(live_captures(pending, output, is_last, i)[k], output, is_last),
    decreases pending.len() - i,
{
    if i < pending.len() {
        if is_dead(pending[i], output, is_last) {
            let next = swapped_out(pending, i);
            assert forall|j: int| 0 <= j < i implies !is_dead(
                #[trigger] next[j],
                output,
                is_last,
            ) by {
                assert(next[j] == pending[j]);
            }
            lemma_none_dead(next, output, is_last, i, k);
        } else {
            lemma_none_dead(pending, output, is_last, i + 1, k);
        }
    }
}

/// The output of a name is the first that has it; there is none only if no output
/// has it.
pub proof fn law_first_of_the_name(outputs: Seq<OutputEntry>, name: Seq<char>, i: int)
    requires
        0 <= i,
    ensures
        match entry_named(outputs, name, i) {
            Some(k) => i <= k < outputs.len() && outputs[k].name@ == name && forall|j: int|
                i <= j < k ==> (#[trigger] outputs[j]).name@ != name,
            None => forall|j: int| i <= j < outputs.len() ==> (#[trigger] outputs[j]).name@ != name,
        },
    decreases outputs.len() - i,
{
    if i < outputs.len() && outputs[i].name@ != name {
        law_first_of_the_name(outputs, name, i + 1);
    }
}

/// The output that shows a point of the canvas is the first whose visible part
/// covers it; there is none only if none does.
pub proof fn law_first_that_shows_the_point(outputs: Seq<OutputEntry>, point: Point, i: int)
    requires
        0 <= i,
    ensures
        match entry_showing(outputs, point, i) {
            Some(k) => i <= k < outputs.len() && outputs[k].visible.covers(
                point.x as int,
                point.y as int,
            ) && forall|j: int|
                i <= j < k ==> !(#[trigger] outputs[j]).visible.covers(
                    point.x as int,
                    point.y as int,
                ),
            None => forall|j: int|
                i <= j < outputs.len() ==> !(#[trigger] outputs[j]).visible.covers(
                    point.x as int,
                    point.y as int,
                ),
        },
    decreases outputs.len() - i,
{
    if i < outputs.len() && !outputs[i].visible.covers(point.x as int, point.y as int) {
        law_first_that_shows_the_point(outputs, point, i + 1);
    }
}

/// The output at a place of the layout is the first whose rectangle there holds
/// it, its right and bottom edges not included.
pub proof fn law_first_at_the_place(outputs: Seq<OutputEntry>, at: LayoutCell, i: int)
    requires
        0 <= i,
    ensures
        match entry_at(outputs, at, i) {
            Some(k) => {
                let o = outputs[k];
                &&& i <= k < outputs.len()
                &&& 0 <= at.x - o.layout_position.x < o.size.w
                &&& 0 <= at.y - o.layout_position.y < o.size.h
            },
            None => true,
        },
        forall|j: int|
            i <= j < outputs.len() && (entry_at(outputs, at, i) matches Some(k) ==> j < k) ==> {
                let o = #[trigger] outputs[j];
                !(0 <= at.x - o.layout_position.x < o.size.w && 0 <= at.y - o.layout_position.y
                    < o.size.h)
            },
    decreases outputs.len() - i,
{
    if i < outputs.len() && !in_layout(outputs[i], at) {
        law_first_at_the_place(outputs, at, i + 1);
    }
}

/// The active output is the one the pointer is on. Without a pointer it is the
/// first, and none only if there is none.
pub proof fn law_active_is_under_the_pointer(focused: Option<u64>, outputs: Seq<OutputEntry>)
    ensures
        focused is Some ==> active(focused, outputs) == focused,
        focused is None && outputs.len() > 0 ==> active(focused, outputs) == Some(
            outputs.first().id,
        ),
        active(focused, outputs) is None <==> focused is None && outputs.len() == 0,
{
}

/// Widths add up.
pub proof fn law_widths_add_up(a: Seq<OutputEntry>, b: Seq<OutputEntry>, o: OutputEntry)
    ensures
        total_width(seq![o]) == o.size.w,
        total_width(a + b) == total_width(a) + total_width(b),
    decreases b.len(),
{
    assert(seq![o].drop_last() =~= Seq::empty());
    assert(total_width(seq![o].drop_last()) == 0);
    if b.len() > 0 {
        law_widths_add_up(a, b.drop_last(), o);
        assert((a + b).drop_last() =~= a + b.drop_last());
        assert((a + b).last() == b.last());
    } else {
        assert(a + b =~= a);
    }
}

/// An output that the user has no wish for is put in a row with the others, right
/// of them: if these stand side by side from the origin on, none of them overlaps
/// it. A wish is met.
pub proof fn law_new_output_goes_to_the_right(there: Seq<OutputEntry>, p: Point, i: int)
    requires
        forall|j: int|
            0 <= j < there.len() ==> (#[trigger] there[j]).size.w >= 0
                && there[j].layout_position.x == total_width(there.subrange(0, j)),
        0 <= i < there.len(),
    ensures
        there[i].layout_position.x + there[i].size.w <= position_for(there, OutputPosition::Auto).0,
        i == there.len() - 1 ==> there[i].layout_position.x + there[i].size.w == position_for(
            there,
            OutputPosition::Auto,
        ).0,
        position_for(there, OutputPosition::Auto).1 == 0,
        position_for(there, OutputPosition::Fixed(p)) == (p.x as int, p.y as int),
{
    let upto = there.subrange(0, i + 1);
    lemma_width_prefix(there, i + 1);
    assert(upto.drop_last() =~= there.subrange(0, i));
    assert(upto.last() == there[i]);
    if i == there.len() - 1 {
        assert(upto =~= there);
    }
}

/// An output stands in for a monitor or is genuine, never both, and is told apart
/// by its name alone.
pub proof fn law_stand_ins_are_told_by_name(names: Seq<String>, o: OutputEntry, p: OutputEntry)
    ensures
        is_placeholder(names)(o) <==> exists|i: int|
            0 <= i < names.len() && (#[trigger] names[i])@ == o.name@,
        is_real(names)(o) <==> !is_placeholder(names)(o),
        o.name@ == p.name@ ==> is_real(names)(o) == is_real(names)(p),
{
}

/// Without stand-ins every output and the focus are genuine. With them the focus
/// is not kept.
pub proof fn law_stand_ins_leave_nothing_behind(outputs: Outputs, i: int)
    ensures
        outputs.placeholders@.len() == 0 ==> outputs.genuine_entries() == outputs.entries@
            && outputs.genuine_focus() == outputs.focused,
        outputs.placeholders@.len() > 0 ==> outputs.genuine_focus() is None,
        0 <= i < outputs.genuine_entries().len() ==> outputs.entries@.contains(
            outputs.genuine_entries()[i],
        ) && forall|k: int|
            0 <= k < outputs.placeholders@.len() ==> (#[trigger] outputs.placeholders@[k])@
                != outputs.genuine_entries()[i].name@,
        0 <= i < outputs.entries@.len() && (forall|k: int|
            0 <= k < outputs.placeholders@.len() ==> (#[trigger] outputs.placeholders@[k])@
                != outputs.entries@[i].name@) ==> outputs.genuine_entries().contains(
            outputs.entries@[i],
        ),
{
    let genuine = is_real(outputs.placeholders@);
    outputs.entries@.filter_lemma(genuine);
    if outputs.placeholders@.len() > 0 && 0 <= i < outputs.genuine_entries().len() {
        assert(genuine(outputs.genuine_entries()[i]));
        lemma_filtered_from(outputs.entries@, genuine, i);
    }
    if 0 <= i < outputs.entries@.len() && !genuine(outputs.entries@[i]) {
        let k = choose|k: int|
            0 <= k < outputs.placeholders@.len() && (#[trigger] outputs.placeholders@[k])@
                == outputs.entries@[i].name@;
        assert(outputs.placeholders@[k]@ == outputs.entries@[i].name@);
    }
}

proof fn lemma_filtered_from(
    entries: Seq<OutputEntry>,
    pred: spec_fn(OutputEntry) -> bool,
    i: int,
)
    requires
        0 <= i < entries.filter(pred).len(),
    ensures
        entries.contains(entries.filter(pred)[i]),
    decreases entries.len(),
{
    reveal(Seq::filter);
    let init = entries.drop_last();
    if i < init.filter(pred).len() {
        lemma_filtered_from(init, pred, i);
        let e = init.filter(pred)[i];
        let k = choose|k: int| 0 <= k < init.len() && init[k] == e;
        assert(entries[k] == e);
    } else {
        assert(entries[entries.len() - 1] == entries.filter(pred)[i]);
    }
}

/// Once an output is gone, the captures that wait for it fail, and those of
/// windows if it was the last. All others stay, and no capture is lost: the failed
/// frames are those of some captures `dead` that make up, with what is left,
/// everything that was pending.
pub proof fn law_failed_and_left_are_all<F>(
    pending: Seq<PendingCapture<F>>,
    output: u64,
    is_last: bool,
    i: int,
) -> (dead: Seq<PendingCapture<F>>)
    requires
        0 <= i <= pending.len(),
        forall|j: int|
            0 <= j < i ==> match (#[trigger] pending[j]).kind {
                PendingKind::Output(o) => o != output,
                PendingKind::Toplevel => !is_last,
            },
    ensures
        dead.map_values(|p: PendingCapture<F>| p.frame) == dead_frames(pending, output, is_last, i),
        forall|k: int|
            0 <= k < dead.len() ==> match (#[trigger] dead[k]).kind {
                PendingKind::Output(o) => o == output,
                PendingKind::Toplevel => is_last,
            },
        forall|k: int|
            0 <= k < live_captures(pending, output, is_last, i).len() ==> match (
            #[trigger] live_captures(pending, output, is_last, i)[k]).kind {
                PendingKind::Output(o) => o != output,
                PendingKind::Toplevel => !is_last,
            },
        dead.to_multiset().add(live_captures(pending, output, is_last, i).to_multiset())
            == pending.to_multiset(),
    decreases pending.len() - i,
{
    broadcast use vstd::seq_lib::group_to_multiset_ensures;

    if i < pending.len() {
        if is_dead(pending[i], output, is_last) {
            let rest = swapped_out(pending, i);
            let tail = law_failed_and_left_are_all(rest, output, is_last, i);
            let dead = seq![pending[i]] + tail;
            let left = live_captures(rest, output, is_last, i);
            lemma_swapped_multiset(pending, i);
            vstd::seq_lib::lemma_multiset_commutative(seq![pending[i]], tail);
            lemma_single_multiset(pending[i]);
            assert(dead.to_multiset().add(left.to_multiset()) =~= pending.to_multiset());
            assert(dead.map_values(|p: PendingCapture<F>| p.frame) =~= dead_frames(
                pending,
                output,
                is_last,
                i,
            ));
            dead
        } else {
            law_failed_and_left_are_all(pending, output, is_last, i + 1)
        }
    } else {
        let dead = Seq::<PendingCapture<F>>::empty();
        assert(dead.to_multiset().add(pending.to_multiset()) =~= pending.to_multiset());
        assert(dead.map_values(|p: PendingCapture<F>| p.frame) =~= dead_frames(
            pending,
            output,
            is_last,
            i,
        ));
        dead
    }
}

/// A window without a place is hidden, and so is one on an output that it is not
/// fullscreen on or not pinned to. Else a pinned one is drawn at its place on the
/// screen and any other at its place on the canvas, its geometry starting there.
pub proof fn law_window_is_drawn_at_its_place(
    loc: Option<Point>,
    geometry: Point,
    fullscreen_on: Option<u64>,
    pin: Option<PinPlace>,
    output: Option<u64>,
)
    ensures
        ({
            let t = window_transform(loc, geometry, fullscreen_on, pin, output);
            &&& t is Hidden <==> {
                ||| loc is None
                ||| fullscreen_on is Some && output != fullscreen_on
                ||| pin is Some && (output is None || pin->0.output != output)
            }
            &&& t matches WindowTransform::Screen { x, y } ==> pin matches Some(p) && x
                + geometry.x == p.screen_pos.x && y + geometry.y == p.screen_pos.y
            &&& t matches WindowTransform::Canvas { x, y } ==> pin is None && x + geometry.x
                == loc->0.x && y + geometry.y == loc->0.y
        }),
{
}

/// An output lies to the right of another if its centre is further right and no
/// more than `sqrt(3)` times as far up or down as right; and so for the other
/// directions, where a diagonal one goes by the sum of both ways. Centres that
/// are less than a pixel apart lie in no direction.
pub proof fn law_direction_is_within_sixty_degrees(a: OutputEntry, b: OutputEntry, dir: Direction)
    ensures
        ({
            let x = 2 * (b.layout_position.x - a.layout_position.x) + b.size.w - a.size.w;
            let y = 2 * (b.layout_position.y - a.layout_position.y) + b.size.h - a.size.h;
            let apart = x * x + y * y >= 4;
            lies_towards(a, b, dir) <==> apart && match dir {
                Direction::Left => x < 0 && y * y < 3 * (x * x),
                Direction::Right => x > 0 && y * y < 3 * (x * x),
                Direction::Up => y < 0 && x * x < 3 * (y * y),
                Direction::Down => y > 0 && x * x < 3 * (y * y),
                Direction::UpLeft => x + y < 0 && 2 * ((x + y) * (x + y)) > x * x + y * y,
                Direction::DownRight => x + y > 0 && 2 * ((x + y) * (x + y)) > x * x + y * y,
                Direction::UpRight => x - y > 0 && 2 * ((x - y) * (x - y)) > x * x + y * y,
                Direction::DownLeft => x - y < 0 && 2 * ((x - y) * (x - y)) > x * x + y * y,
            }
        }),
{
    let x = doubled_center(b).0 - doubled_center(a).0;
    let y = doubled_center(b).1 - doubled_center(a).1;
    let (dx, dy) = steps(dir);
    let dot = x * dx + y * dy;
    assert(x * 0 == 0 && x * 1 == x && x * -1 == -x && y * 0 == 0 && y * 1 == y && y * -1 == -y)
        by (nonlinear_arith);
    assert((-x) * (-x) == x * x && (-y) * (-y) == y * y) by (nonlinear_arith);
    assert((-x - y) * (-x - y) == (x + y) * (x + y)) by (nonlinear_arith);
    assert((y - x) * (y - x) == (x - y) * (x - y)) by (nonlinear_arith);
    assert((x * x + y * y) * 1 == x * x + y * y) by (nonlinear_arith);
    assert((x * x + y * y) * 2 == 2 * (x * x + y * y)) by (nonlinear_arith);
    assert(dx * dx + dy * dy == if dx == 0 || dy == 0 {
        1int
    } else {
        2
    }) by {
        assert(-1int * -1int == 1 && 1int * 1int == 1 && 0int * 0int == 0) by (nonlinear_arith);
    }
}

/// The output in a direction is another one that lies there, and none that lies
/// there has its centre nearer; of equally near ones it is the first. There is
/// none only if none lies there.
pub proof fn law_nearest_in_the_direction(
    outputs: Seq<OutputEntry>,
    from: int,
    dir: Direction,
    n: int,
    j: int,
)
    requires
        0 <= from < outputs.len(),
        0 <= j < n <= outputs.len(),
        outputs[j].id != outputs[from].id,
        lies_towards(outputs[from], outputs[j], dir),
    ensures
        nearest_towards(outputs, from, dir, n) matches Some(k) && 0 <= k < n && outputs[k].id
            != outputs[from].id && lies_towards(outputs[from], outputs[k], dir) && ({
            let a = outputs[from];
            let near = outputs[k];
            let far = outputs[j];
            let nx = 2 * (near.layout_position.x - a.layout_position.x) + near.size.w - a.size.w;
            let ny = 2 * (near.layout_position.y - a.layout_position.y) + near.size.h - a.size.h;
            let fx = 2 * (far.layout_position.x - a.layout_position.x) + far.size.w - a.size.w;
            let fy = 2 * (far.layout_position.y - a.layout_position.y) + far.size.h - a.size.h;
            &&& nx * nx + ny * ny <= fx * fx + fy * fy
            &&& j < k ==> nx * nx + ny * ny < fx * fx + fy * fy
        }),
    decreases n,
{
    if n - 1 > j {
        law_nearest_in_the_direction(outputs, from, dir, n - 1, j);
    } else {
        lemma_nearest_lies_there(outputs, from, dir, n - 1);
    }
}

proof fn lemma_nearest_lies_there(outputs: Seq<OutputEntry>, from: int, dir: Direction, n: int)
    requires
        0 <= from < outputs.len(),
        0 <= n <= outputs.len(),
    ensures
        nearest_towards(outputs, from, dir, n) matches Some(k) ==> 0 <= k < n && outputs[k].id
            != outputs[from].id && lies_towards(outputs[from], outputs[k], dir),
    decreases n,
{
    if n > 0 {
        lemma_nearest_lies_there(outputs, from, dir, n - 1);
    }
}

/// Where no other output lies in a direction, none is found there.
pub proof fn law_nothing_in_the_direction(
    outputs: Seq<OutputEntry>,
    from: int,
    dir: Direction,
    n: int,
)
    requires
        0 <= from < outputs.len(),
        0 <= n <= outputs.len(),
        forall|j: int|
            0 <= j < n ==> (#[trigger] outputs[j]).id == outputs[from].id || !lies_towards(
                outputs[from],
                outputs[j],
                dir,
            ),
    ensures
        nearest_towards(outputs, from, dir, n) is None,
    decreases n,
{
    lemma_nearest_lies_there(outputs, from, dir, n);
}

/// Decorations are as dense as the densest output asks for, and at least one to
/// one.
pub proof fn law_scale_serves_every_output(scales: Seq<i32>)
    ensures
        largest_scale(scales) >= 1,
        forall|i: int| 0 <= i < scales.len() ==> #[trigger] scales[i] <= largest_scale(scales),
        largest_scale(scales) == 1 || exists|i: int|
            0 <= i < scales.len() && #[trigger] scales[i] == largest_scale(scales),
    decreases scales.len(),
{
    if scales.len() > 0 {
        let init = scales.drop_last();
        law_scale_serves_every_output(init);
        assert(forall|i: int| 0 <= i < init.len() ==> #[trigger] scales[i] == init[i]);
        assert(scales[scales.len() - 1] == scales.last());
        if largest_scale(scales) == largest_scale(init) && largest_scale(init) != 1 {
            let i = choose|i: int|
                0 <= i < init.len() && #[trigger] init[i] == largest_scale(init);
            assert(scales[i] == largest_scale(scales));
        }
    }
}

/// The output of a name is known by its own number, and there is one exactly if an
/// output has the name.
pub proof fn law_named_output_has_its_number(outputs: Seq<OutputEntry>, name: Seq<char>, i: int)
    requires
        0 <= i < outputs.len(),
        outputs[i].name@ == name,
        forall|j: int| 0 <= j < i ==> (#[trigger] outputs[j]).name@ != name,
    ensures
        id_at(outputs, entry_named(outputs, name, 0)) == Some(outputs[i].id),
        id_at(outputs, None) is None,
{
    law_first_of_the_name(outputs, name, 0);
    let k = entry_named(outputs, name, 0)->0;
    if k < i {
        assert(outputs[k].name@ != name);
    }
    if i < k {
        assert(outputs[i].name@ != name);
    }
}

} // verus!
