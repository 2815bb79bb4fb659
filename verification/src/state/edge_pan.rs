//! Edge panning: which edges of an output the pointer pushes against, and when
//! the camera follows.
//!
//! An edge that touches another monitor is held back for a while, so that a
//! pointer on its way to the next screen crosses to it instead of dragging the
//! canvas along. Motion that faces no monitor is never held back.

use crate::geometry::{Point, Size, max_of, min_of};
use vstd::prelude::*;

verus! {

pub const EDGE_LEFT: u8 = 1;

pub const EDGE_RIGHT: u8 = 2;

pub const EDGE_TOP: u8 = 4;

pub const EDGE_BOTTOM: u8 = 8;

/// Some of the four edges of an output.
#[derive(Clone, Copy, Debug, PartialEq, Eq, Structural)]
pub struct Edges {
    pub left: bool,
    pub right: bool,
    pub top: bool,
    pub bottom: bool,
}

pub open spec fn bit(set: bool, value: u8) -> int {
    if set {
        value as int
    } else {
        0
    }
}

impl Edges {
    pub open spec fn is_empty_spec(self) -> bool {
        !self.left && !self.right && !self.top && !self.bottom
    }

    pub open spec fn union(self, other: Edges) -> Edges {
        Edges {
            left: self.left || other.left,
            right: self.right || other.right,
            top: self.top || other.top,
            bottom: self.bottom || other.bottom,
        }
    }

    pub fn none() -> (e: Edges)
        ensures
            e.is_empty_spec(),
    {
        Edges { left: false, right: false, top: false, bottom: false }
    }

    pub fn is_empty(&self) -> (r: bool)
        ensures
            r == self.is_empty_spec(),
    {
        !self.left && !self.right && !self.top && !self.bottom
    }

    /// The edges as a sum of their numbers.
    pub fn bits(&self) -> (b: u8)
        ensures
            b == bit(self.left, EDGE_LEFT) + bit(self.right, EDGE_RIGHT) + bit(self.top, EDGE_TOP)
                + bit(self.bottom, EDGE_BOTTOM),
    {
        let mut b: u8 = 0;
        if self.left {
            b = b + 1;
        }
        if self.right {
            b = b + 2;
        }
        if self.top {
            b = b + 4;
        }
        if self.bottom {
            b = b + 8;
        }
        b
    }
}

/// The unit cell of the layout that a pointer is in: its position, each
/// coordinate rounded down.
#[derive(Clone, Copy, Debug, PartialEq, Eq, Structural)]
pub struct LayoutCell {
    pub x: i64,
    pub y: i64,
}

/// `v` lies in what two spans have in common. A span holds its start but not its
/// end.
pub open spec fn in_both(v: int, a: int, a_len: int, b: int, b_len: int) -> bool {
    max_of(a, b) <= v < min_of(a + a_len, b + b_len)
}

/// The edges of one output that touch another beside a pointer.
pub open spec fn touching(
    loc: Point,
    size: Size,
    at: LayoutCell,
    other_loc: Point,
    other_size: Size,
) -> Edges {
    let beside = in_both(
        at.y as int,
        loc.y as int,
        size.h as int,
        other_loc.y as int,
        other_size.h as int,
    );
    let above = in_both(
        at.x as int,
        loc.x as int,
        size.w as int,
        other_loc.x as int,
        other_size.w as int,
    );
    Edges {
        left: beside && loc.x == other_loc.x + other_size.w,
        right: beside && loc.x + size.w == other_loc.x,
        top: above && loc.y == other_loc.y + other_size.h,
        bottom: above && loc.y + size.h == other_loc.y,
    }
}

fn in_both_spans(v: i64, a: i32, a_len: i32, b: i32, b_len: i32) -> (r: bool)
    ensures
        r == in_both(v as int, a as int, a_len as int, b as int, b_len as int),
{
    let a_end: i64 = a as i64 + a_len as i64;
    let b_end: i64 = b as i64 + b_len as i64;
    a as i64 <= v && b as i64 <= v && v < a_end && v < b_end
}

/// The edges of the output at `loc` that touch the other one beside a pointer.
/// Outputs that meet at a corner only do not touch.
pub fn shared_edges_at(
    loc: Point,
    size: Size,
    at: LayoutCell,
    other_loc: Point,
    other_size: Size,
) -> (edges: Edges)
    ensures
        edges == touching(loc, size, at, other_loc, other_size),
{
    let beside = in_both_spans(at.y, loc.y, size.h, other_loc.y, other_size.h);
    let above = in_both_spans(at.x, loc.x, size.w, other_loc.x, other_size.w);
    Edges {
        left: beside && loc.x as i64 == other_loc.x as i64 + other_size.w as i64,
        right: beside && loc.x as i64 + size.w as i64 == other_loc.x as i64,
        top: above && loc.y as i64 == other_loc.y as i64 + other_size.h as i64,
        bottom: above && loc.y as i64 + size.h as i64 == other_loc.y as i64,
    }
}

/// An output's place in the layout.
#[derive(Clone, Copy, Debug, PartialEq, Eq, Structural)]
pub struct LayoutOutput {
    pub id: u64,
    pub loc: Point,
    pub size: Size,
}

/// The edges of an output that touch any of the first `n` others.
pub open spec fn facing(
    output: LayoutOutput,
    outputs: Seq<LayoutOutput>,
    at: LayoutCell,
    n: int,
) -> Edges
    decreases n,
{
    if n <= 0 {
        Edges { left: false, right: false, top: false, bottom: false }
    } else {
        let init = facing(output, outputs, at, n - 1);
        let other = outputs[n - 1];
        if other.id == output.id {
            init
        } else {
            init.union(touching(output.loc, output.size, at, other.loc, other.size))
        }
    }
}

/// The edges of an output that touch another one beside a pointer.
pub fn monitor_facing_edges_at(
    output: &LayoutOutput,
    outputs: &[LayoutOutput],
    at: LayoutCell,
) -> (edges: Edges)
    ensures
        edges == facing(*output, outputs@, at, outputs@.len() as int),
{
    let mut edges = Edges::none();
    let mut i: usize = 0;
    while i < outputs.len()
        invariant
            i <= outputs@.len(),
            edges == facing(*output, outputs@, at, i as int),
        decreases outputs.len() - i,
    {
        let other = outputs[i];
        if other.id != output.id {
            let e = shared_edges_at(output.loc, output.size, at, other.loc, other.size);
            edges = Edges {
                left: edges.left || e.left,
                right: edges.right || e.right,
                top: edges.top || e.top,
                bottom: edges.bottom || e.bottom,
            };
        }
        i = i + 1;
    }
    edges
}

/// Where a velocity points on one axis.
#[derive(Clone, Copy, Debug, PartialEq, Eq, Structural)]
pub enum AxisMotion {
    Backward,
    Still,
    Forward,
    /// Not a number: neither way, but not still.
    Undirected,
}

/// Edges whose motion waits, and since when.
#[derive(Clone, Copy, Debug, PartialEq, Eq, Structural)]
pub struct EdgePanDelay {
    pub edges: Edges,
    /// Nanoseconds.
    pub entered_at: u128,
}

/// An output's edge pan: what is asked for, and what waits.
pub struct EdgePan<V, P> {
    pub velocity: Option<V>,
    /// Where the pointer is on the output.
    pub screen_pos: Option<P>,
    pub delay: Option<EdgePanDelay>,
}

/// What the camera does.
#[derive(Clone, Copy, Debug, PartialEq, Eq, Structural)]
pub enum PanStep {
    /// Nothing.
    Rest,
    /// Moves as asked for.
    Full,
    /// Moves as asked for on the axes named, and on no other.
    Part { x: bool, y: bool },
}

/// The edges that hold back the motion on each axis.
pub open spec fn held_edges(x: AxisMotion, y: AxisMotion, monitors: Edges) -> Edges {
    Edges {
        left: x is Backward && monitors.left,
        right: x is Forward && monitors.right,
        top: y is Backward && monitors.top,
        bottom: y is Forward && monitors.bottom,
    }
}

/// What the camera does while some edges hold motion back.
pub open spec fn free_part(x: AxisMotion, y: AxisMotion, held: Edges) -> PanStep {
    let free_x = !held.left && !held.right;
    let free_y = !held.top && !held.bottom;
    if (free_x && !(x is Still)) || (free_y && !(y is Still)) {
        PanStep::Part { x: free_x, y: free_y }
    } else {
        PanStep::Rest
    }
}

/// Since when the held edges have been held.
pub open spec fn held_since(delay: Option<EdgePanDelay>, held: Edges, now: u128) -> u128 {
    match delay {
        Some(d) if d.edges == held => d.entered_at,
        _ => now,
    }
}

/// The time that has passed, 0 if the clock went back.
pub open spec fn passed(since: u128, now: u128) -> int {
    if now >= since {
        now - since
    } else {
        0
    }
}

impl<V, P> EdgePan<V, P> {
    /// Asks for a pan with the pointer at a place, or for none.
    pub fn update_edge_pan_request(&mut self, velocity: Option<V>, screen_pos: P)
        ensures
            final(self).velocity == velocity,
            final(self).screen_pos == if velocity is Some {
                Some(screen_pos)
            } else {
                None
            },
            final(self).delay == if velocity is Some {
                old(self).delay
            } else {
                None
            },
    {
        if velocity.is_none() {
            self.screen_pos = None;
            self.delay = None;
        } else {
            self.screen_pos = Some(screen_pos);
        }
        self.velocity = velocity;
    }

    pub fn clear_edge_pan(&mut self)
        ensures
            final(self).velocity is None,
            final(self).screen_pos is None,
            final(self).delay is None,
    {
        self.velocity = None;
        self.screen_pos = None;
        self.delay = None;
    }

    /// What the camera does now. Motion towards a monitor waits for `latency`,
    /// counted from when the same edges began to hold it back. On a fullscreen
    /// output the camera rests, and a wait that has begun goes on.
    pub fn effective_edge_pan_velocity(
        &mut self,
        x: AxisMotion,
        y: AxisMotion,
        monitors: Edges,
        fullscreen: bool,
        latency: u128,
        now: u128,
    ) -> (step: PanStep)
        ensures
            final(self).velocity == old(self).velocity,
            final(self).screen_pos == old(self).screen_pos,
            ({
                let armed = old(self).velocity is Some && old(self).screen_pos is Some
                    && !fullscreen;
                let held = held_edges(x, y, monitors);
                let since = held_since(old(self).delay, held, now);
                if !armed {
                    step is Rest && final(self).delay == old(self).delay
                } else if held.is_empty_spec() || latency == 0 {
                    step is Full && final(self).delay is None
                } else {
                    &&& final(self).delay == Some(EdgePanDelay { edges: held, entered_at: since })
                    &&& step == if passed(since, now) >= latency {
                        PanStep::Full
                    } else {
                        free_part(x, y, held)
                    }
                }
            }),
    {
        if self.velocity.is_none() || self.screen_pos.is_none() || fullscreen {
            return PanStep::Rest;
        }
        let back_x = matches!(x, AxisMotion::Backward);
        let on_x = matches!(x, AxisMotion::Forward);
        let back_y = matches!(y, AxisMotion::Backward);
        let on_y = matches!(y, AxisMotion::Forward);
        let held = Edges {
            left: back_x && monitors.left,
            right: on_x && monitors.right,
            top: back_y && monitors.top,
            bottom: on_y && monitors.bottom,
        };
        if held.is_empty() || latency == 0 {
            self.delay = None;
            return PanStep::Full;
        }
        let since: u128 = match self.delay {
            Some(d) => if d.edges == held {
                d.entered_at
            } else {
                now
            },
            None => now,
        };
        self.delay = Some(EdgePanDelay { edges: held, entered_at: since });
        if now.saturating_sub(since) >= latency {
            return PanStep::Full;
        }
        let free_x = !held.left && !held.right;
        let free_y = !held.top && !held.bottom;
        if (free_x && !matches!(x, AxisMotion::Still)) || (free_y && !matches!(
            y,
            AxisMotion::Still
        )) {
            PanStep::Part { x: free_x, y: free_y }
        } else {
            PanStep::Rest
        }
    }
}

/// Where two monitors meet along an edge, the point where they meet belongs to
/// one of them: of two that adjoin, at most one touches beside a pointer.
pub proof fn law_adjoining_monitors_touch_once(
    loc: Point,
    size: Size,
    at: LayoutCell,
    upper_loc: Point,
    upper_size: Size,
    lower_loc: Point,
    lower_size: Size,
)
    requires
        upper_loc.y + upper_size.h <= lower_loc.y,
    ensures
        !(touching(loc, size, at, upper_loc, upper_size).right && touching(
            loc,
            size,
            at,
            lower_loc,
            lower_size,
        ).right),
        !(touching(loc, size, at, upper_loc, upper_size).left && touching(
            loc,
            size,
            at,
            lower_loc,
            lower_size,
        ).left),
{
}

/// Monitors that meet at a corner only do not touch, wherever the pointer is.
pub proof fn law_corners_do_not_touch(
    loc: Point,
    size: Size,
    at: LayoutCell,
    other_loc: Point,
    other_size: Size,
)
    requires
        loc.x + size.w <= other_loc.x || other_loc.x + other_size.w <= loc.x,
        loc.y + size.h <= other_loc.y || other_loc.y + other_size.h <= loc.y,
    ensures
        touching(loc, size, at, other_loc, other_size).is_empty_spec(),
{
}

/// Edges face each other: where one output's right edge touches another, the
/// other one's left edge touches it, at the same height.
pub proof fn law_touching_is_mutual(
    loc: Point,
    size: Size,
    at: LayoutCell,
    other_loc: Point,
    other_size: Size,
)
    ensures
        touching(loc, size, at, other_loc, other_size).right == touching(
            other_loc,
            other_size,
            at,
            loc,
            size,
        ).left,
        touching(loc, size, at, other_loc, other_size).bottom == touching(
            other_loc,
            other_size,
            at,
            loc,
            size,
        ).top,
{
}

/// Motion that faces no monitor is never held back: it is part of every step.
pub proof fn law_free_motion_is_immediate(x: AxisMotion, y: AxisMotion, monitors: Edges)
    requires
        !held_edges(x, y, monitors).left,
        !held_edges(x, y, monitors).right,
        !(x is Still),
    ensures
        free_part(x, y, held_edges(x, y, monitors)) matches PanStep::Part { x: moves, y: _ }
            && moves,
{
}

/// A wait ends: the same edges held from one moment on hold motion back no
/// longer once the latency has passed.
pub proof fn law_wait_ends(held: Edges, started: u128, latency: u128, now: u128)
    requires
        now >= started + latency,
    ensures
        passed(
            held_since(Some(EdgePanDelay { edges: held, entered_at: started }), held, now),
            now,
        ) >= latency,
{
}

/// An output's edge faces a monitor exactly if another output starts where it ends
/// there, or ends where it starts, and both reach past the pointer along it.
pub proof fn law_facing_edges_have_a_neighbour(
    output: LayoutOutput,
    outputs: Seq<LayoutOutput>,
    at: LayoutCell,
    n: int,
)
    requires
        0 <= n <= outputs.len(),
    ensures
        facing(output, outputs, at, n).left <==> output.loc.y <= at.y < output.loc.y + output.size.h
            && exists|i: int|
            0 <= i < n && (#[trigger] outputs[i]).id != output.id && outputs[i].loc.x
                + outputs[i].size.w == output.loc.x && outputs[i].loc.y <= at.y < outputs[i].loc.y
                + outputs[i].size.h,
        facing(output, outputs, at, n).right <==> output.loc.y <= at.y < output.loc.y
            + output.size.h && exists|i: int|
            0 <= i < n && (#[trigger] outputs[i]).id != output.id && outputs[i].loc.x
                == output.loc.x + output.size.w && outputs[i].loc.y <= at.y < outputs[i].loc.y
                + outputs[i].size.h,
        facing(output, outputs, at, n).top <==> output.loc.x <= at.x < output.loc.x + output.size.w
            && exists|i: int|
            0 <= i < n && (#[trigger] outputs[i]).id != output.id && outputs[i].loc.y
                + outputs[i].size.h == output.loc.y && outputs[i].loc.x <= at.x < outputs[i].loc.x
                + outputs[i].size.w,
        facing(output, outputs, at, n).bottom <==> output.loc.x <= at.x < output.loc.x
            + output.size.w && exists|i: int|
            0 <= i < n && (#[trigger] outputs[i]).id != output.id && outputs[i].loc.y
                == output.loc.y + output.size.h && outputs[i].loc.x <= at.x < outputs[i].loc.x
                + outputs[i].size.w,
    decreases n,
{
    if n > 0 {
        law_facing_edges_have_a_neighbour(output, outputs, at, n - 1);
        assert(outputs[n - 1].id == outputs[n - 1].id);
    }
}

/// Motion is held back by an edge exactly if it goes towards it and a monitor is
/// there.
pub proof fn law_held_towards_monitors_only(x: AxisMotion, y: AxisMotion, monitors: Edges)
    ensures
        ({
            let held = held_edges(x, y, monitors);
            &&& held.left <==> x is Backward && monitors.left
            &&& held.right <==> x is Forward && monitors.right
            &&& held.top <==> y is Backward && monitors.top
            &&& held.bottom <==> y is Forward && monitors.bottom
        }),
{
}

/// While motion is held back, each axis moves exactly if nothing holds it, and the
/// camera rests only if no axis that moves is free.
pub proof fn law_free_axes_move(x: AxisMotion, y: AxisMotion, held: Edges)
    ensures
        match free_part(x, y, held) {
            PanStep::Part { x: moves_x, y: moves_y } => {
                &&& moves_x <==> !(held.left || held.right)
                &&& moves_y <==> !(held.top || held.bottom)
                &&& (moves_x && !(x is Still)) || (moves_y && !(y is Still))
            },
            PanStep::Rest => {
                &&& held.left || held.right || x is Still
                &&& held.top || held.bottom || y is Still
            },
            PanStep::Full => false,
        },
{
}

/// A wait begins anew where other edges hold the motion back than before, and goes
/// on where the same do. A clock that went back has not waited at all.
pub proof fn law_wait_begins_with_its_edges(
    held: Edges,
    other: Edges,
    started: u128,
    now: u128,
)
    ensures
        held_since(None, held, now) == now,
        other != held ==> held_since(
            Some(EdgePanDelay { edges: other, entered_at: started }),
            held,
            now,
        ) == now,
        held_since(Some(EdgePanDelay { edges: held, entered_at: started }), held, now) == started,
        now >= started ==> started + passed(started, now) == now,
        now < started ==> passed(started, now) == 0,
{
}

/// The numbers of the edges are distinct bits, so that their sum tells which are
/// in it.
pub proof fn law_edges_are_told_by_their_sum(a: Edges, b: Edges)
    requires
        bit(a.left, EDGE_LEFT) + bit(a.right, EDGE_RIGHT) + bit(a.top, EDGE_TOP) + bit(
            a.bottom,
            EDGE_BOTTOM,
        ) == bit(b.left, EDGE_LEFT) + bit(b.right, EDGE_RIGHT) + bit(b.top, EDGE_TOP) + bit(
            b.bottom,
            EDGE_BOTTOM,
        ),
    ensures
        a == b,
{
}

/// There is no edge exactly if the sum of their numbers is nothing, and edges joined
/// to no edge are the edges themselves.
pub proof fn law_no_edge_counts_nothing(e: Edges, f: Edges)
    ensures
        e.is_empty_spec() <==> bit(e.left, EDGE_LEFT) + bit(e.right, EDGE_RIGHT) + bit(
            e.top,
            EDGE_TOP,
        ) + bit(e.bottom, EDGE_BOTTOM) == 0,
        e.is_empty_spec() ==> e.union(f) == f && f.union(e) == f,
        e.union(f).is_empty_spec() <==> e.is_empty_spec() && f.is_empty_spec(),
{
}

} // verus!
