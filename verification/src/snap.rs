//! Snapping a dragged window, or a dragged edge, to the edges of other windows.
//!
//! Positions are of any type `P`. Distances are numbers that order as the
//! distances do; the bits of a non-negative floating-point number are such.

use vstd::prelude::*;

verus! {

/// A position to snap to, and how far the dragged edge is from the edge it
/// belongs to.
#[derive(Clone, Copy, Debug, PartialEq, Eq)]
pub struct SnapEdge<P> {
    pub position: P,
    pub distance: u64,
}

/// What another window offers to snap to, along one axis.
#[derive(Clone, Copy, Debug, PartialEq, Eq)]
pub struct SnapOther<P> {
    /// It is beside the dragged window: the two overlap on the other axis,
    /// within the threshold.
    pub beside: bool,
    /// Its low edge, met by a high edge with a gap between them.
    pub meet_low: SnapEdge<P>,
    /// Its high edge, met by a low edge with a gap between them.
    pub meet_high: SnapEdge<P>,
    /// Its low edge, in line with a low edge.
    pub align_low: SnapEdge<P>,
    /// Its high edge, in line with a high edge.
    pub align_high: SnapEdge<P>,
}

/// Which edges are looked at.
#[derive(Clone, Copy, Debug, PartialEq, Eq, Structural)]
pub enum SnapKind {
    /// Both edges of a dragged window.
    Window,
    /// A dragged low edge.
    LowEdge,
    /// A dragged high edge.
    HighEdge,
}

/// What a window offers, in the order it is looked at.
pub open spec fn offers_of<P>(other: SnapOther<P>, kind: SnapKind, same_edge: bool) -> Seq<
    SnapEdge<P>,
> {
    if !other.beside {
        Seq::empty()
    } else {
        match kind {
            SnapKind::Window => if same_edge {
                seq![other.meet_low, other.meet_high, other.align_low, other.align_high]
            } else {
                seq![other.meet_low, other.meet_high]
            },
            SnapKind::LowEdge => if same_edge {
                seq![other.meet_high, other.align_low]
            } else {
                seq![other.meet_high]
            },
            SnapKind::HighEdge => if same_edge {
                seq![other.meet_low, other.align_high]
            } else {
                seq![other.meet_low]
            },
        }
    }
}

/// What the first `n` windows offer.
pub open spec fn offers<P>(
    others: Seq<SnapOther<P>>,
    kind: SnapKind,
    same_edge: bool,
    n: int,
) -> Seq<SnapEdge<P>>
    decreases n,
{
    if n <= 0 {
        Seq::empty()
    } else {
        offers(others, kind, same_edge, n - 1) + offers_of(others[n - 1], kind, same_edge)
    }
}

/// The nearer of the best offer so far and another one; the earlier of two that
/// are as near. One at the threshold or past it does not count.
pub open spec fn nearer<P>(
    best: Option<SnapEdge<P>>,
    edge: SnapEdge<P>,
    threshold: u64,
) -> Option<SnapEdge<P>> {
    if edge.distance < threshold && (best matches Some(b) ==> edge.distance < b.distance) {
        Some(edge)
    } else {
        best
    }
}

/// The nearest of some offers.
pub open spec fn nearest<P>(offers: Seq<SnapEdge<P>>, threshold: u64) -> Option<SnapEdge<P>>
    decreases offers.len(),
{
    if offers.len() == 0 {
        None
    } else {
        nearer(nearest(offers.drop_last(), threshold), offers.last(), threshold)
    }
}

/// Takes another offer in place of the best so far if it is nearer.
pub fn try_candidate<P: Copy>(
    best: &mut Option<SnapEdge<P>>,
    edge: SnapEdge<P>,
    threshold: u64,
)
    ensures
        *final(best) == nearer(*old(best), edge, threshold),
{
    let better = match *best {
        Some(b) => edge.distance < b.distance,
        None => true,
    };
    if edge.distance < threshold && better {
        *best = Some(edge);
    }
}

/// Takes an offer and says what that makes the nearest of all so far.
fn take_offer<P: Copy>(
    best: &mut Option<SnapEdge<P>>,
    edge: SnapEdge<P>,
    threshold: u64,
    Ghost(before): Ghost<Seq<SnapEdge<P>>>,
)
    requires
        *old(best) == nearest(before, threshold),
    ensures
        *final(best) == nearest(before.push(edge), threshold),
{
    assert(before.push(edge).drop_last() =~= before);
    try_candidate(best, edge, threshold);
}

/// Looks at what one window offers.
fn take_offers<P: Copy>(
    best: &mut Option<SnapEdge<P>>,
    other: &SnapOther<P>,
    kind: SnapKind,
    same_edge: bool,
    threshold: u64,
    Ghost(before): Ghost<Seq<SnapEdge<P>>>,
)
    requires
        *old(best) == nearest(before, threshold),
    ensures
        *final(best) == nearest(before + offers_of(*other, kind, same_edge), threshold),
{
    let ghost all = before + offers_of(*other, kind, same_edge);
    if !other.beside {
        assert(all =~= before);
        return ;
    }
    match kind {
        SnapKind::Window => {
            let ghost one = before.push(other.meet_low);
            let ghost two = one.push(other.meet_high);
            take_offer(best, other.meet_low, threshold, Ghost(before));
            take_offer(best, other.meet_high, threshold, Ghost(one));
            if same_edge {
                let ghost three = two.push(other.align_low);
                take_offer(best, other.align_low, threshold, Ghost(two));
                take_offer(best, other.align_high, threshold, Ghost(three));
                assert(all =~= three.push(other.align_high));
            } else {
                assert(all =~= two);
            }
        },
        SnapKind::LowEdge => {
            let ghost one = before.push(other.meet_high);
            take_offer(best, other.meet_high, threshold, Ghost(before));
            if same_edge {
                take_offer(best, other.align_low, threshold, Ghost(one));
                assert(all =~= one.push(other.align_low));
            } else {
                assert(all =~= one);
            }
        },
        SnapKind::HighEdge => {
            let ghost one = before.push(other.meet_low);
            take_offer(best, other.meet_low, threshold, Ghost(before));
            if same_edge {
                take_offer(best, other.align_high, threshold, Ghost(one));
                assert(all =~= one.push(other.align_high));
            } else {
                assert(all =~= one);
            }
        },
    }
}

fn find_nearest<P: Copy>(
    others: &[SnapOther<P>],
    kind: SnapKind,
    same_edge: bool,
    threshold: u64,
) -> (best: Option<SnapEdge<P>>)
    ensures
        best == nearest(offers(others@, kind, same_edge, others@.len() as int), threshold),
{
    let mut best: Option<SnapEdge<P>> = None;
    let mut i: usize = 0;
    while i < others.len()
        invariant
            i <= others@.len(),
            best == nearest(offers(others@, kind, same_edge, i as int), threshold),
        decreases others.len() - i,
    {
        take_offers(
            &mut best,
            &others[i],
            kind,
            same_edge,
            threshold,
            Ghost(offers(others@, kind, same_edge, i as int)),
        );
        i = i + 1;
    }
    best
}

/// Where a dragged window snaps to: the nearest position that a window beside it
/// offers.
pub fn find_snap_candidate<P: Copy>(
    others: &[SnapOther<P>],
    same_edge: bool,
    threshold: u64,
) -> (best: Option<SnapEdge<P>>)
    ensures
        best == nearest(
            offers(others@, SnapKind::Window, same_edge, others@.len() as int),
            threshold,
        ),
{
    find_nearest(others, SnapKind::Window, same_edge, threshold)
}

pub open spec fn edge_kind(high_edge: bool) -> SnapKind {
    if high_edge {
        SnapKind::HighEdge
    } else {
        SnapKind::LowEdge
    }
}

/// Where a dragged edge snaps to.
pub fn find_edge_snap<P: Copy>(
    others: &[SnapOther<P>],
    same_edge: bool,
    high_edge: bool,
    threshold: u64,
) -> (best: Option<SnapEdge<P>>)
    ensures
        best == nearest(
            offers(others@, edge_kind(high_edge), same_edge, others@.len() as int),
            threshold,
        ),
{
    let kind = if high_edge {
        SnapKind::HighEdge
    } else {
        SnapKind::LowEdge
    };
    find_nearest(others, kind, same_edge, threshold)
}

/// A snap in force: where to, and where the drag was when it took hold.
#[derive(Clone, Copy, Debug, PartialEq, Eq)]
pub struct AxisSnap<P> {
    pub snapped_pos: P,
    pub natural_at_engage: P,
}

/// The snaps of a drag, and the positions they do not take hold of again after
/// they were broken.
pub struct SnapState<P> {
    pub x: Option<AxisSnap<P>>,
    pub y: Option<AxisSnap<P>>,
    pub cooldown_x: Option<P>,
    pub cooldown_y: Option<P>,
}

impl<P> SnapState<P> {
    /// A drag that has not snapped yet.
    pub fn new() -> (s: SnapState<P>)
        ensures
            s.x is None,
            s.y is None,
            s.cooldown_x is None,
            s.cooldown_y is None,
    {
        SnapState { x: None, y: None, cooldown_x: None, cooldown_y: None }
    }
}

/// Where a drag is, relative to its snap.
#[derive(Clone, Copy, Debug, PartialEq, Eq, Structural)]
pub struct SnapMotion {
    /// It went back past where the snap took hold, or on past the snap, by the
    /// force that breaks it.
    pub breaks: bool,
    /// It is farther than the threshold from where the last snap was broken.
    pub clears_cooldown: bool,
}

/// A drag on one axis: its snap, its cooldown, and where the window or edge is.
pub struct AxisStep<P> {
    pub snap: Option<AxisSnap<P>>,
    pub cooldown: Option<P>,
    pub position: P,
}

/// One step of a drag. A snap holds until it is broken, and then not again
/// before the drag has left its place.
pub open spec fn axis_step<P>(
    snap: Option<AxisSnap<P>>,
    cooldown: Option<P>,
    natural: P,
    motion: SnapMotion,
    found: Option<SnapEdge<P>>,
) -> AxisStep<P> {
    match snap {
        Some(s) => if motion.breaks {
            AxisStep { snap: None, cooldown: Some(s.snapped_pos), position: natural }
        } else {
            AxisStep { snap, cooldown, position: s.snapped_pos }
        },
        None => if cooldown is Some && !motion.clears_cooldown {
            AxisStep { snap: None, cooldown, position: natural }
        } else {
            match found {
                Some(e) => AxisStep {
                    snap: Some(
                        AxisSnap { snapped_pos: e.position, natural_at_engage: natural },
                    ),
                    cooldown: None,
                    position: e.position,
                },
                None => AxisStep { snap: None, cooldown: None, position: natural },
            }
        },
    }
}

/// Whether a step looks for something to snap to.
pub open spec fn searches<P>(
    snap: Option<AxisSnap<P>>,
    cooldown: Option<P>,
    motion: SnapMotion,
) -> bool {
    snap is None && (cooldown is None || motion.clears_cooldown)
}

fn is_searching<P>(
    snap: &Option<AxisSnap<P>>,
    cooldown: &Option<P>,
    motion: SnapMotion,
) -> (r: bool)
    ensures
        r == searches(*snap, *cooldown, motion),
{
    snap.is_none() && (cooldown.is_none() || motion.clears_cooldown)
}

fn advance<P: Copy>(
    snap: &mut Option<AxisSnap<P>>,
    cooldown: &mut Option<P>,
    natural: P,
    motion: SnapMotion,
    found: Option<SnapEdge<P>>,
) -> (position: P)
    ensures
        (AxisStep { snap: *final(snap), cooldown: *final(cooldown), position }) == axis_step(
            *old(snap),
            *old(cooldown),
            natural,
            motion,
            found,
        ),
{
    match *snap {
        Some(s) => if motion.breaks {
            *cooldown = Some(s.snapped_pos);
            *snap = None;
            natural
        } else {
            s.snapped_pos
        },
        None => {
            if motion.clears_cooldown {
                *cooldown = None;
            }
            if cooldown.is_some() {
                return natural;
            }
            match found {
                Some(e) => {
                    *snap =
                    Some(AxisSnap { snapped_pos: e.position, natural_at_engage: natural });
                    e.position
                },
                None => natural,
            }
        },
    }
}

/// One step of a dragged window on one axis. Returns where it is.
pub fn update_axis<P: Copy>(
    snap: &mut Option<AxisSnap<P>>,
    cooldown: &mut Option<P>,
    natural_pos: P,
    motion: SnapMotion,
    others: &[SnapOther<P>],
    same_edge: bool,
    threshold: u64,
) -> (position: P)
    ensures
        (AxisStep { snap: *final(snap), cooldown: *final(cooldown), position }) == axis_step(
            *old(snap),
            *old(cooldown),
            natural_pos,
            motion,
            nearest(
                offers(others@, SnapKind::Window, same_edge, others@.len() as int),
                threshold,
            ),
        ),
{
    let found = if is_searching(snap, cooldown, motion) {
        find_snap_candidate(others, same_edge, threshold)
    } else {
        None
    };
    advance(snap, cooldown, natural_pos, motion, found)
}

/// One step of a dragged edge. Returns where it is.
pub fn update_edge<P: Copy>(
    snap: &mut Option<AxisSnap<P>>,
    cooldown: &mut Option<P>,
    natural_edge: P,
    motion: SnapMotion,
    others: &[SnapOther<P>],
    same_edge: bool,
    high_edge: bool,
    threshold: u64,
) -> (position: P)
    ensures
        (AxisStep { snap: *final(snap), cooldown: *final(cooldown), position }) == axis_step(
            *old(snap),
            *old(cooldown),
            natural_edge,
            motion,
            nearest(
                offers(others@, edge_kind(high_edge), same_edge, others@.len() as int),
                threshold,
            ),
        ),
{
    let found = if is_searching(snap, cooldown, motion) {
        find_edge_snap(others, same_edge, high_edge, threshold)
    } else {
        None
    };
    advance(snap, cooldown, natural_edge, motion, found)
}

/// Something is found exactly if an offer is within the threshold, and then no
/// offer is nearer.
pub proof fn law_no_offer_is_nearer<P>(offers: Seq<SnapEdge<P>>, threshold: u64)
    ensures
        match nearest(offers, threshold) {
            Some(e) => {
                &&& offers.contains(e)
                &&& e.distance < threshold
                &&& forall|i: int|
                    0 <= i < offers.len() ==> e.distance <= (#[trigger] offers[i]).distance
            },
            None => forall|i: int|
                0 <= i < offers.len() ==> (#[trigger] offers[i]).distance >= threshold,
        },
    decreases offers.len(),
{
    if offers.len() > 0 {
        let init = offers.drop_last();
        let last = offers.last();
        law_no_offer_is_nearer(init, threshold);
        assert(offers[offers.len() - 1] == last);
        assert forall|i: int| 0 <= i < offers.len() - 1 implies #[trigger] offers[i]
            == init[i] by {}
        if let Some(e) = nearest(init, threshold) {
            let i = choose|i: int| 0 <= i < init.len() && init[i] == e;
            assert(offers[i] == e);
        }
    }
}

/// A snap holds while the drag does not break it: the window stays where it
/// snapped to.
pub proof fn law_snap_holds<P>(
    snap: AxisSnap<P>,
    cooldown: Option<P>,
    natural: P,
    motion: SnapMotion,
    found: Option<SnapEdge<P>>,
)
    requires
        !motion.breaks,
    ensures
        axis_step(Some(snap), cooldown, natural, motion, found) == (AxisStep {
            snap: Some(snap),
            cooldown,
            position: snap.snapped_pos,
        }),
{
}

/// After a snap is broken nothing takes hold before the drag has left its place:
/// the window follows the drag.
pub proof fn law_broken_snap_lets_go<P>(
    snap: AxisSnap<P>,
    cooldown: Option<P>,
    first: P,
    second: P,
    breaking: SnapMotion,
    motion: SnapMotion,
    found: Option<SnapEdge<P>>,
    found_next: Option<SnapEdge<P>>,
)
    requires
        breaking.breaks,
        !motion.clears_cooldown,
    ensures
        ({
            let broken = axis_step(Some(snap), cooldown, first, breaking, found);
            let next = axis_step(broken.snap, broken.cooldown, second, motion, found_next);
            &&& broken.position == first
            &&& next.position == second
            &&& next.snap is None
        }),
{
}

proof fn lemma_offered<P>(
    others: Seq<SnapOther<P>>,
    kind: SnapKind,
    same_edge: bool,
    n: int,
    i: int,
    k: int,
)
    requires
        0 <= i < n <= others.len(),
        0 <= k < offers_of(others[i], kind, same_edge).len(),
    ensures
        exists|m: int|
            0 <= m < offers(others, kind, same_edge, n).len() && #[trigger] offers(
                others,
                kind,
                same_edge,
                n,
            )[m] == offers_of(others[i], kind, same_edge)[k],
    decreases n,
{
    let all = offers(others, kind, same_edge, n);
    let init = offers(others, kind, same_edge, n - 1);
    if i == n - 1 {
        assert(all[init.len() + k] == offers_of(others[i], kind, same_edge)[k]);
    } else {
        lemma_offered(others, kind, same_edge, n - 1, i, k);
        let m = choose|m: int|
            0 <= m < init.len() && #[trigger] init[m] == offers_of(others[i], kind, same_edge)[k];
        assert(all[m] == init[m]);
    }
}

proof fn lemma_offered_by<P>(
    others: Seq<SnapOther<P>>,
    kind: SnapKind,
    same_edge: bool,
    n: int,
    m: int,
) -> (at: (int, int))
    requires
        0 <= n <= others.len(),
        0 <= m < offers(others, kind, same_edge, n).len(),
    ensures
        0 <= at.0 < n,
        0 <= at.1 < offers_of(others[at.0], kind, same_edge).len(),
        offers(others, kind, same_edge, n)[m] == offers_of(others[at.0], kind, same_edge)[at.1],
    decreases n,
{
    let init = offers(others, kind, same_edge, n - 1);
    if n > 0 && m < init.len() {
        lemma_offered_by(others, kind, same_edge, n - 1, m)
    } else {
        (n - 1, m - init.len())
    }
}

proof fn lemma_found_is_near<P>(
    others: Seq<SnapOther<P>>,
    kind: SnapKind,
    same_edge: bool,
    threshold: u64,
    i: int,
    k: int,
)
    requires
        0 <= i < others.len(),
        0 <= k < offers_of(others[i], kind, same_edge).len(),
        offers_of(others[i], kind, same_edge)[k].distance < threshold,
    ensures
        nearest(offers(others, kind, same_edge, others.len() as int), threshold) matches Some(e)
            && e.distance <= offers_of(others[i], kind, same_edge)[k].distance,
{
    let all = offers(others, kind, same_edge, others.len() as int);
    lemma_offered(others, kind, same_edge, others.len() as int, i, k);
    law_no_offer_is_nearer(all, threshold);
}

/// A dragged window is drawn to every edge of a window beside it: what is found is
/// at least as near as each edge within the threshold. Its high edge meets the
/// other's low edge and its low edge the other's high edge, always; equal edges
/// are aligned where that is switched on.
pub proof fn law_window_snaps_to_every_edge<P>(
    others: Seq<SnapOther<P>>,
    same_edge: bool,
    threshold: u64,
    i: int,
)
    requires
        0 <= i < others.len(),
        others[i].beside,
    ensures
        ({
            let found = nearest(
                offers(others, SnapKind::Window, same_edge, others.len() as int),
                threshold,
            );
            &&& others[i].meet_low.distance < threshold ==> (found matches Some(e) && e.distance
                <= others[i].meet_low.distance)
            &&& others[i].meet_high.distance < threshold ==> (found matches Some(e) && e.distance
                <= others[i].meet_high.distance)
            &&& same_edge && others[i].align_low.distance < threshold ==> (found matches Some(e)
                && e.distance <= others[i].align_low.distance)
            &&& same_edge && others[i].align_high.distance < threshold ==> (found matches Some(e)
                && e.distance <= others[i].align_high.distance)
        }),
{
    let o = others[i];
    let edges = offers_of(o, SnapKind::Window, same_edge);
    if o.meet_low.distance < threshold {
        assert(edges[0] == o.meet_low);
        lemma_found_is_near(others, SnapKind::Window, same_edge, threshold, i, 0);
    }
    if o.meet_high.distance < threshold {
        assert(edges[1] == o.meet_high);
        lemma_found_is_near(others, SnapKind::Window, same_edge, threshold, i, 1);
    }
    if same_edge && o.align_low.distance < threshold {
        assert(edges[2] == o.align_low);
        lemma_found_is_near(others, SnapKind::Window, same_edge, threshold, i, 2);
    }
    if same_edge && o.align_high.distance < threshold {
        assert(edges[3] == o.align_high);
        lemma_found_is_near(others, SnapKind::Window, same_edge, threshold, i, 3);
    }
}

/// A dragged window snaps to nothing but an edge, within the threshold, of a
/// window beside it; to an equal edge only where that is switched on.
pub proof fn law_window_snaps_to_an_edge<P>(
    others: Seq<SnapOther<P>>,
    same_edge: bool,
    threshold: u64,
)
    ensures
        nearest(offers(others, SnapKind::Window, same_edge, others.len() as int), threshold)
            matches Some(e) ==> e.distance < threshold && exists|i: int|
            0 <= i < others.len() && (#[trigger] others[i]).beside && (e == others[i].meet_low || e
                == others[i].meet_high || same_edge && (e == others[i].align_low || e
                == others[i].align_high)),
{
    let all = offers(others, SnapKind::Window, same_edge, others.len() as int);
    law_no_offer_is_nearer(all, threshold);
    if let Some(e) = nearest(all, threshold) {
        let m = choose|m: int| 0 <= m < all.len() && all[m] == e;
        let (i, k) = lemma_offered_by(
            others,
            SnapKind::Window,
            same_edge,
            others.len() as int,
            m,
        );
        assert(others[i].beside);
    }
}

/// A dragged edge is drawn to the opposite edge of every window beside it, and to
/// the equal edge where that is switched on.
pub proof fn law_edge_snaps_to_every_edge<P>(
    others: Seq<SnapOther<P>>,
    same_edge: bool,
    high_edge: bool,
    threshold: u64,
    i: int,
)
    requires
        0 <= i < others.len(),
        others[i].beside,
    ensures
        ({
            let found = nearest(
                offers(others, edge_kind(high_edge), same_edge, others.len() as int),
                threshold,
            );
            &&& high_edge && others[i].meet_low.distance < threshold ==> (found matches Some(e)
                && e.distance <= others[i].meet_low.distance)
            &&& !high_edge && others[i].meet_high.distance < threshold ==> (found matches Some(e)
                && e.distance <= others[i].meet_high.distance)
            &&& high_edge && same_edge && others[i].align_high.distance < threshold ==> (
            found matches Some(e) && e.distance <= others[i].align_high.distance)
            &&& !high_edge && same_edge && others[i].align_low.distance < threshold ==> (
            found matches Some(e) && e.distance <= others[i].align_low.distance)
        }),
{
    let o = others[i];
    let kind = edge_kind(high_edge);
    let edges = offers_of(o, kind, same_edge);
    let meeting = if high_edge {
        o.meet_low
    } else {
        o.meet_high
    };
    let aligned = if high_edge {
        o.align_high
    } else {
        o.align_low
    };
    if meeting.distance < threshold {
        assert(edges[0] == meeting);
        lemma_found_is_near(others, kind, same_edge, threshold, i, 0);
    }
    if same_edge && aligned.distance < threshold {
        assert(edges[1] == aligned);
        lemma_found_is_near(others, kind, same_edge, threshold, i, 1);
    }
}

/// A dragged edge snaps to nothing else.
pub proof fn law_edge_snaps_to_an_edge<P>(
    others: Seq<SnapOther<P>>,
    same_edge: bool,
    high_edge: bool,
    threshold: u64,
)
    ensures
        nearest(offers(others, edge_kind(high_edge), same_edge, others.len() as int), threshold)
            matches Some(e) ==> e.distance < threshold && exists|i: int|
            0 <= i < others.len() && (#[trigger] others[i]).beside && (high_edge && e
                == others[i].meet_low || !high_edge && e == others[i].meet_high || same_edge
                && high_edge && e == others[i].align_high || same_edge && !high_edge && e
                == others[i].align_low),
{
    let kind = edge_kind(high_edge);
    let all = offers(others, kind, same_edge, others.len() as int);
    law_no_offer_is_nearer(all, threshold);
    if let Some(e) = nearest(all, threshold) {
        let m = choose|m: int| 0 <= m < all.len() && all[m] == e;
        let (i, k) = lemma_offered_by(others, kind, same_edge, others.len() as int, m);
        assert(others[i].beside);
    }
}

/// Of offers that are as near as the one taken, it is the first: all before it are
/// farther.
pub proof fn law_first_of_equals_wins<P>(offers: Seq<SnapEdge<P>>, threshold: u64)
    ensures
        nearest(offers, threshold) matches Some(e) ==> exists|i: int|
            0 <= i < offers.len() && #[trigger] offers[i] == e && forall|j: int|
                0 <= j < i ==> (#[trigger] offers[j]).distance > e.distance,
    decreases offers.len(),
{
    if offers.len() > 0 {
        let init = offers.drop_last();
        let last = offers.last();
        law_first_of_equals_wins(init, threshold);
        law_no_offer_is_nearer(init, threshold);
        let before = nearest(init, threshold);
        if last.distance < threshold && (before matches Some(b) ==> last.distance < b.distance) {
            assert(offers[offers.len() - 1] == last);
            assert forall|j: int| 0 <= j < offers.len() - 1 implies (
            #[trigger] offers[j]).distance > last.distance by {
                assert(init[j] == offers[j]);
            }
        } else if let Some(e) = before {
            let i = choose|i: int|
                0 <= i < init.len() && #[trigger] init[i] == e && forall|j: int|
                    0 <= j < i ==> (#[trigger] init[j]).distance > e.distance;
            assert(offers[i] == e);
            assert forall|j: int| 0 <= j < i implies (#[trigger] offers[j]).distance
                > e.distance by {
                assert(init[j] == offers[j]);
            }
        }
    }
}

/// Of the edges of one window that are as near, an edge to meet goes before one to
/// align with, and a low one before a high one.
pub proof fn law_meeting_goes_before_aligning<P>(
    o: SnapOther<P>,
    same_edge: bool,
    threshold: u64,
)
    requires
        o.beside,
    ensures
        ({
            let found = nearest(offers(seq![o], SnapKind::Window, same_edge, 1), threshold);
            let low = o.meet_low.distance;
            let high = o.meet_high.distance;
            let align = if same_edge && o.align_low.distance <= o.align_high.distance {
                o.align_low
            } else {
                o.align_high
            };
            let aligns = |d: u64| same_edge && align.distance < d;
            &&& low < threshold && low <= high && !aligns(low) ==> found == Some(o.meet_low)
            &&& high < threshold && high < low && !aligns(high) ==> found == Some(o.meet_high)
            &&& align.distance < threshold && aligns(low) && aligns(high) ==> found == Some(align)
        }),
{
    let edges = offers_of(o, SnapKind::Window, same_edge);
    let all = offers(seq![o], SnapKind::Window, same_edge, 1);
    reveal_with_fuel(offers, 2);
    assert(all =~= edges);
    let two = seq![o.meet_low, o.meet_high];
    let one = seq![o.meet_low];
    assert(two.drop_last() =~= one);
    assert(one.drop_last() =~= Seq::empty());
    assert(nearest(one, threshold) == nearer(nearest(Seq::empty(), threshold), o.meet_low, threshold));
    assert(nearest(two, threshold) == nearer(nearest(one, threshold), o.meet_high, threshold));
    if same_edge {
        let three = two.push(o.align_low);
        assert(all =~= three.push(o.align_high));
        assert(all.drop_last() =~= three);
        assert(three.drop_last() =~= two);
        assert(nearest(three, threshold) == nearer(
            nearest(two, threshold),
            o.align_low,
            threshold,
        ));
    } else {
        assert(all =~= two);
    }
}

/// A drag that neither is snapped nor keeps away from a broken snap takes what is
/// found: the window goes there, and the snap remembers where the drag was. Where
/// nothing is found the window follows the drag. The same once the drag has left
/// the place of a broken snap.
pub proof fn law_free_drag_takes_what_is_found<P>(
    cooldown: Option<P>,
    natural: P,
    motion: SnapMotion,
    found: Option<SnapEdge<P>>,
)
    requires
        cooldown is None || motion.clears_cooldown,
    ensures
        ({
            let step = axis_step(None, cooldown, natural, motion, found);
            &&& step.cooldown is None
            &&& found matches Some(e) ==> step.position == e.position && (step.snap matches Some(s)
                && s.snapped_pos == e.position && s.natural_at_engage == natural)
            &&& found is None ==> step.position == natural && step.snap is None
        }),
{
}

/// A broken snap leaves its own place behind as the one to keep away from.
pub proof fn law_broken_snap_is_remembered<P>(
    snap: AxisSnap<P>,
    cooldown: Option<P>,
    natural: P,
    motion: SnapMotion,
    found: Option<SnapEdge<P>>,
)
    requires
        motion.breaks,
    ensures
        axis_step(Some(snap), cooldown, natural, motion, found).cooldown == Some(snap.snapped_pos),
        axis_step(Some(snap), cooldown, natural, motion, found).snap is None,
{
}

} // verus!
