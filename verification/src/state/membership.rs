//! Which outputs a window belongs to, and what its client is told as that
//! changes.
//!
//! A window belongs to the outputs it overlaps, or to one only where it is
//! bound to one. A client that can keep a single output per window gets one
//! that moves only when the window does.

use crate::geometry::{Point, Rect};
use crate::names::{Named, NamedMap, as_map, is_at};
use crate::text::same_text;
use vstd::prelude::*;

verus! {

/// What two rectangles have in common, measured from the first one's corner.
pub open spec fn overlap_of(bbox: Rect, geo: Rect) -> Option<Rect> {
    match geo.clip(bbox) {
        Some(r) => Some(
            Rect {
                loc: Point {
                    x: (r.loc.x - bbox.loc.x) as i32,
                    y: (r.loc.y - bbox.loc.y) as i32,
                },
                size: r.size,
            },
        ),
        None => None,
    }
}

/// What `geo` and `bbox` have in common, measured from `bbox`'s corner.
pub fn overlap_in(bbox: Rect, geo: Rect) -> (overlap: Option<Rect>)
    requires
        bbox.valid(),
    ensures
        overlap == overlap_of(bbox, geo),
{
    match geo.intersection(bbox) {
        Some(r) => Some(
            Rect {
                loc: Point { x: r.loc.x - bbox.loc.x, y: r.loc.y - bbox.loc.y },
                size: r.size,
            },
        ),
        None => None,
    }
}

/// Whether a window may be on an output at all.
pub open spec fn admits(allowed: Option<Seq<char>>, name: Seq<char>) -> bool {
    match allowed {
        Some(a) => a == name,
        None => true,
    }
}

/// The outputs among the first `n` that a window belongs to, with its overlap.
pub open spec fn memberships(
    bbox: Rect,
    outputs: Seq<(String, Rect)>,
    allowed: Option<Seq<char>>,
    n: int,
) -> Seq<(usize, Rect)>
    decreases n,
{
    if n <= 0 {
        Seq::empty()
    } else {
        let init = memberships(bbox, outputs, allowed, n - 1);
        match overlap_of(bbox, outputs[n - 1].1) {
            Some(o) if admits(allowed, outputs[n - 1].0@) => init.push(((n - 1) as usize, o)),
            _ => init,
        }
    }
}

pub open spec fn text_of(s: Option<&str>) -> Option<Seq<char>> {
    match s {
        Some(s) => Some(s@),
        None => None,
    }
}

/// The outputs a window belongs to: those it overlaps, restricted to `allowed`
/// where it is bound to one. Overlaps are measured from the window's corner.
pub fn desired_memberships(
    bbox: Rect,
    outputs: &[(String, Rect)],
    allowed: Option<&str>,
) -> (desired: Vec<(usize, Rect)>)
    requires
        bbox.valid(),
    ensures
        desired@ == memberships(bbox, outputs@, text_of(allowed), outputs@.len() as int),
{
    let mut desired: Vec<(usize, Rect)> = Vec::new();
    let mut i: usize = 0;
    while i < outputs.len()
        invariant
            i <= outputs@.len(),
            bbox.valid(),
            desired@ == memberships(bbox, outputs@, text_of(allowed), i as int),
        decreases outputs.len() - i,
    {
        let admitted = match allowed {
            Some(a) => same_text(a, outputs[i].0.as_str()),
            None => true,
        };
        if admitted {
            if let Some(o) = overlap_in(bbox, outputs[i].1) {
                desired.push((i, o));
            }
        }
        i = i + 1;
    }
    desired
}

/// The first output of a name, from `i` on.
pub open spec fn output_named(outputs: Seq<(String, Rect)>, name: Seq<char>, i: int) -> Option<int>
    decreases outputs.len() - i,
{
    if i < 0 || i >= outputs.len() {
        None
    } else if outputs[i].0@ == name {
        Some(i)
    } else {
        output_named(outputs, name, i + 1)
    }
}

/// The first output that covers a point, from `i` on.
pub open spec fn output_under(outputs: Seq<(String, Rect)>, p: Point, i: int) -> Option<int>
    decreases outputs.len() - i,
{
    if i < 0 || i >= outputs.len() {
        None
    } else if outputs[i].1.covers(p.x as int, p.y as int) {
        Some(i)
    } else {
        output_under(outputs, p, i + 1)
    }
}

/// The output among the first `n` that a window overlaps most; the first of
/// several.
pub open spec fn largest_overlap(
    bbox: Rect,
    outputs: Seq<(String, Rect)>,
    n: int,
) -> Option<(int, Rect)>
    decreases n,
{
    if n <= 0 {
        None
    } else {
        let best = largest_overlap(bbox, outputs, n - 1);
        match overlap_of(bbox, outputs[n - 1].1) {
            None => best,
            Some(o) => match best {
                Some((_, b)) if o.area() <= b.area() => best,
                _ => Some((n - 1, o)),
            },
        }
    }
}

pub open spec fn empty_rect() -> Rect {
    Rect { loc: Point { x: 0, y: 0 }, size: crate::geometry::Size { w: 0, h: 0 } }
}

pub open spec fn or_else(r: Option<Rect>, other: Rect) -> Rect {
    match r {
        Some(r) => r,
        None => other,
    }
}

/// The one output that a window sticks to.
pub open spec fn sticky_output(
    bbox: Rect,
    center: Point,
    outputs: Seq<(String, Rect)>,
    current: Option<(Seq<char>, Rect)>,
) -> Option<(int, Rect)> {
    let live = match current {
        Some((name, _)) => output_named(outputs, name, 0),
        None => None,
    };
    let under = output_under(outputs, center, 0);
    if live is Some && outputs[live->0].1.covers(center.x as int, center.y as int) {
        Some((live->0, or_else(overlap_of(bbox, outputs[live->0].1), (current->0).1)))
    } else if under is Some {
        Some((under->0, or_else(overlap_of(bbox, outputs[under->0].1), empty_rect())))
    } else if live is Some && overlap_of(bbox, outputs[live->0].1) is Some {
        Some((live->0, overlap_of(bbox, outputs[live->0].1)->0))
    } else if largest_overlap(bbox, outputs, outputs.len() as int) is Some {
        largest_overlap(bbox, outputs, outputs.len() as int)
    } else if live is Some {
        Some((live->0, (current->0).1))
    } else {
        None
    }
}

pub open spec fn at_most_one(choice: Option<(int, Rect)>) -> Seq<(usize, Rect)> {
    match choice {
        Some((i, r)) => seq![(i as usize, r)],
        None => Seq::empty(),
    }
}

fn find_named(outputs: &[(String, Rect)], name: &str) -> (at: Option<usize>)
    ensures
        match at {
            Some(i) => i < outputs@.len() && output_named(outputs@, name@, 0) == Some(i as int),
            None => output_named(outputs@, name@, 0) is None,
        },
{
    let mut i: usize = 0;
    while i < outputs.len()
        invariant
            i <= outputs@.len(),
            output_named(outputs@, name@, 0) == output_named(outputs@, name@, i as int),
        decreases outputs.len() - i,
    {
        if same_text(outputs[i].0.as_str(), name) {
            return Some(i);
        }
        i = i + 1;
    }
    None
}

fn find_under(outputs: &[(String, Rect)], p: Point) -> (at: Option<usize>)
    ensures
        match at {
            Some(i) => i < outputs@.len() && output_under(outputs@, p, 0) == Some(i as int),
            None => output_under(outputs@, p, 0) is None,
        },
{
    let mut i: usize = 0;
    while i < outputs.len()
        invariant
            i <= outputs@.len(),
            output_under(outputs@, p, 0) == output_under(outputs@, p, i as int),
        decreases outputs.len() - i,
    {
        if outputs[i].1.contains(p) {
            return Some(i);
        }
        i = i + 1;
    }
    None
}

fn area_of(r: Rect) -> (area: i64)
    ensures
        area == r.area(),
{
    proof {
        assert(-0x4000_0000_0000_0000 <= r.size.w * r.size.h <= 0x4000_0000_0000_0000)
            by (nonlinear_arith)
            requires
                -0x8000_0000 <= r.size.w <= 0x7fff_ffff,
                -0x8000_0000 <= r.size.h <= 0x7fff_ffff,
        ;
    }
    r.size.w as i64 * r.size.h as i64
}

fn find_largest(bbox: Rect, outputs: &[(String, Rect)]) -> (at: Option<(usize, Rect)>)
    requires
        bbox.valid(),
    ensures
        match at {
            Some((i, r)) => largest_overlap(bbox, outputs@, outputs@.len() as int) == Some(
                (i as int, r),
            ),
            None => largest_overlap(bbox, outputs@, outputs@.len() as int) is None,
        },
{
    let mut best: Option<(usize, Rect)> = None;
    let mut i: usize = 0;
    while i < outputs.len()
        invariant
            i <= outputs@.len(),
            bbox.valid(),
            match best {
                Some((k, r)) => largest_overlap(bbox, outputs@, i as int) == Some((k as int, r)),
                None => largest_overlap(bbox, outputs@, i as int) is None,
            },
        decreases outputs.len() - i,
    {
        if let Some(o) = overlap_in(bbox, outputs[i].1) {
            let better = match best {
                Some((_, b)) => area_of(o) > area_of(b),
                None => true,
            };
            if better {
                best = Some((i, o));
            }
        }
        i = i + 1;
    }
    best
}

/// The one output that a window of a single-output client is on. It stays on
/// `current`, with the overlap last told, while the window's centre is there;
/// it goes where the centre goes; where the centre is on no output, it stays
/// while the window still overlaps it, else goes where the window overlaps most,
/// else stays. `center` is the centre of the window's own area, so that an open
/// menu does not move it.
pub fn desired_satellite_membership(
    bbox: Rect,
    center: Point,
    outputs: &[(String, Rect)],
    current: Option<(&str, Rect)>,
) -> (desired: Vec<(usize, Rect)>)
    requires
        bbox.valid(),
    ensures
        desired@ == at_most_one(
            sticky_output(
                bbox,
                center,
                outputs@,
                match current {
                    Some((name, r)) => Some((name@, r)),
                    None => None,
                },
            ),
        ),
{
    let mut desired: Vec<(usize, Rect)> = Vec::new();
    let live: Option<(usize, Rect)> = match current {
        Some((name, entered)) => match find_named(outputs, name) {
            Some(i) => Some((i, entered)),
            None => None,
        },
        None => None,
    };
    if let Some((i, entered)) = live {
        if outputs[i].1.contains(center) {
            let r = match overlap_in(bbox, outputs[i].1) {
                Some(o) => o,
                None => entered,
            };
            desired.push((i, r));
            return desired;
        }
    }
    if let Some(i) = find_under(outputs, center) {
        let r = match overlap_in(bbox, outputs[i].1) {
            Some(o) => o,
            None => Rect {
                loc: Point { x: 0, y: 0 },
                size: crate::geometry::Size { w: 0, h: 0 },
            },
        };
        desired.push((i, r));
        return desired;
    }
    if let Some((i, _)) = live {
        if let Some(o) = overlap_in(bbox, outputs[i].1) {
            desired.push((i, o));
            return desired;
        }
    }
    if let Some(best) = find_largest(bbox, outputs) {
        desired.push(best);
        return desired;
    }
    if let Some((i, entered)) = live {
        desired.push((i, entered));
    }
    desired
}

/// Whether an entry of the outputs a window is on is still an output.
pub open spec fn is_live(outputs: Seq<(String, Rect)>, name: Seq<char>) -> bool {
    output_named(outputs, name, 0) is Some
}

/// The output a window is now on: among the first `n` entries those that are
/// still outputs, the last with the largest overlap.
pub open spec fn current_entry(
    entered: Seq<Named<Rect>>,
    outputs: Seq<(String, Rect)>,
    n: int,
) -> Option<int>
    decreases n,
{
    if n <= 0 {
        None
    } else {
        let best = current_entry(entered, outputs, n - 1);
        if !is_live(outputs, entered[n - 1].name@) {
            best
        } else {
            match best {
                Some(b) if entered[n - 1].value.area() < entered[b].value.area() => best,
                _ => Some(n - 1),
            }
        }
    }
}

/// The entry of the output a window is now on.
pub fn current_association(
    entered: &NamedMap<Rect>,
    outputs: &[(String, Rect)],
) -> (at: Option<usize>)
    ensures
        match at {
            Some(i) => i < entered.entries@.len() && current_entry(
                entered.entries@,
                outputs@,
                entered.entries@.len() as int,
            ) == Some(i as int),
            None => current_entry(entered.entries@, outputs@, entered.entries@.len() as int)
                is None,
        },
{
    let mut best: Option<usize> = None;
    let mut i: usize = 0;
    while i < entered.entries.len()
        invariant
            i <= entered.entries@.len(),
            match best {
                Some(b) => b < i && current_entry(entered.entries@, outputs@, i as int) == Some(
                    b as int,
                ),
                None => current_entry(entered.entries@, outputs@, i as int) is None,
            },
        decreases entered.entries.len() - i,
    {
        if find_named(outputs, entered.entries[i].name.as_str()).is_some() {
            let better = match best {
                Some(b) => area_of(entered.entries[i].value) >= area_of(entered.entries[b].value),
                None => true,
            };
            if better {
                best = Some(i);
            }
        }
        i = i + 1;
    }
    best
}

/// What a window's outputs are derived from.
pub struct WindowPlace {
    /// All that the window draws, popups among it.
    pub bbox: Rect,
    /// Centre of its own area.
    pub center: Point,
    /// The output it is bound to: the one it is fullscreen on or pinned to.
    pub allowed: Option<String>,
    /// Its client keeps one output per window.
    pub single_output: bool,
}

pub open spec fn named_entry(entered: Seq<Named<Rect>>, at: Option<int>) -> Option<
    (Seq<char>, Rect),
> {
    match at {
        Some(i) => Some((entered[i].name@, entered[i].value)),
        None => None,
    }
}

pub open spec fn owned_text(s: Option<String>) -> Option<Seq<char>> {
    match s {
        Some(s) => Some(s@),
        None => None,
    }
}

/// The outputs a window is to be on.
pub open spec fn place_outputs(
    place: WindowPlace,
    entered: Seq<Named<Rect>>,
    outputs: Seq<(String, Rect)>,
) -> Seq<(usize, Rect)> {
    if place.allowed is None && place.single_output {
        at_most_one(
            sticky_output(
                place.bbox,
                place.center,
                outputs,
                named_entry(entered, current_entry(entered, outputs, entered.len() as int)),
            ),
        )
    } else {
        memberships(place.bbox, outputs, owned_text(place.allowed), outputs.len() as int)
    }
}

/// The outputs a window is to be on. Being bound to an output takes precedence
/// over keeping one.
pub fn desired_outputs(
    place: &WindowPlace,
    entered: &NamedMap<Rect>,
    outputs: &[(String, Rect)],
) -> (desired: Vec<(usize, Rect)>)
    requires
        place.bbox.valid(),
    ensures
        desired@ == place_outputs(*place, entered.entries@, outputs@),
{
    match &place.allowed {
        Some(name) => desired_memberships(place.bbox, outputs, Some(name.as_str())),
        None => if place.single_output {
            let current = match current_association(entered, outputs) {
                Some(i) => Some((entered.entries[i].name.as_str(), entered.entries[i].value)),
                None => None,
            };
            desired_satellite_membership(place.bbox, place.center, outputs, current)
        } else {
            desired_memberships(place.bbox, outputs, None)
        },
    }
}

/// The names of the wanted outputs, each with its overlap.
pub open spec fn wanted_map(
    outputs: Seq<(String, Rect)>,
    desired: Seq<(usize, Rect)>,
) -> Map<Seq<char>, Rect>
    decreases desired.len(),
{
    if desired.len() == 0 {
        Map::empty()
    } else {
        wanted_map(outputs, desired.drop_last()).insert(
            outputs[desired.last().0 as int].0@,
            desired.last().1,
        )
    }
}

/// A window enters an output that it was not on with that overlap.
pub open spec fn is_entered(
    entered: Map<Seq<char>, Rect>,
    outputs: Seq<(String, Rect)>,
    d: (usize, Rect),
) -> bool {
    let name = outputs[d.0 as int].0@;
    !(entered.dom().contains(name) && entered[name] == d.1)
}

/// What a window's client is told.
pub struct MembershipChange {
    /// Outputs entered, with the overlap.
    pub enters: Vec<(usize, Rect)>,
    /// Outputs left, by name.
    pub leaves: Vec<String>,
}

pub open spec fn names_of(names: Seq<String>) -> Seq<Seq<char>> {
    names.map_values(|s: String| s@)
}

/// The names among the first `n` entries that are not wanted.
pub open spec fn left_names(
    entered: Seq<Named<Rect>>,
    wanted: Map<Seq<char>, Rect>,
    n: int,
) -> Seq<Seq<char>>
    decreases n,
{
    if n <= 0 {
        Seq::empty()
    } else {
        let init = left_names(entered, wanted, n - 1);
        if wanted.dom().contains(entered[n - 1].name@) {
            init
        } else {
            init.push(entered[n - 1].name@)
        }
    }
}

/// No two of the wanted outputs have the same name.
pub open spec fn distinct_wanted(outputs: Seq<(String, Rect)>, desired: Seq<(usize, Rect)>) -> bool {
    &&& forall|k: int| 0 <= k < desired.len() ==> (#[trigger] desired[k]).0 < outputs.len()
    &&& forall|j: int, k: int|
        0 <= j < k < desired.len() ==> outputs[(#[trigger] desired[j]).0 as int].0@ != outputs[(
        #[trigger] desired[k]).0 as int].0@
}

proof fn lemma_wanted_names(
    outputs: Seq<(String, Rect)>,
    desired: Seq<(usize, Rect)>,
    name: Seq<char>,
)
    ensures
        wanted_map(outputs, desired).dom().contains(name) <==> exists|k: int|
            0 <= k < desired.len() && outputs[(#[trigger] desired[k]).0 as int].0@ == name,
    decreases desired.len(),
{
    if desired.len() > 0 {
        let init = desired.drop_last();
        lemma_wanted_names(outputs, init, name);
        if outputs[desired.last().0 as int].0@ == name {
            assert(desired[desired.len() - 1].0 == desired.last().0);
        }
        if wanted_map(outputs, init).dom().contains(name) {
            let k = choose|k: int|
                0 <= k < init.len() && outputs[(#[trigger] init[k]).0 as int].0@ == name;
            assert(desired[k] == init[k]);
        }
        if exists|k: int|
            0 <= k < desired.len() && outputs[(#[trigger] desired[k]).0 as int].0@ == name {
            let k = choose|k: int|
                0 <= k < desired.len() && outputs[(#[trigger] desired[k]).0 as int].0@ == name;
            if k < init.len() {
                assert(init[k] == desired[k]);
            }
        }
    }
}

/// Takes a window to the wanted outputs: enters those it was not on with the
/// same overlap, leaves all others, and keeps account of where it is.
pub fn refresh_window_outputs(
    entered: &mut NamedMap<Rect>,
    outputs: &[(String, Rect)],
    desired: &[(usize, Rect)],
) -> (change: MembershipChange)
    requires
        old(entered).wf(),
        distinct_wanted(outputs@, desired@),
    ensures
        final(entered).wf(),
        final(entered)@ == wanted_map(outputs@, desired@),
        change.enters@ == desired@.filter(
            |d: (usize, Rect)| is_entered(old(entered)@, outputs@, d),
        ),
        names_of(change.leaves@) == left_names(
            old(entered).entries@,
            wanted_map(outputs@, desired@),
            old(entered).entries@.len() as int,
        ),
{
    let ghost before = entered@;
    let ghost entries = entered.entries@;
    let ghost wanted = wanted_map(outputs@, desired@);
    let ghost pred = |d: (usize, Rect)| is_entered(before, outputs@, d);
    let mut next: NamedMap<Rect> = NamedMap::new();
    let mut enters: Vec<(usize, Rect)> = Vec::new();
    let mut k: usize = 0;
    assert(desired@.subrange(0, 0).filter(pred) =~= Seq::empty()) by {
        reveal(Seq::filter);
    }
    assert(desired@.subrange(0, 0).len() == 0);
    while k < desired.len()
        invariant
            k <= desired@.len(),
            entered.wf(),
            entered@ == before,
            entered.entries@ == entries,
            distinct_wanted(outputs@, desired@),
            pred == (|d: (usize, Rect)| is_entered(before, outputs@, d)),
            enters@ == desired@.subrange(0, k as int).filter(pred),
            next.wf(),
            next@ == wanted_map(outputs@, desired@.subrange(0, k as int)),
        decreases desired.len() - k,
    {
        let (i, r) = desired[k];
        proof {
            let part = desired@.subrange(0, k + 1);
            assert(part.drop_last() =~= desired@.subrange(0, k as int));
            assert(part.last() == desired@[k as int]);
            reveal(Seq::filter);
            lemma_wanted_names(
                outputs@,
                desired@.subrange(0, k as int),
                outputs@[i as int].0@,
            );
            if next@.dom().contains(outputs@[i as int].0@) {
                let sub = desired@.subrange(0, k as int);
                let j = choose|j: int|
                    0 <= j < sub.len() && outputs@[(#[trigger] sub[j]).0 as int].0@
                        == outputs@[i as int].0@;
                assert(sub[j] == desired@[j]);
                assert(outputs@[desired@[j].0 as int].0@ != outputs@[desired@[k as int].0 as int].0@);
            }
        }
        let held = match entered.get(outputs[i].0.as_str()) {
            Some(old_r) => *old_r == r,
            None => false,
        };
        if !held {
            enters.push((i, r));
        }
        next.push_new(outputs[i].0.clone(), r);
        k = k + 1;
    }
    assert(desired@.subrange(0, k as int) =~= desired@);
    let mut leaves: Vec<String> = Vec::new();
    let mut e: usize = 0;
    assert(names_of(leaves@) =~= left_names(entries, wanted, 0));
    while e < entered.entries.len()
        invariant
            e <= entered.entries@.len(),
            entered.entries@ == entries,
            next.wf(),
            next@ == wanted,
            names_of(leaves@) == left_names(entries, wanted, e as int),
        decreases entered.entries.len() - e,
    {
        if !next.contains(entered.entries[e].name.as_str()) {
            let ghost prev = leaves@;
            leaves.push(entered.entries[e].name.clone());
            assert(names_of(leaves@) =~= names_of(prev).push(entries[e as int].name@));
        }
        e = e + 1;
    }
    *entered = next;
    MembershipChange { enters, leaves }
}

/// What a removed window's client is told: it leaves every output it was on.
pub fn send_output_leaves(entered: &mut NamedMap<Rect>) -> (leaves: Vec<String>)
    requires
        old(entered).wf(),
    ensures
        final(entered).wf(),
        final(entered)@ == Map::<Seq<char>, Rect>::empty(),
        names_of(leaves@) == old(entered).entries@.map_values(|e: Named<Rect>| e.name@),
{
    let mut leaves: Vec<String> = Vec::new();
    let mut e: usize = 0;
    while e < entered.entries.len()
        invariant
            e <= entered.entries@.len(),
            entered.entries@ == old(entered).entries@,
            names_of(leaves@) =~= entered.entries@.subrange(0, e as int).map_values(
                |e: Named<Rect>| e.name@,
            ),
        decreases entered.entries.len() - e,
    {
        let ghost prev = leaves@;
        leaves.push(entered.entries[e].name.clone());
        assert(names_of(leaves@) =~= names_of(prev).push(entered.entries@[e as int].name@));
        e = e + 1;
    }
    assert(entered.entries@.subrange(0, e as int) =~= entered.entries@);
    *entered = NamedMap::new();
    leaves
}

proof fn lemma_named_in_range(outputs: Seq<(String, Rect)>, name: Seq<char>, i: int)
    requires
        0 <= i,
    ensures
        output_named(outputs, name, i) matches Some(k) ==> i <= k < outputs.len()
            && outputs[k].0@ == name,
    decreases outputs.len() - i,
{
    if i < outputs.len() {
        lemma_named_in_range(outputs, name, i + 1);
    }
}

proof fn lemma_under_in_range(outputs: Seq<(String, Rect)>, p: Point, i: int)
    requires
        0 <= i,
    ensures
        output_under(outputs, p, i) matches Some(k) ==> i <= k < outputs.len()
            && outputs[k].1.covers(p.x as int, p.y as int),
    decreases outputs.len() - i,
{
    if i < outputs.len() {
        lemma_under_in_range(outputs, p, i + 1);
    }
}

/// A window leaves the output it sticks to only when its centre does: while the
/// centre is there, other outputs that come to overlap the window change nothing.
pub proof fn law_center_keeps_the_output(
    bbox: Rect,
    center: Point,
    outputs: Seq<(String, Rect)>,
    name: Seq<char>,
    entered: Rect,
)
    requires
        output_named(outputs, name, 0) matches Some(i) && outputs[i].1.covers(
            center.x as int,
            center.y as int,
        ),
    ensures
        sticky_output(bbox, center, outputs, Some((name, entered))) matches Some((i, _))
            && outputs[i].0@ == name,
{
    lemma_named_in_range(outputs, name, 0);
}

/// A window that no output shows stays on the output it was on, as it was.
pub proof fn law_offscreen_keeps_the_output(
    bbox: Rect,
    center: Point,
    outputs: Seq<(String, Rect)>,
    name: Seq<char>,
    entered: Rect,
)
    requires
        output_named(outputs, name, 0) is Some,
        forall|i: int|
            0 <= i < outputs.len() ==> overlap_of(bbox, (#[trigger] outputs[i]).1) is None
                && !outputs[i].1.covers(center.x as int, center.y as int),
    ensures
        sticky_output(bbox, center, outputs, Some((name, entered))) == Some(
            (output_named(outputs, name, 0)->0, entered),
        ),
{
    lemma_named_in_range(outputs, name, 0);
    lemma_under_in_range(outputs, center, 0);
    lemma_nothing_overlaps(bbox, outputs, outputs.len() as int);
}

proof fn lemma_nothing_overlaps(bbox: Rect, outputs: Seq<(String, Rect)>, n: int)
    requires
        n <= outputs.len(),
        forall|i: int| 0 <= i < n ==> overlap_of(bbox, (#[trigger] outputs[i]).1) is None,
    ensures
        largest_overlap(bbox, outputs, n) is None,
    decreases n,
{
    if n > 0 {
        lemma_nothing_overlaps(bbox, outputs, n - 1);
        assert(overlap_of(bbox, outputs[n - 1].1) is None);
    }
}

/// Going to the outputs a window is already on tells its client nothing.
pub proof fn law_no_change_is_silent(
    entered: Seq<Named<Rect>>,
    outputs: Seq<(String, Rect)>,
    desired: Seq<(usize, Rect)>,
)
    requires
        crate::names::names_distinct(entered),
        distinct_wanted(outputs, desired),
        as_map(entered) == wanted_map(outputs, desired),
    ensures
        desired.filter(|d: (usize, Rect)| is_entered(as_map(entered), outputs, d)).len() == 0,
        left_names(entered, wanted_map(outputs, desired), entered.len() as int).len() == 0,
{
    let map = as_map(entered);
    let pred = |d: (usize, Rect)| is_entered(map, outputs, d);
    assert forall|k: int| 0 <= k < desired.len() implies !pred(#[trigger] desired[k]) by {
        lemma_wanted_value(outputs, desired, k);
    }
    lemma_none_kept(desired, pred);
    lemma_none_left(entered, map, entered.len() as int);
}

proof fn lemma_wanted_value(outputs: Seq<(String, Rect)>, desired: Seq<(usize, Rect)>, k: int)
    requires
        distinct_wanted(outputs, desired),
        0 <= k < desired.len(),
    ensures
        wanted_map(outputs, desired).dom().contains(outputs[desired[k].0 as int].0@),
        wanted_map(outputs, desired)[outputs[desired[k].0 as int].0@] == desired[k].1,
    decreases desired.len(),
{
    if k < desired.len() - 1 {
        let init = desired.drop_last();
        assert forall|a: int, b: int| 0 <= a < b < init.len() implies outputs[(
        #[trigger] init[a]).0 as int].0@ != outputs[(#[trigger] init[b]).0 as int].0@ by {
            assert(outputs[desired[a].0 as int].0@ != outputs[desired[b].0 as int].0@);
        }
        assert(distinct_wanted(outputs, init));
        lemma_wanted_value(outputs, init, k);
        assert(outputs[desired[k].0 as int].0@ != outputs[desired[desired.len() - 1].0 as int].0@);
    }
}

proof fn lemma_none_kept(desired: Seq<(usize, Rect)>, pred: spec_fn((usize, Rect)) -> bool)
    requires
        forall|k: int| 0 <= k < desired.len() ==> !pred(#[trigger] desired[k]),
    ensures
        desired.filter(pred).len() == 0,
    decreases desired.len(),
{
    reveal(Seq::filter);
    if desired.len() > 0 {
        lemma_none_kept(desired.drop_last(), pred);
    }
}

proof fn lemma_none_left(entered: Seq<Named<Rect>>, wanted: Map<Seq<char>, Rect>, n: int)
    requires
        n <= entered.len(),
        as_map(entered) == wanted,
    ensures
        left_names(entered, wanted, n).len() == 0,
    decreases n,
{
    if n > 0 {
        lemma_none_left(entered, wanted, n - 1);
        assert(is_at(entered, entered[n - 1].name@, n - 1));
    }
}

/// An overlap holds the pixels of the window that are on the output, measured
/// from the window's corner; there is none exactly if neither reaches into the
/// other.
pub proof fn law_overlap_is_what_the_output_shows(bbox: Rect, geo: Rect, x: int, y: int)
    requires
        bbox.valid(),
        geo.valid(),
        0 <= x,
        0 <= y,
        bbox.loc.x + bbox.size.w < i32::MAX,
        bbox.loc.y + bbox.size.h < i32::MAX,
    ensures
        (0 <= x < bbox.size.w && 0 <= y < bbox.size.h && geo.covers(
            bbox.loc.x + x,
            bbox.loc.y + y,
        )) <==> (overlap_of(bbox, geo) matches Some(r) && 0 <= x - r.loc.x < r.size.w && 0 <= y
            - r.loc.y < r.size.h),
        overlap_of(bbox, geo) is Some <==> geo.meets(bbox),
{
}

/// A window belongs to exactly those outputs that it overlaps and that it may be
/// on, in their order, each with its overlap.
pub proof fn law_belongs_where_it_overlaps(
    bbox: Rect,
    outputs: Seq<(String, Rect)>,
    allowed: Option<Seq<char>>,
    n: int,
    i: int,
)
    requires
        0 <= n <= outputs.len() <= usize::MAX,
        0 <= i < n,
    ensures
        ({
            let all = memberships(bbox, outputs, allowed, n);
            let at_home = outputs[i].1.meets(bbox) && (allowed is Some ==> allowed == Some(
                outputs[i].0@,
            ));
            &&& (exists|k: int| 0 <= k < all.len() && (#[trigger] all[k]).0 == i) <==> at_home
            &&& forall|k: int|
                0 <= k < all.len() ==> (#[trigger] all[k]).0 < n && Some(all[k].1) == overlap_of(
                    bbox,
                    outputs[all[k].0 as int].1,
                )
            &&& forall|j: int, k: int|
                0 <= j < k < all.len() ==> (#[trigger] all[j]).0 < (#[trigger] all[k]).0
        }),
    decreases n,
{
    let all = memberships(bbox, outputs, allowed, n);
    let init = memberships(bbox, outputs, allowed, n - 1);
    if i < n - 1 {
        law_belongs_where_it_overlaps(bbox, outputs, allowed, n - 1, i);
    } else if n > 1 {
        law_belongs_where_it_overlaps(bbox, outputs, allowed, n - 1, 0);
    }
    assert forall|k: int| 0 <= k < all.len() implies k < init.len() && all[k] == init[k] || k
        == init.len() && (#[trigger] all[k]).0 == n - 1 by {}
    if exists|k: int| 0 <= k < init.len() && (#[trigger] init[k]).0 == i {
        let k = choose|k: int| 0 <= k < init.len() && (#[trigger] init[k]).0 == i;
        assert(all[k].0 == i);
    }
    if i == n - 1 && all.len() > init.len() {
        assert(all[init.len() as int].0 == i);
    }
}

/// The output of a name is the first that has it.
proof fn lemma_first_named(outputs: Seq<(String, Rect)>, name: Seq<char>, i: int)
    requires
        0 <= i,
    ensures
        match output_named(outputs, name, i) {
            Some(k) => i <= k < outputs.len() && outputs[k].0@ == name && forall|j: int|
                i <= j < k ==> (#[trigger] outputs[j]).0@ != name,
            None => forall|j: int| i <= j < outputs.len() ==> (#[trigger] outputs[j]).0@ != name,
        },
    decreases outputs.len() - i,
{
    if i < outputs.len() && outputs[i].0@ != name {
        lemma_first_named(outputs, name, i + 1);
    }
}

proof fn lemma_first_under(outputs: Seq<(String, Rect)>, p: Point, i: int)
    requires
        0 <= i,
    ensures
        match output_under(outputs, p, i) {
            Some(k) => i <= k < outputs.len() && outputs[k].1.covers(p.x as int, p.y as int)
                && forall|j: int|
                i <= j < k ==> !(#[trigger] outputs[j]).1.covers(p.x as int, p.y as int),
            None => forall|j: int|
                i <= j < outputs.len() ==> !(#[trigger] outputs[j]).1.covers(p.x as int, p.y as int),
        },
    decreases outputs.len() - i,
{
    if i < outputs.len() && !outputs[i].1.covers(p.x as int, p.y as int) {
        lemma_first_under(outputs, p, i + 1);
    }
}

proof fn lemma_largest(bbox: Rect, outputs: Seq<(String, Rect)>, n: int)
    requires
        0 <= n <= outputs.len(),
    ensures
        match largest_overlap(bbox, outputs, n) {
            Some((k, o)) => 0 <= k < n && overlap_of(bbox, outputs[k].1) == Some(o) && forall|j: int|
                0 <= j < n ==> (overlap_of(bbox, (#[trigger] outputs[j]).1) matches Some(other)
                    ==> other.area() <= o.area() && (j < k ==> other.area() < o.area())),
            None => forall|j: int|
                0 <= j < n ==> overlap_of(bbox, (#[trigger] outputs[j]).1) is None,
        },
    decreases n,
{
    if n > 0 {
        lemma_largest(bbox, outputs, n - 1);
    }
}

/// A window whose centre has left its output goes to the first output that the
/// centre is on.
pub proof fn law_goes_where_the_center_goes(
    bbox: Rect,
    center: Point,
    outputs: Seq<(String, Rect)>,
    current: Option<(Seq<char>, Rect)>,
    i: int,
)
    requires
        0 <= i < outputs.len(),
        outputs[i].1.covers(center.x as int, center.y as int),
        forall|j: int|
            0 <= j < i ==> !(#[trigger] outputs[j]).1.covers(center.x as int, center.y as int),
        current matches Some((name, _)) ==> forall|j: int|
            0 <= j < outputs.len() && (#[trigger] outputs[j]).0@ == name ==> !outputs[j].1.covers(
                center.x as int,
                center.y as int,
            ),
    ensures
        sticky_output(bbox, center, outputs, current) matches Some((k, r)) && k == i && (overlap_of(
            bbox,
            outputs[i].1,
        ) matches Some(o) ==> r == o),
{
    lemma_first_under(outputs, center, 0);
    if let Some((name, _)) = current {
        lemma_first_named(outputs, name, 0);
    }
}

/// A window whose centre is on no output stays where it was while it overlaps
/// that output, with its overlap there.
pub proof fn law_stays_while_it_overlaps(
    bbox: Rect,
    center: Point,
    outputs: Seq<(String, Rect)>,
    i: int,
    entered: Rect,
)
    requires
        0 <= i < outputs.len(),
        forall|j: int|
            0 <= j < outputs.len() ==> !(#[trigger] outputs[j]).1.covers(
                center.x as int,
                center.y as int,
            ),
        forall|j: int| 0 <= j < i ==> (#[trigger] outputs[j]).0@ != outputs[i].0@,
        overlap_of(bbox, outputs[i].1) is Some,
    ensures
        sticky_output(bbox, center, outputs, Some((outputs[i].0@, entered))) == Some(
            (i, overlap_of(bbox, outputs[i].1)->0),
        ),
{
    lemma_first_under(outputs, center, 0);
    lemma_first_named(outputs, outputs[i].0@, 0);
}

/// A window whose centre is on no output, and that does not overlap the output it
/// was on, goes where it overlaps most; of several to the first.
pub proof fn law_goes_where_it_overlaps_most(
    bbox: Rect,
    center: Point,
    outputs: Seq<(String, Rect)>,
    current: Option<(Seq<char>, Rect)>,
    j: int,
)
    requires
        0 <= j < outputs.len(),
        overlap_of(bbox, outputs[j].1) is Some,
        forall|i: int|
            0 <= i < outputs.len() ==> !(#[trigger] outputs[i]).1.covers(
                center.x as int,
                center.y as int,
            ),
        current matches Some((name, _)) ==> forall|i: int|
            0 <= i < outputs.len() && (#[trigger] outputs[i]).0@ == name ==> overlap_of(
                bbox,
                outputs[i].1,
            ) is None,
    ensures
        sticky_output(bbox, center, outputs, current) matches Some((k, r)) && 0 <= k
            < outputs.len() && overlap_of(bbox, outputs[k].1) == Some(r) && ({
            let other = overlap_of(bbox, outputs[j].1)->0;
            &&& other.size.w * other.size.h <= r.size.w * r.size.h
            &&& j < k ==> other.size.w * other.size.h < r.size.w * r.size.h
        }),
{
    lemma_first_under(outputs, center, 0);
    lemma_largest(bbox, outputs, outputs.len() as int);
    if let Some((name, _)) = current {
        lemma_first_named(outputs, name, 0);
    }
}

/// A window is on no output only if it was on none that is left, overlaps none
/// and has its centre on none.
pub proof fn law_on_no_output_only_if_nowhere(
    bbox: Rect,
    center: Point,
    outputs: Seq<(String, Rect)>,
    current: Option<(Seq<char>, Rect)>,
)
    requires
        sticky_output(bbox, center, outputs, current) is None,
    ensures
        forall|i: int|
            0 <= i < outputs.len() ==> {
                let o = #[trigger] outputs[i];
                &&& !o.1.covers(center.x as int, center.y as int)
                &&& overlap_of(bbox, o.1) is None
                &&& current matches Some((name, _)) ==> o.0@ != name
            },
{
    lemma_first_under(outputs, center, 0);
    lemma_largest(bbox, outputs, outputs.len() as int);
    if let Some((name, _)) = current {
        lemma_first_named(outputs, name, 0);
    }
}

/// The output a window is now on is one that is left, none that is left has a
/// larger overlap, and of equal ones it is the last.
pub proof fn law_current_has_the_largest_overlap(
    entered: Seq<Named<Rect>>,
    outputs: Seq<(String, Rect)>,
    n: int,
)
    requires
        0 <= n <= entered.len(),
    ensures
        match current_entry(entered, outputs, n) {
            Some(k) => {
                &&& 0 <= k < n
                &&& is_live(outputs, entered[k].name@)
                &&& forall|j: int|
                    0 <= j < n && is_live(outputs, (#[trigger] entered[j]).name@)
                        ==> entered[j].value.size.w * entered[j].value.size.h
                        <= entered[k].value.size.w * entered[k].value.size.h && (j > k
                        ==> entered[j].value.size.w * entered[j].value.size.h
                        < entered[k].value.size.w * entered[k].value.size.h)
            },
            None => forall|j: int|
                0 <= j < n ==> !is_live(outputs, (#[trigger] entered[j]).name@),
        },
    decreases n,
{
    if n > 0 {
        law_current_has_the_largest_overlap(entered, outputs, n - 1);
    }
}

/// An output is left if some output has its name.
pub proof fn law_live_is_among_the_outputs(outputs: Seq<(String, Rect)>, name: Seq<char>)
    ensures
        is_live(outputs, name) <==> exists|i: int|
            0 <= i < outputs.len() && (#[trigger] outputs[i]).0@ == name,
{
    lemma_first_named(outputs, name, 0);
    if is_live(outputs, name) {
        assert(outputs[output_named(outputs, name, 0)->0].0@ == name);
    }
}

/// A window that is bound to an output is on no other, and one of a client that
/// keeps a single output is on one at most.
pub proof fn law_bound_and_single_windows(
    place: WindowPlace,
    entered: Seq<Named<Rect>>,
    outputs: Seq<(String, Rect)>,
    k: int,
)
    requires
        outputs.len() <= usize::MAX,
        0 <= k < place_outputs(place, entered, outputs).len(),
    ensures
        place.allowed matches Some(name) ==> outputs[place_outputs(
            place,
            entered,
            outputs,
        )[k].0 as int].0@ == name@,
        place.allowed is None && place.single_output ==> place_outputs(
            place,
            entered,
            outputs,
        ).len() == 1,
{
    if place.allowed is Some {
        lemma_admitted(place.bbox, outputs, owned_text(place.allowed), outputs.len() as int, k);
    }
}

proof fn lemma_admitted(
    bbox: Rect,
    outputs: Seq<(String, Rect)>,
    allowed: Option<Seq<char>>,
    n: int,
    k: int,
)
    requires
        0 <= n <= outputs.len() <= usize::MAX,
        0 <= k < memberships(bbox, outputs, allowed, n).len(),
    ensures
        ({
            let m = memberships(bbox, outputs, allowed, n)[k];
            m.0 < n && admits(allowed, outputs[m.0 as int].0@)
        }),
    decreases n,
{
    if k < memberships(bbox, outputs, allowed, n - 1).len() {
        lemma_admitted(bbox, outputs, allowed, n - 1, k);
    }
}

/// An unbound window of a client that can keep several outputs is on every output
/// that it overlaps.
pub proof fn law_free_window_is_wherever_it_shows(
    place: WindowPlace,
    entered: Seq<Named<Rect>>,
    outputs: Seq<(String, Rect)>,
    i: int,
)
    requires
        outputs.len() <= usize::MAX,
        place.allowed is None,
        !place.single_output,
        0 <= i < outputs.len(),
    ensures
        (exists|k: int|
            0 <= k < place_outputs(place, entered, outputs).len() && (#[trigger] place_outputs(
                place,
                entered,
                outputs,
            )[k]).0 == i) <==> outputs[i].1.meets(place.bbox),
{
    let all = memberships(place.bbox, outputs, None, outputs.len() as int);
    law_belongs_where_it_overlaps(place.bbox, outputs, None, outputs.len() as int, i);
    assert(place_outputs(place, entered, outputs) == all);
    if outputs[i].1.meets(place.bbox) {
        let k = choose|k: int| 0 <= k < all.len() && (#[trigger] all[k]).0 == i;
        assert(place_outputs(place, entered, outputs)[k].0 == i);
    }
}

/// A client is told that its window leaves exactly those outputs that it was on
/// and is no longer wanted on, and enters exactly those wanted that it was not on
/// with the same overlap.
pub proof fn law_client_is_told_the_change(
    entered: Seq<Named<Rect>>,
    outputs: Seq<(String, Rect)>,
    desired: Seq<(usize, Rect)>,
    n: int,
    name: Seq<char>,
)
    requires
        0 <= n <= entered.len(),
    ensures
        left_names(entered, wanted_map(outputs, desired), n).contains(name) <==> (exists|i: int|
            0 <= i < n && (#[trigger] entered[i]).name@ == name) && !(exists|k: int|
            0 <= k < desired.len() && outputs[(#[trigger] desired[k]).0 as int].0@ == name),
        forall|d: (usize, Rect), was: Map<Seq<char>, Rect>| #[trigger]
            is_entered(was, outputs, d) <==> !was.dom().contains(outputs[d.0 as int].0@)
                || was[outputs[d.0 as int].0@] != d.1,
    decreases n,
{
    let wanted = wanted_map(outputs, desired);
    lemma_wanted_names(outputs, desired, name);
    let all = left_names(entered, wanted, n);
    if n > 0 {
        law_client_is_told_the_change(entered, outputs, desired, n - 1, name);
        let init = left_names(entered, wanted, n - 1);
        if init.contains(name) {
            let k = choose|k: int| 0 <= k < init.len() && init[k] == name;
            assert(all[k] == name);
        }
        if all.contains(name) {
            let k = choose|k: int| 0 <= k < all.len() && all[k] == name;
            if k < init.len() {
                assert(init[k] == name);
            } else {
                assert(entered[n - 1].name@ == name);
            }
        }
        if entered[n - 1].name@ == name && !wanted.dom().contains(name) {
            assert(all[init.len() as int] == name);
        }
    }
}

/// After the change a window is on exactly the wanted outputs, each with the
/// wanted overlap.
pub proof fn law_on_exactly_the_wanted(
    outputs: Seq<(String, Rect)>,
    desired: Seq<(usize, Rect)>,
    name: Seq<char>,
)
    requires
        distinct_wanted(outputs, desired),
    ensures
        wanted_map(outputs, desired).dom().contains(name) <==> exists|k: int|
            0 <= k < desired.len() && outputs[(#[trigger] desired[k]).0 as int].0@ == name,
        forall|k: int|
            0 <= k < desired.len() && outputs[(#[trigger] desired[k]).0 as int].0@ == name
                ==> wanted_map(outputs, desired)[name] == desired[k].1,
{
    lemma_wanted_names(outputs, desired, name);
    assert forall|k: int|
        0 <= k < desired.len() && outputs[(#[trigger] desired[k]).0 as int].0@
            == name implies wanted_map(outputs, desired)[name] == desired[k].1 by {
        lemma_wanted_value(outputs, desired, k);
    }
}

} // verus!
