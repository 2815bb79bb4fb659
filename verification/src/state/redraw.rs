//! What has to be drawn anew, and what keeps the compositor awake.

use crate::blur::cadence::{frame_interval, frame_interval_nanos};
use crate::geometry::{Point, Rect, Size};
use crate::state::edge_pan::passed;
use vstd::prelude::*;

verus! {

/// An output and the part of the canvas that it shows.
#[derive(Clone, Copy, Debug, PartialEq, Eq, Structural)]
pub struct VisibleOutput {
    pub id: u64,
    pub visible: Rect,
}

/// Where a surface is drawn.
#[derive(Clone, Copy, Debug, PartialEq, Eq, Structural)]
pub enum DirtyTarget {
    /// On the canvas, in a rectangle.
    Canvas(Rect),
    /// On one output.
    Output(u64),
    /// Nowhere that is known.
    Unknown,
}

/// A rectangle with a margin on all sides.
pub open spec fn inflated(r: Rect, margin: int) -> Rect {
    Rect {
        loc: Point { x: (r.loc.x - margin) as i32, y: (r.loc.y - margin) as i32 },
        size: Size { w: (r.size.w + 2 * margin) as i32, h: (r.size.h + 2 * margin) as i32 },
    }
}

/// A rectangle with a margin fits the coordinates' type.
pub open spec fn inflation_fits(r: Rect, margin: int) -> bool {
    &&& i32::MIN <= r.loc.x - margin <= i32::MAX
    &&& i32::MIN <= r.loc.y - margin <= i32::MAX
    &&& i32::MIN <= r.size.w + 2 * margin <= i32::MAX
    &&& i32::MIN <= r.size.h + 2 * margin <= i32::MAX
}

/// Where a surface is drawn: with a window, and the margin that its chrome
/// takes; as a widget on the canvas; as a layer on an output; as an output's lock
/// surface. The first that is known counts.
pub fn dirty_target(
    window: Option<Rect>,
    margin: i32,
    widget: Option<Rect>,
    layer_output: Option<u64>,
    lock_output: Option<u64>,
) -> (target: DirtyTarget)
    requires
        window matches Some(r) ==> inflation_fits(r, margin as int),
    ensures
        target == match window {
            Some(r) => DirtyTarget::Canvas(inflated(r, margin as int)),
            None => match widget {
                Some(r) => DirtyTarget::Canvas(r),
                None => match layer_output {
                    Some(o) => DirtyTarget::Output(o),
                    None => match lock_output {
                        Some(o) => DirtyTarget::Output(o),
                        None => DirtyTarget::Unknown,
                    },
                },
            },
        },
{
    if let Some(r) = window {
        let both: i64 = 2 * margin as i64;
        return DirtyTarget::Canvas(
            Rect {
                loc: Point { x: r.loc.x - margin, y: r.loc.y - margin },
                size: Size {
                    w: (r.size.w as i64 + both) as i32,
                    h: (r.size.h as i64 + both) as i32,
                },
            },
        );
    }
    if let Some(r) = widget {
        return DirtyTarget::Canvas(r);
    }
    if let Some(o) = layer_output {
        return DirtyTarget::Output(o);
    }
    match lock_output {
        Some(o) => DirtyTarget::Output(o),
        None => DirtyTarget::Unknown,
    }
}

/// Whether an output has to be drawn anew for a surface.
pub open spec fn shows(target: DirtyTarget, outputs: Seq<VisibleOutput>, id: u64) -> bool {
    match target {
        DirtyTarget::Canvas(r) => exists|i: int|
            0 <= i < outputs.len() && (#[trigger] outputs[i]).id == id && outputs[i].visible.meets(
                r,
            ),
        DirtyTarget::Output(o) => o == id,
        DirtyTarget::Unknown => false,
    }
}

fn holds(ids: &Vec<u64>, id: u64) -> (r: bool)
    ensures
        r == ids@.contains(id),
{
    let mut i: usize = 0;
    while i < ids.len()
        invariant
            i <= ids@.len(),
            forall|k: int| 0 <= k < i ==> ids@[k] != id,
        decreases ids.len() - i,
    {
        if ids[i] == id {
            return true;
        }
        i = i + 1;
    }
    false
}

fn insert_id(ids: &mut Vec<u64>, id: u64)
    ensures
        forall|x: u64| #[trigger] final(ids)@.contains(x) <==> old(ids)@.contains(x) || x == id,
        old(ids)@.no_duplicates() ==> final(ids)@.no_duplicates(),
{
    if !holds(ids, id) {
        let ghost before = ids@;
        ids.push(id);
        assert forall|x: u64| #[trigger] ids@.contains(x) <==> before.contains(x) || x == id by {
            if before.contains(x) {
                let k = choose|k: int| 0 <= k < before.len() && before[k] == x;
                assert(ids@[k] == x);
            }
            if x == id {
                assert(ids@[before.len() as int] == x);
            }
        }
    }
}

/// The outputs that have to be drawn anew.
pub struct Redraws {
    /// Each once.
    pub needed: Vec<u64>,
}

impl Redraws {
    pub open spec fn wf(self) -> bool {
        self.needed@.no_duplicates()
    }

    /// Every active output has to be drawn anew, and no other.
    pub fn mark_all_dirty(&mut self, active: &[u64])
        requires
            active@.no_duplicates(),
        ensures
            final(self).wf(),
            final(self).needed@ == active@,
    {
        self.needed = vstd::slice::slice_to_vec(active);
    }

    /// The outputs that show a surface have to be drawn anew: none, if none shows
    /// it; every active one, if it is not known where it is drawn.
    pub fn mark_dirty_for_surface(
        &mut self,
        target: DirtyTarget,
        outputs: &[VisibleOutput],
        active: &[u64],
    )
        requires
            old(self).wf(),
            active@.no_duplicates(),
        ensures
            final(self).wf(),
            target is Unknown ==> final(self).needed@ == active@,
            !(target is Unknown) ==> forall|id: u64| #[trigger]
                final(self).needed@.contains(id) <==> old(self).needed@.contains(id) || shows(
                    target,
                    outputs@,
                    id,
                ),
    {
        match target {
            DirtyTarget::Unknown => {
                self.mark_all_dirty(active);
            },
            DirtyTarget::Output(o) => {
                insert_id(&mut self.needed, o);
            },
            DirtyTarget::Canvas(r) => {
                let ghost before = self.needed@;
                let mut i: usize = 0;
                while i < outputs.len()
                    invariant
                        i <= outputs@.len(),
                        self.wf(),
                        forall|id: u64| #[trigger]
                            self.needed@.contains(id) <==> before.contains(id) || exists|k: int|
                                0 <= k < i && (#[trigger] outputs@[k]).id == id
                                    && outputs@[k].visible.meets(r),
                    decreases outputs.len() - i,
                {
                    if outputs[i].visible.overlaps(r) {
                        let ghost prev = self.needed@;
                        insert_id(&mut self.needed, outputs[i].id);
                        assert forall|id: u64| #[trigger]
                            self.needed@.contains(id) <==> before.contains(id) || exists|k: int|
                                0 <= k < i + 1 && (#[trigger] outputs@[k]).id == id
                                    && outputs@[k].visible.meets(r) by {
                            assert(self.needed@.contains(id) <==> prev.contains(id) || id
                                == outputs@[i as int].id);
                            if id == outputs@[i as int].id {
                                assert(outputs@[i as int].id == id);
                            }
                        }
                    }
                    i = i + 1;
                }
            },
        }
    }
}

/// Whether an animated background is due: it is one, and it moves with every
/// frame or its last step is long enough ago. Times are in nanoseconds.
pub open spec fn background_due(animated: bool, fps: u32, last: Option<u128>, now: u128) -> bool {
    animated && (fps == 0 || match last {
        None => true,
        Some(t) => passed(t, now) >= frame_interval(fps as int),
    })
}

/// Whether an animated background is due for its next step.
pub fn background_animation_due(
    animated: bool,
    fps: u32,
    last: Option<u128>,
    now: u128,
) -> (due: bool)
    ensures
        due == background_due(animated, fps, last, now),
{
    if !animated {
        return false;
    }
    if fps == 0 {
        return true;
    }
    match last {
        None => true,
        Some(t) => now.saturating_sub(t) >= frame_interval_nanos(fps) as u128,
    }
}

/// An output whose background may be drawn.
#[derive(Clone, Copy, Debug, PartialEq, Eq, Structural)]
pub struct BackgroundOutput {
    pub id: u64,
    /// A fullscreen window hides the canvas.
    pub concealed: bool,
    pub dpms_off: bool,
    /// When its background last moved.
    pub last: Option<u128>,
}

/// The background of an output is drawn: the canvas is not hidden, and the
/// screen is on.
pub open spec fn eligible(o: BackgroundOutput) -> bool {
    !o.concealed && !o.dpms_off
}

/// The active outputs whose background is drawn, by place.
pub fn background_render_eligible_outputs(active: &[BackgroundOutput]) -> (places: Vec<usize>)
    ensures
        places@ == Seq::new(active@.len(), |i: int| i as usize).filter(
            |i: usize| eligible(active@[i as int]),
        ),
{
    let ghost all = Seq::new(active@.len(), |i: int| i as usize);
    let ghost pred = |i: usize| eligible(active@[i as int]);
    let mut places: Vec<usize> = Vec::new();
    let mut i: usize = 0;
    assert(all.subrange(0, 0).filter(pred) =~= Seq::empty()) by {
        reveal(Seq::filter);
    }
    while i < active.len()
        invariant
            i <= active@.len(),
            all == Seq::new(active@.len(), |i: int| i as usize),
            pred == (|i: usize| eligible(active@[i as int])),
            places@ == all.subrange(0, i as int).filter(pred),
        decreases active.len() - i,
    {
        proof {
            let next = all.subrange(0, i + 1);
            assert(next.drop_last() =~= all.subrange(0, i as int));
            assert(next.last() == i);
            reveal(Seq::filter);
        }
        if !active[i].concealed && !active[i].dpms_off {
            places.push(i);
        }
        i = i + 1;
    }
    assert(all.subrange(0, i as int) =~= all);
    places
}

/// Whether the background of an output where it is drawn is due.
pub fn background_animation_due_any(
    active: &[BackgroundOutput],
    animated: bool,
    fps: u32,
    now: u128,
) -> (due: bool)
    ensures
        due == exists|i: int|
            0 <= i < active@.len() && eligible(#[trigger] active@[i]) && background_due(
                animated,
                fps,
                active@[i].last,
                now,
            ),
{
    let mut i: usize = 0;
    while i < active.len()
        invariant
            i <= active@.len(),
            forall|k: int|
                0 <= k < i ==> !(eligible(#[trigger] active@[k]) && background_due(
                    animated,
                    fps,
                    active@[k].last,
                    now,
                )),
        decreases active.len() - i,
    {
        let o = active[i];
        if !o.concealed && !o.dpms_off && background_animation_due(animated, fps, o.last, now) {
            assert(eligible(active@[i as int]));
            return true;
        }
        i = i + 1;
    }
    false
}

/// What moves on an output.
#[derive(Clone, Copy, Debug, PartialEq, Eq, Structural)]
pub struct OutputMotion {
    pub camera_target: bool,
    pub zoom_target: bool,
    pub edge_pan: bool,
    pub momentum: bool,
    /// It shows a window that is animated.
    pub window_animation: bool,
}

impl OutputMotion {
    pub open spec fn active(self) -> bool {
        self.camera_target || self.zoom_target || self.edge_pan || self.momentum
            || self.window_animation
    }

    /// Whether anything moves on the output.
    pub fn output_has_active_animations(&self) -> (r: bool)
        ensures
            r == self.active(),
    {
        self.camera_target || self.zoom_target || self.edge_pan || self.momentum
            || self.window_animation
    }
}

/// What else moves.
#[derive(Clone, Copy, Debug, PartialEq, Eq, Structural)]
pub struct OtherMotion {
    pub held_action: bool,
    /// The loading cursor is to be shown or taken away.
    pub exec_cursor: bool,
    pub cursor_animated: bool,
    pub window_animations: bool,
    pub closing_snapshots: usize,
    pub standin_fades: usize,
    pub resize_crossfades: usize,
}

impl OtherMotion {
    pub open spec fn active(self) -> bool {
        self.held_action || self.exec_cursor || self.cursor_animated || self.window_animations
            || self.closing_snapshots > 0 || self.standin_fades > 0 || self.resize_crossfades > 0
    }
}

/// Whether anything moves at all.
pub fn has_active_animations(outputs: &[OutputMotion], other: &OtherMotion) -> (r: bool)
    ensures
        r == (other.active() || exists|i: int|
            0 <= i < outputs@.len() && (#[trigger] outputs@[i]).active()),
{
    let mut i: usize = 0;
    while i < outputs.len()
        invariant
            i <= outputs@.len(),
            forall|k: int| 0 <= k < i ==> !(#[trigger] outputs@[k]).active(),
        decreases outputs.len() - i,
    {
        if outputs[i].output_has_active_animations() {
            assert(outputs@[i as int].active());
            return true;
        }
        i = i + 1;
    }
    other.held_action || other.exec_cursor || other.cursor_animated || other.window_animations
        || other.closing_snapshots > 0 || other.standin_fades > 0 || other.resize_crossfades > 0
}

/// The margin of a window's chrome only ever adds outputs that have to be drawn
/// anew.
pub proof fn law_margin_only_adds(r: Rect, margin: int, visible: Rect)
    requires
        margin >= 0,
        r.valid(),
        inflation_fits(r, margin),
        visible.meets(r),
    ensures
        visible.meets(inflated(r, margin)),
{
}

/// A margin goes on all sides.
pub proof fn law_margin_goes_all_round(r: Rect, margin: int)
    requires
        inflation_fits(r, margin),
    ensures
        ({
            let i = inflated(r, margin);
            &&& i.loc.x == r.loc.x - margin && i.loc.y == r.loc.y - margin
            &&& i.loc.x + i.size.w == r.loc.x + r.size.w + margin
            &&& i.loc.y + i.size.h == r.loc.y + r.size.h + margin
        }),
{
}

/// What is on the canvas is drawn anew by every output that shows a part of its
/// place, and by no other; what is on an output by that one alone.
pub proof fn law_outputs_that_show_it_are_drawn(
    r: Rect,
    o: u64,
    outputs: Seq<VisibleOutput>,
    i: int,
    id: u64,
)
    requires
        0 <= i < outputs.len(),
        forall|j: int|
            0 <= j < outputs.len() && (#[trigger] outputs[j]).id == outputs[i].id ==> j == i,
    ensures
        shows(DirtyTarget::Canvas(r), outputs, outputs[i].id) <==> outputs[i].visible.meets(r),
        shows(DirtyTarget::Output(o), outputs, id) <==> o == id,
        !shows(DirtyTarget::Unknown, outputs, id),
{
    if outputs[i].visible.meets(r) {
        assert(outputs[i].id == outputs[i].id);
    }
}

/// A background that does not move is never due. One that moves with every frame,
/// or has not moved yet, always is; else it is due once its interval has passed.
pub proof fn law_background_moves_at_its_rate(fps: u32, last: u128, now: u128)
    ensures
        !background_due(false, fps, Some(last), now),
        !background_due(false, fps, None, now),
        background_due(true, 0, Some(last), now),
        background_due(true, fps, None, now),
        fps > 0 && now >= last ==> (background_due(true, fps, Some(last), now) <==> now - last
            >= frame_interval(fps as int)),
        fps > 0 && now < last && frame_interval(fps as int) > 0 ==> !background_due(
            true,
            fps,
            Some(last),
            now,
        ),
        fps > 0 ==> -fps <= 2 * (frame_interval(fps as int) * fps - 1_000_000_000) <= fps,
{
    if fps > 0 {
        let i = frame_interval(fps as int);
        let d = 1_000_000_000int / fps as int;
        let r = 1_000_000_000int % fps as int;
        vstd::arithmetic::div_mod::lemma_fundamental_div_mod(1_000_000_000, fps as int);
        assert(d * fps == fps * d && (d + 1) * fps == fps * d + fps) by (nonlinear_arith);
    }
}

/// A background is drawn unless the canvas is hidden or the screen is off.
pub proof fn law_backgrounds_are_drawn_where_seen(o: BackgroundOutput)
    ensures
        o.concealed || o.dpms_off ==> !eligible(o),
        !o.concealed && !o.dpms_off ==> eligible(o),
{
}

/// Whatever moves keeps the compositor awake; if nothing does, nothing does.
pub proof fn law_any_motion_keeps_awake(m: OutputMotion, o: OtherMotion)
    ensures
        m.camera_target ==> m.active(),
        m.zoom_target ==> m.active(),
        m.edge_pan ==> m.active(),
        m.momentum ==> m.active(),
        m.window_animation ==> m.active(),
        !m.camera_target && !m.zoom_target && !m.edge_pan && !m.momentum && !m.window_animation
            ==> !m.active(),
        o.held_action ==> o.active(),
        o.exec_cursor ==> o.active(),
        o.cursor_animated ==> o.active(),
        o.window_animations ==> o.active(),
        o.closing_snapshots > 0 ==> o.active(),
        o.standin_fades > 0 ==> o.active(),
        o.resize_crossfades > 0 ==> o.active(),
        !o.held_action && !o.exec_cursor && !o.cursor_animated && !o.window_animations
            && o.closing_snapshots == 0 && o.standin_fades == 0 && o.resize_crossfades == 0
            ==> !o.active(),
{
}

} // verus!
