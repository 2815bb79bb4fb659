//! Captures of what an output shows: which requests a frame serves, what they
//! are rendered from, and how they are answered.

use crate::geometry::{Size, min_of, min_usize};
use crate::names::NamedMap;
use vstd::prelude::*;
use vstd::string::StringExecFns;

verus! {

/// Idle time after which a capture's texture is given up, in nanoseconds.
pub const CAPTURE_MAX_IDLE: u128 = 5_000_000_000;

/// Where a request's pixels go.
#[derive(Clone, Copy, Debug, PartialEq, Eq, Structural)]
pub enum CaptureTarget {
    /// Rendered straight into the client's buffer.
    Dmabuf,
    /// Rendered off-screen and copied.
    Shm,
}

/// A client's request for an output's picture.
pub struct CaptureRequest<R> {
    /// The output it is for.
    pub output: u64,
    pub buffer_size: Size,
    pub paint_cursors: bool,
    pub target: CaptureTarget,
    /// What the answer is sent through.
    pub reply: R,
}

/// How a request is served.
pub struct CapturePlan<R> {
    pub request: CaptureRequest<R>,
    /// Positions of the frame elements it shows.
    pub elements: Vec<usize>,
    /// It covers the whole output, so it continues from the frame before.
    pub persistent: bool,
}

/// `s` without its entry `i`, whose place the last one takes.
pub open spec fn swapped_out<A>(s: Seq<A>, i: int) -> Seq<A> {
    s.update(i, s.last()).drop_last()
}

/// The requests for an output, in the order they are taken, searching from `i`.
pub open spec fn taken<R>(
    pending: Seq<CaptureRequest<R>>,
    output: u64,
    i: int,
) -> Seq<CaptureRequest<R>>
    decreases pending.len() - i,
{
    if i < 0 || i >= pending.len() {
        Seq::empty()
    } else if pending[i].output == output {
        seq![pending[i]] + taken(swapped_out(pending, i), output, i)
    } else {
        taken(pending, output, i + 1)
    }
}

/// The requests left after that.
pub open spec fn left<R>(pending: Seq<CaptureRequest<R>>, output: u64, i: int) -> Seq<
    CaptureRequest<R>,
>
    decreases pending.len() - i,
{
    if i < 0 || i >= pending.len() {
        pending
    } else if pending[i].output == output {
        left(swapped_out(pending, i), output, i)
    } else {
        left(pending, output, i + 1)
    }
}

/// Takes the requests for an output out of the pending ones.
pub fn take_for_output<R>(pending: &mut Vec<CaptureRequest<R>>, output: u64) -> (mine: Vec<
    CaptureRequest<R>,
>)
    ensures
        mine@ == taken(old(pending)@, output, 0),
        final(pending)@ == left(old(pending)@, output, 0),
{
    let ghost all = pending@;
    let mut mine: Vec<CaptureRequest<R>> = Vec::new();
    let mut i: usize = 0;
    assert(mine@ + taken(pending@, output, 0) =~= taken(all, output, 0));
    while i < pending.len()
        invariant
            i <= pending@.len(),
            mine@ + taken(pending@, output, i as int) =~= taken(all, output, 0),
            left(pending@, output, i as int) == left(all, output, 0),
        decreases pending@.len() - i,
    {
        let ghost before = pending@;
        let ghost so_far = mine@;
        if pending[i].output == output {
            let r = pending.swap_remove(i);
            assert(pending@ =~= swapped_out(before, i as int));
            mine.push(r);
            assert(so_far + taken(before, output, i as int) =~= mine@ + taken(
                pending@,
                output,
                i as int,
            ));
        } else {
            i = i + 1;
        }
    }
    assert(taken(pending@, output, i as int) =~= Seq::empty());
    assert(mine@ =~= taken(all, output, 0));
    mine
}

/// Positions of the elements a capture shows: all of them, or all but the
/// cursor's.
pub open spec fn captured_positions(is_cursor: Seq<bool>, paint_cursors: bool) -> Seq<usize>
    decreases is_cursor.len(),
{
    if is_cursor.len() == 0 {
        Seq::empty()
    } else {
        let init = captured_positions(is_cursor.drop_last(), paint_cursors);
        if paint_cursors || !is_cursor.last() {
            init.push((is_cursor.len() - 1) as usize)
        } else {
            init
        }
    }
}

pub fn capture_elements(is_cursor: &[bool], paint_cursors: bool) -> (positions: Vec<usize>)
    ensures
        positions@ == captured_positions(is_cursor@, paint_cursors),
{
    let mut out: Vec<usize> = Vec::new();
    let mut i: usize = 0;
    while i < is_cursor.len()
        invariant
            i <= is_cursor.len(),
            out@ =~= captured_positions(is_cursor@.subrange(0, i as int), paint_cursors),
        decreases is_cursor.len() - i,
    {
        let ghost next = is_cursor@.subrange(0, i + 1);
        assert(next.drop_last() =~= is_cursor@.subrange(0, i as int));
        if paint_cursors || !is_cursor[i] {
            out.push(i);
        }
        i = i + 1;
    }
    assert(is_cursor@.subrange(0, i as int) =~= is_cursor@);
    out
}

pub open spec fn plan_of<R>(
    plan: CapturePlan<R>,
    request: CaptureRequest<R>,
    is_cursor: Seq<bool>,
    mode_size: Size,
) -> bool {
    &&& plan.request == request
    &&& plan.elements@ == captured_positions(is_cursor, request.paint_cursors)
    &&& plan.persistent == (request.buffer_size == mode_size)
}

/// The extent of an output whose mode has this one, as it is turned.
pub open spec fn as_turned(mode_size: Size, quarter_turned: bool) -> Size {
    if quarter_turned {
        Size { w: mode_size.h, h: mode_size.w }
    } else {
        mode_size
    }
}

/// How the pending requests for an output are served from its frame, in order.
/// The others stay pending. A request of extent `whole` is for all of it.
fn serve<R>(
    pending: &mut Vec<CaptureRequest<R>>,
    output: u64,
    is_cursor: &[bool],
    whole: Size,
) -> (plans: Vec<CapturePlan<R>>)
    ensures
        final(pending)@ == left(old(pending)@, output, 0),
        plans@.len() == taken(old(pending)@, output, 0).len(),
        forall|i: int|
            0 <= i < plans@.len() ==> plan_of(
                #[trigger] plans@[i],
                taken(old(pending)@, output, 0)[i],
                is_cursor@,
                whole,
            ),
{
    let mine = take_for_output(pending, output);
    let ghost all = mine@;
    let mut plans: Vec<CapturePlan<R>> = Vec::new();
    for request in it: mine
        invariant
            it.seq() == all,
            plans@.len() == it.index(),
            forall|i: int|
                0 <= i < plans@.len() ==> plan_of(
                    #[trigger] plans@[i],
                    all[i],
                    is_cursor@,
                    whole,
                ),
    {
        let elements = capture_elements(is_cursor, request.paint_cursors);
        let persistent = request.buffer_size == whole;
        plans.push(CapturePlan { request, elements, persistent });
    }
    plans
}

/// How the pending image copy requests for an output are served from its frame,
/// in order. The others stay pending. Their buffers are turned as the output
/// is; `mode_size` is the extent of its mode, before it is turned.
pub fn render_capture_frames<R>(
    pending: &mut Vec<CaptureRequest<R>>,
    output: u64,
    is_cursor: &[bool],
    mode_size: Size,
    quarter_turned: bool,
) -> (plans: Vec<CapturePlan<R>>)
    ensures
        final(pending)@ == left(old(pending)@, output, 0),
        plans@.len() == taken(old(pending)@, output, 0).len(),
        forall|i: int|
            0 <= i < plans@.len() ==> plan_of(
                #[trigger] plans@[i],
                taken(old(pending)@, output, 0)[i],
                is_cursor@,
                as_turned(mode_size, quarter_turned),
            ),
{
    let whole = if quarter_turned {
        Size { w: mode_size.h, h: mode_size.w }
    } else {
        mode_size
    };
    serve(pending, output, is_cursor, whole)
}

/// How the pending screencopy requests for an output are served from its frame,
/// in order. The others stay pending. Their buffers have the extent of the
/// output's mode, before it is turned.
pub fn render_screencopy<R>(
    pending: &mut Vec<CaptureRequest<R>>,
    output: u64,
    is_cursor: &[bool],
    mode_size: Size,
) -> (plans: Vec<CapturePlan<R>>)
    ensures
        final(pending)@ == left(old(pending)@, output, 0),
        plans@.len() == taken(old(pending)@, output, 0).len(),
        forall|i: int|
            0 <= i < plans@.len() ==> plan_of(
                #[trigger] plans@[i],
                taken(old(pending)@, output, 0)[i],
                is_cursor@,
                mode_size,
            ),
{
    serve(pending, output, is_cursor, mode_size)
}

/// The protocols that capture outputs.
#[derive(Clone, Copy, Debug, PartialEq, Eq, Structural)]
pub enum CaptureProtocol {
    Screencopy,
    ImageCopy,
}

/// The key of what is kept for a protocol and an output.
pub open spec fn key_of(protocol: CaptureProtocol, output: Seq<char>) -> Seq<char> {
    match protocol {
        CaptureProtocol::Screencopy => "sc:"@ + output,
        CaptureProtocol::ImageCopy => "cap:"@ + output,
    }
}

/// The key of what is kept for a protocol and an output.
pub fn capture_key(protocol: CaptureProtocol, output: &str) -> (key: String)
    ensures
        key@ == key_of(protocol, output@),
{
    let mut key = match protocol {
        CaptureProtocol::Screencopy => String::from_str("sc:"),
        CaptureProtocol::ImageCopy => String::from_str("cap:"),
    };
    key.append(output);
    key
}

/// What is kept for an output goes with it, whatever the protocol: the key ends
/// with the output's name after a colon.
pub proof fn law_keys_end_with_the_output(protocol: CaptureProtocol, output: Seq<char>)
    ensures
        crate::text::ends_with(key_of(protocol, output), seq![':'] + output),
{
    reveal_strlit("sc:");
    reveal_strlit("cap:");
    let key = key_of(protocol, output);
    let suffix = seq![':'] + output;
    assert(key.subrange(key.len() - suffix.len(), key.len() as int) =~= suffix);
}

/// What is kept between captures of one output and protocol.
pub struct CaptureOutputState<T> {
    pub offscreen_texture: Option<(T, Size)>,
    /// Frames since the texture's content began; 0 renders everything.
    pub age: usize,
    pub last_paint_cursors: bool,
    /// When it was last rendered into, in nanoseconds.
    pub last_used: u128,
}

impl<T> CaptureOutputState<T> {
    /// A texture of this extent can be rendered into again.
    pub fn texture_fits(&self, size: Size) -> (fits: bool)
        ensures
            fits == (self.offscreen_texture matches Some(t) && t.1 == size),
    {
        match &self.offscreen_texture {
            Some(t) => t.1 == size,
            None => false,
        }
    }

    /// Takes a new texture. Nothing is known of its content.
    pub fn replace_texture(&mut self, texture: T, size: Size)
        ensures
            *final(self) == (CaptureOutputState {
                offscreen_texture: Some((texture, size)),
                age: 0,
                ..*old(self)
            }),
    {
        self.offscreen_texture = Some((texture, size));
        self.age = 0;
    }

    /// A frame was rendered.
    pub fn rendered(&mut self, now: u128)
        requires
            old(self).age < usize::MAX,
        ensures
            *final(self) == (CaptureOutputState {
                age: (old(self).age + 1) as usize,
                last_used: now,
                ..*old(self)
            }),
    {
        self.age = self.age + 1;
        self.last_used = now;
    }
}

/// The state a whole-output capture continues from: a new one, or the one held,
/// which starts over where the cursor comes or goes.
pub open spec fn continued<T>(
    held: Option<CaptureOutputState<T>>,
    paint_cursors: bool,
    now: u128,
) -> CaptureOutputState<T> {
    match held {
        Some(cs) => if cs.last_paint_cursors != paint_cursors {
            CaptureOutputState { age: 0, last_paint_cursors: paint_cursors, ..cs }
        } else {
            cs
        },
        None => CaptureOutputState {
            offscreen_texture: None,
            age: 0,
            last_paint_cursors: paint_cursors,
            last_used: now,
        },
    }
}

/// The state of a key, if it is held.
pub open spec fn held_state<T>(
    states: Map<Seq<char>, CaptureOutputState<T>>,
    key: Seq<char>,
) -> Option<CaptureOutputState<T>> {
    if states.dom().contains(key) {
        Some(states[key])
    } else {
        None
    }
}

/// Gets or creates the state of an output and protocol, and returns its place.
pub fn get_capture_state<T>(
    states: &mut NamedMap<CaptureOutputState<T>>,
    key: String,
    paint_cursors: bool,
    now: u128,
) -> (at: usize)
    requires
        old(states).wf(),
    ensures
        final(states).wf(),
        at < final(states).entries@.len(),
        final(states).entries@[at as int].name@ == key@,
        final(states).entries@[at as int].value == continued(
            held_state(old(states)@, key@),
            paint_cursors,
            now,
        ),
        final(states)@ == old(states)@.insert(
            key@,
            continued(held_state(old(states)@, key@), paint_cursors, now),
        ),
{
    let ghost name = key@;
    match states.position(key.as_str()) {
        Some(i) => {
            if states.entries[i].value.last_paint_cursors != paint_cursors {
                states.set_capture_cursors(i, paint_cursors);
                i
            } else {
                assert(states@ =~= states@.insert(name, states@[name]));
                i
            }
        },
        None => {
            let at: usize = states.entries.len();
            states.push_new(
                key,
                CaptureOutputState {
                    offscreen_texture: None,
                    age: 0,
                    last_paint_cursors: paint_cursors,
                    last_used: now,
                },
            );
            at
        },
    }
}

impl<T> NamedMap<CaptureOutputState<T>> {
    /// Starts a capture over because the cursor came or went.
    fn set_capture_cursors(&mut self, i: usize, paint_cursors: bool)
        requires
            old(self).wf(),
            i < old(self).entries@.len(),
        ensures
            final(self).wf(),
            final(self).entries@.len() == old(self).entries@.len(),
            final(self).entries@[i as int].name@ == old(self).entries@[i as int].name@,
            final(self).entries@[i as int].value == (CaptureOutputState {
                age: 0,
                last_paint_cursors: paint_cursors,
                ..old(self).entries@[i as int].value
            }),
            final(self)@ == old(self)@.insert(
                old(self).entries@[i as int].name@,
                final(self).entries@[i as int].value,
            ),
    {
        let ghost before = self.entries@;
        self.entries[i].value.age = 0;
        self.entries[i].value.last_paint_cursors = paint_cursors;
        proof {
            crate::names::lemma_update(before, self.entries@, i as int);
        }
    }
}

/// Drops the states that have gone unused for too long.
pub fn evict_idle_capture_state<T>(states: &mut NamedMap<CaptureOutputState<T>>, now: u128)
    requires
        old(states).wf(),
    ensures
        final(states).wf(),
        forall|key: Seq<char>| #[trigger]
            final(states)@.dom().contains(key) <==> old(states)@.dom().contains(key) && now
                - old(states)@[key].last_used <= CAPTURE_MAX_IDLE,
        forall|key: Seq<char>| #[trigger]
            final(states)@.dom().contains(key) ==> final(states)@[key] == old(states)@[key],
{
    let ghost all = states@;
    let mut i: usize = 0;
    while i < states.entries.len()
        invariant
            i <= states.entries@.len(),
            states.wf(),
            forall|key: Seq<char>| #[trigger]
                states@.dom().contains(key) ==> all.dom().contains(key) && states@[key] == all[key],
            forall|key: Seq<char>|
                all.dom().contains(key) && !(#[trigger] states@.dom().contains(key)) ==> now
                    - all[key].last_used > CAPTURE_MAX_IDLE,
            forall|k: int|
                0 <= k < i ==> now - (#[trigger] states.entries@[k]).value.last_used
                    <= CAPTURE_MAX_IDLE,
        decreases states.entries.len() - i,
    {
        let last_used: u128 = states.entries[i].value.last_used;
        proof {
            crate::names::lemma_entry(states.entries@, i as int);
        }
        if now > last_used && now - last_used > CAPTURE_MAX_IDLE {
            states.remove_at(i);
        } else {
            i = i + 1;
        }
    }
    proof {
        assert forall|key: Seq<char>| #[trigger] states@.dom().contains(key) implies now
            - all[key].last_used <= CAPTURE_MAX_IDLE by {
            let k = crate::names::lemma_find(states.entries@, key);
            crate::names::lemma_entry(states.entries@, k);
        }
    }
}

/// Drops the states of an output: those whose key ends with its name after a
/// colon.
pub fn remove_capture_state<T>(states: &mut NamedMap<CaptureOutputState<T>>, suffix: &Vec<char>)
    requires
        old(states).wf(),
    ensures
        final(states).wf(),
        forall|key: Seq<char>| #[trigger]
            final(states)@.dom().contains(key) <==> old(states)@.dom().contains(key)
                && !crate::text::ends_with(key, suffix@),
        forall|key: Seq<char>| #[trigger]
            final(states)@.dom().contains(key) ==> final(states)@[key] == old(states)@[key],
{
    let ghost all = states@;
    let mut i: usize = 0;
    while i < states.entries.len()
        invariant
            i <= states.entries@.len(),
            states.wf(),
            forall|key: Seq<char>| #[trigger]
                states@.dom().contains(key) ==> all.dom().contains(key) && states@[key] == all[key],
            forall|key: Seq<char>|
                all.dom().contains(key) && !(#[trigger] states@.dom().contains(key))
                    ==> crate::text::ends_with(key, suffix@),
            forall|k: int|
                0 <= k < i ==> !crate::text::ends_with(
                    (#[trigger] states.entries@[k]).name@,
                    suffix@,
                ),
        decreases states.entries.len() - i,
    {
        let name = crate::text::chars_of(states.entries[i].name.as_str());
        if crate::text::has_suffix(name.as_slice(), suffix.as_slice()) {
            states.remove_at(i);
        } else {
            i = i + 1;
        }
    }
    proof {
        assert forall|key: Seq<char>| #[trigger]
            states@.dom().contains(key) implies !crate::text::ends_with(key, suffix@) by {
            let k = crate::names::lemma_find(states.entries@, key);
        }
    }
}

/// A capture's presentation time as the protocols carry it.
#[derive(Clone, Copy, Debug, PartialEq, Eq, Structural)]
pub struct PresentationTime {
    pub secs_hi: u32,
    pub secs_lo: u32,
    pub nanos: u32,
}

/// Splits the seconds into two halves.
pub fn presentation_time(secs: u64, nanos: u32) -> (t: PresentationTime)
    ensures
        t.secs_hi * 0x1_0000_0000 + t.secs_lo == secs,
        t.nanos == nanos,
{
    PresentationTime {
        secs_hi: (secs / 0x1_0000_0000) as u32,
        secs_lo: (secs % 0x1_0000_0000) as u32,
        nanos,
    }
}

/// How rendering and delivering a capture went.
#[derive(Clone, Copy, Debug, PartialEq, Eq, Structural)]
pub enum CaptureEvent {
    RenderFailed,
    /// Rendered, but waiting for the buffer or copying into it failed.
    DeliveryFailed,
    Delivered,
}

/// What the client is told.
#[derive(Clone, Copy, Debug, PartialEq, Eq, Structural)]
pub enum CaptureReply {
    Failed,
    /// The whole buffer changed, at this time.
    Ready { damage: Size, time: PresentationTime },
}

/// The answer to a capture.
pub fn capture_reply(event: CaptureEvent, buffer_size: Size, secs: u64, nanos: u32) -> (reply:
    CaptureReply)
    ensures
        match reply {
            CaptureReply::Failed => event != CaptureEvent::Delivered,
            CaptureReply::Ready { damage, time } => {
                &&& event == CaptureEvent::Delivered
                &&& damage == buffer_size
                &&& time.secs_hi * 0x1_0000_0000 + time.secs_lo == secs
                &&& time.nanos == nanos
            },
        },
{
    match event {
        CaptureEvent::Delivered => CaptureReply::Ready {
            damage: buffer_size,
            time: presentation_time(secs, nanos),
        },
        _ => CaptureReply::Failed,
    }
}

/// Bytes to copy from a rendered picture into a client's buffer: no more than
/// either holds.
pub fn copy_len(buffer_len: usize, picture_len: usize) -> (n: usize)
    ensures
        n == min_of(buffer_len as int, picture_len as int),
{
    min_usize(buffer_len, picture_len)
}

/// A client's request for a window's picture.
pub struct ExportRequest<R> {
    pub window: u64,
    pub buffer_size: Size,
    pub target: CaptureTarget,
    pub reply: R,
}

/// Takes all export requests, split into those to render, in order, and those
/// that fail at once for want of an area.
pub fn render_hyprland_toplevel_exports<R>(pending: Vec<ExportRequest<R>>) -> (split: (
    Vec<ExportRequest<R>>,
    Vec<ExportRequest<R>>,
))
    ensures
        split.0@ == pending@.filter(|e: ExportRequest<R>| e.buffer_size.positive()),
        split.1@ == pending@.filter(|e: ExportRequest<R>| !e.buffer_size.positive()),
{
    let ghost all = pending@;
    let ghost good = |e: ExportRequest<R>| e.buffer_size.positive();
    let ghost bad = |e: ExportRequest<R>| !e.buffer_size.positive();
    let mut render: Vec<ExportRequest<R>> = Vec::new();
    let mut fail: Vec<ExportRequest<R>> = Vec::new();
    assert(all.subrange(0, 0).filter(good) =~= Seq::empty() && all.subrange(0, 0).filter(bad)
        =~= Seq::empty()) by {
        reveal(Seq::filter);
    }
    for e in it: pending
        invariant
            it.seq() == all,
            good == (|e: ExportRequest<R>| e.buffer_size.positive()),
            bad == (|e: ExportRequest<R>| !e.buffer_size.positive()),
            render@ =~= all.subrange(0, it.index() as int).filter(good),
            fail@ =~= all.subrange(0, it.index() as int).filter(bad),
    {
        proof {
            let next = all.subrange(0, it.index() + 1);
            assert(next.drop_last() =~= all.subrange(0, it.index() as int));
            assert(next.last() == e);
            reveal(Seq::filter);
        }
        if e.buffer_size.w <= 0 || e.buffer_size.h <= 0 {
            fail.push(e);
        } else {
            render.push(e);
        }
    }
    assert(all.subrange(0, all.len() as int) =~= all);
    (render, fail)
}

/// Serving an output takes all of its requests and no others.
pub proof fn law_serving_takes_own_requests<R>(
    pending: Seq<CaptureRequest<R>>,
    output: u64,
    i: int,
)
    requires
        0 <= i <= pending.len(),
        forall|k: int| 0 <= k < i ==> (#[trigger] pending[k]).output != output,
    ensures
        forall|k: int|
            0 <= k < taken(pending, output, i).len() ==> (#[trigger] taken(
                pending,
                output,
                i,
            )[k]).output == output,
        forall|k: int|
            0 <= k < left(pending, output, i).len() ==> (#[trigger] left(
                pending,
                output,
                i,
            )[k]).output != output,
        taken(pending, output, i).to_multiset().add(left(pending, output, i).to_multiset())
            == pending.to_multiset(),
    decreases pending.len() - i,
{
    broadcast use vstd::seq_lib::group_to_multiset_ensures;

    if i < pending.len() {
        if pending[i].output == output {
            let rest = swapped_out(pending, i);
            law_serving_takes_own_requests(rest, output, i);
            let t = taken(rest, output, i);
            let l = left(rest, output, i);
            lemma_swapped_multiset(pending, i);
            vstd::seq_lib::lemma_multiset_commutative(seq![pending[i]], t);
            let one = seq![pending[i]].to_multiset();
            lemma_single_multiset(pending[i]);
            assert(taken(pending, output, i) == seq![pending[i]] + t);
            assert(taken(pending, output, i).to_multiset().add(l.to_multiset())
                =~= pending.to_multiset());
        } else {
            law_serving_takes_own_requests(pending, output, i + 1);
        }
    } else {
        assert(taken(pending, output, i).to_multiset().add(pending.to_multiset())
            =~= pending.to_multiset());
    }
}

pub(crate) proof fn lemma_single_multiset<A>(a: A)
    ensures
        seq![a].to_multiset() =~= vstd::multiset::Multiset::singleton(a),
{
    broadcast use vstd::seq_lib::group_to_multiset_ensures;

    assert(seq![a] =~= Seq::<A>::empty().push(a));
    assert(Seq::<A>::empty().to_multiset() =~= vstd::multiset::Multiset::empty());
}

pub(crate) proof fn lemma_swapped_multiset<A>(s: Seq<A>, i: int)
    requires
        0 <= i < s.len(),
    ensures
        swapped_out(s, i).to_multiset().insert(s[i]) =~= s.to_multiset(),
{
    broadcast use vstd::seq_lib::group_to_multiset_ensures;

    let init = s.drop_last();
    assert(s =~= init.push(s.last()));
    if i == s.len() - 1 {
        assert(swapped_out(s, i) =~= init);
    } else {
        assert(swapped_out(s, i) =~= init.update(i, s.last()));
        assert(init.update(i, s.last()).to_multiset() =~= init.to_multiset().insert(
            s.last(),
        ).remove(init[i]));
    }
}

/// A capture shows every element of the frame, in order, but for the cursor's
/// where it is to be left out.
pub proof fn law_capture_shows_all_but_the_cursor(is_cursor: Seq<bool>, paint_cursors: bool)
    requires
        is_cursor.len() <= usize::MAX,
    ensures
        ({
            let shown = captured_positions(is_cursor, paint_cursors);
            &&& forall|k: int|
                0 <= k < shown.len() ==> (#[trigger] shown[k]) < is_cursor.len() && (paint_cursors
                    || !is_cursor[shown[k] as int])
            &&& forall|j: int, k: int|
                0 <= j < k < shown.len() ==> (#[trigger] shown[j]) < (#[trigger] shown[k])
            &&& forall|p: usize|
                p < is_cursor.len() && (paint_cursors || !is_cursor[p as int])
                    ==> #[trigger] shown.contains(p)
        }),
    decreases is_cursor.len(),
{
    if is_cursor.len() > 0 {
        let rest = is_cursor.drop_last();
        law_capture_shows_all_but_the_cursor(rest, paint_cursors);
        let init = captured_positions(rest, paint_cursors);
        let shown = captured_positions(is_cursor, paint_cursors);
        assert forall|p: usize|
            p < is_cursor.len() && (paint_cursors
                || !is_cursor[p as int]) implies #[trigger] shown.contains(p) by {
            if p < rest.len() {
                assert(init.contains(p));
                let k = choose|k: int| 0 <= k < init.len() && init[k] == p;
                assert(shown[k] == p);
            } else {
                assert(shown[init.len() as int] == p);
            }
        }
    }
}

/// A plan serves its request as it is, and continues from the frame before exactly
/// if the request is for the whole output.
pub proof fn law_plan_serves_its_request<R>(
    plan: CapturePlan<R>,
    request: CaptureRequest<R>,
    is_cursor: Seq<bool>,
    whole: Size,
    p: usize,
)
    requires
        plan_of(plan, request, is_cursor, whole),
        is_cursor.len() <= usize::MAX,
        p < is_cursor.len(),
    ensures
        plan.request == request,
        plan.persistent <==> request.buffer_size.w == whole.w && request.buffer_size.h == whole.h,
        plan.elements@.contains(p) <==> request.paint_cursors || !is_cursor[p as int],
{
    law_capture_shows_all_but_the_cursor(is_cursor, request.paint_cursors);
}

/// A quarter turn exchanges width and height, and another turns them back.
pub proof fn law_quarter_turns_exchange_sides(size: Size)
    ensures
        as_turned(size, true).w == size.h,
        as_turned(size, true).h == size.w,
        as_turned(as_turned(size, true), true) == size,
        as_turned(size, false) == size,
{
}

/// No two pairs of a protocol and an output have the same key.
pub proof fn law_keys_are_distinct(
    p: CaptureProtocol,
    a: Seq<char>,
    q: CaptureProtocol,
    b: Seq<char>,
)
    requires
        key_of(p, a) == key_of(q, b),
    ensures
        p == q,
        a == b,
{
    reveal_strlit("sc:");
    reveal_strlit("cap:");
    let first = |k: CaptureProtocol|
        if k is Screencopy {
            's'
        } else {
            'c'
        };
    assert(key_of(p, a)[0] == first(p));
    assert(key_of(q, b)[0] == first(q));
    assert(p == q);
    let n: int = if p is Screencopy {
        3
    } else {
        4
    };
    assert(key_of(p, a).subrange(n, key_of(p, a).len() as int) =~= a);
    assert(key_of(q, b).subrange(n, key_of(q, b).len() as int) =~= b);
}

/// A capture continues from what is held as it is, unless the cursor comes or
/// goes: then all of it is rendered anew, into the same texture. With nothing held
/// it starts from nothing.
pub proof fn law_capture_continues<T>(
    held: CaptureOutputState<T>,
    paint_cursors: bool,
    now: u128,
)
    ensures
        ({
            let next = continued(Some(held), paint_cursors, now);
            &&& next.last_paint_cursors == paint_cursors
            &&& next.offscreen_texture == held.offscreen_texture
            &&& next.last_used == held.last_used
            &&& next.age == if held.last_paint_cursors == paint_cursors {
                held.age
            } else {
                0
            }
        }),
        ({
            let fresh = continued(None::<CaptureOutputState<T>>, paint_cursors, now);
            &&& fresh.offscreen_texture is None
            &&& fresh.age == 0
            &&& fresh.last_paint_cursors == paint_cursors
            &&& fresh.last_used == now
        }),
{
}

/// A state is held for a key exactly if the map has the key.
pub proof fn law_held_states_are_found<T>(
    states: Map<Seq<char>, CaptureOutputState<T>>,
    key: Seq<char>,
)
    ensures
        states.dom().contains(key) ==> held_state(states, key) == Some(states[key]),
        !states.dom().contains(key) ==> held_state(states, key) is None,
{
}

} // verus!
