//! Windows pinned to a place on an output's screen.

use crate::geometry::{Point, Size, clamp_of, max_of};
use crate::text::same_text;
use vstd::prelude::*;

verus! {

/// The frame that a window wears: a title bar on top, a border around both.
#[derive(Clone, Copy, Debug, PartialEq, Eq, Structural)]
pub struct Chrome {
    pub bar: i32,
    pub border: i32,
}

impl Chrome {
    pub open spec fn valid(self) -> bool {
        self.bar >= 0 && self.border >= 0
    }

    /// Width and height that the frame adds.
    pub open spec fn added_w(self) -> int {
        2 * self.border
    }

    pub open spec fn added_h(self) -> int {
        2 * self.border + self.bar
    }
}

/// The chrome of a layer on the canvas: the border that a rule gives it.
pub fn canvas_layer_chrome(border_width: Option<i32>) -> (chrome: Chrome)
    ensures
        chrome.bar == 0,
        chrome.border == match border_width {
            Some(b) => b,
            None => 0,
        },
{
    Chrome {
        bar: 0,
        border: match border_width {
            Some(b) => b,
            None => 0,
        },
    }
}

/// Where a frame of length `frame` starting at `at` starts so as to be on an
/// output of length `output`; at the output's start if it does not fit.
pub open spec fn clamped_start(at: int, frame: int, output: int) -> int {
    clamp_of(at, 0, max_of(output - frame, 0))
}

/// Where a pinned window's content goes so that its whole frame is on an output.
pub open spec fn clamped_pin(pos: Point, content: Size, output: Size, chrome: Chrome) -> (int, int) {
    (
        clamped_start(pos.x - chrome.border, content.w + chrome.added_w(), output.w as int)
            + chrome.border,
        clamped_start(
            pos.y - chrome.border - chrome.bar,
            content.h + chrome.added_h(),
            output.h as int,
        ) + chrome.border + chrome.bar,
    )
}

/// The place fits the coordinates' type.
pub open spec fn pin_fits(output: Size, chrome: Chrome) -> bool {
    &&& chrome.valid()
    &&& output.valid()
    &&& output.w + chrome.border <= i32::MAX
    &&& output.h + chrome.border + chrome.bar <= i32::MAX
}

fn clamp_start(at: i64, frame: i64, output: i64) -> (start: i64)
    requires
        0 <= output <= i32::MAX,
        0 <= frame <= 0x10_0000_0000,
    ensures
        start == clamped_start(at as int, frame as int, output as int),
        0 <= start <= output,
{
    let room: i64 = output - frame;
    let hi: i64 = if room < 0 {
        0
    } else {
        room
    };
    if at < 0 {
        0
    } else if at > hi {
        hi
    } else {
        at
    }
}

/// Moves a pin so that the window's whole frame is on an output. The frame is
/// moved, not the content, so that a title bar does not leave the screen; where
/// the output is too small for it, it starts at the output's corner. Takes and
/// returns the place of the content.
pub fn clamp_pin_frame(pos: Point, content: Size, output: Size, chrome: Chrome) -> (p: Point)
    requires
        content.valid(),
        pin_fits(output, chrome),
    ensures
        (p.x as int, p.y as int) == clamped_pin(pos, content, output, chrome),
{
    let border: i64 = chrome.border as i64;
    let bar: i64 = chrome.bar as i64;
    let x: i64 = clamp_start(pos.x as i64 - border, content.w as i64 + 2 * border, output.w as i64);
    let y: i64 = clamp_start(
        pos.y as i64 - border - bar,
        content.h as i64 + 2 * border + bar,
        output.h as i64,
    );
    Point { x: (x + border) as i32, y: (y + border + bar) as i32 }
}

/// Where a window is pinned.
pub struct PinnedSite {
    pub output: String,
    /// Place of the content on the output.
    pub screen_pos: Point,
}

/// A pinned window.
pub struct Pin {
    pub window: u64,
    pub site: PinnedSite,
    /// Size of its content: what it will have back if it is fullscreen now.
    pub size: Size,
    pub chrome: Chrome,
}

impl PinnedSite {
    /// The site moved to another output.
    pub open spec fn is_moved_to(
        self,
        before: PinnedSite,
        output: Seq<char>,
        output_size: Size,
        content: Size,
        chrome: Chrome,
    ) -> bool {
        &&& self.output@ == output
        &&& (self.screen_pos.x as int, self.screen_pos.y as int) == clamped_pin(
            before.screen_pos,
            content,
            output_size,
            chrome,
        )
    }
}

/// Why a window was not pinned.
#[derive(Clone, Copy, Debug, PartialEq, Eq, Structural)]
pub enum PinError {
    NoOutput,
    NoPosition,
}

impl PinError {
    pub fn message(&self) -> (text: &'static str)
        ensures
            text@ == match self {
                PinError::NoOutput => "no output to pin to"@,
                PinError::NoPosition => "window has no position"@,
            },
    {
        match self {
            PinError::NoOutput => "no output to pin to",
            PinError::NoPosition => "window has no position",
        }
    }
}

/// Pins a window to the output that shows it, at the place it is drawn at.
/// Nothing is to be done if it is pinned already.
pub fn pin_window(pinned: bool, output: Option<&str>, on_screen: Option<Point>) -> (r: Result<
    Option<PinnedSite>,
    PinError,
>)
    ensures
        match r {
            Ok(None) => pinned,
            Ok(Some(site)) => {
                &&& !pinned
                &&& output is Some
                &&& on_screen is Some
                &&& site.output@ == output->0@
                &&& site.screen_pos == on_screen->0
            },
            Err(PinError::NoOutput) => !pinned && output is None,
            Err(PinError::NoPosition) => !pinned && output is Some && on_screen is None,
        },
{
    if pinned {
        return Ok(None);
    }
    match output {
        None => Err(PinError::NoOutput),
        Some(name) => match on_screen {
            None => Err(PinError::NoPosition),
            Some(p) => Ok(Some(PinnedSite { output: name.to_owned(), screen_pos: p })),
        },
    }
}

/// What unpinning a window leads to.
#[derive(Clone, Copy, Debug, PartialEq, Eq, Structural)]
pub enum UnpinStep {
    /// Nothing: it is not pinned.
    Nothing,
    /// The pin is dropped; on an output that is still there the window goes to
    /// the canvas place that is shown where it was.
    Unpin { remap: bool },
}

pub open spec fn is_output(live: Seq<String>, name: Seq<char>) -> bool {
    exists|i: int| 0 <= i < live.len() && (#[trigger] live[i])@ == name
}

fn is_live(live: &[String], name: &str) -> (r: bool)
    ensures
        r == is_output(live@, name@),
{
    let mut i: usize = 0;
    while i < live.len()
        invariant
            i <= live@.len(),
            forall|k: int| 0 <= k < i ==> (#[trigger] live@[k])@ != name@,
        decreases live.len() - i,
    {
        if same_text(live[i].as_str(), name) {
            return true;
        }
        i = i + 1;
    }
    false
}

/// Returns a pinned window to the canvas.
pub fn unpin_window(site: Option<&PinnedSite>, live: &[String]) -> (step: UnpinStep)
    ensures
        step == match site {
            None => UnpinStep::Nothing,
            Some(s) => UnpinStep::Unpin { remap: is_output(live@, s.output@) },
        },
{
    match site {
        None => UnpinStep::Nothing,
        Some(s) => UnpinStep::Unpin { remap: is_live(live, s.output.as_str()) },
    }
}

/// The pins whose output is there: the canvas place of each follows the camera.
pub fn sync_pinned_locs(pins: &[Pin], live: &[String]) -> (indices: Vec<usize>)
    ensures
        indices@ == Seq::new(pins@.len(), |i: int| i as usize).filter(
            |i: usize| is_output(live@, pins@[i as int].site.output@),
        ),
{
    let ghost all = Seq::new(pins@.len(), |i: int| i as usize);
    let ghost pred = |i: usize| is_output(live@, pins@[i as int].site.output@);
    let mut indices: Vec<usize> = Vec::new();
    let mut i: usize = 0;
    assert(all.subrange(0, 0).filter(pred) =~= Seq::empty()) by {
        reveal(Seq::filter);
    }
    while i < pins.len()
        invariant
            i <= pins@.len(),
            all == Seq::new(pins@.len(), |i: int| i as usize),
            pred == (|i: usize| is_output(live@, pins@[i as int].site.output@)),
            indices@ == all.subrange(0, i as int).filter(pred),
        decreases pins.len() - i,
    {
        proof {
            let next = all.subrange(0, i + 1);
            assert(next.drop_last() =~= all.subrange(0, i as int));
            assert(next.last() == i);
            reveal(Seq::filter);
        }
        if is_live(live, pins[i].site.output.as_str()) {
            indices.push(i);
        }
        i = i + 1;
    }
    assert(all.subrange(0, i as int) =~= all);
    indices
}

/// Moves a pinned window to another output, where it keeps its place on the
/// screen as far as it fits. Nothing is to be done if it is there.
pub fn send_pinned_to_output(pin: &mut Pin, target: &str, target_size: Size) -> (moved: bool)
    requires
        old(pin).size.valid(),
        pin_fits(target_size, old(pin).chrome),
    ensures
        moved == (old(pin).site.output@ != target@),
        !moved ==> *final(pin) == *old(pin),
        moved ==> final(pin).site.is_moved_to(
            old(pin).site,
            target@,
            target_size,
            old(pin).size,
            old(pin).chrome,
        ),
        final(pin).window == old(pin).window,
        final(pin).size == old(pin).size,
        final(pin).chrome == old(pin).chrome,
{
    if same_text(pin.site.output.as_str(), target) {
        return false;
    }
    let at = clamp_pin_frame(pin.site.screen_pos, pin.size, target_size, pin.chrome);
    pin.site = PinnedSite { output: target.to_owned(), screen_pos: at };
    true
}

/// What becomes of a pin when outputs have gone.
pub open spec fn rehomed(
    after: Pin,
    before: Pin,
    live: Seq<String>,
    to: Seq<char>,
    to_size: Size,
) -> bool {
    &&& after.window == before.window
    &&& after.size == before.size
    &&& after.chrome == before.chrome
    &&& if is_output(live, before.site.output@) {
        after.site == before.site
    } else {
        after.site.is_moved_to(before.site, to, to_size, before.size, before.chrome)
    }
}

/// Moves every pin whose output has gone to the output `to`. Returns whether
/// there was one.
pub fn reassign_orphaned_pinned(
    pins: &mut Vec<Pin>,
    live: &[String],
    to: &str,
    to_size: Size,
) -> (moved: bool)
    requires
        forall|i: int|
            0 <= i < old(pins)@.len() ==> (#[trigger] old(pins)@[i]).size.valid() && pin_fits(
                to_size,
                old(pins)@[i].chrome,
            ),
    ensures
        final(pins)@.len() == old(pins)@.len(),
        forall|i: int|
            0 <= i < old(pins)@.len() ==> rehomed(
                #[trigger] final(pins)@[i],
                old(pins)@[i],
                live@,
                to@,
                to_size,
            ),
        moved == exists|i: int|
            0 <= i < old(pins)@.len() && !is_output(
                live@,
                (#[trigger] old(pins)@[i]).site.output@,
            ),
{
    let ghost before = pins@;
    let mut moved = false;
    let mut i: usize = 0;
    while i < pins.len()
        invariant
            i <= pins@.len() == before.len(),
            before == old(pins)@,
            forall|k: int|
                0 <= k < before.len() ==> (#[trigger] before[k]).size.valid() && pin_fits(
                    to_size,
                    before[k].chrome,
                ),
            forall|k: int|
                0 <= k < i ==> rehomed(#[trigger] pins@[k], before[k], live@, to@, to_size),
            forall|k: int| i <= k < before.len() ==> #[trigger] pins@[k] == before[k],
            moved == exists|k: int|
                0 <= k < i && !is_output(live@, (#[trigger] before[k]).site.output@),
        decreases pins.len() - i,
    {
        assert(pins@[i as int] == before[i as int]);
        if !is_live(live, pins[i].site.output.as_str()) {
            let at = clamp_pin_frame(
                pins[i].site.screen_pos,
                pins[i].size,
                to_size,
                pins[i].chrome,
            );
            let next = Pin {
                window: pins[i].window,
                site: PinnedSite { output: to.to_owned(), screen_pos: at },
                size: pins[i].size,
                chrome: pins[i].chrome,
            };
            pins.set(i, next);
            moved = true;
            assert(!is_output(live@, before[i as int].site.output@));
        }
        i = i + 1;
    }
    moved
}

/// A pin's frame is on its output, wherever the pin was, if the output has room
/// for it; else it starts at the output's corner.
pub proof fn law_frame_stays_on_the_output(at: int, frame: int, output: int)
    requires
        0 <= frame,
        0 <= output,
    ensures
        0 <= clamped_start(at, frame, output),
        frame <= output ==> clamped_start(at, frame, output) + frame <= output,
        frame > output ==> clamped_start(at, frame, output) == 0,
{
}

/// A frame that is on its output stays where it is, so moving it there twice is
/// the same as moving it once.
pub proof fn law_frame_on_the_output_stays(at: int, frame: int, output: int)
    requires
        0 <= frame,
        0 <= output,
    ensures
        0 <= at && at + frame <= output ==> clamped_start(at, frame, output) == at,
        clamped_start(clamped_start(at, frame, output), frame, output) == clamped_start(
            at,
            frame,
            output,
        ),
{
}

/// Once pins have been moved from the outputs that have gone to one that is
/// there, every pin is on an output that is there.
pub proof fn law_no_pin_is_orphaned(
    before: Pin,
    after: Pin,
    live: Seq<String>,
    to: Seq<char>,
    to_size: Size,
)
    requires
        rehomed(after, before, live, to, to_size),
        is_output(live, to),
    ensures
        is_output(live, after.site.output@),
{
}

/// A pin's frame, with its bar above and its border all round the content, is on
/// the output if it fits there, and is not moved if it was. One that does not fit
/// starts at the output's edge. Both axes go their own way.
pub proof fn law_pinned_frame_is_on_screen(pos: Point, content: Size, output: Size, chrome: Chrome)
    requires
        content.valid(),
        pin_fits(output, chrome),
    ensures
        ({
            let p = clamped_pin(pos, content, output, chrome);
            let left = p.0 - chrome.border;
            let right = p.0 + content.w + chrome.border;
            let top = p.1 - chrome.bar - chrome.border;
            let bottom = p.1 + content.h + chrome.border;
            let was_left = pos.x - chrome.border;
            let was_right = pos.x + content.w + chrome.border;
            let was_top = pos.y - chrome.bar - chrome.border;
            let was_bottom = pos.y + content.h + chrome.border;
            &&& 0 <= left && 0 <= top
            &&& right - left <= output.w ==> right <= output.w
            &&& bottom - top <= output.h ==> bottom <= output.h
            &&& right - left > output.w ==> left == 0
            &&& bottom - top > output.h ==> top == 0
            &&& 0 <= was_left && was_right <= output.w ==> left == was_left
            &&& 0 <= was_top && was_bottom <= output.h ==> top == was_top
            &&& was_left < 0 ==> left == 0
            &&& was_top < 0 ==> top == 0
            &&& was_right > output.w && right - left <= output.w ==> right == output.w
            &&& was_bottom > output.h && bottom - top <= output.h ==> bottom == output.h
        }),
{
}

/// A pin on an output that is there is not touched. One whose output has gone is
/// on the other output, with the window, its size and its chrome as they were and
/// its frame moved no more than it has to be.
pub proof fn law_only_orphans_are_moved(
    before: Pin,
    after: Pin,
    live: Seq<String>,
    to: Seq<char>,
    to_size: Size,
)
    requires
        rehomed(after, before, live, to, to_size),
    ensures
        after.window == before.window && after.size == before.size && after.chrome == before.chrome,
        (exists|i: int| 0 <= i < live.len() && (#[trigger] live[i])@ == before.site.output@)
            ==> after.site == before.site,
        (forall|i: int| 0 <= i < live.len() ==> (#[trigger] live[i])@ != before.site.output@) ==> {
            &&& after.site.output@ == to
            &&& after.site.screen_pos.x - before.chrome.border >= 0
            &&& after.site.screen_pos.y - before.chrome.border - before.chrome.bar >= 0
            &&& before.site.screen_pos.x >= before.chrome.border && before.site.screen_pos.x
                + before.size.w + before.chrome.border <= to_size.w ==> after.site.screen_pos.x
                == before.site.screen_pos.x
            &&& before.site.screen_pos.y >= before.chrome.border + before.chrome.bar
                && before.site.screen_pos.y + before.size.h + before.chrome.border <= to_size.h
                ==> after.site.screen_pos.y == before.site.screen_pos.y
        },
{
}

} // verus!
