//! Where the backdrop of one frosted window is captured from.

use crate::geometry::{Point, Rect, Size, clamp_of, sat, sat_sub};
use crate::text::{chars_of, has_prefix, starts_with};
use vstd::prelude::*;

verus! {

/// Padding around a blur's backdrop: what the blur reaches for, within limits.
pub fn blur_pad(reach: i32) -> (pad: i32)
    ensures
        pad == clamp_of(reach as int, 16, 128),
{
    if reach < 16 {
        16
    } else if reach > 128 {
        128
    } else {
        reach
    }
}

/// `size` grown by `pad` on every side.
pub open spec fn grown(size: Size, pad: int) -> Size {
    Size { w: (size.w + 2 * pad) as i32, h: (size.h + 2 * pad) as i32 }
}

/// `rect` grown by `pad` on every side.
pub open spec fn padded(rect: Rect, pad: int) -> Rect {
    Rect {
        loc: Point { x: (rect.loc.x - pad) as i32, y: (rect.loc.y - pad) as i32 },
        size: grown(rect.size, pad),
    }
}

/// The grown extent fits in an `i32`.
pub open spec fn grows(size: Size, pad: int) -> bool {
    &&& i32::MIN <= 2 * pad <= i32::MAX
    &&& i32::MIN <= size.w + 2 * pad <= i32::MAX
    &&& i32::MIN <= size.h + 2 * pad <= i32::MAX
}

/// The grown rectangle fits in `i32` coordinates.
pub open spec fn pads(rect: Rect, pad: int) -> bool {
    &&& grows(rect.size, pad)
    &&& i32::MIN <= rect.loc.x - pad <= i32::MAX
    &&& i32::MIN <= rect.loc.y - pad <= i32::MAX
}

/// Extent of the padded ping-pong pair: the live window extent grown by the
/// blur reach on every side. Never stepped: slack past the live extent would be
/// a strip that no pass writes, exactly where the taps read.
pub fn pad_extent(win_size: Size, pad: i32) -> (s: Size)
    requires
        grows(win_size, pad as int),
    ensures
        s == grown(win_size, pad as int),
{
    Size { w: win_size.w + 2 * pad, h: win_size.h + 2 * pad }
}

/// The screen rectangle a window's frost is captured from: its own rectangle
/// grown by the blur reach.
pub fn padded_rect(win_rect: Rect, pad: i32) -> (r: Rect)
    requires
        pads(win_rect, pad as int),
    ensures
        r == padded(win_rect, pad as int),
{
    Rect {
        loc: Point { x: win_rect.loc.x - pad, y: win_rect.loc.y - pad },
        size: pad_extent(win_rect.size, pad),
    }
}

/// Where to capture the backdrop for one window's padded rectangle.
#[derive(Clone, Copy, Debug, PartialEq, Eq, Structural)]
pub struct BackdropCapture {
    /// The part of the padded rectangle that has real backdrop behind it.
    pub clipped: Rect,
    /// The padded rectangle's origin in the captured texture's own
    /// coordinates. Negative on a side that overhangs the output.
    pub src_loc: Point,
    /// The padded rectangle lies on the output, so the capture needs no crop.
    pub direct: bool,
}

/// What `backdrop_capture` returns.
pub open spec fn capture_of(padded: Rect, output_size: Size) -> Option<BackdropCapture> {
    let screen = Rect { loc: Point { x: 0, y: 0 }, size: output_size };
    match padded.clip(screen) {
        Some(clipped) => Some(
            BackdropCapture {
                clipped,
                src_loc: Point {
                    x: sat(padded.loc.x - clipped.loc.x) as i32,
                    y: sat(padded.loc.y - clipped.loc.y) as i32,
                },
                direct: clipped == padded,
            },
        ),
        None => None,
    }
}

/// The capture for a padded rectangle on an output, or `None` where the
/// rectangle has no part on it.
pub fn backdrop_capture(padded: Rect, output_size: Size) -> (c: Option<BackdropCapture>)
    ensures
        c == capture_of(padded, output_size),
{
    match padded.intersection(Rect::from_size(output_size)) {
        Some(clipped) => Some(
            BackdropCapture {
                clipped,
                src_loc: Point {
                    x: sat_sub(padded.loc.x, clipped.loc.x),
                    y: sat_sub(padded.loc.y, clipped.loc.y),
                },
                direct: clipped == padded,
            },
        ),
        None => None,
    }
}

/// The crop starts at or before the captured texture's origin, and the two
/// offsets add up to the padded rectangle's position.
pub proof fn law_crop_starts_inside_capture(padded: Rect, output_size: Size)
    requires
        padded.valid(),
        output_size.valid(),
    ensures
        capture_of(padded, output_size) matches Some(c) ==> {
            &&& c.src_loc.x <= 0
            &&& c.src_loc.y <= 0
            &&& c.clipped.loc.x + c.src_loc.x == padded.loc.x
            &&& c.clipped.loc.y + c.src_loc.y == padded.loc.y
        },
{
}

/// A capture is direct exactly if the padded rectangle lies on the output, and
/// then nothing is cropped.
pub proof fn law_direct_capture_is_on_output(padded: Rect, output_size: Size)
    requires
        padded.valid(),
        output_size.valid(),
    ensures
        capture_of(padded, output_size) matches Some(c) ==> {
            &&& c.direct <==> (0 <= padded.loc.x && 0 <= padded.loc.y && padded.loc.x
                + padded.size.w <= output_size.w && padded.loc.y + padded.size.h <= output_size.h)
            &&& c.direct ==> c.src_loc == Point { x: 0, y: 0 }
        },
{
}

/// A capture covers exactly the pixels of the padded rectangle that are on the
/// output, and exists as soon as there is one.
pub proof fn law_capture_is_the_visible_part(padded: Rect, output_size: Size, x: int, y: int)
    requires
        padded.valid(),
        output_size.valid(),
    ensures
        (padded.covers(x, y) && 0 <= x < output_size.w && 0 <= y < output_size.h) <==> (capture_of(
            padded,
            output_size,
        ) matches Some(c) && c.clipped.covers(x, y)),
{
}

/// The major version that a GLES version text gives is at least 3.
pub open spec fn is_gles3(version: Seq<char>) -> bool {
    let prefix = "OpenGL ES "@;
    &&& starts_with(version, prefix)
    &&& version.len() > prefix.len()
    &&& '3' <= version[prefix.len() as int] <= '9'
}

/// Whether backdrop textures are mirrored past their edge. That takes GLES 3;
/// else they repeat their edge.
pub fn backdrop_wrap_mode(version: &str) -> (mirrored: bool)
    ensures
        mirrored == is_gles3(version@),
{
    let text = chars_of(version);
    let prefix = chars_of("OpenGL ES ");
    if !has_prefix(text.as_slice(), prefix.as_slice()) || text.len() <= prefix.len() {
        return false;
    }
    let c = text[prefix.len()];
    '3' <= c && c <= '9'
}

/// A rectangle that is padded reaches as far past every side as the padding says.
pub proof fn law_padding_goes_all_round(rect: Rect, pad: int)
    requires
        pads(rect, pad),
    ensures
        ({
            let p = padded(rect, pad);
            &&& p.loc.x == rect.loc.x - pad
            &&& p.loc.y == rect.loc.y - pad
            &&& p.loc.x + p.size.w == rect.loc.x + rect.size.w + pad
            &&& p.loc.y + p.size.h == rect.loc.y + rect.size.h + pad
            &&& grown(rect.size, pad).w - rect.size.w == 2 * pad
            &&& grown(rect.size, pad).h - rect.size.h == 2 * pad
        }),
{
}

/// A version text is of GLES 3 or later exactly if a digit from 3 to 9 follows the
/// words.
pub proof fn law_gles3_by_its_digit(digit: char, rest: Seq<char>, other: Seq<char>)
    ensures
        is_gles3("OpenGL ES "@ + seq![digit] + rest) <==> '3' <= digit <= '9',
        is_gles3(other) ==> other.subrange(0, "OpenGL ES "@.len() as int) == "OpenGL ES "@,
        !is_gles3("OpenGL ES "@),
{
    let text = "OpenGL ES "@ + seq![digit] + rest;
    let n = "OpenGL ES "@.len() as int;
    assert(text.subrange(0, n) =~= "OpenGL ES "@);
    assert(text[n] == digit);
}

} // verus!
