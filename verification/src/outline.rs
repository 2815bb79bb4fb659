//! Outlines that show where other outputs' viewports lie on the canvas.

use crate::geometry::{Point, Rect, Size, max_of};
use vstd::prelude::*;

verus! {

/// A colour, one byte per channel.
#[derive(Clone, Copy, Debug, PartialEq, Eq, Hash, Structural)]
pub struct Color {
    pub r: u8,
    pub g: u8,
    pub b: u8,
    pub a: u8,
}

/// Everything that decides a strip's content. Its position does not: panning
/// must not make a new buffer every frame.
#[derive(Clone, Copy, Debug, PartialEq, Eq, Hash, Structural)]
pub struct OutlineBufferKey {
    pub color: Color,
    pub w: i32,
    pub h: i32,
}

/// The four edges of an outline: top, bottom, left, right.
pub open spec fn edge(outline: Rect, thickness: i32, k: int) -> Rect {
    let (loc, size) = (outline.loc, outline.size);
    if k == 0 {
        Rect { loc, size: Size { w: size.w, h: thickness } }
    } else if k == 1 {
        Rect {
            loc: Point { x: loc.x, y: (loc.y + size.h - thickness) as i32 },
            size: Size { w: size.w, h: thickness },
        }
    } else if k == 2 {
        Rect { loc, size: Size { w: thickness, h: size.h } }
    } else {
        Rect {
            loc: Point { x: (loc.x + size.w - thickness) as i32, y: loc.y },
            size: Size { w: thickness, h: size.h },
        }
    }
}

/// The visible parts of the first `n` edges.
pub open spec fn strips_of(outline: Rect, viewport: Rect, thickness: i32, n: int) -> Seq<Rect>
    decreases n,
{
    if n <= 0 {
        Seq::empty()
    } else {
        let init = strips_of(outline, viewport, thickness, n - 1);
        match edge(outline, thickness, n - 1).clip(viewport) {
            Some(strip) => init.push(strip),
            None => init,
        }
    }
}

pub open spec fn viewport_of(size: Size) -> Rect {
    Rect { loc: Point { x: 0, y: 0 }, size }
}

fn push_clipped(strips: &mut Vec<Rect>, edge: Rect, viewport: Rect)
    ensures
        final(strips)@ == match edge.clip(viewport) {
            Some(strip) => old(strips)@.push(strip),
            None => old(strips)@,
        },
{
    if let Some(strip) = edge.intersection(viewport) {
        strips.push(strip);
    }
}

/// The visible parts of an outline's four edges. Edges that fall outside the
/// viewport are dropped.
pub fn outline_edge_strips(outline: Rect, viewport_size: Size, thickness: i32) -> (strips: Vec<Rect>)
    requires
        i32::MIN <= outline.loc.x + outline.size.w - thickness <= i32::MAX,
        i32::MIN <= outline.loc.y + outline.size.h - thickness <= i32::MAX,
    ensures
        strips@ == strips_of(outline, viewport_of(viewport_size), thickness, 4),
{
    let viewport = Rect::from_size(viewport_size);
    let (loc, size) = (outline.loc, outline.size);
    let far_y: i32 = (loc.y as i64 + size.h as i64 - thickness as i64) as i32;
    let far_x: i32 = (loc.x as i64 + size.w as i64 - thickness as i64) as i32;
    let mut strips: Vec<Rect> = Vec::new();
    push_clipped(&mut strips, Rect { loc, size: Size { w: size.w, h: thickness } }, viewport);
    push_clipped(
        &mut strips,
        Rect { loc: Point { x: loc.x, y: far_y }, size: Size { w: size.w, h: thickness } },
        viewport,
    );
    push_clipped(&mut strips, Rect { loc, size: Size { w: thickness, h: size.h } }, viewport);
    push_clipped(
        &mut strips,
        Rect { loc: Point { x: far_x, y: loc.y }, size: Size { w: thickness, h: size.h } },
        viewport,
    );
    proof {
        reveal_with_fuel(strips_of, 5);
    }
    strips
}

/// A strip's pixels, and an identity that lasts as long as the buffer.
pub struct OutlineBuffer {
    pub key: OutlineBufferKey,
    pub id: u64,
    pub pixels: Vec<u8>,
}

/// The strip buffers of one output.
pub struct OutlineCache {
    pub buffers: Vec<OutlineBuffer>,
    pub next_id: u64,
}

/// `n` pixels of one colour.
pub open spec fn solid(color: Color, n: nat) -> Seq<u8> {
    Seq::new(
        4 * n,
        |i: int|
            if i % 4 == 0 {
                color.r
            } else if i % 4 == 1 {
                color.g
            } else if i % 4 == 2 {
                color.b
            } else {
                color.a
            },
    )
}

fn solid_pixels(color: Color, n: usize) -> (pixels: Vec<u8>)
    requires
        4 * n <= usize::MAX,
    ensures
        pixels@ == solid(color, n as nat),
{
    let mut pixels: Vec<u8> = Vec::new();
    let mut i: usize = 0;
    while i < n
        invariant
            i <= n,
            pixels@ =~= solid(color, i as nat),
        decreases n - i,
    {
        pixels.push(color.r);
        pixels.push(color.g);
        pixels.push(color.b);
        pixels.push(color.a);
        i = i + 1;
    }
    pixels
}

pub open spec fn pixel_count(key: OutlineBufferKey) -> nat {
    (max_of(key.w as int, 0) * max_of(key.h as int, 0)) as nat
}

impl OutlineCache {
    /// No two buffers have the same key or the same identity, and each holds
    /// its key's colour throughout.
    pub open spec fn wf(self) -> bool {
        &&& forall|i: int, j: int|
            0 <= i < j < self.buffers@.len() ==> (#[trigger] self.buffers@[i]).key != (
            #[trigger] self.buffers@[j]).key && self.buffers@[i].id != self.buffers@[j].id
        &&& forall|i: int|
            0 <= i < self.buffers@.len() ==> (#[trigger] self.buffers@[i]).id < self.next_id
        &&& forall|i: int|
            0 <= i < self.buffers@.len() ==> (#[trigger] self.buffers@[i]).pixels@ == solid(
                self.buffers@[i].key.color,
                pixel_count(self.buffers@[i].key),
            )
    }

    pub open spec fn has(self, key: OutlineBufferKey) -> bool {
        exists|i: int| 0 <= i < self.buffers@.len() && (#[trigger] self.buffers@[i]).key == key
    }

    pub fn new() -> (c: OutlineCache)
        ensures
            c.wf(),
            c.buffers@.len() == 0,
    {
        OutlineCache { buffers: Vec::new(), next_id: 0 }
    }

    /// How many buffers there are.
    pub fn len(&self) -> (n: usize)
        ensures
            n == self.buffers@.len(),
    {
        self.buffers.len()
    }

    /// Drops the buffers whose key is not among `live`, and keeps the others in
    /// order.
    pub fn retain(&mut self, live: &[OutlineBufferKey])
        requires
            old(self).wf(),
        ensures
            final(self).wf(),
            final(self).next_id == old(self).next_id,
            final(self).buffers@ == old(self).buffers@.filter(
                |b: OutlineBuffer| live@.contains(b.key),
            ),
    {
        let ghost all = self.buffers@;
        let ghost pred = |b: OutlineBuffer| live@.contains(b.key);
        let ghost mut done: int = 0;
        let mut i: usize = 0;
        assert(all.subrange(0, 0).filter(pred) =~= Seq::empty()) by {
            reveal(Seq::filter);
        }
        assert(all.subrange(0, all.len() as int) =~= all);
        while i < self.buffers.len()
            invariant
                pred == (|b: OutlineBuffer| live@.contains(b.key)),
                0 <= done <= all.len(),
                i <= self.buffers.len(),
                i == all.subrange(0, done).filter(pred).len(),
                self.buffers@ =~= all.subrange(0, done).filter(pred) + all.subrange(
                    done,
                    all.len() as int,
                ),
                self.next_id == old(self).next_id,
                self.wf(),
            decreases self.buffers.len() - i,
        {
            let ghost kept = all.subrange(0, done).filter(pred);
            let ghost next = all.subrange(0, done + 1);
            proof {
                assert(next.drop_last() =~= all.subrange(0, done));
                assert(next.last() == all[done]);
                assert(self.buffers@[i as int] == all[done]);
                reveal(Seq::filter);
            }
            if has_key(live, self.buffers[i].key) {
                assert(next.filter(pred) == kept.push(all[done]));
                i = i + 1;
            } else {
                assert(next.filter(pred) == kept);
                let ghost before = self.buffers@;
                self.buffers.remove(i);
                assert forall|a: int, b: int| 0 <= a < b < self.buffers@.len() implies (
                #[trigger] self.buffers@[a]).key != (#[trigger] self.buffers@[b]).key
                    && self.buffers@[a].id != self.buffers@[b].id by {
                    let a2 = if a < i {
                        a
                    } else {
                        a + 1
                    };
                    let b2 = if b < i {
                        b
                    } else {
                        b + 1
                    };
                    assert(before[a2].key != before[b2].key);
                }
            }
            proof {
                done = done + 1;
            }
        }
        assert(all.subrange(0, done) =~= all);
    }
}

fn has_key(keys: &[OutlineBufferKey], key: OutlineBufferKey) -> (found: bool)
    ensures
        found == keys@.contains(key),
{
    let mut i: usize = 0;
    while i < keys.len()
        invariant
            i <= keys.len(),
            forall|k: int| 0 <= k < i ==> keys@[k] != key,
        decreases keys.len() - i,
    {
        if keys[i] == key {
            assert(keys@[i as int] == key);
            return true;
        }
        i = i + 1;
    }
    false
}

/// The buffer for one strip, reused across frames: its place in the cache.
pub fn outline_buffer(cache: &mut OutlineCache, color: Color, strip: Rect) -> (at: usize)
    requires
        old(cache).wf(),
        strip.size.valid(),
        4 * (strip.size.w * strip.size.h) <= usize::MAX,
        old(cache).next_id < u64::MAX,
    ensures
        final(cache).wf(),
        at < final(cache).buffers@.len(),
        final(cache).buffers@[at as int].key == (OutlineBufferKey {
            color,
            w: strip.size.w,
            h: strip.size.h,
        }),
        old(cache).has(OutlineBufferKey { color, w: strip.size.w, h: strip.size.h })
            ==> *final(cache) == *old(cache),
        !old(cache).has(OutlineBufferKey { color, w: strip.size.w, h: strip.size.h }) ==> {
            &&& final(cache).buffers@.len() == old(cache).buffers@.len() + 1
            &&& final(cache).buffers@.drop_last() == old(cache).buffers@
            &&& at == old(cache).buffers@.len()
            &&& final(cache).buffers@[at as int].id == old(cache).next_id
            &&& final(cache).next_id == old(cache).next_id + 1
        },
{
    let key = OutlineBufferKey { color, w: strip.size.w, h: strip.size.h };
    let mut i: usize = 0;
    while i < cache.buffers.len()
        invariant
            i <= cache.buffers.len(),
            *cache == *old(cache),
            cache.wf(),
            key == (OutlineBufferKey { color, w: strip.size.w, h: strip.size.h }),
            forall|k: int| 0 <= k < i ==> (#[trigger] cache.buffers@[k]).key != key,
        decreases cache.buffers.len() - i,
    {
        if cache.buffers[i].key == key {
            assert(old(cache).has(key));
            return i;
        }
        i = i + 1;
    }
    let w: usize = strip.size.w as usize;
    let h: usize = strip.size.h as usize;
    assert(0 <= strip.size.w * strip.size.h) by (nonlinear_arith)
        requires
            strip.size.w >= 0,
            strip.size.h >= 0,
    ;
    let pixels = solid_pixels(color, w * h);
    let id: u64 = cache.next_id;
    cache.buffers.push(OutlineBuffer { key, id, pixels });
    cache.next_id = id + 1;
    assert(cache.buffers@.drop_last() =~= old(cache).buffers@);
    i
}

/// Another output, as far as its outline depends on it.
#[derive(Clone, Copy, Debug, PartialEq, Eq, Structural)]
pub struct OtherOutput {
    /// It is the output the frame is for.
    pub itself: bool,
    /// A fullscreen picture covers it: it shows no viewport to point at.
    pub visually_fullscreen: bool,
    /// Its viewport in this output's screen coordinates.
    pub outline: Rect,
}

/// The outline of this output is shown.
pub open spec fn outlined(other: OtherOutput, viewport: Rect) -> bool {
    !other.itself && !other.visually_fullscreen && viewport.meets(other.outline)
}

/// The strips of the first `n` outputs.
pub open spec fn all_strips(
    others: Seq<OtherOutput>,
    viewport: Rect,
    thickness: i32,
    n: int,
) -> Seq<Rect>
    decreases n,
{
    if n <= 0 {
        Seq::empty()
    } else {
        all_strips(others, viewport, thickness, n - 1) + if outlined(others[n - 1], viewport) {
            strips_of(others[n - 1].outline, viewport, thickness, 4)
        } else {
            Seq::empty()
        }
    }
}

/// The far corner of an outline fits, less its thickness.
pub open spec fn outline_fits(outline: Rect, thickness: i32) -> bool {
    &&& i32::MIN <= outline.loc.x + outline.size.w - thickness <= i32::MAX
    &&& i32::MIN <= outline.loc.y + outline.size.h - thickness <= i32::MAX
}

/// The strips that show the other outputs' viewports; none where the outline is
/// switched off.
pub fn build_output_outline_elements(
    others: &[OtherOutput],
    viewport_size: Size,
    thickness: i32,
    transparent: bool,
) -> (strips: Vec<Rect>)
    requires
        forall|i: int|
            0 <= i < others@.len() && outlined(
                #[trigger] others@[i],
                viewport_of(viewport_size),
            ) ==> thickness <= 0 || transparent || outline_fits(others@[i].outline, thickness),
    ensures
        strips@ == if thickness <= 0 || transparent {
            Seq::empty()
        } else {
            all_strips(others@, viewport_of(viewport_size), thickness, others@.len() as int)
        },
{
    let mut out: Vec<Rect> = Vec::new();
    if thickness <= 0 || transparent {
        return out;
    }
    let viewport = Rect::from_size(viewport_size);
    let mut i: usize = 0;
    while i < others.len()
        invariant
            i <= others.len(),
            viewport == viewport_of(viewport_size),
            forall|k: int|
                0 <= k < others@.len() && outlined(#[trigger] others@[k], viewport)
                    ==> outline_fits(others@[k].outline, thickness),
            out@ =~= all_strips(others@, viewport, thickness, i as int),
        decreases others.len() - i,
    {
        let other = others[i];
        if !other.itself && !other.visually_fullscreen && viewport.overlaps(other.outline) {
            assert(outlined(others@[i as int], viewport));
            let mut strips = outline_edge_strips(other.outline, viewport_size, thickness);
            out.append(&mut strips);
        }
        i = i + 1;
    }
    out
}

/// The key of a strip's buffer does not depend on where the strip lies.
pub proof fn law_panning_keeps_extents(
    outline: Rect,
    dx: int,
    dy: int,
    viewport: Rect,
    thickness: i32,
)
    requires
        outline.valid(),
        thickness > 0,
        thickness <= outline.size.w,
        thickness <= outline.size.h,
        viewport.loc == (Point { x: 0, y: 0 }),
        viewport.valid(),
        0 <= outline.loc.x,
        0 <= outline.loc.y,
        outline.loc.x + outline.size.w <= viewport.size.w,
        outline.loc.y + outline.size.h <= viewport.size.h,
        0 <= outline.loc.x + dx,
        0 <= outline.loc.y + dy,
        outline.loc.x + dx + outline.size.w <= viewport.size.w,
        outline.loc.y + dy + outline.size.h <= viewport.size.h,
    ensures
        ({
            let moved = Rect {
                loc: Point { x: (outline.loc.x + dx) as i32, y: (outline.loc.y + dy) as i32 },
                size: outline.size,
            };
            let a = strips_of(outline, viewport, thickness, 4);
            let b = strips_of(moved, viewport, thickness, 4);
            a.len() == 4 && b.len() == 4 && forall|k: int|
                0 <= k < 4 ==> (#[trigger] a[k]).size == b[k].size
        }),
{
    reveal_with_fuel(strips_of, 5);
}

/// A pixel is in a strip of an outline exactly if the viewport shows it and it is
/// in the outline, no further from one of its sides than the thickness.
pub proof fn law_strips_trace_the_outline(
    outline: Rect,
    viewport: Rect,
    thickness: i32,
    x: int,
    y: int,
)
    requires
        outline.valid(),
        viewport.valid(),
        0 < thickness <= outline.size.w,
        thickness <= outline.size.h,
        outline_fits(outline, thickness),
        outline.loc.x + outline.size.w < i32::MAX,
        outline.loc.y + outline.size.h < i32::MAX,
    ensures
        crate::region::covered(strips_of(outline, viewport, thickness, 4), x, y) <==> ({
            let (u, v) = (x - outline.loc.x, y - outline.loc.y);
            &&& viewport.covers(x, y)
            &&& 0 <= u < outline.size.w
            &&& 0 <= v < outline.size.h
            &&& u < thickness || v < thickness || u >= outline.size.w - thickness || v
                >= outline.size.h - thickness
        }),
{
    lemma_strip(outline, viewport, thickness, 1, x, y);
    lemma_strip(outline, viewport, thickness, 2, x, y);
    lemma_strip(outline, viewport, thickness, 3, x, y);
    lemma_strip(outline, viewport, thickness, 4, x, y);
    assert(strips_of(outline, viewport, thickness, 0).len() == 0);
}

proof fn lemma_strip(outline: Rect, viewport: Rect, thickness: i32, n: int, x: int, y: int)
    requires
        0 < n,
        edge(outline, thickness, n - 1).valid(),
        viewport.valid(),
    ensures
        crate::region::covered(strips_of(outline, viewport, thickness, n), x, y)
            <==> crate::region::covered(strips_of(outline, viewport, thickness, n - 1), x, y) || (
        edge(outline, thickness, n - 1).covers(x, y) && viewport.covers(x, y)),
{
    let init = strips_of(outline, viewport, thickness, n - 1);
    let all = strips_of(outline, viewport, thickness, n);
    let e = edge(outline, thickness, n - 1);
    crate::geometry::law_intersection_covers(e, viewport, x, y);
    if crate::region::covered(init, x, y) {
        let i = choose|i: int| 0 <= i < init.len() && (#[trigger] init[i]).covers(x, y);
        assert(all[i].covers(x, y));
    }
    if e.clip(viewport) is Some {
        assert(all[init.len() as int] == e.clip(viewport)->0);
    }
    if crate::region::covered(all, x, y) {
        let i = choose|i: int| 0 <= i < all.len() && (#[trigger] all[i]).covers(x, y);
        if i < init.len() {
            assert(init[i].covers(x, y));
        }
    }
}

/// What is drawn of the other outputs is the strips of those that are not the
/// output itself, show their canvas and reach into view; none of these is left
/// out.
pub proof fn law_other_outputs_are_outlined(
    others: Seq<OtherOutput>,
    viewport: Rect,
    thickness: i32,
    n: int,
    x: int,
    y: int,
)
    requires
        0 <= n <= others.len(),
    ensures
        crate::region::covered(all_strips(others, viewport, thickness, n), x, y) <==> exists|i: int|
            0 <= i < n && !(#[trigger] others[i]).itself && !others[i].visually_fullscreen
                && viewport.meets(others[i].outline) && crate::region::covered(
                strips_of(others[i].outline, viewport, thickness, 4),
                x,
                y,
            ),
    decreases n,
{
    if n > 0 {
        law_other_outputs_are_outlined(others, viewport, thickness, n - 1, x, y);
        let init = all_strips(others, viewport, thickness, n - 1);
        let own = if outlined(others[n - 1], viewport) {
            strips_of(others[n - 1].outline, viewport, thickness, 4)
        } else {
            Seq::empty()
        };
        let all = all_strips(others, viewport, thickness, n);
        if crate::region::covered(init, x, y) {
            let i = choose|i: int| 0 <= i < init.len() && (#[trigger] init[i]).covers(x, y);
            assert(all[i].covers(x, y));
        }
        if crate::region::covered(own, x, y) {
            let i = choose|i: int| 0 <= i < own.len() && (#[trigger] own[i]).covers(x, y);
            assert(all[init.len() + i].covers(x, y));
            assert(!others[n - 1].itself);
        }
        if crate::region::covered(all, x, y) {
            let i = choose|i: int| 0 <= i < all.len() && (#[trigger] all[i]).covers(x, y);
            if i < init.len() {
                assert(init[i].covers(x, y));
            } else {
                assert(own[i - init.len()].covers(x, y));
            }
        }
    } else {
        assert(all_strips(others, viewport, thickness, n).len() == 0);
    }
}

/// A strip's buffer holds as many pixels as the strip has, each of four bytes and
/// all of its colour.
pub proof fn law_buffers_are_of_one_colour(key: OutlineBufferKey, k: int)
    requires
        key.w >= 0,
        key.h >= 0,
        0 <= k < key.w * key.h,
    ensures
        ({
            let pixels = solid(key.color, pixel_count(key));
            &&& pixels.len() == 4 * (key.w * key.h)
            &&& pixels[4 * k] == key.color.r
            &&& pixels[4 * k + 1] == key.color.g
            &&& pixels[4 * k + 2] == key.color.b
            &&& pixels[4 * k + 3] == key.color.a
        }),
{
    assert(key.w * key.h >= 0) by (nonlinear_arith)
        requires
            key.w >= 0,
            key.h >= 0,
    ;
}

/// A viewport starts at the origin and is as large as its output.
pub proof fn law_viewport_is_the_output(size: Size, x: int, y: int)
    requires
        x < i32::MAX,
        y < i32::MAX,
    ensures
        viewport_of(size).covers(x, y) <==> 0 <= x < size.w && 0 <= y < size.h,
{
}

} // verus!
