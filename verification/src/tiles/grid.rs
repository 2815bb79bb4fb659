//! The chunk grid: which chunks of which image instance a viewport shows, and
//! where they lie on the canvas.
//!
//! The image repeats endlessly along both axes. Instance `k` of an axis starts
//! at `origin + k * image`; chunk `c` of an instance starts `c * chunk` past
//! that and is cut off where the instance ends.

use crate::geometry::{Point, Rect, clamp_of, max_of, min_of};
use std::ops::Range;
use vstd::prelude::*;

verus! {

pub open spec fn fits(i: int) -> bool {
    i32::MIN <= i <= i32::MAX
}

/// First instance along an axis that reaches past `lo`.
pub open spec fn first_instance(lo: int, origin: int, image: int) -> int {
    (lo - origin) / image
}

/// First instance that starts at or past `hi`.
pub open spec fn end_instance(hi: int, origin: int, image: int) -> int {
    (hi - 1 - origin) / image + 1
}

/// There is a span to show and an image to show in it.
pub open spec fn shows(lo: int, hi: int, image: int) -> bool {
    lo < hi && image > 0
}

/// The instance numbers of a span fit in an `i32`.
pub open spec fn instances_fit(lo: int, hi: int, origin: int, image: int) -> bool {
    shows(lo, hi, image) ==> fits(first_instance(lo, origin, image)) && fits(
        end_instance(hi, origin, image),
    )
}

/// Lowest and highest chunk of the instance at `origin` in the span.
pub open spec fn first_chunk(lo: int, origin: int, chunk: int) -> int {
    max_of(lo - origin, 0) / chunk
}

pub open spec fn last_chunk(hi: int, origin: int, chunk: int, image: int) -> int {
    (min_of(hi - origin, image) - 1) / chunk
}

/// The instance at `origin` has a part in the span.
pub open spec fn instance_in_span(lo: int, hi: int, origin: int, image: int) -> bool {
    max_of(lo - origin, 0) < min_of(hi - origin, image)
}

/// The chunks `(c, r)` of a rectangle of indices, row by row.
pub open spec fn index_grid(c_lo: int, c_hi: int, r_lo: int, r_hi: int) -> Seq<(i32, i32)>
    decreases r_hi - r_lo + 1,
{
    if r_hi < r_lo {
        Seq::empty()
    } else {
        index_grid(c_lo, c_hi, r_lo, r_hi - 1) + index_row(c_lo, c_hi, r_hi)
    }
}

/// One row of such a rectangle.
pub open spec fn index_row(c_lo: int, c_hi: int, r: int) -> Seq<(i32, i32)> {
    Seq::new(
        if c_hi >= c_lo {
            (c_hi - c_lo + 1) as nat
        } else {
            0
        },
        |i: int| ((c_lo + i) as i32, r as i32),
    )
}

/// The chunks of the image instance at `(ox, oy)` that lie in the viewport.
pub open spec fn chunks_of(
    viewport: Rect,
    ox: int,
    oy: int,
    chunk: int,
    image_dims: (u32, u32),
) -> Seq<(i32, i32)> {
    let x0 = viewport.loc.x as int;
    let x1 = x0 + viewport.size.w;
    let y0 = viewport.loc.y as int;
    let y1 = y0 + viewport.size.h;
    let w = image_dims.0 as int;
    let h = image_dims.1 as int;
    if chunk > 0 && instance_in_span(x0, x1, ox, w) && instance_in_span(y0, y1, oy, h) {
        index_grid(
            first_chunk(x0, ox, chunk),
            last_chunk(x1, ox, chunk, w),
            first_chunk(y0, oy, chunk),
            last_chunk(y1, oy, chunk, h),
        )
    } else {
        Seq::empty()
    }
}

/// The chunks of one instance, each with the instance's numbers.
pub open spec fn tagged(chunks: Seq<(i32, i32)>, kx: int, ky: int) -> Seq<(i32, i32, i32, i32)> {
    chunks.map_values(|c: (i32, i32)| (c.0, c.1, kx as i32, ky as i32))
}

/// Visible chunks of the instances `kx_lo..kx_hi` of row `ky`.
pub open spec fn visible_in_row(
    viewport: Rect,
    position: Point,
    image_dims: (u32, u32),
    chunk: int,
    kx_lo: int,
    kx_hi: int,
    ky: int,
) -> Seq<(i32, i32, i32, i32)>
    decreases kx_hi - kx_lo,
{
    if kx_hi <= kx_lo {
        Seq::empty()
    } else {
        let kx = kx_hi - 1;
        visible_in_row(viewport, position, image_dims, chunk, kx_lo, kx, ky) + tagged(
            chunks_of(
                viewport,
                position.x + kx * image_dims.0,
                position.y + ky * image_dims.1,
                chunk,
                image_dims,
            ),
            kx,
            ky,
        )
    }
}

/// Visible chunks of the instance rows `ky_lo..ky_hi`.
pub open spec fn visible_in_rows(
    viewport: Rect,
    position: Point,
    image_dims: (u32, u32),
    chunk: int,
    kx_lo: int,
    kx_hi: int,
    ky_lo: int,
    ky_hi: int,
) -> Seq<(i32, i32, i32, i32)>
    decreases ky_hi - ky_lo,
{
    if ky_hi <= ky_lo {
        Seq::empty()
    } else {
        let ky = ky_hi - 1;
        visible_in_rows(viewport, position, image_dims, chunk, kx_lo, kx_hi, ky_lo, ky)
            + visible_in_row(viewport, position, image_dims, chunk, kx_lo, kx_hi, ky)
    }
}

/// All visible chunks: instances row by row, chunks row by row within each.
pub open spec fn visible_chunks(
    viewport: Rect,
    position: Point,
    image_dims: (u32, u32),
    chunk: int,
) -> Seq<(i32, i32, i32, i32)> {
    let x0 = viewport.loc.x as int;
    let x1 = x0 + viewport.size.w;
    let y0 = viewport.loc.y as int;
    let y1 = y0 + viewport.size.h;
    let w = image_dims.0 as int;
    let h = image_dims.1 as int;
    if shows(x0, x1, w) && shows(y0, y1, h) {
        visible_in_rows(
            viewport,
            position,
            image_dims,
            chunk,
            first_instance(x0, position.x as int, w),
            end_instance(x1, position.x as int, w),
            first_instance(y0, position.y as int, h),
            end_instance(y1, position.y as int, h),
        )
    } else {
        Seq::empty()
    }
}

/// Instance numbers along both axes fit in an `i32`.
pub open spec fn viewport_fits(viewport: Rect, position: Point, image_dims: (u32, u32)) -> bool {
    &&& instances_fit(
        viewport.loc.x as int,
        viewport.loc.x + viewport.size.w,
        position.x as int,
        image_dims.0 as int,
    )
    &&& instances_fit(
        viewport.loc.y as int,
        viewport.loc.y + viewport.size.h,
        position.y as int,
        image_dims.1 as int,
    )
}

/// `a / b` rounded down.
pub(crate) fn floor_div(a: i64, b: i64) -> (q: i64)
    requires
        b > 0,
        a > i64::MIN,
    ensures
        q == a as int / b as int,
        a >= 0 ==> q >= 0,
{
    if a >= 0 {
        a / b
    } else {
        let up: i64 = -(a + 1);
        let q: i64 = up / b;
        let r: i64 = up % b;
        proof {
            vstd::arithmetic::div_mod::lemma_fundamental_div_mod(up as int, b as int);
        }
        assert(a as int / b as int == -(q + 1)) by (nonlinear_arith)
            requires
                b > 0,
                up == -(a + 1),
                up == b * q + r,
                0 <= r < b,
        ;
        assert(q <= up) by (nonlinear_arith)
            requires
                up == b * q + r,
                b > 0,
                q >= 0,
                0 <= r,
        ;
        -q - 1
    }
}

/// Numbers of the image instances along one axis that overlap the span
/// `[viewport_min, viewport_max)`. Empty for an empty span.
pub fn compute_k_range(
    viewport_min: i32,
    viewport_max: i32,
    image_origin: i32,
    image_size: i32,
) -> (range: Range<i32>)
    requires
        instances_fit(
            viewport_min as int,
            viewport_max as int,
            image_origin as int,
            image_size as int,
        ),
    ensures
        shows(viewport_min as int, viewport_max as int, image_size as int) ==> range.start
            == first_instance(viewport_min as int, image_origin as int, image_size as int)
            && range.end == end_instance(
            viewport_max as int,
            image_origin as int,
            image_size as int,
        ),
        !shows(viewport_min as int, viewport_max as int, image_size as int) ==> range.start == 0
            && range.end == 0,
{
    if viewport_max <= viewport_min || image_size <= 0 {
        return Range { start: 0, end: 0 };
    }
    span_instances(viewport_min as i64, viewport_max as i64, image_origin as i64, image_size as i64)
}

fn span_instances(lo: i64, hi: i64, origin: i64, image: i64) -> (range: Range<i32>)
    requires
        shows(lo as int, hi as int, image as int),
        instances_fit(lo as int, hi as int, origin as int, image as int),
        -0x1_0000_0000 <= lo <= hi <= 0x1_0000_0000,
        fits(origin as int),
    ensures
        range.start == first_instance(lo as int, origin as int, image as int),
        range.end == end_instance(hi as int, origin as int, image as int),
{
    let first: i64 = floor_div(lo - origin, image);
    let last: i64 = floor_div(hi - 1 - origin, image);
    Range { start: first as i32, end: (last + 1) as i32 }
}

fn can_number_axis(lo: i64, hi: i64, origin: i64, image: i64) -> (r: bool)
    requires
        -0x1_0000_0000 <= lo <= 0x1_0000_0000,
        -0x1_0000_0000 <= hi <= 0x1_0000_0000,
        fits(origin as int),
    ensures
        r == instances_fit(lo as int, hi as int, origin as int, image as int),
{
    if hi <= lo || image <= 0 {
        return true;
    }
    let first: i64 = floor_div(lo - origin, image);
    let last: i64 = floor_div(hi - 1 - origin, image);
    let least: i64 = i32::MIN as i64;
    let most: i64 = i32::MAX as i64;
    least <= first && first <= most && least - 1 <= last && last < most
}

/// Whether the instances that a viewport shows can be numbered.
pub fn can_number_instances(viewport: Rect, position: Point, image_dims: (u32, u32)) -> (r: bool)
    ensures
        r == viewport_fits(viewport, position, image_dims),
{
    let x0: i64 = viewport.loc.x as i64;
    let y0: i64 = viewport.loc.y as i64;
    can_number_axis(
        x0,
        x0 + viewport.size.w as i64,
        position.x as i64,
        image_dims.0 as i64,
    ) && can_number_axis(
        y0,
        y0 + viewport.size.h as i64,
        position.y as i64,
        image_dims.1 as i64,
    )
}

/// Appends the index rectangle, row by row.
fn push_index_grid(c_lo: i32, c_hi: i32, r_lo: i32, r_hi: i32) -> (chunks: Vec<(i32, i32)>)
    requires
        0 <= c_lo,
        0 <= r_lo,
        c_hi < i32::MAX,
        r_hi < i32::MAX,
    ensures
        chunks@ == index_grid(c_lo as int, c_hi as int, r_lo as int, r_hi as int),
{
    let mut out: Vec<(i32, i32)> = Vec::new();
    let mut r: i32 = r_lo;
    while r <= r_hi
        invariant
            0 <= c_lo,
            r_lo <= r,
            r <= r_hi + 1 || r == r_lo,
            c_hi < i32::MAX,
            r_hi < i32::MAX,
            out@ =~= index_grid(c_lo as int, c_hi as int, r_lo as int, r - 1),
        decreases r_hi - r + 1,
    {
        let ghost before = out@;
        let mut c: i32 = c_lo;
        while c <= c_hi
            invariant
                0 <= c_lo <= c,
                c <= c_hi + 1 || c == c_lo,
                c_hi < i32::MAX,
                out@ =~= before + index_row(c_lo as int, c - 1, r as int),
            decreases c_hi - c + 1,
        {
            out.push((c, r));
            c = c + 1;
        }
        assert(out@ =~= before + index_row(c_lo as int, c_hi as int, r as int));
        r = r + 1;
    }
    assert(index_grid(c_lo as int, c_hi as int, r_lo as int, r - 1) == index_grid(
        c_lo as int,
        c_hi as int,
        r_lo as int,
        r_hi as int,
    ));
    out
}

/// Chunk indices of the image instance at `instance_origin` whose part of the
/// canvas lies in the viewport, row by row. Chunks past the image edge do not
/// occur.
pub fn chunks_intersecting(
    viewport: Rect,
    instance_origin: Point,
    chunk_canvas_size: i32,
    image_dims: (u32, u32),
) -> (chunks: Vec<(i32, i32)>)
    requires
        image_dims.0 <= i32::MAX,
        image_dims.1 <= i32::MAX,
    ensures
        chunks@ == chunks_of(
            viewport,
            instance_origin.x as int,
            instance_origin.y as int,
            chunk_canvas_size as int,
            image_dims,
        ),
{
    instance_chunks(
        viewport,
        instance_origin.x as i64,
        instance_origin.y as i64,
        chunk_canvas_size,
        image_dims,
    )
}

fn instance_chunks(viewport: Rect, ox: i64, oy: i64, chunk: i32, image_dims: (u32, u32)) -> (chunks:
    Vec<(i32, i32)>)
    requires
        image_dims.0 <= i32::MAX,
        image_dims.1 <= i32::MAX,
        -0x10_0000_0000 <= ox <= 0x10_0000_0000,
        -0x10_0000_0000 <= oy <= 0x10_0000_0000,
    ensures
        chunks@ == chunks_of(viewport, ox as int, oy as int, chunk as int, image_dims),
{
    if chunk <= 0 {
        return Vec::new();
    }
    let w: i64 = image_dims.0 as i64;
    let h: i64 = image_dims.1 as i64;
    let lo_x: i64 = viewport.loc.x as i64 - ox;
    let lo_y: i64 = viewport.loc.y as i64 - oy;
    let hi_x: i64 = lo_x + viewport.size.w as i64;
    let hi_y: i64 = lo_y + viewport.size.h as i64;
    let min_x: i64 = if lo_x > 0 {
        lo_x
    } else {
        0
    };
    let min_y: i64 = if lo_y > 0 {
        lo_y
    } else {
        0
    };
    let max_x: i64 = if hi_x < w {
        hi_x
    } else {
        w
    };
    let max_y: i64 = if hi_y < h {
        hi_y
    } else {
        h
    };
    if min_x >= max_x || min_y >= max_y {
        return Vec::new();
    }
    let size: i64 = chunk as i64;
    let c_lo: i64 = min_x / size;
    let c_hi: i64 = (max_x - 1) / size;
    let r_lo: i64 = min_y / size;
    let r_hi: i64 = (max_y - 1) / size;
    assert(0 <= c_lo <= min_x && 0 <= c_hi <= max_x - 1 && 0 <= r_lo <= min_y && 0 <= r_hi <= max_y
        - 1) by (nonlinear_arith)
        requires
            size >= 1,
            0 <= min_x < max_x,
            0 <= min_y < max_y,
            c_lo == min_x / size,
            c_hi == (max_x - 1) / size as int,
            r_lo == min_y / size,
            r_hi == (max_y - 1) / size as int,
    ;
    push_index_grid(c_lo as i32, c_hi as i32, r_lo as i32, r_hi as i32)
}

/// Canvas position of chunk `(cx, cy)` of instance `(kx, ky)`, along one axis.
pub open spec fn chunk_start(c: int, k: int, position: int, image: int, chunk: int) -> int {
    position + k * image + c * chunk
}

/// Top-left canvas position of chunk `(cx, cy)` of image instance `(kx, ky)`.
pub fn chunk_canvas_origin(
    cx: i32,
    cy: i32,
    kx: i32,
    ky: i32,
    image_position: Point,
    image_dims: (u32, u32),
    chunk_canvas_size: i32,
) -> (origin: Point)
    requires
        fits(
            chunk_start(
                cx as int,
                kx as int,
                image_position.x as int,
                image_dims.0 as int,
                chunk_canvas_size as int,
            ),
        ),
        fits(
            chunk_start(
                cy as int,
                ky as int,
                image_position.y as int,
                image_dims.1 as int,
                chunk_canvas_size as int,
            ),
        ),
    ensures
        origin.x == chunk_start(
            cx as int,
            kx as int,
            image_position.x as int,
            image_dims.0 as int,
            chunk_canvas_size as int,
        ),
        origin.y == chunk_start(
            cy as int,
            ky as int,
            image_position.y as int,
            image_dims.1 as int,
            chunk_canvas_size as int,
        ),
{
    Point {
        x: axis_start(cx, kx, image_position.x, image_dims.0, chunk_canvas_size),
        y: axis_start(cy, ky, image_position.y, image_dims.1, chunk_canvas_size),
    }
}

fn axis_start(c: i32, k: i32, position: i32, image: u32, chunk: i32) -> (start: i32)
    requires
        fits(chunk_start(c as int, k as int, position as int, image as int, chunk as int)),
    ensures
        start == chunk_start(c as int, k as int, position as int, image as int, chunk as int),
{
    assert(-0x8000_0000_0000_0000 <= k * image <= 0x7fff_ffff_ffff_ffff && -0x4000_0000_0000_0000
        <= c * chunk <= 0x4000_0000_0000_0000) by (nonlinear_arith)
        requires
            -0x8000_0000 <= k <= 0x7fff_ffff,
            0 <= image <= 0xffff_ffff,
            -0x8000_0000 <= c <= 0x7fff_ffff,
            -0x8000_0000 <= chunk <= 0x7fff_ffff,
    ;
    let base: i128 = k as i128 * image as i128;
    let offset: i128 = c as i128 * chunk as i128;
    (position as i128 + base + offset) as i32
}

/// Whether a chunk's start fits its type, on the canvas and relative to the
/// camera.
pub(crate) fn can_start(c: i32, k: i32, position: i32, image: u32, chunk: i32, camera: i32) -> (r:
    bool)
    ensures
        r == ({
            let start = chunk_start(
                c as int,
                k as int,
                position as int,
                image as int,
                chunk as int,
            );
            fits(start) && fits(start - camera)
        }),
{
    assert(-0x8000_0000_0000_0000 <= k * image <= 0x7fff_ffff_ffff_ffff && -0x4000_0000_0000_0000
        <= c * chunk <= 0x4000_0000_0000_0000) by (nonlinear_arith)
        requires
            -0x8000_0000 <= k <= 0x7fff_ffff,
            0 <= image <= 0xffff_ffff,
            -0x8000_0000 <= c <= 0x7fff_ffff,
            -0x8000_0000 <= chunk <= 0x7fff_ffff,
    ;
    let base: i128 = k as i128 * image as i128;
    let offset: i128 = c as i128 * chunk as i128;
    let start: i128 = position as i128 + base + offset;
    let seen: i128 = start - camera as i128;
    let least: i128 = i32::MIN as i128;
    let most: i128 = i32::MAX as i128;
    least <= start && start <= most && least <= seen && seen <= most
}

/// Extent along one axis of chunk `c`: cut off at the image edge.
pub open spec fn chunk_extent(c: int, image: int, chunk: int) -> int {
    clamp_of(image - c * chunk, 0, chunk)
}

/// Canvas extent of chunk `(cx, cy)`; smaller at the right and bottom edges,
/// and nothing past them.
pub fn chunk_actual_size(cx: i32, cy: i32, image_dims: (u32, u32), chunk_canvas_size: i32) -> (size: (
    i32,
    i32,
))
    requires
        chunk_canvas_size >= 0,
    ensures
        size.0 == chunk_extent(cx as int, image_dims.0 as int, chunk_canvas_size as int),
        size.1 == chunk_extent(cy as int, image_dims.1 as int, chunk_canvas_size as int),
{
    (
        axis_extent(cx, image_dims.0, chunk_canvas_size),
        axis_extent(cy, image_dims.1, chunk_canvas_size),
    )
}

fn axis_extent(c: i32, image: u32, chunk: i32) -> (extent: i32)
    requires
        chunk >= 0,
    ensures
        extent == chunk_extent(c as int, image as int, chunk as int),
{
    assert(-0x4000_0000_0000_0000 <= c * chunk <= 0x4000_0000_0000_0000) by (nonlinear_arith)
        requires
            -0x8000_0000 <= c <= 0x7fff_ffff,
            0 <= chunk <= 0x7fff_ffff,
    ;
    let left: i64 = image as i64 - c as i64 * chunk as i64;
    if left < 0 {
        0
    } else if left > chunk as i64 {
        chunk
    } else {
        left as i32
    }
}

/// All visible `(cx, cy, kx, ky)` for the given viewport.
pub fn visibility_query(
    viewport: Rect,
    image_position: Point,
    image_dims: (u32, u32),
    chunk_canvas_size: i32,
) -> (visible: Vec<(i32, i32, i32, i32)>)
    requires
        image_dims.0 <= i32::MAX,
        image_dims.1 <= i32::MAX,
        viewport_fits(viewport, image_position, image_dims),
    ensures
        visible@ == visible_chunks(
            viewport,
            image_position,
            image_dims,
            chunk_canvas_size as int,
        ),
{
    let mut out: Vec<(i32, i32, i32, i32)> = Vec::new();
    let x0: i64 = viewport.loc.x as i64;
    let x1: i64 = x0 + viewport.size.w as i64;
    let y0: i64 = viewport.loc.y as i64;
    let y1: i64 = y0 + viewport.size.h as i64;
    let w: i64 = image_dims.0 as i64;
    let h: i64 = image_dims.1 as i64;
    if x1 <= x0 || y1 <= y0 || w == 0 || h == 0 {
        return out;
    }
    let kxs = span_instances(x0, x1, image_position.x as i64, w);
    let kys = span_instances(y0, y1, image_position.y as i64, h);
    let ghost chunk = chunk_canvas_size as int;
    proof {
        lemma_instance_range(x0 as int, x1 as int, image_position.x as int, w as int);
        lemma_instance_range(y0 as int, y1 as int, image_position.y as int, h as int);
    }
    let mut ky: i32 = kys.start;
    while ky < kys.end
        invariant
            kys.start <= ky <= kys.end,
            kxs.start <= kxs.end,
            image_dims.0 <= i32::MAX,
            image_dims.1 <= i32::MAX,
            w == image_dims.0,
            h == image_dims.1,
            w > 0,
            h > 0,
            chunk == chunk_canvas_size,
            kxs.start == first_instance(x0 as int, image_position.x as int, w as int),
            kys.start == first_instance(y0 as int, image_position.y as int, h as int),
            kxs.end == end_instance(x1 as int, image_position.x as int, w as int),
            kys.end == end_instance(y1 as int, image_position.y as int, h as int),
            x0 == viewport.loc.x,
            y0 == viewport.loc.y,
            x1 == x0 + viewport.size.w,
            y1 == y0 + viewport.size.h,
            x0 < x1,
            y0 < y1,
            out@ =~= visible_in_rows(
                viewport,
                image_position,
                image_dims,
                chunk,
                kxs.start as int,
                kxs.end as int,
                kys.start as int,
                ky as int,
            ),
        decreases kys.end - ky,
    {
        let ghost before = out@;
        let mut kx: i32 = kxs.start;
        while kx < kxs.end
            invariant
                kxs.start <= kx <= kxs.end,
                kys.start <= ky < kys.end,
                image_dims.0 <= i32::MAX,
                image_dims.1 <= i32::MAX,
                w == image_dims.0,
                h == image_dims.1,
                w > 0,
                h > 0,
                chunk == chunk_canvas_size,
                kxs.start == first_instance(x0 as int, image_position.x as int, w as int),
                kys.start == first_instance(y0 as int, image_position.y as int, h as int),
                kxs.end == end_instance(x1 as int, image_position.x as int, w as int),
                kys.end == end_instance(y1 as int, image_position.y as int, h as int),
                x0 == viewport.loc.x,
                y0 == viewport.loc.y,
                x1 == x0 + viewport.size.w,
                y1 == y0 + viewport.size.h,
                x0 < x1,
                y0 < y1,
                out@ =~= before + visible_in_row(
                    viewport,
                    image_position,
                    image_dims,
                    chunk,
                    kxs.start as int,
                    kx as int,
                    ky as int,
                ),
            decreases kxs.end - kx,
        {
            proof {
                let at = image_position;
                lemma_instance_start(x0 as int, x1 as int, at.x as int, w as int, kx as int);
                lemma_instance_start(y0 as int, y1 as int, at.y as int, h as int, ky as int);
            }
            let ox: i64 = image_position.x as i64 + kx as i64 * w;
            let oy: i64 = image_position.y as i64 + ky as i64 * h;
            let chunks = instance_chunks(viewport, ox, oy, chunk_canvas_size, image_dims);
            let ghost start = out@;
            let mut i: usize = 0;
            while i < chunks.len()
                invariant
                    i <= chunks.len(),
                    out@ =~= start + tagged(chunks@.subrange(0, i as int), kx as int, ky as int),
                decreases chunks.len() - i,
            {
                let c = chunks[i];
                out.push((c.0, c.1, kx, ky));
                proof {
                    assert(chunks@.subrange(0, i + 1) =~= chunks@.subrange(0, i as int).push(c));
                }
                i = i + 1;
            }
            assert(chunks@.subrange(0, chunks.len() as int) =~= chunks@);
            kx = kx + 1;
        }
        ky = ky + 1;
    }
    out
}

/// The instance range of a span is not empty.
proof fn lemma_instance_range(lo: int, hi: int, origin: int, image: int)
    requires
        shows(lo, hi, image),
    ensures
        first_instance(lo, origin, image) < end_instance(hi, origin, image),
{
    assert((lo - origin) / image <= (hi - 1 - origin) / image) by (nonlinear_arith)
        requires
            image > 0,
            lo <= hi - 1,
    ;
}

/// An instance of the range starts before the span ends and ends after it
/// starts.
proof fn lemma_instance_start(lo: int, hi: int, origin: int, image: int, k: int)
    requires
        shows(lo, hi, image),
        first_instance(lo, origin, image) <= k < end_instance(hi, origin, image),
    ensures
        origin + k * image < hi,
        lo < origin + k * image + image,
{
    let a = lo - origin;
    let b = hi - 1 - origin;
    assert(a < (a / image) * image + image && (b / image) * image <= b) by (nonlinear_arith)
        requires
            image > 0,
    ;
    assert((a / image) * image <= k * image && k * image <= (b / image) * image)
        by (nonlinear_arith)
        requires
            image > 0,
            a / image <= k <= b / image,
    ;
}

/// Chunk `c` of instance `k` is among the visible ones along an axis.
pub open spec fn axis_visible(
    lo: int,
    hi: int,
    position: int,
    image: int,
    chunk: int,
    c: int,
    k: int,
) -> bool {
    let origin = position + k * image;
    &&& first_instance(lo, position, image) <= k < end_instance(hi, position, image)
    &&& instance_in_span(lo, hi, origin, image)
    &&& first_chunk(lo, origin, chunk) <= c <= last_chunk(hi, origin, chunk, image)
}

/// Chunk `c` of instance `k` exists and has a part in the span.
pub open spec fn chunk_in_span(
    lo: int,
    hi: int,
    position: int,
    image: int,
    chunk: int,
    c: int,
    k: int,
) -> bool {
    let start = chunk_start(c, k, position, image, chunk);
    &&& 0 <= c
    &&& c * chunk < image
    &&& start < hi
    &&& lo < start + chunk_extent(c, image, chunk)
}

/// The computed ranges hold exactly the chunks that have a part in the span.
pub proof fn law_axis_ranges_are_exact(
    lo: int,
    hi: int,
    position: int,
    image: int,
    chunk: int,
    c: int,
    k: int,
)
    requires
        shows(lo, hi, image),
        chunk > 0,
    ensures
        axis_visible(lo, hi, position, image, chunk, c, k) <==> chunk_in_span(
            lo,
            hi,
            position,
            image,
            chunk,
            c,
            k,
        ),
{
    let origin = position + k * image;
    let a = max_of(lo - origin, 0);
    let b = min_of(hi - origin, image);
    let start = chunk_start(c, k, position, image, chunk);
    let cc = c * chunk;
    assert(start == origin + cc);
    lemma_div_bounds(a, chunk, c);
    lemma_div_bounds(b - 1, chunk, c);
    lemma_div_bounds(lo - position, image, k);
    lemma_div_bounds(hi - 1 - position, image, k);
    if chunk_in_span(lo, hi, position, image, chunk, c, k) {
        assert(cc >= 0) by (nonlinear_arith)
            requires
                c >= 0,
                chunk > 0,
                cc == c * chunk,
        ;
        assert(c >= 0);
        // The instance overlaps the span, so it is in the range.
        assert(lo < origin + image && origin < hi);
        assert((k + 1) * image == k * image + image) by (nonlinear_arith);
        assert((c + 1) * chunk == cc + chunk) by (nonlinear_arith)
            requires
                cc == c * chunk,
        ;
    }
    if axis_visible(lo, hi, position, image, chunk, c, k) {
        assert(a / chunk >= 0) by (nonlinear_arith)
            requires
                a >= 0,
                chunk > 0,
        ;
        assert((c + 1) * chunk == cc + chunk) by (nonlinear_arith)
            requires
                cc == c * chunk,
        ;
    }
}

/// `a / d <= q` and `q <= a / d`, as products.
proof fn lemma_div_bounds(a: int, d: int, q: int)
    requires
        d > 0,
    ensures
        a / d <= q <==> a < (q + 1) * d,
        q <= a / d <==> q * d <= a,
{
    let r = a % d;
    let p = a / d;
    assert(a == d * p + r && 0 <= r < d) by {
        vstd::arithmetic::div_mod::lemma_fundamental_div_mod(a, d);
    }
    if p <= q {
        assert(a < (q + 1) * d) by (nonlinear_arith)
            requires
                a == d * p + r,
                r < d,
                p <= q,
                d > 0,
        ;
    } else {
        assert(a >= (q + 1) * d) by (nonlinear_arith)
            requires
                a == d * p + r,
                r >= 0,
                p >= q + 1,
                d > 0,
        ;
    }
    if q <= p {
        assert(q * d <= a) by (nonlinear_arith)
            requires
                a == d * p + r,
                r >= 0,
                q <= p,
                d > 0,
        ;
    } else {
        assert(q * d > a) by (nonlinear_arith)
            requires
                a == d * p + r,
                r < d,
                q >= p + 1,
                d > 0,
        ;
    }
}

proof fn lemma_index_grid_contains(c_lo: int, c_hi: int, r_lo: int, r_hi: int, c: i32, r: i32)
    requires
        0 <= c_lo,
        0 <= r_lo,
        c_hi <= i32::MAX,
        r_hi <= i32::MAX,
    ensures
        index_grid(c_lo, c_hi, r_lo, r_hi).contains((c, r)) <==> c_lo <= c <= c_hi && r_lo <= r
            <= r_hi,
    decreases r_hi - r_lo + 1,
{
    if r_hi >= r_lo {
        lemma_index_grid_contains(c_lo, c_hi, r_lo, r_hi - 1, c, r);
        let init = index_grid(c_lo, c_hi, r_lo, r_hi - 1);
        let row = index_row(c_lo, c_hi, r_hi);
        let all = index_grid(c_lo, c_hi, r_lo, r_hi);
        lemma_contains_add(init, row, (c, r));
        if c_lo <= c <= c_hi && r == r_hi {
            assert(row[c - c_lo] == (c, r));
        }
    }
}

proof fn lemma_contains_add<A>(a: Seq<A>, b: Seq<A>, x: A)
    ensures
        (a + b).contains(x) <==> a.contains(x) || b.contains(x),
{
    let all = a + b;
    if a.contains(x) {
        let i = choose|i: int| 0 <= i < a.len() && a[i] == x;
        assert(all[i] == x);
    }
    if b.contains(x) {
        let i = choose|i: int| 0 <= i < b.len() && b[i] == x;
        assert(all[a.len() + i] == x);
    }
    if all.contains(x) {
        let i = choose|i: int| 0 <= i < all.len() && all[i] == x;
        if i < a.len() {
            assert(a[i] == x);
        } else {
            assert(b[i - a.len()] == x);
        }
    }
}

proof fn lemma_instance_chunks_contain(
    viewport: Rect,
    ox: int,
    oy: int,
    chunk: int,
    image_dims: (u32, u32),
    c: i32,
    r: i32,
)
    requires
        chunk > 0,
        image_dims.0 <= i32::MAX,
        image_dims.1 <= i32::MAX,
    ensures
        chunks_of(viewport, ox, oy, chunk, image_dims).contains((c, r)) <==> {
            let x0 = viewport.loc.x as int;
            let x1 = x0 + viewport.size.w;
            let y0 = viewport.loc.y as int;
            let y1 = y0 + viewport.size.h;
            &&& instance_in_span(x0, x1, ox, image_dims.0 as int)
            &&& instance_in_span(y0, y1, oy, image_dims.1 as int)
            &&& first_chunk(x0, ox, chunk) <= c <= last_chunk(x1, ox, chunk, image_dims.0 as int)
            &&& first_chunk(y0, oy, chunk) <= r <= last_chunk(y1, oy, chunk, image_dims.1 as int)
        },
{
    let x0 = viewport.loc.x as int;
    let x1 = x0 + viewport.size.w;
    let y0 = viewport.loc.y as int;
    let y1 = y0 + viewport.size.h;
    let w = image_dims.0 as int;
    let h = image_dims.1 as int;
    if instance_in_span(x0, x1, ox, w) && instance_in_span(y0, y1, oy, h) {
        let bx = min_of(x1 - ox, w) - 1;
        let by = min_of(y1 - oy, h) - 1;
        assert(0 <= max_of(x0 - ox, 0) / chunk && bx / chunk <= bx && 0 <= max_of(y0 - oy, 0)
            / chunk && by / chunk <= by) by (nonlinear_arith)
            requires
                chunk >= 1,
                bx >= 0,
                by >= 0,
                max_of(x0 - ox, 0) >= 0,
                max_of(y0 - oy, 0) >= 0,
        ;
        lemma_index_grid_contains(
            first_chunk(x0, ox, chunk),
            last_chunk(x1, ox, chunk, w),
            first_chunk(y0, oy, chunk),
            last_chunk(y1, oy, chunk, h),
            c,
            r,
        );
    }
}

proof fn lemma_tagged_contains(
    chunks: Seq<(i32, i32)>,
    kx: int,
    ky: int,
    key: (i32, i32, i32, i32),
)
    requires
        fits(kx),
        fits(ky),
    ensures
        tagged(chunks, kx, ky).contains(key) <==> chunks.contains((key.0, key.1)) && key.2 == kx
            && key.3 == ky,
{
    let t = tagged(chunks, kx, ky);
    if t.contains(key) {
        let i = choose|i: int| 0 <= i < t.len() && t[i] == key;
        assert(chunks[i] == (key.0, key.1));
    }
    if chunks.contains((key.0, key.1)) && key.2 == kx && key.3 == ky {
        let i = choose|i: int| 0 <= i < chunks.len() && chunks[i] == (key.0, key.1);
        assert(t[i] == key);
    }
}

proof fn lemma_row_contains(
    viewport: Rect,
    position: Point,
    image_dims: (u32, u32),
    chunk: int,
    kx_lo: int,
    kx_hi: int,
    ky: int,
    key: (i32, i32, i32, i32),
)
    requires
        fits(kx_lo),
        fits(kx_hi),
        fits(ky),
    ensures
        visible_in_row(viewport, position, image_dims, chunk, kx_lo, kx_hi, ky).contains(key)
            <==> kx_lo <= key.2 < kx_hi && key.3 == ky && chunks_of(
            viewport,
            position.x + key.2 * image_dims.0,
            position.y + ky * image_dims.1,
            chunk,
            image_dims,
        ).contains((key.0, key.1)),
    decreases kx_hi - kx_lo,
{
    if kx_hi > kx_lo {
        let kx = kx_hi - 1;
        lemma_row_contains(viewport, position, image_dims, chunk, kx_lo, kx, ky, key);
        let chunks = chunks_of(
            viewport,
            position.x + kx * image_dims.0,
            position.y + ky * image_dims.1,
            chunk,
            image_dims,
        );
        lemma_tagged_contains(chunks, kx, ky, key);
        lemma_contains_add(
            visible_in_row(viewport, position, image_dims, chunk, kx_lo, kx, ky),
            tagged(chunks, kx, ky),
            key,
        );
    }
}

proof fn lemma_rows_contain(
    viewport: Rect,
    position: Point,
    image_dims: (u32, u32),
    chunk: int,
    kx_lo: int,
    kx_hi: int,
    ky_lo: int,
    ky_hi: int,
    key: (i32, i32, i32, i32),
)
    requires
        fits(kx_lo),
        fits(kx_hi),
        fits(ky_lo),
        fits(ky_hi),
    ensures
        visible_in_rows(
            viewport,
            position,
            image_dims,
            chunk,
            kx_lo,
            kx_hi,
            ky_lo,
            ky_hi,
        ).contains(key) <==> kx_lo <= key.2 < kx_hi && ky_lo <= key.3 < ky_hi && chunks_of(
            viewport,
            position.x + key.2 * image_dims.0,
            position.y + key.3 * image_dims.1,
            chunk,
            image_dims,
        ).contains((key.0, key.1)),
    decreases ky_hi - ky_lo,
{
    if ky_hi > ky_lo {
        let ky = ky_hi - 1;
        lemma_rows_contain(
            viewport,
            position,
            image_dims,
            chunk,
            kx_lo,
            kx_hi,
            ky_lo,
            ky,
            key,
        );
        lemma_row_contains(viewport, position, image_dims, chunk, kx_lo, kx_hi, ky, key);
        lemma_contains_add(
            visible_in_rows(viewport, position, image_dims, chunk, kx_lo, kx_hi, ky_lo, ky),
            visible_in_row(viewport, position, image_dims, chunk, kx_lo, kx_hi, ky),
            key,
        );
    }
}

/// The visible chunks are exactly those that exist and have a part in the
/// viewport.
pub proof fn law_visible_chunks_are_exact(
    viewport: Rect,
    position: Point,
    image_dims: (u32, u32),
    chunk: int,
    key: (i32, i32, i32, i32),
)
    requires
        0 < image_dims.0 <= i32::MAX,
        0 < image_dims.1 <= i32::MAX,
        viewport_fits(viewport, position, image_dims),
        chunk > 0,
        viewport.size.positive(),
    ensures
        visible_chunks(viewport, position, image_dims, chunk).contains(key) <==> chunk_in_span(
            viewport.loc.x as int,
            viewport.loc.x + viewport.size.w,
            position.x as int,
            image_dims.0 as int,
            chunk,
            key.0 as int,
            key.2 as int,
        ) && chunk_in_span(
            viewport.loc.y as int,
            viewport.loc.y + viewport.size.h,
            position.y as int,
            image_dims.1 as int,
            chunk,
            key.1 as int,
            key.3 as int,
        ),
{
    let x0 = viewport.loc.x as int;
    let x1 = x0 + viewport.size.w;
    let y0 = viewport.loc.y as int;
    let y1 = y0 + viewport.size.h;
    let w = image_dims.0 as int;
    let h = image_dims.1 as int;
    lemma_rows_contain(
        viewport,
        position,
        image_dims,
        chunk,
        first_instance(x0, position.x as int, w),
        end_instance(x1, position.x as int, w),
        first_instance(y0, position.y as int, h),
        end_instance(y1, position.y as int, h),
        key,
    );
    lemma_instance_chunks_contain(
        viewport,
        position.x + key.2 * image_dims.0,
        position.y + key.3 * image_dims.1,
        chunk,
        image_dims,
        key.0,
        key.1,
    );
    law_axis_ranges_are_exact(x0, x1, position.x as int, w, chunk, key.0 as int, key.2 as int);
    law_axis_ranges_are_exact(y0, y1, position.y as int, h, chunk, key.1 as int, key.3 as int);
}

/// A visible chunk lies on the image.
pub(crate) proof fn lemma_visible_chunk_on_image(
    viewport: Rect,
    position: Point,
    image_dims: (u32, u32),
    chunk: int,
    i: int,
)
    requires
        image_dims.0 <= i32::MAX,
        image_dims.1 <= i32::MAX,
        viewport_fits(viewport, position, image_dims),
        chunk > 0,
        0 <= i < visible_chunks(viewport, position, image_dims, chunk).len(),
    ensures
        ({
            let key = visible_chunks(viewport, position, image_dims, chunk)[i];
            &&& 0 <= key.0
            &&& key.0 * chunk < image_dims.0
            &&& 0 <= key.1
            &&& key.1 * chunk < image_dims.1
        }),
{
    let all = visible_chunks(viewport, position, image_dims, chunk);
    assert(all.contains(all[i]));
    assert(viewport.size.positive() && image_dims.0 > 0 && image_dims.1 > 0);
    law_visible_chunks_are_exact(viewport, position, image_dims, chunk, all[i]);
}

/// A chunk covers a canvas coordinate along one axis.
pub open spec fn axis_covers(
    c: int,
    k: int,
    position: int,
    image: int,
    chunk: int,
    v: int,
) -> bool {
    let start = chunk_start(c, k, position, image, chunk);
    start <= v < start + chunk_extent(c, image, chunk)
}

/// A chunk of an instance covers a point of the canvas.
pub open spec fn chunk_covers(
    key: (i32, i32, i32, i32),
    position: Point,
    image_dims: (u32, u32),
    chunk: int,
    x: int,
    y: int,
) -> bool {
    &&& axis_covers(
        key.0 as int,
        key.2 as int,
        position.x as int,
        image_dims.0 as int,
        chunk,
        x,
    )
    &&& axis_covers(
        key.1 as int,
        key.3 as int,
        position.y as int,
        image_dims.1 as int,
        chunk,
        y,
    )
}

/// The instance and the chunk that hold a coordinate.
proof fn lemma_axis_holder(position: int, image: int, chunk: int, v: int) -> (held: (int, int))
    requires
        image > 0,
        chunk > 0,
    ensures
        0 <= held.0,
        held.0 * chunk < image,
        axis_covers(held.0, held.1, position, image, chunk, v),
{
    let k = (v - position) / image;
    let rest = v - position - k * image;
    lemma_div_bounds(v - position, image, k);
    assert((k + 1) * image == k * image + image) by (nonlinear_arith);
    let c = rest / chunk;
    lemma_div_bounds(rest, chunk, c);
    lemma_div_bounds(rest, chunk, 0);
    assert((c + 1) * chunk == c * chunk + chunk) by (nonlinear_arith);
    assert(0 * chunk == 0);
    (c, k)
}

/// No other existing chunk holds it.
proof fn lemma_axis_holder_unique(
    position: int,
    image: int,
    chunk: int,
    v: int,
    a: (int, int),
    b: (int, int),
)
    requires
        image > 0,
        chunk > 0,
        0 <= a.0,
        a.0 * chunk < image,
        0 <= b.0,
        b.0 * chunk < image,
        axis_covers(a.0, a.1, position, image, chunk, v),
        axis_covers(b.0, b.1, position, image, chunk, v),
    ensures
        a == b,
{
    lemma_axis_place(position, image, chunk, v, a);
    lemma_axis_place(position, image, chunk, v, b);
}

proof fn lemma_axis_place(position: int, image: int, chunk: int, v: int, a: (int, int))
    requires
        image > 0,
        chunk > 0,
        0 <= a.0,
        a.0 * chunk < image,
        axis_covers(a.0, a.1, position, image, chunk, v),
    ensures
        a.1 == (v - position) / image,
        a.0 == (v - position - a.1 * image) / chunk,
{
    let (c, k) = a;
    assert(c * chunk >= 0) by (nonlinear_arith)
        requires
            c >= 0,
            chunk > 0,
    ;
    assert((k + 1) * image == k * image + image) by (nonlinear_arith);
    assert((c + 1) * chunk == c * chunk + chunk) by (nonlinear_arith);
    lemma_div_bounds(v - position, image, k);
    lemma_div_bounds(v - position - k * image, chunk, c);
}

proof fn lemma_distinct_add<A>(a: Seq<A>, b: Seq<A>)
    requires
        a.no_duplicates(),
        b.no_duplicates(),
        forall|x: A| #[trigger] a.contains(x) ==> !b.contains(x),
    ensures
        (a + b).no_duplicates(),
{
    let all = a + b;
    assert forall|i: int, j: int| 0 <= i < all.len() && 0 <= j < all.len() && i != j implies all[i]
        != all[j] by {
        if i < a.len() && j >= a.len() {
            assert(a.contains(a[i]));
            assert(b.contains(b[j - a.len()]));
        } else if i >= a.len() && j < a.len() {
            assert(a.contains(a[j]));
            assert(b.contains(b[i - a.len()]));
        }
    }
}

proof fn lemma_index_grid_distinct(c_lo: int, c_hi: int, r_lo: int, r_hi: int)
    requires
        0 <= c_lo,
        0 <= r_lo,
        c_hi <= i32::MAX,
        r_hi <= i32::MAX,
    ensures
        index_grid(c_lo, c_hi, r_lo, r_hi).no_duplicates(),
    decreases r_hi - r_lo + 1,
{
    if r_hi >= r_lo {
        lemma_index_grid_distinct(c_lo, c_hi, r_lo, r_hi - 1);
        let init = index_grid(c_lo, c_hi, r_lo, r_hi - 1);
        let row = index_row(c_lo, c_hi, r_hi);
        assert forall|x: (i32, i32)| #[trigger] init.contains(x) implies !row.contains(x) by {
            lemma_index_grid_contains(c_lo, c_hi, r_lo, r_hi - 1, x.0, x.1);
        }
        lemma_distinct_add(init, row);
    }
}

proof fn lemma_instance_chunks_distinct(
    viewport: Rect,
    ox: int,
    oy: int,
    chunk: int,
    image_dims: (u32, u32),
)
    requires
        chunk > 0,
        image_dims.0 <= i32::MAX,
        image_dims.1 <= i32::MAX,
    ensures
        chunks_of(viewport, ox, oy, chunk, image_dims).no_duplicates(),
{
    let x0 = viewport.loc.x as int;
    let x1 = x0 + viewport.size.w;
    let y0 = viewport.loc.y as int;
    let y1 = y0 + viewport.size.h;
    let w = image_dims.0 as int;
    let h = image_dims.1 as int;
    if instance_in_span(x0, x1, ox, w) && instance_in_span(y0, y1, oy, h) {
        let bx = min_of(x1 - ox, w) - 1;
        let by = min_of(y1 - oy, h) - 1;
        assert(0 <= max_of(x0 - ox, 0) / chunk && bx / chunk <= bx && 0 <= max_of(y0 - oy, 0)
            / chunk && by / chunk <= by) by (nonlinear_arith)
            requires
                chunk >= 1,
                bx >= 0,
                by >= 0,
                max_of(x0 - ox, 0) >= 0,
                max_of(y0 - oy, 0) >= 0,
        ;
        lemma_index_grid_distinct(
            first_chunk(x0, ox, chunk),
            last_chunk(x1, ox, chunk, w),
            first_chunk(y0, oy, chunk),
            last_chunk(y1, oy, chunk, h),
        );
    }
}

proof fn lemma_row_distinct(
    viewport: Rect,
    position: Point,
    image_dims: (u32, u32),
    chunk: int,
    kx_lo: int,
    kx_hi: int,
    ky: int,
)
    requires
        chunk > 0,
        image_dims.0 <= i32::MAX,
        image_dims.1 <= i32::MAX,
        fits(kx_lo),
        fits(kx_hi),
        fits(ky),
    ensures
        visible_in_row(viewport, position, image_dims, chunk, kx_lo, kx_hi, ky).no_duplicates(),
    decreases kx_hi - kx_lo,
{
    if kx_hi > kx_lo {
        let kx = kx_hi - 1;
        let ox = position.x + kx * image_dims.0;
        let oy = position.y + ky * image_dims.1;
        let chunks = chunks_of(viewport, ox, oy, chunk, image_dims);
        let init = visible_in_row(viewport, position, image_dims, chunk, kx_lo, kx, ky);
        let here = tagged(chunks, kx, ky);
        lemma_row_distinct(viewport, position, image_dims, chunk, kx_lo, kx, ky);
        lemma_instance_chunks_distinct(viewport, ox, oy, chunk, image_dims);
        assert(here.no_duplicates()) by {
            assert forall|i: int, j: int|
                0 <= i < here.len() && 0 <= j < here.len() && i != j implies here[i] != here[j] by {
                assert(chunks[i] != chunks[j]);
            }
        }
        assert forall|x: (i32, i32, i32, i32)| #[trigger] init.contains(x) implies !here.contains(
            x,
        ) by {
            lemma_row_contains(viewport, position, image_dims, chunk, kx_lo, kx, ky, x);
            lemma_tagged_contains(chunks, kx, ky, x);
        }
        lemma_distinct_add(init, here);
    }
}

proof fn lemma_rows_distinct(
    viewport: Rect,
    position: Point,
    image_dims: (u32, u32),
    chunk: int,
    kx_lo: int,
    kx_hi: int,
    ky_lo: int,
    ky_hi: int,
)
    requires
        chunk > 0,
        image_dims.0 <= i32::MAX,
        image_dims.1 <= i32::MAX,
        fits(kx_lo),
        fits(kx_hi),
        fits(ky_lo),
        fits(ky_hi),
    ensures
        visible_in_rows(
            viewport,
            position,
            image_dims,
            chunk,
            kx_lo,
            kx_hi,
            ky_lo,
            ky_hi,
        ).no_duplicates(),
    decreases ky_hi - ky_lo,
{
    if ky_hi > ky_lo {
        let ky = ky_hi - 1;
        let init = visible_in_rows(
            viewport,
            position,
            image_dims,
            chunk,
            kx_lo,
            kx_hi,
            ky_lo,
            ky,
        );
        let here = visible_in_row(viewport, position, image_dims, chunk, kx_lo, kx_hi, ky);
        lemma_rows_distinct(
            viewport,
            position,
            image_dims,
            chunk,
            kx_lo,
            kx_hi,
            ky_lo,
            ky,
        );
        lemma_row_distinct(viewport, position, image_dims, chunk, kx_lo, kx_hi, ky);
        assert forall|x: (i32, i32, i32, i32)| #[trigger] init.contains(x) implies !here.contains(
            x,
        ) by {
            lemma_rows_contain(
                viewport,
                position,
                image_dims,
                chunk,
                kx_lo,
                kx_hi,
                ky_lo,
                ky,
                x,
            );
            lemma_row_contains(viewport, position, image_dims, chunk, kx_lo, kx_hi, ky, x);
        }
        lemma_distinct_add(init, here);
    }
}

/// The visible chunks cover the viewport exactly once: none is listed twice,
/// and every point of the viewport lies in one of them and in no other.
pub proof fn law_visible_chunks_tile_the_viewport(
    viewport: Rect,
    position: Point,
    image_dims: (u32, u32),
    chunk: int,
    x: int,
    y: int,
)
    requires
        0 < image_dims.0 <= i32::MAX,
        0 < image_dims.1 <= i32::MAX,
        viewport_fits(viewport, position, image_dims),
        chunk > 0,
        viewport.loc.x <= x < viewport.loc.x + viewport.size.w,
        viewport.loc.y <= y < viewport.loc.y + viewport.size.h,
    ensures
        visible_chunks(viewport, position, image_dims, chunk).no_duplicates(),
        exists|key: (i32, i32, i32, i32)| #[trigger]
            visible_chunks(viewport, position, image_dims, chunk).contains(key) && chunk_covers(
                key,
                position,
                image_dims,
                chunk,
                x,
                y,
            ),
        forall|a: (i32, i32, i32, i32), b: (i32, i32, i32, i32)|
            #![trigger
                chunk_covers(a, position, image_dims, chunk, x, y),
                chunk_covers(b, position, image_dims, chunk, x, y)
            ]
            visible_chunks(viewport, position, image_dims, chunk).contains(a) && visible_chunks(
                viewport,
                position,
                image_dims,
                chunk,
            ).contains(b) && chunk_covers(a, position, image_dims, chunk, x, y) && chunk_covers(
                b,
                position,
                image_dims,
                chunk,
                x,
                y,
            ) ==> a == b,
{
    let x0 = viewport.loc.x as int;
    let x1 = x0 + viewport.size.w;
    let y0 = viewport.loc.y as int;
    let y1 = y0 + viewport.size.h;
    let w = image_dims.0 as int;
    let h = image_dims.1 as int;
    let px = position.x as int;
    let py = position.y as int;
    let visible = visible_chunks(viewport, position, image_dims, chunk);
    lemma_rows_distinct(
        viewport,
        position,
        image_dims,
        chunk,
        first_instance(x0, px, w),
        end_instance(x1, px, w),
        first_instance(y0, py, h),
        end_instance(y1, py, h),
    );
    let (cx, kx) = lemma_axis_holder(px, w, chunk, x);
    let (cy, ky) = lemma_axis_holder(py, h, chunk, y);
    law_axis_ranges_are_exact(x0, x1, px, w, chunk, cx, kx);
    law_axis_ranges_are_exact(y0, y1, py, h, chunk, cy, ky);
    assert(cx < w && cy < h) by (nonlinear_arith)
        requires
            cx * chunk < w,
            cy * chunk < h,
            0 <= cx,
            0 <= cy,
            chunk >= 1,
    ;
    let key = (cx as i32, cy as i32, kx as i32, ky as i32);
    law_visible_chunks_are_exact(viewport, position, image_dims, chunk, key);
    assert(visible.contains(key) && chunk_covers(key, position, image_dims, chunk, x, y));
    assert forall|a: (i32, i32, i32, i32), b: (i32, i32, i32, i32)|
        #![trigger
            chunk_covers(a, position, image_dims, chunk, x, y),
            chunk_covers(b, position, image_dims, chunk, x, y)
        ]
        visible.contains(a) && visible.contains(b) && chunk_covers(
            a,
            position,
            image_dims,
            chunk,
            x,
            y,
        ) && chunk_covers(b, position, image_dims, chunk, x, y) implies a == b by {
        law_visible_chunks_are_exact(viewport, position, image_dims, chunk, a);
        law_visible_chunks_are_exact(viewport, position, image_dims, chunk, b);
        let (ax, bx) = ((a.0 as int, a.2 as int), (b.0 as int, b.2 as int));
        let (ay, by) = ((a.1 as int, a.3 as int), (b.1 as int, b.3 as int));
        lemma_axis_holder_unique(px, w, chunk, x, ax, bx);
        lemma_axis_holder_unique(py, h, chunk, y, ay, by);
    }
}

/// An instance is in the range of a span exactly if it has a part in it.
pub proof fn law_instances_of_a_span(lo: int, hi: int, origin: int, image: int, k: int)
    requires
        lo < hi,
        image > 0,
    ensures
        first_instance(lo, origin, image) <= k < end_instance(hi, origin, image) <==> origin + k
            * image < hi && lo < origin + k * image + image,
{
    lemma_div_bounds(lo - origin, image, k);
    lemma_div_bounds(hi - 1 - origin, image, k);
    assert((k + 1) * image == k * image + image) by (nonlinear_arith);
}

/// A chunk starts as many whole images past the position as its instance says, and
/// as many whole spans past that as its number says; it ends a span later or where
/// its instance does.
pub proof fn law_chunk_lies_on_its_instance(
    c: int,
    k: int,
    position: int,
    image: int,
    chunk: int,
)
    requires
        chunk > 0,
        0 <= c,
        c * chunk < image,
    ensures
        ({
            let start = chunk_start(c, k, position, image, chunk);
            let end = start + chunk_extent(c, image, chunk);
            &&& start - position == k * image + c * chunk
            &&& chunk_start(c + 1, k, position, image, chunk) == start + chunk
            &&& chunk_start(c, k + 1, position, image, chunk) == start + image
            &&& start < end <= start + chunk
            &&& end <= position + k * image + image
            &&& end == start + chunk || end == position + k * image + image
        }),
{
    assert((c + 1) * chunk == c * chunk + chunk) by (nonlinear_arith);
    assert((k + 1) * image == k * image + image) by (nonlinear_arith);
}

/// `a` comes before `b`: in an instance row above, else in an instance further
/// left, else in a chunk row above, else further left.
pub open spec fn listed_before(a: (i32, i32, i32, i32), b: (i32, i32, i32, i32)) -> bool {
    ||| a.3 < b.3
    ||| a.3 == b.3 && a.2 < b.2
    ||| a.3 == b.3 && a.2 == b.2 && a.1 < b.1
    ||| a.3 == b.3 && a.2 == b.2 && a.1 == b.1 && a.0 < b.0
}

proof fn lemma_grid_order(c_lo: int, c_hi: int, r_lo: int, r_hi: int, i: int, j: int)
    requires
        0 <= c_lo,
        0 <= r_lo,
        c_hi <= i32::MAX,
        r_hi <= i32::MAX,
        0 <= i < j < index_grid(c_lo, c_hi, r_lo, r_hi).len(),
    ensures
        ({
            let a = index_grid(c_lo, c_hi, r_lo, r_hi)[i];
            let b = index_grid(c_lo, c_hi, r_lo, r_hi)[j];
            a.1 < b.1 || (a.1 == b.1 && a.0 < b.0)
        }),
    decreases r_hi - r_lo + 1,
{
    if r_hi >= r_lo {
        let init = index_grid(c_lo, c_hi, r_lo, r_hi - 1);
        let all = index_grid(c_lo, c_hi, r_lo, r_hi);
        if j < init.len() {
            lemma_grid_order(c_lo, c_hi, r_lo, r_hi - 1, i, j);
        } else if i < init.len() {
            assert(all[i] == init[i]);
            assert(init.contains(init[i]));
            lemma_index_grid_contains(c_lo, c_hi, r_lo, r_hi - 1, init[i].0, init[i].1);
        }
    }
}

proof fn lemma_instance_order(
    viewport: Rect,
    ox: int,
    oy: int,
    chunk: int,
    image_dims: (u32, u32),
    kx: int,
    ky: int,
    i: int,
    j: int,
)
    requires
        chunk > 0,
        image_dims.0 <= i32::MAX,
        image_dims.1 <= i32::MAX,
        0 <= i < j < tagged(chunks_of(viewport, ox, oy, chunk, image_dims), kx, ky).len(),
    ensures
        ({
            let all = tagged(chunks_of(viewport, ox, oy, chunk, image_dims), kx, ky);
            listed_before(all[i], all[j])
        }),
{
    let x0 = viewport.loc.x as int;
    let x1 = x0 + viewport.size.w;
    let y0 = viewport.loc.y as int;
    let y1 = y0 + viewport.size.h;
    let w = image_dims.0 as int;
    let h = image_dims.1 as int;
    lemma_chunk_range(x0, x1, ox, chunk, w);
    lemma_chunk_range(y0, y1, oy, chunk, h);
    lemma_grid_order(
        first_chunk(x0, ox, chunk),
        last_chunk(x1, ox, chunk, w),
        first_chunk(y0, oy, chunk),
        last_chunk(y1, oy, chunk, h),
        i,
        j,
    );
}

proof fn lemma_chunk_range(lo: int, hi: int, origin: int, chunk: int, image: int)
    requires
        chunk > 0,
        image <= i32::MAX,
        instance_in_span(lo, hi, origin, image),
    ensures
        0 <= first_chunk(lo, origin, chunk),
        last_chunk(hi, origin, chunk, image) <= i32::MAX,
{
    let a = max_of(lo - origin, 0);
    let b = min_of(hi - origin, image) - 1;
    vstd::arithmetic::div_mod::lemma_div_pos_is_pos(a, chunk);
    vstd::arithmetic::div_mod::lemma_div_is_ordered_by_denominator(b, 1, chunk);
}

proof fn lemma_row_order(
    viewport: Rect,
    position: Point,
    image_dims: (u32, u32),
    chunk: int,
    kx_lo: int,
    kx_hi: int,
    ky: int,
    i: int,
    j: int,
)
    requires
        chunk > 0,
        image_dims.0 <= i32::MAX,
        image_dims.1 <= i32::MAX,
        fits(kx_lo),
        fits(kx_hi),
        fits(ky),
        0 <= i < j < visible_in_row(
            viewport,
            position,
            image_dims,
            chunk,
            kx_lo,
            kx_hi,
            ky,
        ).len(),
    ensures
        ({
            let all = visible_in_row(viewport, position, image_dims, chunk, kx_lo, kx_hi, ky);
            listed_before(all[i], all[j])
        }),
    decreases kx_hi - kx_lo,
{
    if kx_hi > kx_lo {
        let kx = kx_hi - 1;
        let init = visible_in_row(viewport, position, image_dims, chunk, kx_lo, kx, ky);
        let ox = position.x + kx * image_dims.0;
        let oy = position.y + ky * image_dims.1;
        let here = tagged(chunks_of(viewport, ox, oy, chunk, image_dims), kx, ky);
        let all = visible_in_row(viewport, position, image_dims, chunk, kx_lo, kx_hi, ky);
        if j < init.len() {
            lemma_row_order(viewport, position, image_dims, chunk, kx_lo, kx, ky, i, j);
        } else if i < init.len() {
            assert(init.contains(init[i]));
            lemma_row_contains(viewport, position, image_dims, chunk, kx_lo, kx, ky, init[i]);
            assert(all[i] == init[i]);
            assert(all[j] == here[j - init.len()]);
        } else {
            lemma_instance_order(
                viewport,
                ox,
                oy,
                chunk,
                image_dims,
                kx,
                ky,
                i - init.len(),
                j - init.len(),
            );
            assert(all[i] == here[i - init.len()]);
            assert(all[j] == here[j - init.len()]);
        }
    }
}

proof fn lemma_rows_order(
    viewport: Rect,
    position: Point,
    image_dims: (u32, u32),
    chunk: int,
    kx_lo: int,
    kx_hi: int,
    ky_lo: int,
    ky_hi: int,
    i: int,
    j: int,
)
    requires
        chunk > 0,
        image_dims.0 <= i32::MAX,
        image_dims.1 <= i32::MAX,
        fits(kx_lo),
        fits(kx_hi),
        fits(ky_lo),
        fits(ky_hi),
        0 <= i < j < visible_in_rows(
            viewport,
            position,
            image_dims,
            chunk,
            kx_lo,
            kx_hi,
            ky_lo,
            ky_hi,
        ).len(),
    ensures
        ({
            let all = visible_in_rows(
                viewport,
                position,
                image_dims,
                chunk,
                kx_lo,
                kx_hi,
                ky_lo,
                ky_hi,
            );
            listed_before(all[i], all[j])
        }),
    decreases ky_hi - ky_lo,
{
    if ky_hi > ky_lo {
        let ky = ky_hi - 1;
        let d = image_dims;
        let init = visible_in_rows(viewport, position, d, chunk, kx_lo, kx_hi, ky_lo, ky);
        let here = visible_in_row(viewport, position, d, chunk, kx_lo, kx_hi, ky);
        let all = visible_in_rows(viewport, position, d, chunk, kx_lo, kx_hi, ky_lo, ky_hi);
        if j < init.len() {
            lemma_rows_order(viewport, position, d, chunk, kx_lo, kx_hi, ky_lo, ky, i, j);
        } else if i < init.len() {
            let b = here[j - init.len()];
            assert(init.contains(init[i]));
            assert(here.contains(b));
            lemma_rows_contain(viewport, position, d, chunk, kx_lo, kx_hi, ky_lo, ky, init[i]);
            lemma_row_contains(viewport, position, d, chunk, kx_lo, kx_hi, ky, b);
            assert(all[i] == init[i]);
            assert(all[j] == b);
        } else {
            lemma_row_order(
                viewport,
                position,
                d,
                chunk,
                kx_lo,
                kx_hi,
                ky,
                i - init.len(),
                j - init.len(),
            );
            assert(all[i] == here[i - init.len()]);
            assert(all[j] == here[j - init.len()]);
        }
    }
}

/// The visible chunks are listed instance row by instance row, instance by
/// instance, and row by row within each.
pub proof fn law_visible_chunks_are_listed_in_order(
    viewport: Rect,
    position: Point,
    image_dims: (u32, u32),
    chunk: int,
    i: int,
    j: int,
)
    requires
        image_dims.0 <= i32::MAX,
        image_dims.1 <= i32::MAX,
        viewport_fits(viewport, position, image_dims),
        chunk > 0,
        0 <= i < j < visible_chunks(viewport, position, image_dims, chunk).len(),
    ensures
        ({
            let all = visible_chunks(viewport, position, image_dims, chunk);
            listed_before(all[i], all[j])
        }),
{
    let x0 = viewport.loc.x as int;
    let x1 = x0 + viewport.size.w;
    let y0 = viewport.loc.y as int;
    let y1 = y0 + viewport.size.h;
    let w = image_dims.0 as int;
    let h = image_dims.1 as int;
    lemma_rows_order(
        viewport,
        position,
        image_dims,
        chunk,
        first_instance(x0, position.x as int, w),
        end_instance(x1, position.x as int, w),
        first_instance(y0, position.y as int, h),
        end_instance(y1, position.y as int, h),
        i,
        j,
    );
}

} // verus!
