//! The level-of-detail pyramid: how tiles are aggregated into chunks, which
//! level serves as the always-resident cover plane, and which level a zoom asks
//! for.

use crate::geometry::{Point, max_of};
use crate::tiles::tiff::LodMetadata;
use vstd::arithmetic::power2::{lemma_pow2_adds, lemma_pow2_pos, lemma2_to64, pow2};
use vstd::prelude::*;

verus! {

/// Longest side of the cover plane's texture.
pub const FALLBACK_MAX_DIM: u32 = 4096;

/// Target chunk size in canvas units.
pub const TARGET_CHUNK_CANVAS: i32 = 2048;

/// Target chunk size at full resolution.
pub const LOD0_TARGET_CHUNK_CANVAS: i32 = 1024;

/// How many tiles per edge make up a chunk, where one tile spans `raw` canvas
/// units.
pub open spec fn aggregation(raw: int, target: int) -> int {
    if 0 < raw < target {
        target / raw
    } else {
        1
    }
}

/// The target of level `i`.
pub open spec fn target_of(i: int, target: int, lod0_target: int) -> int {
    if i == 0 {
        lod0_target
    } else {
        target
    }
}

/// Tiles per chunk edge at each level: as many as fit in the level's target,
/// and at least one.
pub fn compute_aggregations(raw_sizes: &[i32], target: i32, lod0_target: i32) -> (agg: Vec<u32>)
    ensures
        agg@.len() == raw_sizes@.len(),
        forall|i: int|
            0 <= i < raw_sizes@.len() ==> #[trigger] agg@[i] == aggregation(
                raw_sizes@[i] as int,
                target_of(i, target as int, lod0_target as int),
            ),
{
    let mut agg: Vec<u32> = Vec::new();
    let mut i: usize = 0;
    while i < raw_sizes.len()
        invariant
            i <= raw_sizes.len(),
            agg@.len() == i,
            forall|k: int|
                0 <= k < i ==> #[trigger] agg@[k] == aggregation(
                    raw_sizes@[k] as int,
                    target_of(k, target as int, lod0_target as int),
                ),
        decreases raw_sizes.len() - i,
    {
        let t: i32 = if i == 0 {
            lod0_target
        } else {
            target
        };
        let raw: i32 = raw_sizes[i];
        if raw > 0 && raw < t {
            let q: i32 = t / raw;
            assert(0 <= q <= t) by (nonlinear_arith)
                requires
                    raw >= 1,
                    t >= 0,
                    q == t as int / raw as int,
            ;
            agg.push(q as u32);
        } else {
            agg.push(1);
        }
        i = i + 1;
    }
    agg
}

/// The largest power of two that is no more than `n`; 1 below 1.
pub open spec fn pow2_floor(n: int) -> int
    decreases n,
{
    if n <= 1 {
        1
    } else {
        2 * pow2_floor(n / 2)
    }
}

proof fn lemma_pow2_floor(n: int)
    requires
        n >= 1,
    ensures
        1 <= pow2_floor(n) <= n < 2 * pow2_floor(n),
    decreases n,
{
    if n > 1 {
        lemma_pow2_floor(n / 2);
    }
}

/// The largest power of two that is no more than `n`.
fn power_of_two_below(n: u32) -> (p: u32)
    ensures
        p == pow2_floor(n as int),
{
    let mut p: u32 = 1;
    let mut rest: u32 = n;
    proof {
        if n >= 1 {
            lemma_pow2_floor(n as int);
        }
    }
    while rest > 1
        invariant
            p >= 1,
            p * pow2_floor(rest as int) == pow2_floor(n as int),
            rest >= 1 || p == 1,
            rest <= n,
            pow2_floor(n as int) <= u32::MAX,
        decreases rest,
    {
        proof {
            lemma_pow2_floor(rest as int / 2);
            let q = pow2_floor(rest as int / 2);
            assert(p * (2 * q) == (2 * p) * q) by (nonlinear_arith);
            assert(2 * p <= (2 * p) * q) by (nonlinear_arith)
                requires
                    q >= 1,
                    p >= 1,
            ;
        }
        p = 2 * p;
        rest = rest / 2;
    }
    p
}

/// Levels until the first whose tile span is not twice the one before.
pub open spec fn doubling_prefix(raw: Seq<i32>) -> int
    decreases raw.len(),
{
    if raw.len() <= 1 {
        raw.len() as int
    } else {
        let init = doubling_prefix(raw.drop_last());
        if init == raw.len() - 1 && raw.last() == 2 * raw[raw.len() - 2] {
            raw.len() as int
        } else {
            init
        }
    }
}

/// Why a pyramid cannot be used.
#[derive(Clone, Copy, Debug, PartialEq, Eq, Structural)]
pub enum PyramidError {
    NonSquareTile { lod: usize },
    NoLevels,
    EmptyChunk { lod: usize, size: i32 },
}

/// A usable pyramid.
pub struct Pyramid {
    /// Full-resolution dimensions, which are also the wrap period.
    pub image_dims: (u32, u32),
    /// Canvas position of the image's top-left corner: the image is centred on
    /// the canvas origin.
    pub image_position: Point,
    /// Canvas span of one chunk, per level.
    pub chunk_canvas_sizes: Vec<i32>,
    /// Tiles per chunk edge, per level.
    pub aggregations: Vec<u32>,
    /// The level that serves as the cover plane: the last one in use.
    pub fallback_lod: u32,
}

impl Pyramid {
    /// One positive span and one count per level, each span a power of two times
    /// the one before, and an image whose extent fits in an `i32`.
    pub open spec fn wf(self) -> bool {
        &&& self.fallback_lod < u32::MAX
        &&& self.chunk_canvas_sizes@.len() == self.fallback_lod + 1
        &&& self.aggregations@.len() == self.fallback_lod + 1
        &&& self.image_dims.0 <= i32::MAX
        &&& self.image_dims.1 <= i32::MAX
        &&& forall|k: int| 0 <= k <= self.fallback_lod ==> #[trigger] self.chunk_canvas_sizes@[k] > 0
        &&& forall|k: int| 0 <= k <= self.fallback_lod ==> #[trigger] self.aggregations@[k] > 0
        &&& forall|k: int|
            0 <= k < self.fallback_lod ==> #[trigger] nests_at(self.chunk_canvas_sizes@, k)
    }
}

/// The span after `k` is a power of two times the span at `k`.
pub open spec fn nests_at(spans: Seq<i32>, k: int) -> bool {
    exists|e: nat| spans[k + 1] == spans[k] * #[trigger] pow2(e)
}

pub open spec fn square(meta: LodMetadata) -> bool {
    meta.tile_dims.0 == meta.tile_dims.1
}

pub open spec fn fits_fallback(meta: LodMetadata) -> bool {
    max_of(meta.image_dims.0 as int, meta.image_dims.1 as int) <= FALLBACK_MAX_DIM
}

/// The finest of the first `n` levels small enough for the cover plane, or the
/// last of them.
pub open spec fn fallback_level(lods: Seq<LodMetadata>, n: int, f: int) -> bool {
    &&& 0 <= f < n
    &&& forall|k: int| 0 <= k < f ==> !fits_fallback(#[trigger] lods[k])
    &&& fits_fallback(lods[f]) || f == n - 1
}

/// Tiles per chunk edge at level `i`: the largest power of two that fits in the
/// level's target.
pub open spec fn tiles_per_edge(raw: int, i: int) -> int {
    pow2_floor(
        aggregation(
            raw,
            target_of(i, TARGET_CHUNK_CANVAS as int, LOD0_TARGET_CHUNK_CANVAS as int),
        ),
    )
}

/// Chunk span at level `i`.
pub open spec fn chunk_span(raw: int, i: int) -> int {
    raw * tiles_per_edge(raw, i)
}

proof fn lemma_chunk_span(raw: int, i: int)
    requires
        0 < raw <= i32::MAX,
    ensures
        1 <= tiles_per_edge(raw, i) <= 2048,
        raw <= chunk_span(raw, i) <= i32::MAX,
{
    let t = target_of(i, TARGET_CHUNK_CANVAS as int, LOD0_TARGET_CHUNK_CANVAS as int);
    law_chunks_stay_within_target(raw, t);
    let a = aggregation(raw, t);
    let p = tiles_per_edge(raw, i);
    lemma_pow2_floor(a);
    assert(raw <= raw * p <= raw * a) by (nonlinear_arith)
        requires
            raw > 0,
            1 <= p <= a,
    ;
    assert(a <= raw * a) by (nonlinear_arith)
        requires
            raw > 0,
            a >= 1,
    ;
}

/// Of two levels, the coarser of which has twice the tile span, the coarser one's
/// chunks span as much as the finer one's or twice that.
proof fn lemma_spans_double(raw: int, i: int)
    requires
        raw > 0,
        i >= 0,
    ensures
        chunk_span(raw, i) > 0,
        chunk_span(2 * raw, i + 1) == chunk_span(raw, i) || chunk_span(2 * raw, i + 1) == 2
            * chunk_span(raw, i),
{
    let t: int = 2048;
    let fine = target_of(i, t, 1024);
    let a = aggregation(raw, fine);
    let b = aggregation(2 * raw, t);
    law_chunks_stay_within_target(raw, fine);
    law_chunks_stay_within_target(2 * raw, t);
    let p = tiles_per_edge(raw, i);
    let q = tiles_per_edge(2 * raw, i + 1);
    lemma_pow2_floor(a);
    assert(raw * p > 0) by (nonlinear_arith)
        requires
            raw > 0,
            p >= 1,
    ;
    if i == 0 {
        if raw < fine {
            assert(2048int / (2 * raw) == 1024int / raw) by (nonlinear_arith)
                requires
                    raw > 0,
            ;
        }
        assert(a == b);
        assert(2 * raw * q == 2 * (raw * p)) by (nonlinear_arith)
            requires
                p == q,
        ;
    } else if a == 1 {
        if raw < t {
            assert(raw * (a + 1) == 2 * raw) by (nonlinear_arith)
                requires
                    a == 1,
            ;
        }
        assert(b == 1);
        assert(2 * raw * q == 2 * (raw * p)) by (nonlinear_arith)
            requires
                p == 1,
                q == 1,
        ;
    } else {
        assert(raw < t);
        if 2 * raw < t {
            assert(t / (2 * raw) == (t / raw) / 2) by (nonlinear_arith)
                requires
                    raw > 0,
            ;
        } else {
            assert(t / raw == 2 && 2 * raw == t) by (nonlinear_arith)
                requires
                    0 < raw < t <= 2 * raw,
                    t / raw > 1,
            ;
        }
        assert(b == a / 2);
        assert(2 * raw * q == raw * p) by (nonlinear_arith)
            requires
                p == 2 * q,
        ;
    }
}

/// Every chunk span is a power of two times the span one level finer.
pub proof fn law_chunk_spans_nest(raw: int, i: int)
    requires
        raw > 0,
        i >= 0,
    ensures
        chunk_span(raw, i) > 0,
        exists|e: nat| chunk_span(2 * raw, i + 1) == chunk_span(raw, i) * #[trigger] pow2(e),
{
    lemma_spans_double(raw, i);
    lemma2_to64();
    let span = chunk_span(raw, i);
    if chunk_span(2 * raw, i + 1) == span {
        assert(chunk_span(2 * raw, i + 1) == span * pow2(0));
    } else {
        assert(chunk_span(2 * raw, i + 1) == span * pow2(1));
    }
}

proof fn lemma_spans_compose(pyramid: Pyramid, fine: int, coarse: int)
    requires
        pyramid.wf(),
        0 <= fine <= coarse <= pyramid.fallback_lod,
    ensures
        exists|e: nat|
            pyramid.chunk_canvas_sizes@[coarse] == pyramid.chunk_canvas_sizes@[fine]
                * #[trigger] pow2(e),
    decreases coarse - fine,
{
    let spans = pyramid.chunk_canvas_sizes@;
    if fine == coarse {
        lemma2_to64();
        assert(spans[coarse] == spans[fine] * pow2(0));
    } else {
        lemma_spans_compose(pyramid, fine, coarse - 1);
        assert(nests_at(spans, coarse - 1));
        let e = choose|e: nat| spans[coarse - 1] == spans[fine] * #[trigger] pow2(e);
        let f = choose|f: nat| spans[coarse - 1 + 1] == spans[coarse - 1] * #[trigger] pow2(f);
        lemma_pow2_adds(e, f);
        assert(spans[fine] * pow2(e) * pow2(f) == spans[fine] * (pow2(e) * pow2(f)))
            by (nonlinear_arith);
        assert(spans[coarse] == spans[fine] * pow2(e + f));
    }
}

/// A chunk lies wholly within the chunk of a coarser level that holds its first
/// pixel: looking there for a cover never leaves a part of it out.
pub proof fn law_coarser_chunk_covers(pyramid: Pyramid, fine: int, coarse: int, c: int)
    requires
        pyramid.wf(),
        0 <= fine <= coarse <= pyramid.fallback_lod,
    ensures
        ({
            let small = pyramid.chunk_canvas_sizes@[fine] as int;
            let large = pyramid.chunk_canvas_sizes@[coarse] as int;
            let cover = (c * small) / large;
            cover * large <= c * small && c * small + small <= cover * large + large
        }),
{
    lemma_spans_compose(pyramid, fine, coarse);
    let small = pyramid.chunk_canvas_sizes@[fine] as int;
    let large = pyramid.chunk_canvas_sizes@[coarse] as int;
    assert(small > 0 && large > 0);
    let e = choose|e: nat| large == small * #[trigger] pow2(e);
    let m = pow2(e) as int;
    lemma_pow2_pos(e);
    let cover = (c * small) / large;
    assert(cover == c / m) by (nonlinear_arith)
        requires
            small > 0,
            m > 0,
            large == small * m,
            cover == (c * small) / large,
    ;
    assert(m * cover <= c && c + 1 <= m * cover + m) by (nonlinear_arith)
        requires
            m > 0,
            cover == c / m,
    ;
    assert(cover * large == (m * cover) * small) by (nonlinear_arith)
        requires
            large == small * m,
    ;
    assert((m * cover) * small <= c * small && (c + 1) * small <= (m * cover + m) * small)
        by (nonlinear_arith)
        requires
            small > 0,
            m * cover <= c,
            c + 1 <= m * cover + m,
    ;
    assert((m * cover + m) * small == (m * cover) * small + large) by (nonlinear_arith)
        requires
            large == small * m,
    ;
    assert((c + 1) * small == c * small + small) by (nonlinear_arith);
}

proof fn lemma_prefix_doubles(raw: Seq<i32>, k: int)
    requires
        0 <= k,
        k + 1 < doubling_prefix(raw),
    ensures
        raw[k + 1] == 2 * raw[k],
        doubling_prefix(raw) <= raw.len(),
    decreases raw.len(),
{
    if raw.len() > 1 {
        let init = raw.drop_last();
        lemma_prefix_len(init);
        if k + 1 < doubling_prefix(init) {
            lemma_prefix_doubles(init, k);
        }
    }
}

proof fn lemma_prefix_len(raw: Seq<i32>)
    ensures
        doubling_prefix(raw) <= raw.len(),
    decreases raw.len(),
{
    if raw.len() > 1 {
        lemma_prefix_len(raw.drop_last());
    }
}

/// Lays out the levels that are used, given each level's metadata and the
/// canvas span of one of its tiles.
///
/// Levels past the first that breaks the doubling are left out, and so are
/// those past the cover plane. Chunks hold a power of two of tiles per edge, so
/// that the chunks of each level are made of whole chunks of the level before.
pub fn plan_pyramid(lods: &[LodMetadata], raw_sizes: &[i32]) -> (r: Result<Pyramid, PyramidError>)
    requires
        lods@.len() == raw_sizes@.len(),
        lods@.len() <= u32::MAX,
        lods@.len() > 0 ==> lods@[0].image_dims.0 <= i32::MAX && lods@[0].image_dims.1 <= i32::MAX,
    ensures
        match r {
            Err(PyramidError::NonSquareTile { lod }) => lod < lods@.len() && !square(
                lods@[lod as int],
            ) && forall|k: int| 0 <= k < lod ==> square(#[trigger] lods@[k]),
            Err(PyramidError::NoLevels) => lods@.len() == 0,
            Err(PyramidError::EmptyChunk { lod, size }) => {
                &&& forall|k: int| 0 <= k < lods@.len() ==> square(#[trigger] lods@[k])
                &&& lod < lods@.len()
                &&& raw_sizes@[lod as int] == size
                &&& size <= 0
                &&& forall|k: int| 0 <= k < lod ==> #[trigger] raw_sizes@[k] > 0
            },
            Ok(p) => {
                &&& p.wf()
                &&& lods@.len() > 0
                &&& forall|k: int| 0 <= k < lods@.len() ==> square(#[trigger] lods@[k])
                &&& forall|k: int| 0 <= k < lods@.len() ==> #[trigger] raw_sizes@[k] > 0
                &&& p.image_dims == lods@[0].image_dims
                &&& p.image_position.x == -(lods@[0].image_dims.0 / 2)
                &&& p.image_position.y == -(lods@[0].image_dims.1 / 2)
                &&& p.fallback_lod < lods@.len()
                &&& fallback_level(lods@, doubling_prefix(raw_sizes@), p.fallback_lod as int)
                &&& p.chunk_canvas_sizes@.len() == p.fallback_lod + 1
                &&& p.aggregations@.len() == p.fallback_lod + 1
                &&& forall|k: int|
                    0 <= k <= p.fallback_lod ==> #[trigger] p.chunk_canvas_sizes@[k] == chunk_span(
                        raw_sizes@[k] as int,
                        k,
                    )
                &&& forall|k: int|
                    0 <= k <= p.fallback_lod ==> #[trigger] p.aggregations@[k] == tiles_per_edge(
                        raw_sizes@[k] as int,
                        k,
                    )
            },
        },
{
    let mut i: usize = 0;
    while i < lods.len()
        invariant
            i <= lods.len(),
            forall|k: int| 0 <= k < i ==> square(#[trigger] lods@[k]),
        decreases lods.len() - i,
    {
        if lods[i].tile_dims.0 != lods[i].tile_dims.1 {
            return Err(PyramidError::NonSquareTile { lod: i });
        }
        i = i + 1;
    }
    if lods.len() == 0 {
        return Err(PyramidError::NoLevels);
    }
    let mut i: usize = 0;
    while i < raw_sizes.len()
        invariant
            i <= raw_sizes.len(),
            lods@.len() == raw_sizes@.len(),
            forall|k: int| 0 <= k < lods@.len() ==> square(#[trigger] lods@[k]),
            forall|k: int| 0 <= k < i ==> #[trigger] raw_sizes@[k] > 0,
        decreases raw_sizes.len() - i,
    {
        if raw_sizes[i] <= 0 {
            return Err(PyramidError::EmptyChunk { lod: i, size: raw_sizes[i] });
        }
        i = i + 1;
    }
    let usable: usize = doubling_levels(raw_sizes);
    let mut fallback: usize = usable - 1;
    let mut i: usize = 0;
    while i < usable
        invariant_except_break
            i <= usable,
            forall|k: int| 0 <= k < i ==> !fits_fallback(#[trigger] lods@[k]),
            fallback == usable - 1,
        invariant
            0 < usable <= lods@.len(),
        ensures
            fallback_level(lods@, usable as int, fallback as int),
        decreases usable - i,
    {
        if lods[i].image_dims.0 <= FALLBACK_MAX_DIM && lods[i].image_dims.1 <= FALLBACK_MAX_DIM {
            fallback = i;
            break;
        }
        i = i + 1;
    }
    let all = compute_aggregations(raw_sizes, TARGET_CHUNK_CANVAS, LOD0_TARGET_CHUNK_CANVAS);
    let mut sizes: Vec<i32> = Vec::new();
    let mut aggregations: Vec<u32> = Vec::new();
    let mut i: usize = 0;
    while i <= fallback
        invariant
            i <= fallback + 1,
            fallback < usable <= lods@.len(),
            lods@.len() == raw_sizes@.len(),
            sizes@.len() == i,
            aggregations@.len() == i,
            all@.len() == raw_sizes@.len(),
            forall|k: int| 0 <= k < lods@.len() ==> #[trigger] raw_sizes@[k] > 0,
            forall|k: int|
                0 <= k < raw_sizes@.len() ==> #[trigger] all@[k] == aggregation(
                    raw_sizes@[k] as int,
                    target_of(k, TARGET_CHUNK_CANVAS as int, LOD0_TARGET_CHUNK_CANVAS as int),
                ),
            forall|k: int|
                0 <= k < i ==> #[trigger] sizes@[k] == chunk_span(raw_sizes@[k] as int, k),
            forall|k: int|
                0 <= k < i ==> #[trigger] aggregations@[k] == tiles_per_edge(
                    raw_sizes@[k] as int,
                    k,
                ),
        decreases fallback + 1 - i,
    {
        proof {
            assert(raw_sizes@[i as int] > 0);
            lemma_chunk_span(raw_sizes@[i as int] as int, i as int);
        }
        let tiles: u32 = power_of_two_below(all[i]);
        assert(tiles == tiles_per_edge(raw_sizes@[i as int] as int, i as int));
        sizes.push(raw_sizes[i] * tiles as i32);
        aggregations.push(tiles);
        i = i + 1;
    }
    let dims = lods[0].image_dims;
    assert forall|k: int| 0 <= k <= fallback implies #[trigger] sizes@[k] > 0 by {
        assert(raw_sizes@[k] > 0);
        lemma_chunk_span(raw_sizes@[k] as int, k);
    }
    assert forall|k: int| 0 <= k <= fallback implies #[trigger] aggregations@[k] > 0 by {
        assert(raw_sizes@[k] > 0);
        lemma_chunk_span(raw_sizes@[k] as int, k);
    }
    assert forall|k: int| 0 <= k < fallback implies #[trigger] nests_at(sizes@, k) by {
        assert(raw_sizes@[k] > 0);
        lemma_prefix_doubles(raw_sizes@, k);
        law_chunk_spans_nest(raw_sizes@[k] as int, k);
        assert(sizes@[k] == chunk_span(raw_sizes@[k] as int, k));
        assert(sizes@[k + 1] == chunk_span(raw_sizes@[k + 1] as int, k + 1));
    }
    Ok(
        Pyramid {
            image_dims: dims,
            image_position: Point { x: -((dims.0 / 2) as i32), y: -((dims.1 / 2) as i32) },
            chunk_canvas_sizes: sizes,
            aggregations,
            fallback_lod: fallback as u32,
        },
    )
}

fn doubling_levels(raw: &[i32]) -> (n: usize)
    requires
        raw@.len() > 0,
        forall|k: int| 0 <= k < raw@.len() ==> #[trigger] raw@[k] > 0,
    ensures
        n == doubling_prefix(raw@),
        0 < n <= raw@.len(),
{
    let mut i: usize = 1;
    assert(raw@.subrange(0, 1).len() == 1);
    while i < raw.len()
        invariant
            1 <= i <= raw.len(),
            doubling_prefix(raw@.subrange(0, i as int)) == i,
            forall|k: int| 0 <= k < raw@.len() ==> #[trigger] raw@[k] > 0,
        decreases raw.len() - i,
    {
        let ghost next = raw@.subrange(0, i + 1);
        assert(next.drop_last() =~= raw@.subrange(0, i as int));
        if raw[i] as i64 != 2 * raw[i - 1] as i64 {
            proof {
                lemma_prefix_stops(raw@, i as int);
            }
            return i;
        }
        i = i + 1;
    }
    assert(raw@.subrange(0, i as int) =~= raw@);
    i
}

proof fn lemma_prefix_stops(raw: Seq<i32>, i: int)
    requires
        1 <= i < raw.len(),
        doubling_prefix(raw.subrange(0, i)) == i,
        raw[i] != 2 * raw[i - 1],
    ensures
        doubling_prefix(raw) == i,
    decreases raw.len(),
{
    let init = raw.drop_last();
    if raw.len() == i + 1 {
        assert(init =~= raw.subrange(0, i));
    } else {
        assert(init.subrange(0, i) =~= raw.subrange(0, i));
        lemma_prefix_stops(init, i);
    }
}

/// A zoom as far as picking a level depends on it.
#[derive(Clone, Copy, Debug, PartialEq, Eq, Structural)]
pub enum ZoomOctaves {
    /// Not a finite number, or at least 1.
    Native,
    /// Zero or below.
    Vanishing,
    /// Between 0 and 1: the octaves below native, rounded up.
    Below(u32),
}

/// The level a zoom asks for, of `n_lods`.
pub open spec fn lod_for(zoom: ZoomOctaves, n_lods: int) -> int {
    if n_lods == 0 {
        0
    } else {
        match zoom {
            ZoomOctaves::Native => 0,
            ZoomOctaves::Vanishing => n_lods - 1,
            ZoomOctaves::Below(octaves) => if octaves < n_lods {
                octaves as int
            } else {
                n_lods - 1
            },
        }
    }
}

/// Picks the level whose sample density meets the screen's needs: one level
/// coarser for every octave of zoom, no coarser than the last.
pub fn pick_lod(zoom: ZoomOctaves, n_lods: u32) -> (lod: u32)
    ensures
        lod == lod_for(zoom, n_lods as int),
{
    if n_lods == 0 {
        return 0;
    }
    let last: u32 = n_lods - 1;
    match zoom {
        ZoomOctaves::Native => 0,
        ZoomOctaves::Vanishing => last,
        ZoomOctaves::Below(octaves) => if octaves < last {
            octaves
        } else {
            last
        },
    }
}

/// A chunk holds at least one tile, and no more of them than fit its target.
pub proof fn law_chunks_stay_within_target(raw: int, target: int)
    requires
        raw > 0,
    ensures
        aggregation(raw, target) >= 1,
        raw < target ==> raw * aggregation(raw, target) <= target < raw * (aggregation(
            raw,
            target,
        ) + 1),
{
    if raw < target {
        assert(target / raw >= 1 && raw * (target / raw) <= target < raw * (target / raw + 1))
            by (nonlinear_arith)
            requires
                0 < raw < target,
        ;
    }
}

/// Zooming further out never asks for a finer level.
pub proof fn law_levels_descend_with_zoom(fine: u32, coarse: u32, n_lods: int)
    requires
        fine <= coarse,
        n_lods >= 1,
    ensures
        0 <= lod_for(ZoomOctaves::Native, n_lods) <= lod_for(ZoomOctaves::Below(fine), n_lods)
            <= lod_for(ZoomOctaves::Below(coarse), n_lods) <= lod_for(
            ZoomOctaves::Vanishing,
            n_lods,
        ) < n_lods,
{
}

/// A tile that spans its target or more is a chunk by itself.
pub proof fn law_large_tiles_stand_alone(raw: int, target: int)
    requires
        raw >= target || raw <= 0,
    ensures
        aggregation(raw, target) == 1,
{
}

/// The tiles along a chunk's edge are a power of two: the largest whose span is no
/// more than the level's target, which is smaller at full resolution, and one at
/// least.
pub proof fn law_chunks_fill_their_target(raw: int, i: int)
    requires
        raw > 0,
        i >= 0,
    ensures
        ({
            let target: int = if i == 0 {
                1024
            } else {
                2048
            };
            let tiles = tiles_per_edge(raw, i);
            &&& exists|e: nat| tiles == #[trigger] pow2(e)
            &&& chunk_span(raw, i) == raw * tiles
            &&& raw < target ==> raw * tiles <= target < 2 * (raw * tiles)
            &&& raw >= target ==> tiles == 1
        }),
{
    let target = target_of(i, TARGET_CHUNK_CANVAS as int, LOD0_TARGET_CHUNK_CANVAS as int);
    let n = aggregation(raw, target);
    lemma_power_floor(n);
    if raw < target {
        law_chunks_stay_within_target(raw, target);
        lemma_pow2_floor(n);
        let p = pow2_floor(n);
        assert(raw * p <= target < 2 * (raw * p)) by (nonlinear_arith)
            requires
                raw > 0,
                p <= n < 2 * p,
                raw * n <= target < raw * (n + 1),
        ;
    }
}

proof fn lemma_power_floor(n: int)
    ensures
        exists|e: nat| pow2_floor(n) == #[trigger] pow2(e),
    decreases n,
{
    lemma2_to64();
    if n <= 1 {
        assert(pow2_floor(n) == pow2(0));
    } else {
        lemma_power_floor(n / 2);
        let e = choose|e: nat| pow2_floor(n / 2) == #[trigger] pow2(e);
        vstd::arithmetic::power2::lemma_pow2_unfold(e + 1);
        assert(pow2_floor(n) == pow2(e + 1));
    }
}

/// The levels in use are those up to the first that does not span twice the one
/// before.
pub proof fn law_levels_end_where_doubling_does(raw: Seq<i32>, k: int)
    requires
        raw.len() > 0,
    ensures
        1 <= doubling_prefix(raw) <= raw.len(),
        1 <= k < doubling_prefix(raw) ==> raw[k] == 2 * raw[k - 1],
        doubling_prefix(raw) < raw.len() ==> raw[doubling_prefix(raw)] != 2 * raw[doubling_prefix(
            raw,
        ) - 1],
    decreases raw.len(),
{
    lemma_prefix_len(raw);
    if 1 <= k < doubling_prefix(raw) {
        lemma_prefix_doubles(raw, k - 1);
    }
    if raw.len() > 1 {
        let init = raw.drop_last();
        law_levels_end_where_doubling_does(init, 0);
        let d = doubling_prefix(init);
        if d < init.len() {
            assert(init[d] == raw[d] && init[d - 1] == raw[d - 1]);
        }
    }
}

/// A level can be the cover plane if neither of its sides is longer than the
/// longest that a texture may have there. The cover plane is the first level that
/// can be, and there is just one.
pub proof fn law_one_cover_plane(lods: Seq<LodMetadata>, n: int, f: int, g: int)
    requires
        fallback_level(lods, n, f),
        fallback_level(lods, n, g),
    ensures
        f == g,
        f < n - 1 ==> lods[f].image_dims.0 <= 4096 && lods[f].image_dims.1 <= 4096,
        forall|k: int|
            0 <= k < f ==> (#[trigger] lods[k]).image_dims.0 > 4096 || lods[k].image_dims.1 > 4096,
{
    assert forall|k: int| 0 <= k < f implies (#[trigger] lods[k]).image_dims.0 > 4096
        || lods[k].image_dims.1 > 4096 by {
        assert(!fits_fallback(lods[k]));
    }
    if f < g {
        assert(!fits_fallback(lods[f]));
    }
    if g < f {
        assert(!fits_fallback(lods[g]));
    }
}

/// Every octave of zoom below native asks for one level more, until there is none;
/// native and more asks for full resolution, nothing for the coarsest.
pub proof fn law_one_level_for_each_octave(octaves: u32, n_lods: int)
    requires
        n_lods >= 1,
    ensures
        octaves < n_lods ==> lod_for(ZoomOctaves::Below(octaves), n_lods) == octaves,
        octaves >= n_lods ==> lod_for(ZoomOctaves::Below(octaves), n_lods) == n_lods - 1,
        lod_for(ZoomOctaves::Native, n_lods) == 0,
        lod_for(ZoomOctaves::Vanishing, n_lods) == n_lods - 1,
{
}

/// A tile is square exactly if its sides can be told apart by nothing.
pub proof fn law_square_tile_has_equal_sides(meta: LodMetadata)
    ensures
        square(meta) <==> meta.tile_dims == (meta.tile_dims.1, meta.tile_dims.0),
        square(meta) ==> meta.tile_dims.0 - meta.tile_dims.1 == 0,
{
}

} // verus!
