use driftwm::geometry::{Point, Rect, Size};
use driftwm::tiles::grid::{
    chunk_actual_size, chunk_canvas_origin, chunks_intersecting, compute_k_range, visibility_query,
};
use driftwm::tiles::lru::{ChunkKey, ChunkMeta, ChunkTable, evict_lru_to_budget};
use driftwm::tiles::pyramid::{ZoomOctaves, compute_aggregations, pick_lod};

fn rect(x: i32, y: i32, w: i32, h: i32) -> Rect {
    Rect::new(Point::new(x, y), Size::new(w, h))
}

fn key((lod, cx, cy): (u32, i32, i32)) -> ChunkKey {
    ChunkKey { lod, cx, cy }
}

fn table(entries: &[((u32, i32, i32), ChunkMeta)]) -> ChunkTable<()> {
    let mut table = ChunkTable::new();
    for (k, meta) in entries {
        table.insert(key(*k), *meta, ());
    }
    table
}

/// A zoom as the level choice sees it.
fn octaves(zoom: f64) -> ZoomOctaves {
    if zoom >= 1.0 || !zoom.is_finite() {
        return ZoomOctaves::Native;
    }
    if zoom <= 0.0 {
        return ZoomOctaves::Vanishing;
    }
    ZoomOctaves::Below((-zoom.log2()).ceil() as u32)
}

#[test]
fn k_range_single_instance_at_origin() {
    assert_eq!(compute_k_range(0, 100, 0, 200), 0..1);
}

#[test]
fn k_range_spans_two_instances() {
    assert_eq!(compute_k_range(150, 250, 0, 200), 0..2);
}

#[test]
fn k_range_negative_offset() {
    assert_eq!(compute_k_range(-50, 50, 0, 200), -1..1);
}

#[test]
fn k_range_with_image_origin() {
    assert_eq!(compute_k_range(50, 350, 100, 200), -1..2);
}

#[test]
fn k_range_with_negative_image_origin() {
    // image_origin = -100 → instance k=0 spans [-100, 100). Viewport [-50, 50)
    // sits entirely in k=0. div_euclid handles the negative origin correctly.
    assert_eq!(compute_k_range(-50, 50, -100, 200), 0..1);
    // Viewport [-150, -50) overlaps k=-1 [-300, -100) and k=0 [-100, 100).
    assert_eq!(compute_k_range(-150, -50, -100, 200), -1..1);
}

#[test]
fn k_range_empty_viewport() {
    assert_eq!(compute_k_range(100, 100, 0, 200), 0..0);
    assert_eq!(compute_k_range(100, 50, 0, 200), 0..0);
}

#[test]
fn k_range_exact_boundary() {
    assert_eq!(compute_k_range(0, 200, 0, 200), 0..1);
    assert_eq!(compute_k_range(200, 400, 0, 200), 1..2);
}

#[test]
fn chunks_intersecting_inside_single_chunk() {
    let chunks = chunks_intersecting(rect(100, 100, 100, 100), Point::new(0, 0), 1024, (2048, 2048));
    assert_eq!(chunks, vec![(0, 0)]);
}

#[test]
fn chunks_intersecting_spans_horizontal_pair() {
    let chunks = chunks_intersecting(rect(1000, 100, 100, 100), Point::new(0, 0), 1024, (2048, 2048));
    assert_eq!(chunks, vec![(0, 0), (1, 0)]);
}

#[test]
fn chunks_intersecting_spans_2x2() {
    let chunks = chunks_intersecting(rect(1000, 1000, 100, 100), Point::new(0, 0), 1024, (2048, 2048));
    assert_eq!(chunks, vec![(0, 0), (1, 0), (0, 1), (1, 1)]);
}

#[test]
fn chunks_intersecting_clips_past_image_edge() {
    let chunks = chunks_intersecting(rect(1500, 0, 1000, 100), Point::new(0, 0), 1024, (2048, 2048));
    assert_eq!(chunks, vec![(1, 0)]);
}

#[test]
fn chunks_intersecting_viewport_entirely_past_image() {
    let chunks = chunks_intersecting(rect(3000, 0, 100, 100), Point::new(0, 0), 1024, (2048, 2048));
    assert!(chunks.is_empty());
}

#[test]
fn chunks_intersecting_with_instance_origin() {
    let chunks = chunks_intersecting(rect(1100, 100, 100, 100), Point::new(1000, 0), 1024, (2048, 2048));
    assert_eq!(chunks, vec![(0, 0)]);
}

#[test]
fn chunks_intersecting_partial_edge_chunk() {
    let chunks = chunks_intersecting(rect(1200, 100, 100, 100), Point::new(0, 0), 1024, (1500, 1500));
    assert_eq!(chunks, vec![(1, 0)]);
}

#[test]
fn chunk_canvas_origin_basic() {
    assert_eq!(
        chunk_canvas_origin(0, 0, 0, 0, Point::new(0, 0), (2048, 2048), 1024),
        Point::new(0, 0)
    );
    assert_eq!(
        chunk_canvas_origin(1, 0, 0, 0, Point::new(0, 0), (2048, 2048), 1024),
        Point::new(1024, 0)
    );
    assert_eq!(
        chunk_canvas_origin(0, 1, 0, 0, Point::new(0, 0), (2048, 2048), 1024),
        Point::new(0, 1024)
    );
}

#[test]
fn chunk_canvas_origin_with_image_position() {
    assert_eq!(
        chunk_canvas_origin(1, 1, 0, 0, Point::new(500, 500), (2048, 2048), 1024),
        Point::new(1524, 1524)
    );
}

#[test]
fn chunk_canvas_origin_with_wrap_offset() {
    assert_eq!(
        chunk_canvas_origin(0, 0, 1, 0, Point::new(0, 0), (2048, 2048), 1024),
        Point::new(2048, 0)
    );
    assert_eq!(
        chunk_canvas_origin(0, 0, -1, 0, Point::new(0, 0), (2048, 2048), 1024),
        Point::new(-2048, 0)
    );
}

#[test]
fn chunk_actual_size_interior_chunk_is_full() {
    assert_eq!(chunk_actual_size(0, 0, (2048, 2048), 1024), (1024, 1024));
}

#[test]
fn chunk_actual_size_right_edge_partial() {
    assert_eq!(chunk_actual_size(1, 0, (1500, 1500), 1024), (476, 1024));
    assert_eq!(chunk_actual_size(1, 1, (1500, 1500), 1024), (476, 476));
}

#[test]
fn chunk_actual_size_large_non_aligned() {
    assert_eq!(chunk_actual_size(16, 15, (16507, 16196), 1024), (123, 836));
    assert_eq!(chunk_actual_size(0, 0, (16507, 16196), 1024), (1024, 1024));
}

#[test]
fn chunk_actual_size_image_multiple_of_chunk() {
    assert_eq!(chunk_actual_size(3, 2, (4096, 3072), 1024), (1024, 1024));
}

#[test]
fn chunk_actual_size_indices_past_image_zero() {
    // Lock the contract: indices past the image clamp to zero (not negative).
    // chunks_intersecting clips before emitting, but a stray (cx, cy)
    // outside bounds must produce a degenerate, not panic.
    assert_eq!(chunk_actual_size(100, 100, (2048, 2048), 1024), (0, 0));
}

#[test]
fn visibility_query_simple_single_instance() {
    let v = visibility_query(rect(100, 100, 100, 100), Point::new(0, 0), (2048, 2048), 1024);
    assert_eq!(v, vec![(0, 0, 0, 0)]);
}

#[test]
fn visibility_query_spans_two_instances_horizontally() {
    let v = visibility_query(rect(2000, 100, 100, 100), Point::new(0, 0), (2048, 2048), 1024);
    assert!(v.contains(&(1, 0, 0, 0)));
    assert!(v.contains(&(0, 0, 1, 0)));
    assert_eq!(v.len(), 2);
}

#[test]
fn visibility_query_empty_viewport_empty_result() {
    let v = visibility_query(rect(100, 100, 0, 0), Point::new(0, 0), (2048, 2048), 1024);
    assert!(v.is_empty());
}

#[test]
fn visibility_query_negative_viewport_with_wrap() {
    let v = visibility_query(rect(-100, 0, 200, 100), Point::new(0, 0), (2048, 2048), 1024);
    assert!(v.contains(&(1, 0, -1, 0)));
    assert!(v.contains(&(0, 0, 0, 0)));
    assert_eq!(v.len(), 2);
}

#[test]
fn visible_chunks_tile_the_viewport() {
    // Instances of 70 by 50 with partial chunks at their edges.
    let (position, image, chunk) = (Point::new(-7, 11), (70, 50), 32);
    let seen = visibility_query(rect(-90, -60, 200, 130), position, image, chunk);
    let areas: Vec<(i32, i32, i32, i32)> = seen
        .iter()
        .map(|&(cx, cy, kx, ky)| {
            let at = chunk_canvas_origin(cx, cy, kx, ky, position, image, chunk);
            let (w, h) = chunk_actual_size(cx, cy, image, chunk);
            (at.x, at.y, at.x + w, at.y + h)
        })
        .collect();
    for x in -90..110 {
        for y in -60..70 {
            let covering =
                areas.iter().filter(|a| a.0 <= x && x < a.2 && a.1 <= y && y < a.3).count();
            assert_eq!(covering, 1, "at {x}, {y}");
        }
    }
}

#[test]
fn pick_lod_at_native_zoom_returns_zero() {
    assert_eq!(pick_lod(octaves(1.0), 5), 0);
    assert_eq!(pick_lod(octaves(2.0), 5), 0);
}

#[test]
fn pick_lod_descends_with_zoom() {
    assert_eq!(pick_lod(octaves(0.5), 5), 1);
    assert_eq!(pick_lod(octaves(0.25), 5), 2);
    assert_eq!(pick_lod(octaves(0.125), 5), 3);
}

#[test]
fn pick_lod_just_below_power_of_two() {
    // Inter-LOD transitions use ceil semantics — at zoom 0.49 we're one
    // power-of-2 step below LOD 1's native zoom of 0.5, so LOD 2.
    assert_eq!(pick_lod(octaves(0.49), 5), 2);
    // zoom 0.51 just above 0.5 → ceil(0.971) = 1.
    assert_eq!(pick_lod(octaves(0.51), 5), 1);
}

#[test]
fn pick_lod_last_boundary_is_power_of_two() {
    // n_lods=5, last=4 → fallback boundary at zoom = 2^-3 = 0.125,
    // a full octave finer than the previous half-octave geometric
    // mean. Trade: skip the painful coarsest-per-tile band where
    // per-viewport tile counts spike.
    assert_eq!(pick_lod(octaves(0.13), 5), 3);
    assert_eq!(pick_lod(octaves(0.12), 5), 4);
}

#[test]
fn pick_lod_clamps_to_last() {
    // zoom = 0.01 → -log2(0.01) ≈ 6.64 → floor 6 → clamp to last = 4.
    assert_eq!(pick_lod(octaves(0.01), 5), 4);
}

#[test]
fn pick_lod_non_finite_returns_zero() {
    // NaN/Infinity from buggy animation math collapse to 0 rather than
    // panic on the `as u32` cast.
    assert_eq!(pick_lod(octaves(f64::NAN), 5), 0);
    assert_eq!(pick_lod(octaves(f64::INFINITY), 5), 0);
    assert_eq!(pick_lod(octaves(f64::NEG_INFINITY), 5), 0);
}

fn meta(t: u64, bytes: u64) -> ChunkMeta {
    ChunkMeta {
        bytes,
        last_touched_frame: t,
    }
}

#[test]
fn evict_lru_noop_under_budget() {
    let mut m = table(&[
        ((0, 0, 0), meta(10, 100)),
        ((0, 1, 0), meta(20, 100)),
    ]);
    let mut bytes: u64 = 200;
    let ev = evict_lru_to_budget(&mut m, &mut bytes, 1000);
    assert!(ev.is_empty());
    assert_eq!(bytes, 200);
    assert_eq!(m.len(), 2);
}

#[test]
fn evict_lru_drops_oldest_first() {
    let mut m = table(&[
        ((0, 0, 0), meta(5, 100)),
        ((0, 1, 0), meta(7, 100)),
        ((0, 2, 0), meta(9, 100)),
    ]);
    let mut bytes: u64 = 300;
    let ev = evict_lru_to_budget(&mut m, &mut bytes, 100);
    assert_eq!(ev.len(), 2);
    assert_eq!(ev[0], key((0, 0, 0)));
    assert_eq!(ev[1], key((0, 1, 0)));
    assert_eq!(bytes, 100);
    assert!(m.contains_key(key((0, 2, 0))));
}

#[test]
fn evict_lru_stops_at_budget_boundary() {
    let mut m = table(&[
        ((0, 0, 0), meta(5, 100)),
        ((0, 1, 0), meta(7, 100)),
    ]);
    let mut bytes: u64 = 200;
    let ev = evict_lru_to_budget(&mut m, &mut bytes, 100);
    assert_eq!(ev, vec![key((0, 0, 0))]);
    assert_eq!(bytes, 100);
    assert!(m.contains_key(key((0, 1, 0))));
}

#[test]
fn evict_lru_handles_byte_saturation() {
    // Stored bytes wildly exceed actual sum — saturating_sub keeps it at 0.
    let mut m = table(&[((0, 0, 0), meta(5, u64::MAX))]);
    let mut bytes: u64 = 50;
    let ev = evict_lru_to_budget(&mut m, &mut bytes, 0);
    assert_eq!(ev, vec![key((0, 0, 0))]);
    assert_eq!(bytes, 0);
}

#[test]
fn evict_lru_empty_meta_is_noop() {
    let mut m = table(&[]);
    let mut bytes: u64 = 0;
    let ev = evict_lru_to_budget(&mut m, &mut bytes, 0);
    assert!(ev.is_empty());
    assert_eq!(bytes, 0);
}

#[test]
fn evict_lru_ties_preserve_at_least_one() {
    // `sort_unstable_by_key` is non-deterministic on ties, but the per-
    // iteration budget check guarantees we don't over-evict.
    let mut m = table(&[
        ((0, 0, 0), meta(5, 100)),
        ((0, 1, 0), meta(5, 100)),
    ]);
    let mut bytes: u64 = 200;
    let ev = evict_lru_to_budget(&mut m, &mut bytes, 100);
    assert_eq!(ev.len(), 1);
    assert_eq!(m.len(), 1);
    assert_eq!(bytes, 100);
}

#[test]
fn pick_lod_zero_zoom_returns_last() {
    assert_eq!(pick_lod(octaves(0.0), 5), 4);
}

#[test]
fn pick_lod_zero_lods_returns_zero() {
    // Defensive: caller invariant is n_lods >= 1, but the function
    // shouldn't panic if the invariant breaks.
    assert_eq!(pick_lod(octaves(0.5), 0), 0);
}

#[test]
fn aggregations_lod_zero_uses_lod0_target() {
    // LOD 0 aggregates against the smaller lod0_target (256 → 1024/256 = 4),
    // not the coarser-LOD target.
    let agg = compute_aggregations(&[256, 512, 1024, 2048], 2048, 1024);
    assert_eq!(agg[0], 4);
}

#[test]
fn aggregations_typical_43k_image() {
    let raw = vec![256, 512, 1024, 2048, 4096, 8192, 16384, 32768];
    let agg = compute_aggregations(&raw, 2048, 1024);
    assert_eq!(agg, vec![4, 4, 2, 1, 1, 1, 1, 1]);
}

#[test]
fn aggregations_final_sizes_monotonic_integer_ratios() {
    // Adjacent final-size ratios must be integer powers of 2 — the
    // coarser-LOD fallback's `canvas_x.div_euclid(size)` lookup needs it.
    let raw = vec![256, 512, 1024, 2048, 4096, 8192];
    let agg = compute_aggregations(&raw, 2048, 1024);
    let sizes: Vec<i32> = raw.iter().zip(&agg).map(|(r, a)| r * *a as i32).collect();
    assert_eq!(sizes, vec![1024, 2048, 2048, 2048, 4096, 8192]);
    for i in 1..sizes.len() {
        let ratio = sizes[i] as f64 / sizes[i - 1] as f64;
        assert!(
            ratio == 1.0 || ratio == 2.0 || ratio == 4.0 || ratio == 8.0,
            "LOD {i} ratio {ratio} is not a power of 2"
        );
        assert!(
            sizes[i] % sizes[i - 1] == 0,
            "LOD {i} ({}) not divisible by LOD {} ({})",
            sizes[i],
            i - 1,
            sizes[i - 1]
        );
    }
}

#[test]
fn aggregations_target_below_raw_keeps_one() {
    let agg = compute_aggregations(&[1024, 2048, 4096], 1024, 1024);
    assert_eq!(agg, vec![1, 1, 1]);
}

#[test]
fn aggregations_empty_input() {
    assert_eq!(compute_aggregations(&[], 2048, 1024), Vec::<u32>::new());
}

#[test]
fn aggregations_zero_raw_clamps_to_one() {
    // Guard against div-by-zero on a pathological raw=0 entry. Other LODs
    // still aggregate: LOD 0 by lod0_target (1024/256=4), LOD 2 by the
    // coarser-LOD target (2048/1024=2).
    let agg = compute_aggregations(&[256, 0, 1024], 2048, 1024);
    assert_eq!(agg[1], 1);
    assert_eq!(agg[0], 4);
    assert_eq!(agg[2], 2);
}

#[test]
fn aggregations_single_lod() {
    // Only LOD 0 present (tiny single-page TIFF): no panic, aggregates by
    // lod0_target.
    assert_eq!(compute_aggregations(&[256], 2048, 1024), vec![4]);
}

#[test]
fn visibility_query_centered_image() {
    // image_position = -dims/2 → image centered on canvas (0,0). Viewport
    // around the origin should hit the inner chunks of instance k=0.
    let v = visibility_query(
        rect(-50, -50, 100, 100),
        Point::new(-1024, -1024),
        (2048, 2048),
        1024,
    );
    // Instance k=0 origin is (-1024, -1024). Viewport relative to it:
    // [974, 1074) × [974, 1074) → straddles chunk (0,0) and (1,1).
    assert!(v.contains(&(0, 0, 0, 0)));
    assert!(v.contains(&(1, 0, 0, 0)));
    assert!(v.contains(&(0, 1, 0, 0)));
    assert!(v.contains(&(1, 1, 0, 0)));
    assert_eq!(v.len(), 4);
}
