use driftwm::geometry::{Point, Rect, Size};
use driftwm::tiles::cache::{
    BackgroundElement, BgChunkCache, Placement, Upload, UploadRound, VRAM_BUDGET_BYTES,
    fallback_area,
};
use driftwm::tiles::grid::can_number_instances;
use driftwm::tiles::lru::ChunkKey;
use driftwm::tiles::pyramid::{Pyramid, PyramidError, ZoomOctaves, plan_pyramid};
use driftwm::tiles::tiff::{LodMetadata, TiffColor};
use driftwm::tiles::worker::{QueueState, TileRequest, WorkerStep};

fn level(dim: u32) -> LodMetadata {
    LodMetadata {
        image_dims: (dim, dim),
        tile_dims: (256, 256),
        color: TiffColor::Rgb8,
    }
}

fn pyramid() -> Pyramid {
    plan_pyramid(
        &[level(16384), level(8192), level(4096), level(2048)],
        &[256, 512, 1024, 2048],
    )
    .ok()
    .unwrap()
}

fn key(lod: u32, cx: i32, cy: i32) -> ChunkKey {
    ChunkKey { lod, cx, cy }
}

fn view() -> Rect {
    Rect::new(Point::new(0, 0), Size::new(1000, 1000))
}

fn upload(texture: u8, side: u32) -> Option<Upload<u8>> {
    Some(Upload {
        texture,
        width: side,
        height: side,
    })
}

/// Takes a decode in a frame of its own. Returns whether it was uploaded.
fn drain(cache: &mut BgChunkCache<u8>, key: ChunkKey, upload: Option<Upload<u8>>) -> bool {
    let mut round = UploadRound::new(1);
    cache.drain_response(&mut round, key, upload);
    round.uploaded == 1
}

#[test]
fn a_pyramid_ends_at_its_cover_plane() {
    let p = pyramid();
    assert_eq!(p.image_dims, (16384, 16384));
    assert_eq!(p.image_position, Point::new(-8192, -8192));
    assert_eq!(p.fallback_lod, 2);
    assert_eq!(p.aggregations, vec![4, 4, 2]);
    assert_eq!(p.chunk_canvas_sizes, vec![1024, 2048, 2048]);
    let p = plan_pyramid(&[level(16384), level(8191), level(4096)], &[256, 513, 1024]);
    let p = p.ok().unwrap();
    assert_eq!(p.fallback_lod, 0);
    assert_eq!(p.chunk_canvas_sizes, vec![1024]);
    // Three tiles would fit, but would not nest.
    let p = plan_pyramid(&[level(20480), level(10240), level(5120)], &[320, 640, 1280]);
    let p = p.ok().unwrap();
    assert_eq!(p.aggregations, vec![2, 2, 1]);
    assert_eq!(p.chunk_canvas_sizes, vec![640, 1280, 1280]);
}

#[test]
fn unusable_pyramids_are_errors() {
    assert_eq!(plan_pyramid(&[], &[]).err().unwrap(), PyramidError::NoLevels);
    let oblong = LodMetadata {
        tile_dims: (256, 128),
        ..level(1000)
    };
    assert_eq!(
        plan_pyramid(&[level(2000), oblong], &[256, 512]).err().unwrap(),
        PyramidError::NonSquareTile { lod: 1 }
    );
    assert_eq!(
        plan_pyramid(&[level(2000)], &[0]).err().unwrap(),
        PyramidError::EmptyChunk { lod: 0, size: 0 }
    );
}

#[test]
fn missing_chunks_are_asked_for_once_and_coarsest_first() {
    let mut cache: BgChunkCache<u8> = BgChunkCache::new(pyramid());
    assert_eq!((cache.n_lods(), cache.chunk_canvas_size_at(1), cache.aggregation_at(0)), (3, 2048, 4));
    assert!(!cache.has_pending_loads());
    let (requests, evicted) = cache.ensure_visible_loaded(view(), ZoomOctaves::Native);
    let request = |lod: u32, cx: u32, cy: u32| TileRequest {
        lod,
        cx,
        cy,
        aggregation: 4,
    };
    assert_eq!(requests, vec![request(1, 4, 4), request(0, 8, 8)]);
    assert!(evicted.is_empty());
    assert!(cache.has_pending_loads());
    assert_eq!(cache.in_flight_len(), 2);
    assert!(cache.ensure_visible_loaded(view(), ZoomOctaves::Native).0.is_empty());
}

/// The chunks of a background, and its cover plane, which comes last.
fn drawn(cache: &BgChunkCache<u8>, camera: Point) -> (Vec<Placement>, Rect) {
    let mut elements = cache.chunk_render_elements(view(), camera, ZoomOctaves::Native);
    let cover = match elements.pop() {
        Some(BackgroundElement::Cover(area)) => area,
        _ => panic!("a cover plane"),
    };
    let chunks = elements
        .into_iter()
        .map(|e| match e {
            BackgroundElement::Chunk(placement) => placement,
            BackgroundElement::Cover(_) => panic!("one cover plane"),
        })
        .collect();
    (chunks, cover)
}

#[test]
fn the_finest_cached_chunk_is_drawn() {
    let mut cache: BgChunkCache<u8> = BgChunkCache::new(pyramid());
    cache.ensure_visible_loaded(view(), ZoomOctaves::Native);
    let (none, cover) = drawn(&cache, Point::new(0, 0));
    assert!(none.is_empty());
    assert_eq!(cover, view());
    assert!(drain(&mut cache, key(1, 4, 4), upload(1, 1024)));
    let (coarse, cover) = drawn(&cache, Point::new(10, 20));
    assert_eq!(coarse.len(), 1);
    assert_eq!(coarse[0].key, key(1, 4, 4));
    assert_eq!(
        coarse[0].area,
        Rect::new(Point::new(-10, -20), Size::new(2048, 2048))
    );
    assert_eq!(cover, Rect::new(Point::new(-10, -20), Size::new(1000, 1000)));
    assert!(drain(&mut cache, key(0, 8, 8), upload(2, 1024)));
    let (fine, _) = drawn(&cache, Point::new(0, 0));
    assert_eq!(fine.len(), 1);
    assert_eq!(fine[0].key, key(0, 8, 8));
    assert_eq!(fine[0].area.size, Size::new(1024, 1024));
    assert_eq!(cache.vram_bytes, 2 * 1024 * 1024 * 4);
    assert!(!cache.has_pending_loads());
    // Far away, coordinates run out.
    assert!(cache.can_draw(view(), Point::new(0, 0), ZoomOctaves::Native));
    assert!(!cache.can_draw(view(), Point::new(i32::MIN, 0), ZoomOctaves::Native));
    let far = Rect::new(Point::new(i32::MAX - 2000, 0), Size::new(1000, 1000));
    assert!(cache.can_draw(far, far.loc, ZoomOctaves::Native));
    // A cached chunk starts right where coordinates end.
    let end = Rect::new(Point::new(i32::MAX - 900, 0), Size::new(1000, 1000));
    assert!(!cache.can_draw(end, end.loc, ZoomOctaves::Native));
    assert!(can_number_instances(far, Point::new(0, 0), (16384, 16384)));
    assert!(!can_number_instances(end, Point::new(0, 0), (1, 16384)));
}

#[test]
fn a_failed_chunk_is_not_asked_for_again() {
    let mut cache: BgChunkCache<u8> = BgChunkCache::new(pyramid());
    cache.ensure_visible_loaded(view(), ZoomOctaves::Native);
    assert!(!drain(&mut cache, key(0, 8, 8), None));
    assert!(drain(&mut cache, key(1, 4, 4), upload(1, 16)));
    assert!(cache.ensure_visible_loaded(view(), ZoomOctaves::Native).0.is_empty());
    assert_eq!(cache.failed, vec![key(0, 8, 8)]);
    // A failed one costs nothing of a frame's budget.
    let mut round = UploadRound::new(2);
    assert!(round.may_upload());
    cache.drain_response(&mut round, key(0, 1, 1), upload(2, 16));
    cache.drain_response(&mut round, key(0, 1, 2), None);
    assert!(round.may_upload());
    cache.drain_response(&mut round, key(0, 1, 3), upload(3, 16));
    assert_eq!(round.uploaded, 2);
    assert!(!round.may_upload());
    assert!(!UploadRound::new(0).may_upload());
}

#[test]
fn chunks_over_the_budget_go_oldest_first() {
    let mut cache: BgChunkCache<u8> = BgChunkCache::new(pyramid());
    drain(&mut cache, key(0, 0, 0), upload(1, 8192));
    cache.begin_frame();
    cache.ensure_visible_loaded(view(), ZoomOctaves::Native);
    drain(&mut cache, key(0, 8, 8), upload(2, 8192));
    cache.begin_frame();
    assert!(cache.vram_bytes <= VRAM_BUDGET_BYTES);
    drain(&mut cache, key(1, 4, 4), upload(3, 16));
    let (_, evicted) = cache.ensure_visible_loaded(view(), ZoomOctaves::Native);
    assert_eq!(evicted, vec![key(0, 0, 0)]);
    assert!(cache.vram_bytes <= VRAM_BUDGET_BYTES);
    assert_eq!(cache.chunks.len(), 2);
    let stamp = |k: ChunkKey| {
        let at = cache.chunks.position(k).unwrap();
        cache.chunks.entries[at].meta.last_touched_frame
    };
    assert_eq!(stamp(key(0, 8, 8)), cache.frame_counter);
    assert_eq!(stamp(key(1, 4, 4)), cache.frame_counter);
}

#[test]
fn the_cover_plane_spans_the_viewport() {
    let area = fallback_area(view(), Point::new(-5, 7));
    assert_eq!(area, Rect::new(Point::new(5, -7), Size::new(1000, 1000)));
    let empty = Rect::new(Point::new(0, 0), Size::new(0, -3));
    assert_eq!(fallback_area(empty, Point::new(0, 0)).size, Size::new(1, 1));
}

#[test]
fn workers_take_requests_in_order_until_shut_down() {
    let request = |cx: u32| TileRequest {
        lod: 0,
        cx,
        cy: 0,
        aggregation: 1,
    };
    let mut queue = QueueState::new();
    assert_eq!(queue.next(), WorkerStep::Wait);
    queue.enqueue(request(1));
    queue.enqueue(request(2));
    assert_eq!(queue.next(), WorkerStep::Decode(request(1)));
    queue.shut_down();
    assert_eq!(queue.next(), WorkerStep::Exit);
    assert!(queue.pending.is_empty());
}
