//! The chunk cache of one output: which chunks are decoded, which of them a
//! frame draws, and where.

use crate::geometry::{Point, Rect, Size, max_i32, max_of};
use crate::tiles::grid::{
    can_number_instances, can_start, chunk_actual_size, chunk_canvas_origin, chunk_extent,
    chunk_start, fits, floor_div, lemma_visible_chunk_on_image, viewport_fits, visibility_query,
    visible_chunks,
};
use crate::tiles::lru::{
    CachedChunk, ChunkKey, ChunkMeta, ChunkTable, evict_lru_to_budget, evicted_keys, holds,
    kept_bytes, kept_entries,
};
use crate::tiles::pyramid::{
    Pyramid, ZoomOctaves, law_coarser_chunk_covers, lod_for, pick_lod,
};
use crate::tiles::worker::TileRequest;
use vstd::prelude::*;

verus! {

/// Bytes of decoded chunks that may be held.
pub const VRAM_BUDGET_BYTES: u64 = 536_870_912;

/// The chunk cache of one output.
pub struct BgChunkCache<T> {
    pub pyramid: Pyramid,
    /// The cached chunks of every level finer than the cover plane.
    pub chunks: ChunkTable<T>,
    /// Chunks whose decode was asked for and has not ended.
    pub in_flight: Vec<ChunkKey>,
    /// Chunks whose decode failed; they are not asked for again.
    pub failed: Vec<ChunkKey>,
    pub vram_bytes: u64,
    pub frame_counter: u64,
}

/// The uploads of one frame. Each takes time on the render thread, so a frame
/// makes only so many.
#[derive(Clone, Copy, Debug, PartialEq, Eq, Structural)]
pub struct UploadRound {
    pub budget: usize,
    pub uploaded: usize,
}

impl UploadRound {
    pub open spec fn wf(self) -> bool {
        self.uploaded <= self.budget
    }

    pub fn new(budget: usize) -> (round: UploadRound)
        ensures
            round.wf(),
            round == (UploadRound { budget, uploaded: 0 }),
    {
        UploadRound { budget, uploaded: 0 }
    }

    /// Another finished decode may be taken.
    pub open spec fn is_open(self) -> bool {
        self.uploaded < self.budget
    }

    /// Whether another finished decode may be taken.
    pub fn may_upload(&self) -> (r: bool)
        ensures
            r == self.is_open(),
    {
        self.uploaded < self.budget
    }

    /// The round after a decode was taken, uploaded or failed.
    pub open spec fn after(self, uploaded: bool) -> UploadRound {
        UploadRound {
            uploaded: if uploaded {
                (self.uploaded + 1) as usize
            } else {
                self.uploaded
            },
            ..self
        }
    }
}

/// A round after the first `n` finished decodes have come, some of which can be
/// uploaded. Those that come once it is closed are left for the next frame.
pub open spec fn round_after(round: UploadRound, uploadable: Seq<bool>, n: int) -> UploadRound
    decreases n,
{
    if n <= 0 {
        round
    } else {
        let before = round_after(round, uploadable, n - 1);
        if before.is_open() {
            before.after(uploadable[n - 1])
        } else {
            before
        }
    }
}

/// Decodes among the first `n` that can be uploaded.
pub open spec fn uploadable_count(uploadable: Seq<bool>, n: int) -> int
    decreases n,
{
    if n <= 0 {
        0
    } else {
        uploadable_count(uploadable, n - 1) + if uploadable[n - 1] {
            1int
        } else {
            0
        }
    }
}

/// However many decodes have finished, a frame uploads as many of them as can be
/// uploaded, and at most its budget.
pub proof fn law_uploads_stay_in_budget(budget: usize, uploadable: Seq<bool>, n: int)
    requires
        0 <= n <= uploadable.len(),
    ensures
        ({
            let round = round_after(UploadRound { budget, uploaded: 0 }, uploadable, n);
            let count = uploadable_count(uploadable, n);
            &&& round.wf()
            &&& round.budget == budget
            &&& round.uploaded == if count <= budget {
                count
            } else {
                budget as int
            }
        }),
        0 <= uploadable_count(uploadable, n),
    decreases n,
{
    if n > 0 {
        law_uploads_stay_in_budget(budget, uploadable, n - 1);
    }
}

/// An uploaded chunk.
pub struct Upload<T> {
    pub texture: T,
    pub width: u32,
    pub height: u32,
}

/// A chunk of an image instance, and where it is drawn.
#[derive(Clone, Copy, Debug, PartialEq, Eq, Structural)]
pub struct Placement {
    pub key: ChunkKey,
    pub kx: i32,
    pub ky: i32,
    /// Relative to the camera.
    pub area: Rect,
}

/// What a background is drawn with.
#[derive(Clone, Copy, Debug, PartialEq, Eq, Structural)]
pub enum BackgroundElement {
    Chunk(Placement),
    /// The cover plane, over an area relative to the camera.
    Cover(Rect),
}

/// Order of placements: by level, column, row and instance.
#[derive(Clone, Copy, Debug, PartialEq, Eq, Structural)]
pub struct PlacementKey {
    pub lod: u32,
    pub cx: i32,
    pub cy: i32,
    pub kx: i32,
    pub ky: i32,
}

impl PlacementKey {
    /// Comes before in the order of emission.
    pub open spec fn before(self, other: PlacementKey) -> bool {
        ||| self.lod < other.lod
        ||| self.lod == other.lod && self.cx < other.cx
        ||| self.lod == other.lod && self.cx == other.cx && self.cy < other.cy
        ||| self.lod == other.lod && self.cx == other.cx && self.cy == other.cy && self.kx
            < other.kx
        ||| self.lod == other.lod && self.cx == other.cx && self.cy == other.cy && self.kx
            == other.kx && self.ky < other.ky
    }

    fn is_before(&self, other: &PlacementKey) -> (r: bool)
        ensures
            r == self.before(*other),
    {
        if self.lod != other.lod {
            self.lod < other.lod
        } else if self.cx != other.cx {
            self.cx < other.cx
        } else if self.cy != other.cy {
            self.cy < other.cy
        } else if self.kx != other.kx {
            self.kx < other.kx
        } else {
            self.ky < other.ky
        }
    }

    pub open spec fn chunk(self) -> ChunkKey {
        ChunkKey { lod: self.lod, cx: self.cx, cy: self.cy }
    }
}

impl Pyramid {
    /// Canvas span of a chunk at a level.
    pub open spec fn span(self, lod: int) -> int {
        self.chunk_canvas_sizes@[lod] as int
    }

    /// The level that a zoom asks for.
    pub open spec fn level_for(self, zoom: ZoomOctaves) -> int {
        lod_for(zoom, self.fallback_lod + 1)
    }

    /// The visible chunks at a level.
    pub open spec fn visible(self, viewport: Rect, lod: int) -> Seq<(i32, i32, i32, i32)> {
        visible_chunks(viewport, self.image_position, self.image_dims, self.span(lod))
    }
}

/// The chunk of level `lod` that holds the top-left corner of the chunk
/// `(cx, cy)` of level `from`.
pub open spec fn ancestor(pyramid: Pyramid, cx: int, cy: int, from: int, lod: int) -> ChunkKey {
    ChunkKey {
        lod: lod as u32,
        cx: ((cx * pyramid.span(from)) / pyramid.span(lod)) as i32,
        cy: ((cy * pyramid.span(from)) / pyramid.span(lod)) as i32,
    }
}

/// A cached chunk covers something visible at the target level.
pub open spec fn in_use(pyramid: Pyramid, viewport: Rect, target: int, key: ChunkKey) -> bool {
    target <= key.lod < pyramid.fallback_lod && exists|i: int|
        0 <= i < pyramid.visible(viewport, target).len() && {
            let v = #[trigger] pyramid.visible(viewport, target)[i];
            ancestor(pyramid, v.0 as int, v.1 as int, target, key.lod as int) == key
        }
}

/// The entry with its last use moved to `frame` if it is in use.
pub open spec fn stamped<T>(
    e: CachedChunk<T>,
    pyramid: Pyramid,
    viewport: Rect,
    target: int,
    frame: u64,
) -> CachedChunk<T> {
    if in_use(pyramid, viewport, target, e.key) {
        CachedChunk {
            key: e.key,
            meta: ChunkMeta { bytes: e.meta.bytes, last_touched_frame: frame },
            texture: e.texture,
        }
    } else {
        e
    }
}

/// Every entry so treated.
pub open spec fn stamped_all<T>(
    entries: Seq<CachedChunk<T>>,
    pyramid: Pyramid,
    viewport: Rect,
    target: int,
    frame: u64,
) -> Seq<CachedChunk<T>> {
    entries.map_values(|e: CachedChunk<T>| stamped(e, pyramid, viewport, target, frame))
}

/// The chunks a level shows, instance by instance.
pub open spec fn level_keys(pyramid: Pyramid, viewport: Rect, lod: int) -> Seq<ChunkKey> {
    pyramid.visible(viewport, lod).map_values(
        |v: (i32, i32, i32, i32)| ChunkKey { lod: lod as u32, cx: v.0, cy: v.1 },
    )
}

/// The chunks of the levels `lo..hi`, coarsest first.
pub open spec fn wanted_keys(pyramid: Pyramid, viewport: Rect, lo: int, hi: int) -> Seq<ChunkKey>
    decreases hi - lo,
{
    if hi <= lo {
        Seq::empty()
    } else {
        wanted_keys(pyramid, viewport, lo + 1, hi) + level_keys(pyramid, viewport, lo)
    }
}

/// Of `keys`, those to ask for: neither cached, nor failed, nor asked for
/// already, each once.
pub open spec fn queued<T>(
    cached: Seq<CachedChunk<T>>,
    failed: Seq<ChunkKey>,
    in_flight: Seq<ChunkKey>,
    keys: Seq<ChunkKey>,
) -> Seq<ChunkKey>
    decreases keys.len(),
{
    if keys.len() == 0 {
        Seq::empty()
    } else {
        let init = queued(cached, failed, in_flight, keys.drop_last());
        let key = keys.last();
        if holds(cached, key) || failed.contains(key) || (in_flight + init).contains(key) {
            init
        } else {
            init.push(key)
        }
    }
}

/// The request for a chunk.
pub open spec fn request_for(pyramid: Pyramid, key: ChunkKey) -> TileRequest {
    TileRequest {
        lod: key.lod,
        cx: key.cx as u32,
        cy: key.cy as u32,
        aggregation: pyramid.aggregations@[key.lod as int],
    }
}

fn contains_key(keys: &Vec<ChunkKey>, key: ChunkKey) -> (found: bool)
    ensures
        found == keys@.contains(key),
{
    let mut i: usize = 0;
    while i < keys.len()
        invariant
            i <= keys.len(),
            forall|k: int| 0 <= k < i ==> keys@[k] != key,
        decreases keys.len() - i,
    {
        if keys[i] == key {
            assert(keys@[i as int] == key);
            return true;
        }
        i = i + 1;
    }
    false
}

/// Removes every occurrence of a key.
fn remove_key(keys: &mut Vec<ChunkKey>, key: ChunkKey)
    ensures
        final(keys)@ == old(keys)@.filter(|k: ChunkKey| k != key),
{
    let ghost all = keys@;
    let ghost pred = |k: ChunkKey| k != key;
    let ghost mut done: int = 0;
    let mut i: usize = 0;
    assert(all.subrange(0, 0).filter(pred) =~= Seq::empty()) by {
        reveal(Seq::filter);
    }
    assert(all.subrange(0, all.len() as int) =~= all);
    while i < keys.len()
        invariant
            pred == (|k: ChunkKey| k != key),
            0 <= done <= all.len(),
            i <= keys.len(),
            i == all.subrange(0, done).filter(pred).len(),
            keys@ =~= all.subrange(0, done).filter(pred) + all.subrange(done, all.len() as int),
        decreases keys.len() - i,
    {
        let ghost kept = all.subrange(0, done).filter(pred);
        let ghost next = all.subrange(0, done + 1);
        proof {
            assert(next.drop_last() =~= all.subrange(0, done));
            assert(next.last() == all[done]);
            assert(keys@[i as int] == all[done]);
            reveal(Seq::filter);
        }
        if keys[i] != key {
            assert(next.filter(pred) == kept.push(all[done]));
            i = i + 1;
        } else {
            assert(next.filter(pred) == kept);
            keys.remove(i);
        }
        proof {
            done = done + 1;
        }
    }
    assert(all.subrange(0, done) =~= all);
}

/// Bytes of a texture of four bytes per pixel, as far as they can be counted.
pub open spec fn upload_bytes(width: u32, height: u32) -> int {
    if width * height * 4 > u64::MAX {
        u64::MAX as int
    } else {
        width * height * 4
    }
}

fn upload_size(width: u32, height: u32) -> (bytes: u64)
    ensures
        bytes == upload_bytes(width, height),
{
    assert(0 <= width * height <= 0xffff_ffff * 0xffff_ffff) by (nonlinear_arith)
        requires
            0 <= width <= 0xffff_ffff,
            0 <= height <= 0xffff_ffff,
    ;
    let bytes: u128 = width as u128 * height as u128 * 4;
    if bytes > u64::MAX as u128 {
        u64::MAX
    } else {
        bytes as u64
    }
}

pub open spec fn saturated(i: int) -> int {
    if i > u64::MAX {
        u64::MAX as int
    } else {
        i
    }
}

/// The finest level from `lod` on, below the cover plane, at which the chunk
/// under `v` is cached.
pub open spec fn resolved_lod<T>(
    pyramid: Pyramid,
    cached: Seq<CachedChunk<T>>,
    v: (i32, i32, i32, i32),
    target: int,
    lod: int,
) -> Option<int>
    decreases pyramid.fallback_lod - lod,
{
    if lod >= pyramid.fallback_lod {
        None
    } else if holds(cached, ancestor(pyramid, v.0 as int, v.1 as int, target, lod)) {
        Some(lod)
    } else {
        resolved_lod(pyramid, cached, v, target, lod + 1)
    }
}

/// The chunk drawn for a visible one.
pub open spec fn resolved<T>(
    pyramid: Pyramid,
    cached: Seq<CachedChunk<T>>,
    v: (i32, i32, i32, i32),
    target: int,
) -> Option<PlacementKey> {
    match resolved_lod(pyramid, cached, v, target, target) {
        Some(lod) => {
            let key = ancestor(pyramid, v.0 as int, v.1 as int, target, lod);
            Some(PlacementKey { lod: key.lod, cx: key.cx, cy: key.cy, kx: v.2, ky: v.3 })
        },
        None => None,
    }
}

/// Some visible chunk is drawn by `key`.
pub open spec fn drawn<T>(
    pyramid: Pyramid,
    cached: Seq<CachedChunk<T>>,
    viewport: Rect,
    target: int,
    key: PlacementKey,
) -> bool {
    drawn_by(pyramid, cached, pyramid.visible(viewport, target), target, key)
}

pub open spec fn drawn_by<T>(
    pyramid: Pyramid,
    cached: Seq<CachedChunk<T>>,
    visible: Seq<(i32, i32, i32, i32)>,
    target: int,
    key: PlacementKey,
) -> bool {
    exists|i: int|
        0 <= i < visible.len() && resolved(pyramid, cached, #[trigger] visible[i], target) == Some(
            key,
        )
}

/// Where a chunk starts, along one axis, relative to the camera.
pub open spec fn offset_x(pyramid: Pyramid, key: PlacementKey, camera: Point) -> int {
    chunk_start(
        key.cx as int,
        key.kx as int,
        pyramid.image_position.x as int,
        pyramid.image_dims.0 as int,
        pyramid.span(key.lod as int),
    ) - camera.x
}

pub open spec fn offset_y(pyramid: Pyramid, key: PlacementKey, camera: Point) -> int {
    chunk_start(
        key.cy as int,
        key.ky as int,
        pyramid.image_position.y as int,
        pyramid.image_dims.1 as int,
        pyramid.span(key.lod as int),
    ) - camera.y
}

/// The area of a chunk: its possibly partial extent at its place.
pub open spec fn area_of(pyramid: Pyramid, key: PlacementKey, camera: Point) -> Rect {
    let span = pyramid.span(key.lod as int);
    Rect {
        loc: Point {
            x: offset_x(pyramid, key, camera) as i32,
            y: offset_y(pyramid, key, camera) as i32,
        },
        size: Size {
            w: chunk_extent(key.cx as int, pyramid.image_dims.0 as int, span) as i32,
            h: chunk_extent(key.cy as int, pyramid.image_dims.1 as int, span) as i32,
        },
    }
}

/// The chunk's place on the canvas and relative to the camera fit in `i32`.
pub open spec fn area_fits(pyramid: Pyramid, key: PlacementKey, camera: Point) -> bool {
    &&& fits(offset_x(pyramid, key, camera))
    &&& fits(offset_y(pyramid, key, camera))
    &&& fits(offset_x(pyramid, key, camera) + camera.x)
    &&& fits(offset_y(pyramid, key, camera) + camera.y)
}

pub open spec fn strictly_sorted(keys: Seq<PlacementKey>) -> bool {
    forall|i: int, j: int|
        0 <= i < j < keys.len() ==> (#[trigger] keys[i]).before(#[trigger] keys[j])
}

/// Inserts a key into a sorted list, unless it is there.
fn insert_sorted(keys: &mut Vec<PlacementKey>, key: PlacementKey)
    requires
        strictly_sorted(old(keys)@),
    ensures
        strictly_sorted(final(keys)@),
        forall|k: PlacementKey| #[trigger]
            final(keys)@.contains(k) <==> old(keys)@.contains(k) || k == key,
{
    let ghost all = keys@;
    let mut i: usize = 0;
    while i < keys.len()
        invariant_except_break
            i <= keys.len(),
            keys@ == all,
            strictly_sorted(all),
            forall|k: int| 0 <= k < i ==> (#[trigger] all[k]).before(key),
        invariant
            keys@ == all,
            strictly_sorted(all),
        ensures
            i <= keys@.len(),
            forall|k: int| 0 <= k < i ==> (#[trigger] all[k]).before(key),
            i < keys@.len() ==> !all[i as int].before(key),
        decreases keys.len() - i,
    {
        if !keys[i].is_before(&key) {
            break;
        }
        i = i + 1;
    }
    if i < keys.len() && keys[i] == key {
        assert(all[i as int] == key);
        return;
    }
    keys.insert(i, key);
    proof {
        let new = keys@;
        assert(new =~= all.insert(i as int, key));
        assert forall|a: int, b: int| 0 <= a < b < new.len() implies (#[trigger] new[a]).before(
            #[trigger] new[b],
        ) by {
            if b < i {
                assert(all[a].before(all[b]));
            } else if b == i {
                assert(all[a].before(key));
            } else if a < i {
                assert(all[a].before(all[b - 1]));
            } else if a == i {
                assert(!all[i as int].before(key) && all[i as int] != key);
                assert(key.before(all[i as int]));
                if b - 1 > i {
                    assert(all[i as int].before(all[b - 1]));
                }
            } else {
                assert(all[a - 1].before(all[b - 1]));
            }
        }
        assert forall|k: PlacementKey| #[trigger] new.contains(k) <==> all.contains(k) || k
            == key by {
            if all.contains(k) {
                let j = choose|j: int| 0 <= j < all.len() && all[j] == k;
                if j < i {
                    assert(new[j] == k);
                } else {
                    assert(new[j + 1] == k);
                }
            }
            if k == key {
                assert(new[i as int] == k);
            }
            if new.contains(k) {
                let j = choose|j: int| 0 <= j < new.len() && new[j] == k;
                if j < i {
                    assert(all[j] == k);
                } else if j > i {
                    assert(all[j - 1] == k);
                }
            }
        }
    }
}

impl<T> BgChunkCache<T> {
    pub open spec fn wf(self) -> bool {
        &&& self.pyramid.wf()
        &&& self.chunks.wf()
    }

    /// A cache with nothing decoded yet.
    pub fn new(pyramid: Pyramid) -> (cache: BgChunkCache<T>)
        requires
            pyramid.wf(),
        ensures
            cache.wf(),
            cache.pyramid == pyramid,
            cache.chunks.entries@.len() == 0,
            cache.in_flight@.len() == 0,
            cache.failed@.len() == 0,
            cache.vram_bytes == 0,
            cache.frame_counter == 0,
    {
        BgChunkCache {
            pyramid,
            chunks: ChunkTable::new(),
            in_flight: Vec::new(),
            failed: Vec::new(),
            vram_bytes: 0,
            frame_counter: 0,
        }
    }

    /// Gives up every chunk, and waits for none. The levels are kept, and so is
    /// what failed: nothing has to be set up again when the background is next
    /// drawn.
    pub fn shrink(&mut self)
        requires
            old(self).wf(),
        ensures
            final(self).wf(),
            final(self).chunks.entries@.len() == 0,
            final(self).in_flight@.len() == 0,
            *final(self) == (BgChunkCache {
                chunks: final(self).chunks,
                in_flight: final(self).in_flight,
                vram_bytes: 0,
                ..*old(self)
            }),
    {
        self.chunks = ChunkTable::new();
        self.in_flight = Vec::new();
        self.vram_bytes = 0;
    }

    /// Levels in use.
    pub fn n_lods(&self) -> (n: u32)
        requires
            self.wf(),
        ensures
            n == self.pyramid.fallback_lod + 1,
    {
        self.pyramid.fallback_lod + 1
    }

    pub fn chunk_canvas_size_at(&self, lod: u32) -> (size: i32)
        requires
            self.wf(),
            lod <= self.pyramid.fallback_lod,
        ensures
            size == self.pyramid.span(lod as int),
            size > 0,
    {
        assert(self.pyramid.chunk_canvas_sizes@[lod as int] > 0);
        self.pyramid.chunk_canvas_sizes[lod as usize]
    }

    pub fn aggregation_at(&self, lod: u32) -> (n: u32)
        requires
            self.wf(),
            lod <= self.pyramid.fallback_lod,
        ensures
            n == self.pyramid.aggregations@[lod as int],
    {
        self.pyramid.aggregations[lod as usize]
    }

    /// Whether a decode is still in flight.
    pub fn has_pending_loads(&self) -> (pending: bool)
        ensures
            pending == (self.in_flight@.len() > 0),
    {
        self.in_flight.len() > 0
    }

    pub fn in_flight_len(&self) -> (n: usize)
        ensures
            n == self.in_flight@.len(),
    {
        self.in_flight.len()
    }

    /// Starts a frame: ages are counted in frames.
    pub fn begin_frame(&mut self)
        ensures
            *final(self) == (BgChunkCache {
                frame_counter: if old(self).frame_counter == u64::MAX {
                    0
                } else {
                    (old(self).frame_counter + 1) as u64
                },
                ..*old(self)
            }),
    {
        self.frame_counter = if self.frame_counter == u64::MAX {
            0
        } else {
            self.frame_counter + 1
        };
    }

    /// Takes the end of a decode in a frame's round: the uploaded chunk, or `None`
    /// where the decode or the upload failed. A failed chunk is not asked for
    /// again.
    pub fn drain_response(
        &mut self,
        round: &mut UploadRound,
        key: ChunkKey,
        upload: Option<Upload<T>>,
    )
        requires
            old(self).wf(),
            old(round).is_open(),
        ensures
            final(self).wf(),
            final(round).wf(),
            *final(round) == old(round).after(upload is Some),
            final(self).pyramid == old(self).pyramid,
            final(self).frame_counter == old(self).frame_counter,
            final(self).in_flight@ == old(self).in_flight@.filter(|k: ChunkKey| k != key),
            match upload {
                Some(u) => {
                    &&& final(self).failed@ == old(self).failed@
                    &&& final(self).vram_bytes == saturated(
                        old(self).vram_bytes + upload_bytes(u.width, u.height),
                    )
                    &&& holds(final(self).chunks.entries@, key)
                    &&& !holds(old(self).chunks.entries@, key) ==> final(self).chunks.entries@
                        == old(self).chunks.entries@.push(
                        CachedChunk {
                            key,
                            meta: ChunkMeta {
                                bytes: upload_bytes(u.width, u.height) as u64,
                                last_touched_frame: old(self).frame_counter,
                            },
                            texture: u.texture,
                        },
                    )
                    &&& forall|i: int|
                        0 <= i < old(self).chunks.entries@.len() && (
                        #[trigger] old(self).chunks.entries@[i]).key == key
                            ==> final(self).chunks.entries@ == old(self).chunks.entries@.update(
                            i,
                            CachedChunk {
                                key,
                                meta: ChunkMeta {
                                    bytes: upload_bytes(u.width, u.height) as u64,
                                    last_touched_frame: old(self).frame_counter,
                                },
                                texture: u.texture,
                            },
                        )
                },
                None => {
                    &&& final(self).vram_bytes == old(self).vram_bytes
                    &&& final(self).chunks == old(self).chunks
                    &&& final(self).failed@ == if old(self).failed@.contains(key) {
                        old(self).failed@
                    } else {
                        old(self).failed@.push(key)
                    }
                },
            },
    {
        remove_key(&mut self.in_flight, key);
        match upload {
            Some(u) => {
                let bytes: u64 = upload_size(u.width, u.height);
                let meta = ChunkMeta { bytes, last_touched_frame: self.frame_counter };
                self.chunks.insert(key, meta, u.texture);
                self.vram_bytes = self.vram_bytes.saturating_add(bytes);
                round.uploaded = round.uploaded + 1;
            },
            None => {
                if !contains_key(&self.failed, key) {
                    self.failed.push(key);
                }
            },
        }
    }

    /// Whether a chunk covers something visible at the target level.
    fn covers_visible(
        &self,
        visible: &Vec<(i32, i32, i32, i32)>,
        viewport: Rect,
        target: u32,
        key: ChunkKey,
    ) -> (used: bool)
        requires
            self.wf(),
            target <= self.pyramid.fallback_lod,
            viewport_fits(viewport, self.pyramid.image_position, self.pyramid.image_dims),
            visible@ == self.pyramid.visible(viewport, target as int),
        ensures
            used == in_use(self.pyramid, viewport, target as int, key),
    {
        if key.lod < target || key.lod >= self.pyramid.fallback_lod {
            return false;
        }
        let mut i: usize = 0;
        while i < visible.len()
            invariant
                i <= visible.len(),
                self.wf(),
                target <= key.lod < self.pyramid.fallback_lod,
                viewport_fits(viewport, self.pyramid.image_position, self.pyramid.image_dims),
                visible@ == self.pyramid.visible(viewport, target as int),
                forall|k: int|
                    0 <= k < i ==> {
                        let v = #[trigger] visible@[k];
                        ancestor(
                            self.pyramid,
                            v.0 as int,
                            v.1 as int,
                            target as int,
                            key.lod as int,
                        ) != key
                    },
            decreases visible.len() - i,
        {
            let v = visible[i];
            proof {
                lemma_on_image(self.pyramid, viewport, target as int, i as int);
            }
            let a = self.ancestor_of(v.0, v.1, target, key.lod);
            if a == key {
                assert(self.pyramid.visible(viewport, target as int)[i as int] == v);
                return true;
            }
            i = i + 1;
        }
        false
    }

    fn ancestor_of(&self, cx: i32, cy: i32, from: u32, lod: u32) -> (key: ChunkKey)
        requires
            self.wf(),
            from <= self.pyramid.fallback_lod,
            lod <= self.pyramid.fallback_lod,
            0 <= cx,
            0 <= cy,
            cx * self.pyramid.span(from as int) < self.pyramid.image_dims.0,
            cy * self.pyramid.span(from as int) < self.pyramid.image_dims.1,
        ensures
            key == ancestor(self.pyramid, cx as int, cy as int, from as int, lod as int),
            key.cx == (cx * self.pyramid.span(from as int)) / self.pyramid.span(lod as int),
            key.cy == (cy * self.pyramid.span(from as int)) / self.pyramid.span(lod as int),
    {
        let span: i64 = self.chunk_canvas_size_at(from) as i64;
        let size: i64 = self.chunk_canvas_size_at(lod) as i64;
        proof {
            let x = cx * span;
            let y = cy * span;
            assert(x >= 0 && y >= 0) by (nonlinear_arith)
                requires
                    cx >= 0,
                    cy >= 0,
                    span > 0,
                    x == cx * span,
                    y == cy * span,
            ;
            assert(0 <= x / size as int <= x && 0 <= y / size as int <= y) by (nonlinear_arith)
                requires
                    x >= 0,
                    y >= 0,
                    size >= 1,
            ;
        }
        let x: i64 = floor_div(cx as i64 * span, size);
        let y: i64 = floor_div(cy as i64 * span, size);
        ChunkKey { lod, cx: x as i32, cy: y as i32 }
    }

    /// Marks the chunks that cover something visible as used in this frame, at
    /// the target level and every coarser one below the cover plane: the coarse
    /// cover must outlast the loading of the fine chunks.
    pub fn touch_visible(&mut self, viewport: Rect, target: u32)
        requires
            old(self).wf(),
            target <= old(self).pyramid.fallback_lod,
            viewport_fits(
                viewport,
                old(self).pyramid.image_position,
                old(self).pyramid.image_dims,
            ),
        ensures
            final(self).wf(),
            final(self).pyramid == old(self).pyramid,
            final(self).in_flight == old(self).in_flight,
            final(self).failed == old(self).failed,
            final(self).vram_bytes == old(self).vram_bytes,
            final(self).frame_counter == old(self).frame_counter,
            final(self).chunks.entries@.len() == old(self).chunks.entries@.len(),
            forall|i: int|
                0 <= i < old(self).chunks.entries@.len()
                    ==> #[trigger] final(self).chunks.entries@[i] == stamped(
                    old(self).chunks.entries@[i],
                    old(self).pyramid,
                    viewport,
                    target as int,
                    old(self).frame_counter,
                ),
    {
        proof {
            assert(self.pyramid.chunk_canvas_sizes@[target as int] > 0);
        }
        let visible = visibility_query(
            viewport,
            self.pyramid.image_position,
            self.pyramid.image_dims,
            self.pyramid.chunk_canvas_sizes[target as usize],
        );
        let mut i: usize = 0;
        while i < self.chunks.entries.len()
            invariant
                i <= self.chunks.entries@.len(),
                self.wf(),
                self.pyramid == old(self).pyramid,
                self.in_flight == old(self).in_flight,
                self.failed == old(self).failed,
                self.vram_bytes == old(self).vram_bytes,
                self.frame_counter == old(self).frame_counter,
                target <= self.pyramid.fallback_lod,
                viewport_fits(viewport, self.pyramid.image_position, self.pyramid.image_dims),
                visible@ == self.pyramid.visible(viewport, target as int),
                self.chunks.entries@.len() == old(self).chunks.entries@.len(),
                forall|k: int|
                    i <= k < self.chunks.entries@.len() ==> #[trigger] self.chunks.entries@[k]
                        == old(self).chunks.entries@[k],
                forall|k: int|
                    0 <= k < i ==> #[trigger] self.chunks.entries@[k] == stamped(
                        old(self).chunks.entries@[k],
                        old(self).pyramid,
                        viewport,
                        target as int,
                        old(self).frame_counter,
                    ),
            decreases self.chunks.entries.len() - i,
        {
            let key = self.chunks.entries[i].key;
            if self.covers_visible(&visible, viewport, target, key) {
                let ghost before = self.chunks.entries@;
                self.chunks.entries[i].meta.last_touched_frame = self.frame_counter;
                assert forall|a: int, b: int| 0 <= a < b < self.chunks.entries@.len() implies (
                #[trigger] self.chunks.entries@[a]).key != (
                #[trigger] self.chunks.entries@[b]).key by {
                    assert(before[a].key != before[b].key);
                }
            }
            i = i + 1;
        }
    }

    /// Asks for the visible chunks of every level from the target up to the
    /// cover plane, coarsest first, that are neither cached nor failed nor
    /// asked for already.
    pub fn request_visible(&mut self, viewport: Rect, target: u32) -> (requests: Vec<TileRequest>)
        requires
            old(self).wf(),
            target <= old(self).pyramid.fallback_lod,
            viewport_fits(
                viewport,
                old(self).pyramid.image_position,
                old(self).pyramid.image_dims,
            ),
        ensures
            final(self).wf(),
            ({
                let keys = queued(
                    old(self).chunks.entries@,
                    old(self).failed@,
                    old(self).in_flight@,
                    wanted_keys(
                        old(self).pyramid,
                        viewport,
                        target as int,
                        old(self).pyramid.fallback_lod as int,
                    ),
                );
                &&& final(self).in_flight@ == old(self).in_flight@ + keys
                &&& requests@ == keys.map_values(
                    |k: ChunkKey| request_for(old(self).pyramid, k),
                )
            }),
            final(self).pyramid == old(self).pyramid,
            final(self).chunks == old(self).chunks,
            final(self).failed == old(self).failed,
            final(self).vram_bytes == old(self).vram_bytes,
            final(self).frame_counter == old(self).frame_counter,
    {
        let coarsest: u32 = self.pyramid.fallback_lod;
        let ghost pyramid = self.pyramid;
        let ghost cached = self.chunks.entries@;
        let ghost failed = self.failed@;
        let ghost flying = self.in_flight@;
        let mut requests: Vec<TileRequest> = Vec::new();
        let mut lod: u32 = coarsest;
        proof {
            assert(wanted_keys(pyramid, viewport, coarsest as int, coarsest as int) =~= Seq::<
                ChunkKey,
            >::empty());
            assert(flying + Seq::<ChunkKey>::empty() =~= flying);
        }
        while lod > target
            invariant
                self.wf(),
                self.pyramid == pyramid,
                self.chunks == old(self).chunks,
                self.failed == old(self).failed,
                self.chunks.entries@ == cached,
                self.failed@ == failed,
                self.vram_bytes == old(self).vram_bytes,
                self.frame_counter == old(self).frame_counter,
                coarsest == pyramid.fallback_lod,
                target <= lod <= coarsest,
                viewport_fits(viewport, pyramid.image_position, pyramid.image_dims),
                ({
                    let keys = queued(
                        cached,
                        failed,
                        flying,
                        wanted_keys(pyramid, viewport, lod as int, coarsest as int),
                    );
                    &&& self.in_flight@ =~= flying + keys
                    &&& requests@ =~= keys.map_values(|k: ChunkKey| request_for(pyramid, k))
                }),
            decreases lod - target,
        {
            lod = lod - 1;
            let size: i32 = self.chunk_canvas_size_at(lod);
            let aggregation: u32 = self.aggregation_at(lod);
            let visible = visibility_query(
                viewport,
                self.pyramid.image_position,
                self.pyramid.image_dims,
                size,
            );
            let ghost above = wanted_keys(pyramid, viewport, lod + 1, coarsest as int);
            let ghost here = level_keys(pyramid, viewport, lod as int);
            let mut i: usize = 0;
            assert(above + here.subrange(0, 0) =~= above);
            while i < visible.len()
                invariant
                    i <= visible.len(),
                    self.wf(),
                    self.pyramid == pyramid,
                    self.chunks == old(self).chunks,
                    self.failed == old(self).failed,
                    self.chunks.entries@ == cached,
                    self.failed@ == failed,
                    self.vram_bytes == old(self).vram_bytes,
                    self.frame_counter == old(self).frame_counter,
                    lod < pyramid.fallback_lod,
                    aggregation == pyramid.aggregations@[lod as int],
                    viewport_fits(viewport, pyramid.image_position, pyramid.image_dims),
                    visible@ == pyramid.visible(viewport, lod as int),
                    here == level_keys(pyramid, viewport, lod as int),
                    here.len() == visible@.len(),
                    ({
                        let keys = queued(
                            cached,
                            failed,
                            flying,
                            above + here.subrange(0, i as int),
                        );
                        &&& self.in_flight@ =~= flying + keys
                        &&& requests@ =~= keys.map_values(
                            |k: ChunkKey| request_for(pyramid, k),
                        )
                    }),
                decreases visible.len() - i,
            {
                let v = visible[i];
                let key = ChunkKey { lod, cx: v.0, cy: v.1 };
                let ghost seen = above + here.subrange(0, i as int);
                let ghost next = above + here.subrange(0, i + 1);
                proof {
                    lemma_on_image(pyramid, viewport, lod as int, i as int);
                    assert(here[i as int] == key);
                    assert(next.drop_last() =~= seen);
                    assert(next.last() == key);
                }
                if !self.chunks.contains_key(key) && !contains_key(&self.failed, key)
                    && !contains_key(&self.in_flight, key) {
                    let ghost before = queued(cached, failed, flying, seen);
                    self.in_flight.push(key);
                    requests.push(
                        TileRequest { lod, cx: v.0 as u32, cy: v.1 as u32, aggregation },
                    );
                    proof {
                        assert(queued(cached, failed, flying, next) == before.push(key));
                        assert(before.push(key).map_values(
                            |k: ChunkKey| request_for(pyramid, k),
                        ) =~= before.map_values(|k: ChunkKey| request_for(pyramid, k)).push(
                            request_for(pyramid, key),
                        ));
                    }
                }
                i = i + 1;
            }
            assert(here.subrange(0, i as int) =~= here);
        }
        requests
    }

    /// Gives up the least recently used chunks while more than the budget is
    /// held, and returns their keys.
    pub fn evict_over_budget(&mut self) -> (evicted: Vec<ChunkKey>)
        requires
            old(self).wf(),
        ensures
            final(self).wf(),
            evicted@ == evicted_keys(
                old(self).chunks.entries@,
                old(self).vram_bytes as int,
                VRAM_BUDGET_BYTES as int,
            ),
            final(self).chunks.entries@ == kept_entries(
                old(self).chunks.entries@,
                old(self).vram_bytes as int,
                VRAM_BUDGET_BYTES as int,
            ),
            final(self).vram_bytes == kept_bytes(
                old(self).chunks.entries@,
                old(self).vram_bytes as int,
                VRAM_BUDGET_BYTES as int,
            ),
            final(self).pyramid == old(self).pyramid,
            final(self).in_flight == old(self).in_flight,
            final(self).failed == old(self).failed,
            final(self).frame_counter == old(self).frame_counter,
    {
        evict_lru_to_budget(&mut self.chunks, &mut self.vram_bytes, VRAM_BUDGET_BYTES)
    }

    /// Everything a frame does about loading, once the finished decodes were
    /// taken: marks what is in use, asks for what is missing, and gives up what
    /// is over the budget. Returns the new requests and the evicted chunks.
    pub fn ensure_visible_loaded(&mut self, viewport: Rect, zoom: ZoomOctaves) -> (done: (
        Vec<TileRequest>,
        Vec<ChunkKey>,
    ))
        requires
            old(self).wf(),
            viewport_fits(
                viewport,
                old(self).pyramid.image_position,
                old(self).pyramid.image_dims,
            ),
        ensures
            final(self).wf(),
            ({
                let target = old(self).pyramid.level_for(zoom);
                let touched = stamped_all(
                    old(self).chunks.entries@,
                    old(self).pyramid,
                    viewport,
                    target,
                    old(self).frame_counter,
                );
                let keys = queued(
                    touched,
                    old(self).failed@,
                    old(self).in_flight@,
                    wanted_keys(
                        old(self).pyramid,
                        viewport,
                        target,
                        old(self).pyramid.fallback_lod as int,
                    ),
                );
                let vram = old(self).vram_bytes as int;
                let budget = VRAM_BUDGET_BYTES as int;
                &&& final(self).in_flight@ == old(self).in_flight@ + keys
                &&& done.0@ == keys.map_values(|k: ChunkKey| request_for(old(self).pyramid, k))
                &&& done.1@ == evicted_keys(touched, vram, budget)
                &&& final(self).chunks.entries@ == kept_entries(touched, vram, budget)
                &&& final(self).vram_bytes == kept_bytes(touched, vram, budget)
            }),
            final(self).pyramid == old(self).pyramid,
            final(self).failed == old(self).failed,
            final(self).frame_counter == old(self).frame_counter,
    {
        let target: u32 = pick_lod(zoom, self.n_lods());
        self.touch_visible(viewport, target);
        assert(self.chunks.entries@ =~= stamped_all(
            old(self).chunks.entries@,
            old(self).pyramid,
            viewport,
            target as int,
            old(self).frame_counter,
        ));
        let requests = self.request_visible(viewport, target);
        let evicted = self.evict_over_budget();
        (requests, evicted)
    }

    fn resolve(&self, v: (i32, i32, i32, i32), target: u32) -> (key: Option<PlacementKey>)
        requires
            self.wf(),
            target <= self.pyramid.fallback_lod,
            0 <= v.0,
            0 <= v.1,
            v.0 * self.pyramid.span(target as int) < self.pyramid.image_dims.0,
            v.1 * self.pyramid.span(target as int) < self.pyramid.image_dims.1,
        ensures
            key == resolved(self.pyramid, self.chunks.entries@, v, target as int),
    {
        let mut lod: u32 = target;
        while lod < self.pyramid.fallback_lod
            invariant
                self.wf(),
                target <= lod <= self.pyramid.fallback_lod,
                0 <= v.0,
                0 <= v.1,
                v.0 * self.pyramid.span(target as int) < self.pyramid.image_dims.0,
                v.1 * self.pyramid.span(target as int) < self.pyramid.image_dims.1,
                resolved_lod(self.pyramid, self.chunks.entries@, v, target as int, target as int)
                    == resolved_lod(
                    self.pyramid,
                    self.chunks.entries@,
                    v,
                    target as int,
                    lod as int,
                ),
            decreases self.pyramid.fallback_lod - lod,
        {
            let a = self.ancestor_of(v.0, v.1, target, lod);
            if self.chunks.contains_key(a) {
                return Some(
                    PlacementKey { lod: a.lod, cx: a.cx, cy: a.cy, kx: v.2, ky: v.3 },
                );
            }
            lod = lod + 1;
        }
        None
    }

    /// The background as it is seen has coordinates of their type.
    pub open spec fn fits_view(self, viewport: Rect, camera: Point, zoom: ZoomOctaves) -> bool {
        &&& viewport_fits(viewport, self.pyramid.image_position, self.pyramid.image_dims)
        &&& cover_fits(viewport, camera)
        &&& forall|key: PlacementKey| #[trigger]
            drawn(
                self.pyramid,
                self.chunks.entries@,
                viewport,
                self.pyramid.level_for(zoom),
                key,
            ) ==> area_fits(self.pyramid, key, camera)
    }

    fn can_place(&self, key: PlacementKey, camera: Point) -> (r: bool)
        requires
            self.wf(),
            key.lod <= self.pyramid.fallback_lod,
        ensures
            r == area_fits(self.pyramid, key, camera),
    {
        let span: i32 = self.chunk_canvas_size_at(key.lod);
        let at = self.pyramid.image_position;
        let dims = self.pyramid.image_dims;
        can_start(key.cx, key.kx, at.x, dims.0, span, camera.x) && can_start(
            key.cy,
            key.ky,
            at.y,
            dims.1,
            span,
            camera.y,
        )
    }

    /// Whether a frame can draw the background as it is seen.
    pub fn can_draw(&self, viewport: Rect, camera: Point, zoom: ZoomOctaves) -> (r: bool)
        requires
            self.wf(),
        ensures
            r == self.fits_view(viewport, camera, zoom),
    {
        let at = self.pyramid.image_position;
        if !can_number_instances(viewport, at, self.pyramid.image_dims) {
            return false;
        }
        let x: i64 = viewport.loc.x as i64 - camera.x as i64;
        let y: i64 = viewport.loc.y as i64 - camera.y as i64;
        let least: i64 = i32::MIN as i64;
        let most: i64 = i32::MAX as i64;
        if x < least || x > most || y < least || y > most {
            return false;
        }
        let target: u32 = pick_lod(zoom, self.n_lods());
        let ghost cached = self.chunks.entries@;
        let ghost all = self.pyramid.visible(viewport, target as int);
        let visible = visibility_query(
            viewport,
            at,
            self.pyramid.image_dims,
            self.chunk_canvas_size_at(target),
        );
        let mut i: usize = 0;
        while i < visible.len()
            invariant
                i <= visible.len(),
                self.wf(),
                target <= self.pyramid.fallback_lod,
                target as int == self.pyramid.level_for(zoom),
                viewport_fits(viewport, self.pyramid.image_position, self.pyramid.image_dims),
                visible@ == all,
                all == self.pyramid.visible(viewport, target as int),
                cached == self.chunks.entries@,
                forall|j: int|
                    0 <= j < i ==> (resolved(
                        self.pyramid,
                        cached,
                        #[trigger] all[j],
                        target as int,
                    ) matches Some(key) ==> area_fits(self.pyramid, key, camera)),
            decreases visible.len() - i,
        {
            proof {
                lemma_on_image(self.pyramid, viewport, target as int, i as int);
            }
            if let Some(key) = self.resolve(visible[i], target) {
                proof {
                    assert(resolved(self.pyramid, cached, all[i as int], target as int) == Some(
                        key,
                    ));
                    assert(drawn(self.pyramid, cached, viewport, target as int, key));
                    lemma_drawn_lod(self.pyramid, cached, all, target as int, key);
                }
                if !self.can_place(key, camera) {
                    return false;
                }
            }
            i = i + 1;
        }
        assert forall|key: PlacementKey| #[trigger]
            drawn(self.pyramid, cached, viewport, target as int, key) implies area_fits(
            self.pyramid,
            key,
            camera,
        ) by {
            let j = choose|j: int|
                0 <= j < all.len() && resolved(
                    self.pyramid,
                    cached,
                    #[trigger] all[j],
                    target as int,
                ) == Some(key);
            assert(area_fits(self.pyramid, key, camera));
        }
        true
    }

    /// What a frame draws the background with, topmost first: the chunks, in a
    /// fixed order, each with its area, and the cover plane below them. Every
    /// visible chunk is drawn by the finest cached one that covers it, or left
    /// to the cover plane.
    pub fn chunk_render_elements(&self, viewport: Rect, camera: Point, zoom: ZoomOctaves) -> (
        elements: Vec<BackgroundElement>)
        requires
            self.wf(),
            self.fits_view(viewport, camera, zoom),
        ensures
            elements@.len() > 0,
            elements@.last() == BackgroundElement::Cover(cover_area(viewport, camera)),
            exists|keys: Seq<PlacementKey>| #[trigger]
                strictly_sorted(keys) && keys.len() == elements@.drop_last().len() && (forall|
                    key: PlacementKey,
                | #[trigger]
                    keys.contains(key) <==> drawn(
                        self.pyramid,
                        self.chunks.entries@,
                        viewport,
                        self.pyramid.level_for(zoom),
                        key,
                    )) && (forall|i: int|
                    0 <= i < keys.len() ==> #[trigger] elements@.drop_last()[i]
                        == BackgroundElement::Chunk(placement_of(self.pyramid, keys[i], camera))),
    {
        let target: u32 = pick_lod(zoom, self.n_lods());
        assert(target as int == self.pyramid.level_for(zoom));
        let placed = self.place_chunks(viewport, camera, target);
        let ghost keys = choose|keys: Seq<PlacementKey>| #[trigger]
            strictly_sorted(keys) && keys.len() == placed@.len() && (forall|key: PlacementKey|
             #[trigger]
                keys.contains(key) <==> drawn(
                    self.pyramid,
                    self.chunks.entries@,
                    viewport,
                    target as int,
                    key,
                )) && (forall|i: int|
                0 <= i < keys.len() ==> #[trigger] placed@[i] == placement_of(
                    self.pyramid,
                    keys[i],
                    camera,
                ));
        let mut elements: Vec<BackgroundElement> = Vec::new();
        let mut i: usize = 0;
        while i < placed.len()
            invariant
                i <= placed@.len(),
                elements@.len() == i,
                forall|k: int|
                    0 <= k < i ==> #[trigger] elements@[k] == BackgroundElement::Chunk(placed@[k]),
            decreases placed.len() - i,
        {
            elements.push(BackgroundElement::Chunk(placed[i]));
            i = i + 1;
        }
        elements.push(BackgroundElement::Cover(fallback_area(viewport, camera)));
        assert forall|i: int| 0 <= i < keys.len() implies #[trigger] elements@.drop_last()[i]
            == BackgroundElement::Chunk(placement_of(self.pyramid, keys[i], camera)) by {
            assert(placed@[i] == placement_of(self.pyramid, keys[i], camera));
        }
        assert(strictly_sorted(keys));
        elements
    }

    /// The chunks a frame draws, in a fixed order, each with its area.
    fn place_chunks(&self, viewport: Rect, camera: Point, target: u32) -> (placed: Vec<Placement>)
        requires
            self.wf(),
            target <= self.pyramid.fallback_lod,
            viewport_fits(viewport, self.pyramid.image_position, self.pyramid.image_dims),
            forall|key: PlacementKey| #[trigger]
                drawn(self.pyramid, self.chunks.entries@, viewport, target as int, key)
                    ==> area_fits(self.pyramid, key, camera),
        ensures
            exists|keys: Seq<PlacementKey>| #[trigger]
                strictly_sorted(keys) && keys.len() == placed@.len() && (forall|
                    key: PlacementKey,
                | #[trigger]
                    keys.contains(key) <==> drawn(
                        self.pyramid,
                        self.chunks.entries@,
                        viewport,
                        target as int,
                        key,
                    )) && (forall|i: int|
                    0 <= i < keys.len() ==> #[trigger] placed@[i] == placement_of(
                        self.pyramid,
                        keys[i],
                        camera,
                    )),
    {
        let ghost all = self.pyramid.visible(viewport, target as int);
        let visible = visibility_query(
            viewport,
            self.pyramid.image_position,
            self.pyramid.image_dims,
            self.chunk_canvas_size_at(target),
        );
        let mut keys: Vec<PlacementKey> = Vec::new();
        let mut i: usize = 0;
        while i < visible.len()
            invariant
                i <= visible.len(),
                self.wf(),
                target <= self.pyramid.fallback_lod,
                viewport_fits(viewport, self.pyramid.image_position, self.pyramid.image_dims),
                visible@ == all,
                all == self.pyramid.visible(viewport, target as int),
                strictly_sorted(keys@),
                forall|key: PlacementKey| #[trigger]
                    keys@.contains(key) <==> drawn_by(
                        self.pyramid,
                        self.chunks.entries@,
                        all.subrange(0, i as int),
                        target as int,
                        key,
                    ),
            decreases visible.len() - i,
        {
            let v = visible[i];
            proof {
                lemma_on_image(self.pyramid, viewport, target as int, i as int);
            }
            let ghost before = keys@;
            let ghost seen = all.subrange(0, i as int);
            let ghost next = all.subrange(0, i + 1);
            let r = self.resolve(v, target);
            if let Some(key) = r {
                insert_sorted(&mut keys, key);
            }
            proof {
                assert forall|key: PlacementKey| #[trigger] keys@.contains(key) <==> drawn_by(
                    self.pyramid,
                    self.chunks.entries@,
                    next,
                    target as int,
                    key,
                ) by {
                    assert(next[i as int] == v);
                    if drawn_by(self.pyramid, self.chunks.entries@, seen, target as int, key) {
                        let j = choose|j: int|
                            0 <= j < seen.len() && resolved(
                                self.pyramid,
                                self.chunks.entries@,
                                #[trigger] seen[j],
                                target as int,
                            ) == Some(key);
                        assert(next[j] == seen[j]);
                    }
                    if drawn_by(self.pyramid, self.chunks.entries@, next, target as int, key) {
                        let j = choose|j: int|
                            0 <= j < next.len() && resolved(
                                self.pyramid,
                                self.chunks.entries@,
                                #[trigger] next[j],
                                target as int,
                            ) == Some(key);
                        if j < i {
                            assert(seen[j] == next[j]);
                        }
                    }
                    assert(before.contains(key) <==> drawn_by(
                        self.pyramid,
                        self.chunks.entries@,
                        seen,
                        target as int,
                        key,
                    ));
                }
            }
            i = i + 1;
        }
        assert(all.subrange(0, i as int) =~= all);
        let ghost sorted = keys@;
        let mut placed: Vec<Placement> = Vec::new();
        let mut i: usize = 0;
        while i < keys.len()
            invariant
                i <= keys.len(),
                self.wf(),
                keys@ == sorted,
                target <= self.pyramid.fallback_lod,
                placed@.len() == i,
                forall|key: PlacementKey| #[trigger]
                    sorted.contains(key) <==> drawn(
                        self.pyramid,
                        self.chunks.entries@,
                        viewport,
                        target as int,
                        key,
                    ),
                forall|key: PlacementKey| #[trigger]
                    drawn(self.pyramid, self.chunks.entries@, viewport, target as int, key)
                        ==> area_fits(self.pyramid, key, camera),
                forall|k: int|
                    0 <= k < i ==> #[trigger] placed@[k] == placement_of(
                        self.pyramid,
                        sorted[k],
                        camera,
                    ),
            decreases keys.len() - i,
        {
            let key = keys[i];
            proof {
                assert(sorted.contains(key));
                assert(area_fits(self.pyramid, key, camera));
                lemma_drawn_lod(
                    self.pyramid,
                    self.chunks.entries@,
                    self.pyramid.visible(viewport, target as int),
                    target as int,
                    key,
                );
            }
            let span: i32 = self.chunk_canvas_size_at(key.lod);
            let extent = chunk_actual_size(key.cx, key.cy, self.pyramid.image_dims, span);
            let origin = chunk_canvas_origin(
                key.cx,
                key.cy,
                key.kx,
                key.ky,
                self.pyramid.image_position,
                self.pyramid.image_dims,
                span,
            );
            placed.push(
                Placement {
                    key: ChunkKey { lod: key.lod, cx: key.cx, cy: key.cy },
                    kx: key.kx,
                    ky: key.ky,
                    area: Rect {
                        loc: Point { x: origin.x - camera.x, y: origin.y - camera.y },
                        size: Size { w: extent.0, h: extent.1 },
                    },
                },
            );
            i = i + 1;
        }
        assert(strictly_sorted(sorted));
        placed
    }
}

/// A drawn chunk with its area.
pub open spec fn placement_of(pyramid: Pyramid, key: PlacementKey, camera: Point) -> Placement {
    Placement {
        key: key.chunk(),
        kx: key.kx,
        ky: key.ky,
        area: area_of(pyramid, key, camera),
    }
}

/// The viewport's place relative to the camera fits the coordinates' type.
pub open spec fn cover_fits(viewport: Rect, camera: Point) -> bool {
    fits(viewport.loc.x - camera.x) && fits(viewport.loc.y - camera.y)
}

/// The area of the cover plane: the whole viewport, relative to the camera, at
/// least a pixel.
pub open spec fn cover_area(viewport: Rect, camera: Point) -> Rect {
    Rect {
        loc: Point {
            x: (viewport.loc.x - camera.x) as i32,
            y: (viewport.loc.y - camera.y) as i32,
        },
        size: Size {
            w: max_of(viewport.size.w as int, 1) as i32,
            h: max_of(viewport.size.h as int, 1) as i32,
        },
    }
}

/// The area of the cover plane.
pub fn fallback_area(viewport: Rect, camera: Point) -> (area: Rect)
    requires
        cover_fits(viewport, camera),
    ensures
        area == cover_area(viewport, camera),
{
    Rect {
        loc: Point { x: viewport.loc.x - camera.x, y: viewport.loc.y - camera.y },
        size: Size { w: max_i32(viewport.size.w, 1), h: max_i32(viewport.size.h, 1) },
    }
}

proof fn lemma_on_image(pyramid: Pyramid, viewport: Rect, lod: int, i: int)
    requires
        pyramid.wf(),
        0 <= lod <= pyramid.fallback_lod,
        viewport_fits(viewport, pyramid.image_position, pyramid.image_dims),
        0 <= i < pyramid.visible(viewport, lod).len(),
    ensures
        ({
            let v = pyramid.visible(viewport, lod)[i];
            &&& 0 <= v.0
            &&& 0 <= v.1
            &&& v.0 * pyramid.span(lod) < pyramid.image_dims.0
            &&& v.1 * pyramid.span(lod) < pyramid.image_dims.1
        }),
{
    assert(pyramid.chunk_canvas_sizes@[lod] > 0);
    lemma_visible_chunk_on_image(
        viewport,
        pyramid.image_position,
        pyramid.image_dims,
        pyramid.span(lod),
        i,
    );
}

proof fn lemma_drawn_lod<T>(
    pyramid: Pyramid,
    cached: Seq<CachedChunk<T>>,
    visible: Seq<(i32, i32, i32, i32)>,
    target: int,
    key: PlacementKey,
)
    requires
        0 <= target <= pyramid.fallback_lod,
        drawn_by(pyramid, cached, visible, target, key),
    ensures
        target <= key.lod < pyramid.fallback_lod,
        holds(cached, key.chunk()),
{
    let i = choose|i: int|
        0 <= i < visible.len() && resolved(pyramid, cached, #[trigger] visible[i], target) == Some(
            key,
        );
    lemma_resolved_lod(pyramid, cached, visible[i], target, target);
}

proof fn lemma_resolved_lod<T>(
    pyramid: Pyramid,
    cached: Seq<CachedChunk<T>>,
    v: (i32, i32, i32, i32),
    target: int,
    lod: int,
)
    requires
        0 <= target <= lod,
    ensures
        resolved_lod(pyramid, cached, v, target, lod) matches Some(l) ==> {
            &&& lod <= l < pyramid.fallback_lod
            &&& holds(cached, ancestor(pyramid, v.0 as int, v.1 as int, target, l))
            &&& forall|m: int|
                lod <= m < l ==> !holds(
                    cached,
                    #[trigger] ancestor(pyramid, v.0 as int, v.1 as int, target, m),
                )
        },
        resolved_lod(pyramid, cached, v, target, lod) is None ==> forall|m: int|
            lod <= m < pyramid.fallback_lod ==> !holds(
                cached,
                #[trigger] ancestor(pyramid, v.0 as int, v.1 as int, target, m),
            ),
    decreases pyramid.fallback_lod - lod,
{
    if lod < pyramid.fallback_lod && !holds(
        cached,
        ancestor(pyramid, v.0 as int, v.1 as int, target, lod),
    ) {
        lemma_resolved_lod(pyramid, cached, v, target, lod + 1);
    }
}

/// What is drawn is cached, at the target level or a coarser one.
pub proof fn law_drawn_chunks_are_cached<T>(
    pyramid: Pyramid,
    cached: Seq<CachedChunk<T>>,
    viewport: Rect,
    target: int,
    key: PlacementKey,
)
    requires
        0 <= target <= pyramid.fallback_lod,
        drawn(pyramid, cached, viewport, target, key),
    ensures
        holds(cached, key.chunk()),
        target <= key.lod < pyramid.fallback_lod,
{
    lemma_drawn_lod(pyramid, cached, pyramid.visible(viewport, target), target, key);
}

/// A visible chunk is drawn by the finest cached chunk that covers it, and is
/// left to the cover plane only if none is cached.
pub proof fn law_finest_cached_chunk_is_drawn<T>(
    pyramid: Pyramid,
    cached: Seq<CachedChunk<T>>,
    v: (i32, i32, i32, i32),
    target: int,
)
    requires
        0 <= target <= pyramid.fallback_lod <= u32::MAX,
    ensures
        match resolved(pyramid, cached, v, target) {
            Some(key) => holds(cached, key.chunk()) && forall|m: int|
                target <= m < key.lod ==> !holds(
                    cached,
                    #[trigger] ancestor(pyramid, v.0 as int, v.1 as int, target, m),
                ),
            None => forall|m: int|
                target <= m < pyramid.fallback_lod ==> !holds(
                    cached,
                    #[trigger] ancestor(pyramid, v.0 as int, v.1 as int, target, m),
                ),
        },
{
    lemma_resolved_lod(pyramid, cached, v, target, target);
}

/// The cover plane lies under every pixel of the viewport: no part of the
/// background is blank, whatever is cached.
pub proof fn law_cover_leaves_nothing_blank(viewport: Rect, camera: Point, x: int, y: int)
    requires
        cover_fits(viewport, camera),
        viewport.loc.x <= x < viewport.loc.x + viewport.size.w,
        viewport.loc.y <= y < viewport.loc.y + viewport.size.h,
    ensures
        ({
            let area = cover_area(viewport, camera);
            &&& area.loc.x <= x - camera.x < area.loc.x + area.size.w
            &&& area.loc.y <= y - camera.y < area.loc.y + area.size.h
        }),
{
}

/// A chunk that covers something visible was used in this frame, so eviction
/// takes it only after every chunk that was not.
pub proof fn law_drawn_chunks_are_fresh<T>(
    e: CachedChunk<T>,
    pyramid: Pyramid,
    viewport: Rect,
    target: int,
    frame: u64,
)
    requires
        in_use(pyramid, viewport, target, e.key),
    ensures
        stamped(e, pyramid, viewport, target, frame).meta.last_touched_frame == frame,
{
}

/// No chunk is asked for twice, and none that is cached, failed or in flight.
pub proof fn law_requests_are_new<T>(
    cached: Seq<CachedChunk<T>>,
    failed: Seq<ChunkKey>,
    in_flight: Seq<ChunkKey>,
    keys: Seq<ChunkKey>,
)
    ensures
        forall|i: int|
            0 <= i < queued(cached, failed, in_flight, keys).len() ==> {
                let key = #[trigger] queued(cached, failed, in_flight, keys)[i];
                &&& keys.contains(key)
                &&& !holds(cached, key)
                &&& !failed.contains(key)
                &&& !in_flight.contains(key)
            },
        queued(cached, failed, in_flight, keys).no_duplicates(),
        forall|k: int|
            0 <= k < keys.len() ==> {
                let key = #[trigger] keys[k];
                ||| holds(cached, key)
                ||| failed.contains(key)
                ||| in_flight.contains(key)
                ||| queued(cached, failed, in_flight, keys).contains(key)
            },
    decreases keys.len(),
{
    if keys.len() > 0 {
        let rest = keys.drop_last();
        law_requests_are_new(cached, failed, in_flight, rest);
        let init = queued(cached, failed, in_flight, rest);
        let all = queued(cached, failed, in_flight, keys);
        let key = keys.last();
        lemma_contains_either(in_flight, init, key);
        assert forall|i: int| 0 <= i < all.len() implies {
            let key = #[trigger] all[i];
            &&& keys.contains(key)
            &&& !holds(cached, key)
            &&& !failed.contains(key)
            &&& !in_flight.contains(key)
        } by {
            if i < init.len() {
                assert(init[i] == all[i]);
                assert(rest.contains(init[i]));
                let j = choose|j: int| 0 <= j < rest.len() && rest[j] == init[i];
                assert(keys[j] == all[i]);
            } else {
                assert(keys[keys.len() - 1] == all[i]);
            }
        }
        assert forall|a: int, b: int| 0 <= a < all.len() && 0 <= b < all.len() && a
            != b implies all[a] != all[b] by {
            if a < init.len() && b < init.len() {
                assert(init[a] != init[b]);
            } else if a < init.len() {
                assert(init.contains(init[a]));
            } else {
                assert(init.contains(init[b]));
            }
        }
        assert forall|k: int| 0 <= k < keys.len() implies {
            let key = #[trigger] keys[k];
            ||| holds(cached, key)
            ||| failed.contains(key)
            ||| in_flight.contains(key)
            ||| all.contains(key)
        } by {
            if k < rest.len() {
                assert(rest[k] == keys[k]);
                if init.contains(keys[k]) {
                    let j = choose|j: int| 0 <= j < init.len() && init[j] == keys[k];
                    assert(all[j] == keys[k]);
                }
            } else if !(holds(cached, key) || failed.contains(key) || (in_flight + init).contains(
                key,
            )) {
                assert(all.last() == key);
            } else if init.contains(key) {
                let j = choose|j: int| 0 <= j < init.len() && init[j] == key;
                assert(all[j] == key);
            }
        }
    }
}

proof fn lemma_contains_either(a: Seq<ChunkKey>, b: Seq<ChunkKey>, key: ChunkKey)
    ensures
        (a + b).contains(key) <==> a.contains(key) || b.contains(key),
{
    let all = a + b;
    if a.contains(key) {
        let i = choose|i: int| 0 <= i < a.len() && a[i] == key;
        assert(all[i] == key);
    }
    if b.contains(key) {
        let i = choose|i: int| 0 <= i < b.len() && b[i] == key;
        assert(all[a.len() + i] == key);
    }
    if all.contains(key) {
        let i = choose|i: int| 0 <= i < all.len() && all[i] == key;
        if i < a.len() {
            assert(a[i] == key);
        } else {
            assert(b[i - a.len()] == key);
        }
    }
}

/// Along one axis, the coarser chunk over a chunk on the image starts on the image
/// and no later than that chunk.
proof fn lemma_ancestor_starts(c: int, fine: int, coarse: int, image: int)
    requires
        0 <= c,
        0 < fine,
        0 < coarse,
        c * fine < image,
    ensures
        0 <= (c * fine) / coarse,
        ((c * fine) / coarse) * coarse <= c * fine < ((c * fine) / coarse) * coarse + coarse,
        (c * fine) / coarse < image,
{
    let p = c * fine;
    assert(0 <= p) by (nonlinear_arith)
        requires
            p == c * fine,
            0 <= c,
            0 < fine,
    ;
    let q = p / coarse;
    vstd::arithmetic::div_mod::lemma_fundamental_div_mod(p, coarse);
    assert(q >= 0 && q <= p && q * coarse <= p < q * coarse + coarse) by (nonlinear_arith)
        requires
            p == coarse * q + p % coarse,
            0 <= p % coarse < coarse,
            q == p / coarse,
            0 <= p,
            0 < coarse,
    ;
}

/// What is drawn is of a level below the cover plane and starts on the image.
proof fn lemma_drawn_on_image<T>(
    pyramid: Pyramid,
    cached: Seq<CachedChunk<T>>,
    viewport: Rect,
    target: int,
    key: PlacementKey,
)
    requires
        pyramid.wf(),
        viewport_fits(viewport, pyramid.image_position, pyramid.image_dims),
        0 <= target <= pyramid.fallback_lod,
        drawn(pyramid, cached, viewport, target, key),
    ensures
        target <= key.lod < pyramid.fallback_lod,
        pyramid.span(key.lod as int) > 0,
        0 <= key.cx,
        0 <= key.cy,
        key.cx * pyramid.span(key.lod as int) < pyramid.image_dims.0,
        key.cy * pyramid.span(key.lod as int) < pyramid.image_dims.1,
{
    let visible = pyramid.visible(viewport, target);
    lemma_drawn_lod(pyramid, cached, visible, target, key);
    let i = choose|i: int|
        0 <= i < visible.len() && resolved(pyramid, cached, #[trigger] visible[i], target) == Some(
            key,
        );
    let v = visible[i];
    let lod = key.lod as int;
    lemma_on_image(pyramid, viewport, target, i);
    lemma_resolved_lod(pyramid, cached, v, target, target);
    assert(pyramid.chunk_canvas_sizes@[target] > 0);
    assert(pyramid.chunk_canvas_sizes@[lod] > 0);
    lemma_ancestor_starts(
        v.0 as int,
        pyramid.span(target),
        pyramid.span(lod),
        pyramid.image_dims.0 as int,
    );
    lemma_ancestor_starts(
        v.1 as int,
        pyramid.span(target),
        pyramid.span(lod),
        pyramid.image_dims.1 as int,
    );
}

/// The area of a drawn chunk lies in its own image instance and is not empty.
/// Moved back by the camera it starts as many whole spans past the instance's
/// start as the chunk's number says, and ends a span later or where the instance
/// ends.
pub proof fn law_drawn_areas_stay_in_their_instance<T>(
    pyramid: Pyramid,
    cached: Seq<CachedChunk<T>>,
    viewport: Rect,
    camera: Point,
    target: int,
    key: PlacementKey,
)
    requires
        pyramid.wf(),
        viewport_fits(viewport, pyramid.image_position, pyramid.image_dims),
        0 <= target <= pyramid.fallback_lod,
        drawn(pyramid, cached, viewport, target, key),
        area_fits(pyramid, key, camera),
    ensures
        ({
            let placed = placement_of(pyramid, key, camera);
            let area = placed.area;
            let span = pyramid.chunk_canvas_sizes@[key.lod as int] as int;
            let left = pyramid.image_position.x + key.kx * pyramid.image_dims.0;
            let top = pyramid.image_position.y + key.ky * pyramid.image_dims.1;
            let x = area.loc.x + camera.x;
            let y = area.loc.y + camera.y;
            &&& placed.key.lod == key.lod && placed.key.cx == key.cx && placed.key.cy == key.cy
            &&& placed.kx == key.kx && placed.ky == key.ky
            &&& 0 < area.size.w <= span
            &&& 0 < area.size.h <= span
            &&& left <= x == left + key.cx * span
            &&& top <= y == top + key.cy * span
            &&& x + area.size.w <= left + pyramid.image_dims.0
            &&& y + area.size.h <= top + pyramid.image_dims.1
            &&& area.size.w == span || x + area.size.w == left + pyramid.image_dims.0
            &&& area.size.h == span || y + area.size.h == top + pyramid.image_dims.1
        }),
{
    lemma_drawn_on_image(pyramid, cached, viewport, target, key);
    let span = pyramid.span(key.lod as int);
    assert(key.cx * span >= 0 && key.cy * span >= 0) by (nonlinear_arith)
        requires
            key.cx >= 0,
            key.cy >= 0,
            span > 0,
    ;
}

/// Along one axis, different chunks of one level have no pixel in common.
proof fn lemma_axis_apart(c: int, k: int, d: int, l: int, image: int, span: int, x: int)
    requires
        span > 0,
        0 <= c * span < image,
        0 <= d * span < image,
        (c, k) != (d, l),
        k * image + c * span <= x < k * image + c * span + span,
        x < k * image + image,
    ensures
        !(l * image + d * span <= x < l * image + d * span + span && x < l * image + image),
{
    if k == l {
        if c < d {
            assert(c * span + span <= d * span) by (nonlinear_arith)
                requires
                    c + 1 <= d,
                    span > 0,
            ;
        } else {
            assert(d * span + span <= c * span) by (nonlinear_arith)
                requires
                    d + 1 <= c,
                    span > 0,
            ;
        }
    } else if k < l {
        assert(k * image + image <= l * image) by (nonlinear_arith)
            requires
                k + 1 <= l,
                image > 0,
        ;
    } else {
        assert(l * image + image <= k * image) by (nonlinear_arith)
            requires
                l + 1 <= k,
                image > 0,
        ;
    }
}

/// The areas of two drawn chunks of one level do not overlap: a pixel is covered
/// by at most one of them.
pub proof fn law_drawn_areas_do_not_overlap<T>(
    pyramid: Pyramid,
    cached: Seq<CachedChunk<T>>,
    viewport: Rect,
    camera: Point,
    target: int,
    a: PlacementKey,
    b: PlacementKey,
    x: int,
    y: int,
)
    requires
        pyramid.wf(),
        viewport_fits(viewport, pyramid.image_position, pyramid.image_dims),
        0 <= target <= pyramid.fallback_lod,
        drawn(pyramid, cached, viewport, target, a),
        drawn(pyramid, cached, viewport, target, b),
        area_fits(pyramid, a, camera),
        area_fits(pyramid, b, camera),
        a.lod == b.lod,
        a != b,
    ensures
        ({
            let p = placement_of(pyramid, a, camera).area;
            let q = placement_of(pyramid, b, camera).area;
            !(p.loc.x <= x < p.loc.x + p.size.w && p.loc.y <= y < p.loc.y + p.size.h && q.loc.x <= x
                < q.loc.x + q.size.w && q.loc.y <= y < q.loc.y + q.size.h)
        }),
{
    law_drawn_areas_stay_in_their_instance(pyramid, cached, viewport, camera, target, a);
    law_drawn_areas_stay_in_their_instance(pyramid, cached, viewport, camera, target, b);
    lemma_drawn_on_image(pyramid, cached, viewport, target, a);
    lemma_drawn_on_image(pyramid, cached, viewport, target, b);
    let p = placement_of(pyramid, a, camera).area;
    let span = pyramid.span(a.lod as int);
    assert(a.cx * span >= 0 && a.cy * span >= 0 && b.cx * span >= 0 && b.cy * span >= 0)
        by (nonlinear_arith)
        requires
            a.cx >= 0,
            a.cy >= 0,
            b.cx >= 0,
            b.cy >= 0,
            span > 0,
    ;
    if p.loc.x <= x < p.loc.x + p.size.w && p.loc.y <= y < p.loc.y + p.size.h {
        if (a.cx, a.kx) != (b.cx, b.kx) {
            lemma_axis_apart(
                a.cx as int,
                a.kx as int,
                b.cx as int,
                b.kx as int,
                pyramid.image_dims.0 as int,
                span,
                x + camera.x - pyramid.image_position.x,
            );
        } else {
            lemma_axis_apart(
                a.cy as int,
                a.ky as int,
                b.cy as int,
                b.ky as int,
                pyramid.image_dims.1 as int,
                span,
                y + camera.y - pyramid.image_position.y,
            );
        }
    }
}

/// Where a visible chunk is drawn by another, that one's area covers every pixel
/// of the visible chunk.
pub proof fn law_drawn_chunk_covers_the_visible_one<T>(
    pyramid: Pyramid,
    cached: Seq<CachedChunk<T>>,
    viewport: Rect,
    camera: Point,
    target: int,
    i: int,
    key: PlacementKey,
    x: int,
    y: int,
)
    requires
        pyramid.wf(),
        viewport_fits(viewport, pyramid.image_position, pyramid.image_dims),
        0 <= target <= pyramid.fallback_lod,
        0 <= i < pyramid.visible(viewport, target).len(),
        resolved(pyramid, cached, pyramid.visible(viewport, target)[i], target) == Some(key),
        area_fits(pyramid, key, camera),
        ({
            let v = pyramid.visible(viewport, target)[i];
            let span = pyramid.chunk_canvas_sizes@[target];
            let left = pyramid.image_position.x + v.2 * pyramid.image_dims.0;
            let top = pyramid.image_position.y + v.3 * pyramid.image_dims.1;
            &&& left + v.0 * span <= x < left + v.0 * span + span
            &&& top + v.1 * span <= y < top + v.1 * span + span
            &&& x < left + pyramid.image_dims.0
            &&& y < top + pyramid.image_dims.1
        }),
    ensures
        ({
            let area = placement_of(pyramid, key, camera).area;
            &&& area.loc.x <= x - camera.x < area.loc.x + area.size.w
            &&& area.loc.y <= y - camera.y < area.loc.y + area.size.h
        }),
{
    let visible = pyramid.visible(viewport, target);
    let v = visible[i];
    let lod = key.lod as int;
    assert(drawn_by(pyramid, cached, visible, target, key));
    law_drawn_areas_stay_in_their_instance(pyramid, cached, viewport, camera, target, key);
    lemma_drawn_on_image(pyramid, cached, viewport, target, key);
    lemma_on_image(pyramid, viewport, target, i);
    lemma_resolved_lod(pyramid, cached, v, target, target);
    let fine = pyramid.span(target);
    let coarse = pyramid.span(lod);
    assert(pyramid.chunk_canvas_sizes@[target] > 0);
    assert(pyramid.chunk_canvas_sizes@[lod] > 0);
    lemma_ancestor_starts(v.0 as int, fine, coarse, pyramid.image_dims.0 as int);
    lemma_ancestor_starts(v.1 as int, fine, coarse, pyramid.image_dims.1 as int);
    law_coarser_chunk_covers(pyramid, target, lod, v.0 as int);
    law_coarser_chunk_covers(pyramid, target, lod, v.1 as int);
}

/// What is drawn counts as used, so drawing keeps it from being evicted.
pub proof fn law_what_is_drawn_is_in_use<T>(
    pyramid: Pyramid,
    cached: Seq<CachedChunk<T>>,
    viewport: Rect,
    target: int,
    key: PlacementKey,
    e: CachedChunk<T>,
    frame: u64,
)
    requires
        0 <= target <= pyramid.fallback_lod,
        drawn(pyramid, cached, viewport, target, key),
        e.key == key.chunk(),
    ensures
        ({
            let s = stamped(e, pyramid, viewport, target, frame);
            &&& s.meta.last_touched_frame == frame
            &&& s.key == e.key && s.texture == e.texture && s.meta.bytes == e.meta.bytes
        }),
{
    let visible = pyramid.visible(viewport, target);
    lemma_drawn_lod(pyramid, cached, visible, target, key);
    let i = choose|i: int|
        0 <= i < visible.len() && resolved(pyramid, cached, #[trigger] visible[i], target) == Some(
            key,
        );
    let v = visible[i];
    lemma_resolved_lod(pyramid, cached, v, target, target);
    assert(ancestor(pyramid, v.0 as int, v.1 as int, target, key.lod as int) == e.key);
}

/// A chunk whose place no visible chunk lies under keeps the frame of its last
/// use, and so does one of a level finer than the target.
pub proof fn law_unused_chunks_age<T>(
    e: CachedChunk<T>,
    pyramid: Pyramid,
    viewport: Rect,
    target: int,
    frame: u64,
)
    requires
        e.key.lod < target || e.key.lod >= pyramid.fallback_lod || forall|i: int|
            0 <= i < pyramid.visible(viewport, target).len() ==> {
                let v = #[trigger] pyramid.visible(viewport, target)[i];
                let fine = pyramid.chunk_canvas_sizes@[target];
                let coarse = pyramid.chunk_canvas_sizes@[e.key.lod as int];
                (v.0 * fine) / coarse as int != e.key.cx || (v.1 * fine) / coarse as int
                    != e.key.cy
            },
        pyramid.wf(),
        0 <= target <= pyramid.fallback_lod,
        viewport_fits(viewport, pyramid.image_position, pyramid.image_dims),
    ensures
        stamped(e, pyramid, viewport, target, frame) == e,
{
    if in_use(pyramid, viewport, target, e.key) {
        let visible = pyramid.visible(viewport, target);
        let i = choose|i: int|
            0 <= i < visible.len() && {
                let v = #[trigger] visible[i];
                ancestor(pyramid, v.0 as int, v.1 as int, target, e.key.lod as int) == e.key
            };
        let v = visible[i];
        let lod = e.key.lod as int;
        lemma_on_image(pyramid, viewport, target, i);
        assert(pyramid.chunk_canvas_sizes@[target] > 0);
        assert(pyramid.chunk_canvas_sizes@[lod] > 0);
        lemma_ancestor_starts(
            v.0 as int,
            pyramid.span(target),
            pyramid.span(lod),
            pyramid.image_dims.0 as int,
        );
        lemma_ancestor_starts(
            v.1 as int,
            pyramid.span(target),
            pyramid.span(lod),
            pyramid.image_dims.1 as int,
        );
    }
}

/// The chunks wanted of the levels `lo..hi` are those that are visible at their
/// level, and a coarser one comes before a finer one.
pub proof fn law_wanted_are_the_visible(
    pyramid: Pyramid,
    viewport: Rect,
    lo: int,
    hi: int,
    key: ChunkKey,
)
    requires
        0 <= lo <= hi <= u32::MAX,
    ensures
        ({
            let wanted = wanted_keys(pyramid, viewport, lo, hi);
            &&& wanted.contains(key) <==> lo <= key.lod < hi && exists|i: int|
                0 <= i < pyramid.visible(viewport, key.lod as int).len() && {
                    let v = #[trigger] pyramid.visible(viewport, key.lod as int)[i];
                    v.0 == key.cx && v.1 == key.cy
                }
            &&& forall|i: int, j: int|
                0 <= i < j < wanted.len() ==> (#[trigger] wanted[j]).lod <= (
                #[trigger] wanted[i]).lod
            &&& forall|i: int|
                0 <= i < wanted.len() ==> lo <= (#[trigger] wanted[i]).lod < hi
        }),
    decreases hi - lo,
{
    if lo < hi {
        law_wanted_are_the_visible(pyramid, viewport, lo + 1, hi, key);
        let coarser = wanted_keys(pyramid, viewport, lo + 1, hi);
        let level = level_keys(pyramid, viewport, lo);
        let visible = pyramid.visible(viewport, lo);
        lemma_contains_either(coarser, level, key);
        assert forall|i: int| 0 <= i < level.len() implies #[trigger] level[i] == (ChunkKey {
            lod: lo as u32,
            cx: visible[i].0,
            cy: visible[i].1,
        }) by {}
        if level.contains(key) {
            let i = choose|i: int| 0 <= i < level.len() && level[i] == key;
            assert(visible[i].0 == key.cx && visible[i].1 == key.cy);
        }
        if key.lod == lo && exists|i: int|
            0 <= i < visible.len() && {
                let v = #[trigger] visible[i];
                v.0 == key.cx && v.1 == key.cy
            } {
            let i = choose|i: int|
                0 <= i < visible.len() && {
                    let v = #[trigger] visible[i];
                    v.0 == key.cx && v.1 == key.cy
                };
            assert(level[i] == key);
        }
    }
}

/// Requests keep the order of what is wanted: of two chunks that are asked for,
/// the one that was wanted first is asked for first.
pub proof fn law_requests_keep_the_order<T>(
    cached: Seq<CachedChunk<T>>,
    failed: Seq<ChunkKey>,
    in_flight: Seq<ChunkKey>,
    keys: Seq<ChunkKey>,
    i: int,
    j: int,
) -> (at: (int, int))
    requires
        0 <= i < j < queued(cached, failed, in_flight, keys).len(),
    ensures
        0 <= at.0 < at.1 < keys.len(),
        keys[at.0] == queued(cached, failed, in_flight, keys)[i],
        keys[at.1] == queued(cached, failed, in_flight, keys)[j],
    decreases keys.len(),
{
    let rest = keys.drop_last();
    let init = queued(cached, failed, in_flight, rest);
    if j < init.len() {
        let at = law_requests_keep_the_order(cached, failed, in_flight, rest, i, j);
        assert(keys[at.0] == rest[at.0] && keys[at.1] == rest[at.1]);
        at
    } else {
        law_requests_are_new(cached, failed, in_flight, rest);
        assert(rest.contains(init[i]));
        let a = choose|a: int| 0 <= a < rest.len() && rest[a] == init[i];
        assert(keys[a] == rest[a]);
        (a, keys.len() - 1)
    }
}

/// A request names the chunk it is for and how many source tiles a side of it is
/// read from.
pub proof fn law_requests_name_their_chunk(pyramid: Pyramid, key: ChunkKey)
    requires
        0 <= key.cx,
        0 <= key.cy,
    ensures
        ({
            let r = request_for(pyramid, key);
            &&& r.lod == key.lod && r.cx == key.cx && r.cy == key.cy
            &&& r.aggregation == pyramid.aggregations@[key.lod as int]
        }),
{
}

/// A texture holds four bytes for each pixel.
pub proof fn law_uploads_count_four_bytes_a_pixel(width: u32, height: u32)
    ensures
        4 * (width * height) <= u64::MAX ==> upload_bytes(width, height) == 4 * (width * height),
        4 * (width * height) > u64::MAX ==> upload_bytes(width, height) == u64::MAX,
{
}

/// The order of emission is strict and total, and puts finer levels first.
pub proof fn law_emission_is_ordered(a: PlacementKey, b: PlacementKey, c: PlacementKey)
    ensures
        !a.before(a),
        a == b || a.before(b) || b.before(a),
        a.before(b) && b.before(c) ==> a.before(c),
        a.lod < b.lod ==> a.before(b),
{
}

/// A zoom asks for as many levels of the pyramid as it has octaves below native, up
/// to the cover plane's.
pub proof fn law_zoom_picks_the_level(pyramid: Pyramid, octaves: u32)
    ensures
        octaves <= pyramid.fallback_lod ==> pyramid.level_for(ZoomOctaves::Below(octaves))
            == octaves,
        octaves > pyramid.fallback_lod ==> pyramid.level_for(ZoomOctaves::Below(octaves))
            == pyramid.fallback_lod,
        pyramid.level_for(ZoomOctaves::Native) == 0,
        pyramid.level_for(ZoomOctaves::Vanishing) == pyramid.fallback_lod,
{
}

/// Marking what is in use goes over every entry, and moves, adds and drops none.
pub proof fn law_every_entry_is_marked<T>(
    entries: Seq<CachedChunk<T>>,
    pyramid: Pyramid,
    viewport: Rect,
    target: int,
    frame: u64,
    i: int,
)
    requires
        0 <= i < entries.len(),
    ensures
        ({
            let all = stamped_all(entries, pyramid, viewport, target, frame);
            &&& all.len() == entries.len()
            &&& all[i].key == entries[i].key
            &&& all[i].texture == entries[i].texture
            &&& all[i].meta.bytes == entries[i].meta.bytes
            &&& all[i] == stamped(entries[i], pyramid, viewport, target, frame)
        }),
{
}

/// Drawn chunks are listed without one twice, and a finer level's come first.
pub proof fn law_placements_are_listed_once(keys: Seq<PlacementKey>, i: int, j: int)
    requires
        strictly_sorted(keys),
        0 <= i < j < keys.len(),
    ensures
        keys[i] != keys[j],
        keys[i].lod <= keys[j].lod,
{
    assert(keys[i].before(keys[j]));
}

/// Counting bytes stops at what can be counted and not before.
pub proof fn law_counting_stops_at_the_most(a: u64, b: int)
    requires
        0 <= b,
    ensures
        a + b <= u64::MAX ==> saturated(a + b) == a + b,
        a + b > u64::MAX ==> saturated(a + b) == u64::MAX,
{
}

} // verus!
