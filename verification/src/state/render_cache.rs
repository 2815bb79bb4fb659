//! What is kept for drawing, by output, and when it is dropped.

use crate::blur::cache::BlurCache;
use crate::blur::cadence::SharedBlur;
use crate::blur::plan::{BlurRequestData, Prefixes, spliced};
use crate::blur::scratch::ScratchPool;
use crate::capture::CaptureOutputState;
use crate::frame::{BackgroundCaches, BackgroundStep, background_step, step_for};
use crate::names::{Named, NamedMap};
use crate::outline::OutlineCache;
use crate::state::invariants::DecorationKey;
use crate::text::{chars_of, ends_with, same_text};
use crate::tiles::cache::BgChunkCache;
use vstd::prelude::*;
use vstd::string::StringExecFns;

verus! {

/// The blur of a window on an output.
pub struct BlurEntry<T> {
    pub output: String,
    pub surface: u64,
    pub cache: BlurCache<T>,
}

impl<T> BlurEntry<T> {
    pub open spec fn is_of(self, output: Seq<char>, surface: u64) -> bool {
        self.output@ == output && self.surface == surface
    }
}

/// A window has one blur on an output.
pub open spec fn distinct_blurs<T>(blurs: Seq<BlurEntry<T>>) -> bool {
    forall|i: int, j: int|
        0 <= i < j < blurs.len() ==> !(#[trigger] blurs[i]).is_of(
            (#[trigger] blurs[j]).output@,
            blurs[j].surface,
        )
}

proof fn lemma_kept_blurs_distinct<T>(
    blurs: Seq<BlurEntry<T>>,
    pred: spec_fn(BlurEntry<T>) -> bool,
)
    requires
        distinct_blurs(blurs),
    ensures
        distinct_blurs(blurs.filter(pred)),
    decreases blurs.len(),
{
    reveal(Seq::filter);
    if blurs.len() > 0 {
        let init = blurs.drop_last();
        let last = blurs.last();
        assert(distinct_blurs(init)) by {
            assert forall|i: int, j: int| 0 <= i < j < init.len() implies !(
            #[trigger] init[i]).is_of((#[trigger] init[j]).output@, init[j].surface) by {
                assert(!blurs[i].is_of(blurs[j].output@, blurs[j].surface));
            }
        }
        lemma_kept_blurs_distinct(init, pred);
        let kept = init.filter(pred);
        assert forall|k: int| 0 <= k < kept.len() implies !(#[trigger] kept[k]).is_of(
            last.output@,
            last.surface,
        ) by {
            broadcast use Seq::lemma_filter_contains_rev;

            assert(kept.contains(kept[k]));
            assert(init.contains(kept[k]));
            let m = choose|m: int| 0 <= m < init.len() && init[m] == kept[k];
            assert(!blurs[m].is_of(blurs[blurs.len() - 1].output@, blurs[blurs.len() - 1].surface));
        }
    }
}

/// The place of a window's blur on an output.
pub fn find_blur<T>(blurs: &[BlurEntry<T>], output: &str, surface: u64) -> (at: Option<usize>)
    ensures
        match at {
            Some(i) => i < blurs@.len() && blurs@[i as int].is_of(output@, surface),
            None => forall|k: int|
                0 <= k < blurs@.len() ==> !(#[trigger] blurs@[k]).is_of(output@, surface),
        },
{
    let mut i: usize = 0;
    while i < blurs.len()
        invariant
            i <= blurs@.len(),
            forall|k: int| 0 <= k < i ==> !(#[trigger] blurs@[k]).is_of(output@, surface),
        decreases blurs.len() - i,
    {
        if blurs[i].surface == surface && same_text(blurs[i].output.as_str(), output) {
            return Some(i);
        }
        i = i + 1;
    }
    None
}

/// A window's blur is drawn on an output: there is one, and it holds something.
pub open spec fn shows_blur<T>(blurs: Seq<BlurEntry<T>>, output: Seq<char>, surface: u64) -> bool {
    exists|k: int|
        0 <= k < blurs.len() && (#[trigger] blurs[k]).is_of(output, surface)
            && !blurs[k].cache.zeroed
}

/// For each request of an output the place of the blur that is drawn for it, if
/// one is.
pub fn shown_blurs<T>(blurs: &[BlurEntry<T>], output: &str, requests: &[BlurRequestData]) -> (places:
    Vec<Option<usize>>)
    requires
        distinct_blurs(blurs@),
    ensures
        places@.len() == requests@.len(),
        forall|i: int|
            0 <= i < requests@.len() ==> match #[trigger] places@[i] {
                Some(k) => {
                    &&& k < blurs@.len()
                    &&& blurs@[k as int].is_of(output@, requests@[i].surface_id)
                    &&& !blurs@[k as int].cache.zeroed
                },
                None => !shows_blur(blurs@, output@, requests@[i].surface_id),
            },
{
    let mut places: Vec<Option<usize>> = Vec::new();
    let mut i: usize = 0;
    while i < requests.len()
        invariant
            i <= requests@.len(),
            places@.len() == i,
            distinct_blurs(blurs@),
            forall|j: int|
                0 <= j < i ==> match #[trigger] places@[j] {
                    Some(k) => {
                        &&& k < blurs@.len()
                        &&& blurs@[k as int].is_of(output@, requests@[j].surface_id)
                        &&& !blurs@[k as int].cache.zeroed
                    },
                    None => !shows_blur(blurs@, output@, requests@[j].surface_id),
                },
        decreases requests.len() - i,
    {
        let surface = requests[i].surface_id;
        let place = match find_blur(blurs, output, surface) {
            Some(k) => if blurs[k].cache.is_shown() {
                Some(k)
            } else {
                assert forall|m: int|
                    0 <= m < blurs@.len() && (#[trigger] blurs@[m]).is_of(
                        output@,
                        surface,
                    ) implies m == k by {
                    if m < k {
                        assert(!blurs@[m].is_of(blurs@[k as int].output@, blurs@[k as int].surface));
                    } else if k < m {
                        assert(!blurs@[k as int].is_of(blurs@[m].output@, blurs@[m].surface));
                    }
                }
                None
            },
            None => None,
        };
        places.push(place);
        i = i + 1;
    }
    places
}

/// A window whose blur holds nothing, or that has none, adds no element to the
/// frame: the splice is as it was before its request, whatever else is spliced.
pub proof fn law_empty_blur_adds_nothing<T, E>(
    blurs: Seq<BlurEntry<T>>,
    output: Seq<char>,
    elements: Seq<E>,
    requests: Seq<BlurRequestData>,
    drawn: Seq<Option<E>>,
    prefixes: Prefixes,
    i: int,
)
    requires
        0 <= i < requests.len(),
        drawn.len() == requests.len(),
        forall|k: int|
            0 <= k < requests.len() ==> (#[trigger] drawn[k] is Some <==> shows_blur(
                blurs,
                output,
                requests[k].surface_id,
            )),
        forall|k: int|
            0 <= k < blurs.len() && (#[trigger] blurs[k]).is_of(output, requests[i].surface_id)
                ==> blurs[k].cache.zeroed,
    ensures
        drawn[i] is None,
        spliced(elements, requests, drawn, prefixes, i + 1) == spliced(
            elements,
            requests,
            drawn,
            prefixes,
            i,
        ),
{
}

/// The chunks of a drawn background shader.
pub struct ShaderChunks<T> {
    /// The cover plane, which is drawn where a chunk is not.
    pub cover: T,
    pub chunks: Vec<T>,
    /// Chunks that are still to be drawn.
    pub pending_bakes: usize,
}

impl<T> ShaderChunks<T> {
    /// Gives up every chunk, and those that are still to be drawn. The cover
    /// plane is kept.
    pub fn shrink(&mut self)
        ensures
            final(self).chunks@.len() == 0,
            final(self).pending_bakes == 0,
            final(self).cover == old(self).cover,
    {
        self.chunks = Vec::new();
        self.pending_bakes = 0;
    }

    /// Whether chunks are still to be drawn.
    pub fn has_pending_bakes(&self) -> (r: bool)
        ensures
            r == (self.pending_bakes > 0),
    {
        self.pending_bakes > 0
    }
}

/// A drawn shadow or border.
pub struct DecorationEntry<D> {
    pub key: DecorationKey,
    pub element: D,
}

/// No two of these belong together.
pub open spec fn distinct_decorations<D>(entries: Seq<DecorationEntry<D>>) -> bool {
    forall|i: int, j: int|
        0 <= i < j < entries.len() ==> (#[trigger] entries[i]).key != (#[trigger] entries[j]).key
}

/// What is kept for drawing. Maps are by output name. `T` is a texture, `B` a
/// background element, `E` a drawn error bar, `P` a compiled shader and `D` a
/// drawn shadow or border.
pub struct RenderCache<T, B, E, P, D> {
    pub background_shader: Option<P>,
    pub tile_shader: Option<P>,
    pub cached_bg: NamedMap<B>,
    /// A window that two outputs show has a blur for each.
    pub blur_cache: Vec<BlurEntry<T>>,
    pub shared_blur: NamedMap<SharedBlur<T>>,
    pub blur_scratch: NamedMap<ScratchPool<T>>,
    pub shadow_cache: Vec<DecorationEntry<D>>,
    pub border_cache: Vec<DecorationEntry<D>>,
    /// When each output's animated background last moved.
    pub background_last_animate: NamedMap<u128>,
    pub cached_error_bar: NamedMap<E>,
    pub cached_outlines: NamedMap<OutlineCache>,
    pub cached_tile_chunks: NamedMap<BgChunkCache<T>>,
    pub cached_shader_chunks: NamedMap<ShaderChunks<T>>,
    /// By what is captured and the output's name after a colon.
    pub capture_state: NamedMap<CaptureOutputState<T>>,
}

/// The blurs that are not an output's.
pub open spec fn blurs_elsewhere<T>(blurs: Seq<BlurEntry<T>>, name: Seq<char>) -> Seq<BlurEntry<T>> {
    blurs.filter(|b: BlurEntry<T>| b.output@ != name)
}

/// The blurs that are not an output's, or are of a window that is still blurred
/// there.
pub open spec fn blurs_pruned<T>(
    blurs: Seq<BlurEntry<T>>,
    name: Seq<char>,
    live: Seq<u64>,
) -> Seq<BlurEntry<T>> {
    blurs.filter(|b: BlurEntry<T>| b.output@ != name || live.contains(b.surface))
}

fn holds_id(ids: &[u64], id: u64) -> (r: bool)
    ensures
        r == ids@.contains(id),
{
    let mut i: usize = 0;
    while i < ids.len()
        invariant
            i <= ids@.len(),
            forall|k: int| 0 <= k < i ==> ids@[k] != id,
        decreases ids.len() - i,
    {
        if ids[i] == id {
            return true;
        }
        i = i + 1;
    }
    false
}

/// The capture states that are not an output's.
pub open spec fn captures_elsewhere<T>(
    after: Map<Seq<char>, CaptureOutputState<T>>,
    before: Map<Seq<char>, CaptureOutputState<T>>,
    name: Seq<char>,
) -> bool {
    &&& forall|key: Seq<char>| #[trigger]
        after.dom().contains(key) <==> before.dom().contains(key) && !ends_with(
            key,
            seq![':'] + name,
        )
    &&& forall|key: Seq<char>| #[trigger]
        after.dom().contains(key) ==> after[key] == before[key]
}

/// An output's chunk cache has given up its chunks and waits for none; those of
/// the others are as they were.
pub open spec fn tiles_shrunk<T>(
    before: Map<Seq<char>, BgChunkCache<T>>,
    after: Map<Seq<char>, BgChunkCache<T>>,
    name: Seq<char>,
) -> bool {
    if before.dom().contains(name) {
        &&& after == before.insert(name, after[name])
        &&& after[name].chunks.entries@.len() == 0
        &&& after[name].in_flight@.len() == 0
        &&& after[name] == BgChunkCache {
            chunks: after[name].chunks,
            in_flight: after[name].in_flight,
            vram_bytes: 0,
            ..before[name]
        }
    } else {
        after == before
    }
}

/// The same of the chunks of a background shader.
pub open spec fn shaders_shrunk<T>(
    before: Map<Seq<char>, ShaderChunks<T>>,
    after: Map<Seq<char>, ShaderChunks<T>>,
    name: Seq<char>,
) -> bool {
    if before.dom().contains(name) {
        &&& after == before.insert(name, after[name])
        &&& after[name].chunks@.len() == 0
        &&& after[name].pending_bakes == 0
        &&& after[name].cover == before[name].cover
    } else {
        after == before
    }
}

impl<T, B, E, P, D> RenderCache<T, B, E, P, D> {
    pub open spec fn wf(self) -> bool {
        &&& self.cached_bg.wf()
        &&& self.shared_blur.wf()
        &&& self.blur_scratch.wf()
        &&& self.background_last_animate.wf()
        &&& self.cached_error_bar.wf()
        &&& self.cached_outlines.wf()
        &&& self.cached_tile_chunks.wf()
        &&& self.cached_shader_chunks.wf()
        &&& self.capture_state.wf()
        &&& distinct_blurs(self.blur_cache@)
        &&& distinct_decorations(self.shadow_cache@)
        &&& distinct_decorations(self.border_cache@)
        &&& forall|name: Seq<char>| #[trigger]
            self.cached_tile_chunks@.dom().contains(name) ==> self.cached_tile_chunks@[name].wf()
    }

    pub fn new() -> (c: RenderCache<T, B, E, P, D>)
        ensures
            c.wf(),
            c.background_shader is None,
            c.tile_shader is None,
            c.cached_bg@ == Map::<Seq<char>, B>::empty(),
            c.blur_cache@.len() == 0,
            c.shared_blur@ == Map::<Seq<char>, SharedBlur<T>>::empty(),
            c.blur_scratch@ == Map::<Seq<char>, ScratchPool<T>>::empty(),
            c.shadow_cache@.len() == 0,
            c.border_cache@.len() == 0,
            c.background_last_animate@ == Map::<Seq<char>, u128>::empty(),
            c.cached_error_bar@ == Map::<Seq<char>, E>::empty(),
            c.cached_outlines@ == Map::<Seq<char>, OutlineCache>::empty(),
            c.cached_tile_chunks@ == Map::<Seq<char>, BgChunkCache<T>>::empty(),
            c.cached_shader_chunks@ == Map::<Seq<char>, ShaderChunks<T>>::empty(),
            c.capture_state@ == Map::<Seq<char>, CaptureOutputState<T>>::empty(),
    {
        RenderCache {
            background_shader: None,
            tile_shader: None,
            cached_bg: NamedMap::new(),
            blur_cache: Vec::new(),
            shared_blur: NamedMap::new(),
            blur_scratch: NamedMap::new(),
            shadow_cache: Vec::new(),
            border_cache: Vec::new(),
            background_last_animate: NamedMap::new(),
            cached_error_bar: NamedMap::new(),
            cached_outlines: NamedMap::new(),
            cached_tile_chunks: NamedMap::new(),
            cached_shader_chunks: NamedMap::new(),
            capture_state: NamedMap::new(),
        }
    }

    /// Drops an output's background chunks, which no longer fit it.
    pub fn remove_background_chunks(&mut self, output_name: &str)
        requires
            old(self).wf(),
        ensures
            final(self).wf(),
            final(self).cached_tile_chunks@ == old(self).cached_tile_chunks@.remove(output_name@),
            final(self).cached_shader_chunks@ == old(self).cached_shader_chunks@.remove(
                output_name@,
            ),
            *final(self) == (RenderCache {
                cached_tile_chunks: final(self).cached_tile_chunks,
                cached_shader_chunks: final(self).cached_shader_chunks,
                ..*old(self)
            }),
    {
        self.cached_tile_chunks.remove(output_name);
        self.cached_shader_chunks.remove(output_name);
    }

    /// Frees an output's background chunks while a fullscreen window hides the
    /// canvas. Their caches and cover planes are kept, so that nothing has to be
    /// built when the canvas shows again. Nothing is waited for meanwhile: an
    /// output that waits is drawn again and again.
    pub fn shrink_background_for_fullscreen(&mut self, output_name: &str)
        requires
            old(self).wf(),
        ensures
            final(self).wf(),
            tiles_shrunk(
                old(self).cached_tile_chunks@,
                final(self).cached_tile_chunks@,
                output_name@,
            ),
            shaders_shrunk(
                old(self).cached_shader_chunks@,
                final(self).cached_shader_chunks@,
                output_name@,
            ),
            *final(self) == (RenderCache {
                cached_tile_chunks: final(self).cached_tile_chunks,
                cached_shader_chunks: final(self).cached_shader_chunks,
                ..*old(self)
            }),
    {
        if let Some(i) = self.cached_tile_chunks.position(output_name) {
            let ghost before = self.cached_tile_chunks.entries@;
            proof {
                crate::names::lemma_entry(before, i as int);
            }
            self.cached_tile_chunks.entries[i].value.shrink();
            proof {
                crate::names::lemma_update(
                    before,
                    self.cached_tile_chunks.entries@,
                    i as int,
                );
            }
        }
        if let Some(i) = self.cached_shader_chunks.position(output_name) {
            let ghost before = self.cached_shader_chunks.entries@;
            self.cached_shader_chunks.entries[i].value.shrink();
            proof {
                crate::names::lemma_update(
                    before,
                    self.cached_shader_chunks.entries@,
                    i as int,
                );
            }
        }
    }

    /// What a frame does about an output's background before it is drawn: it is
    /// shrunk where a fullscreen picture conceals the canvas, and has to be made
    /// where the output has none.
    pub fn prepare_background(&mut self, output_name: &str, conceals: bool) -> (step:
        BackgroundStep)
        requires
            old(self).wf(),
        ensures
            final(self).wf(),
            step == step_for(
                conceals,
                BackgroundCaches {
                    element: old(self).cached_bg@.dom().contains(output_name@),
                    tile_chunks: old(self).cached_tile_chunks@.dom().contains(output_name@),
                    shader_chunks: old(self).cached_shader_chunks@.dom().contains(output_name@),
                },
            ),
            !conceals ==> *final(self) == *old(self),
            conceals ==> {
                &&& tiles_shrunk(
                    old(self).cached_tile_chunks@,
                    final(self).cached_tile_chunks@,
                    output_name@,
                )
                &&& shaders_shrunk(
                    old(self).cached_shader_chunks@,
                    final(self).cached_shader_chunks@,
                    output_name@,
                )
                &&& *final(self) == (RenderCache {
                    cached_tile_chunks: final(self).cached_tile_chunks,
                    cached_shader_chunks: final(self).cached_shader_chunks,
                    ..*old(self)
                })
            },
    {
        let caches = BackgroundCaches {
            element: self.cached_bg.contains(output_name),
            tile_chunks: self.cached_tile_chunks.contains(output_name),
            shader_chunks: self.cached_shader_chunks.contains(output_name),
        };
        if conceals {
            self.shrink_background_for_fullscreen(output_name);
        }
        background_step(conceals, &caches)
    }

    /// Drops every output's background, and the shaders that it was drawn with:
    /// all is made anew from the configuration and the files that it names.
    pub fn reset_backgrounds(&mut self)
        requires
            old(self).wf(),
        ensures
            final(self).wf(),
            final(self).background_shader is None,
            final(self).tile_shader is None,
            final(self).cached_bg@ == Map::<Seq<char>, B>::empty(),
            final(self).cached_tile_chunks@ == Map::<Seq<char>, BgChunkCache<T>>::empty(),
            final(self).cached_shader_chunks@ == Map::<Seq<char>, ShaderChunks<T>>::empty(),
            *final(self) == (RenderCache {
                background_shader: None,
                tile_shader: None,
                cached_bg: final(self).cached_bg,
                cached_tile_chunks: final(self).cached_tile_chunks,
                cached_shader_chunks: final(self).cached_shader_chunks,
                ..*old(self)
            }),
    {
        self.background_shader = None;
        self.tile_shader = None;
        self.cached_bg = NamedMap::new();
        self.cached_tile_chunks = NamedMap::new();
        self.cached_shader_chunks = NamedMap::new();
    }

    fn retain_blurs(&mut self, output_name: &str, live: &[u64])
        requires
            old(self).wf(),
        ensures
            distinct_blurs(final(self).blur_cache@),
            final(self).blur_cache@ == blurs_pruned(old(self).blur_cache@, output_name@, live@),
            *final(self) == (RenderCache { blur_cache: final(self).blur_cache, ..*old(self) }),
    {
        let ghost all = self.blur_cache@;
        let ghost pred = |b: BlurEntry<T>| b.output@ != output_name@ || live@.contains(b.surface);
        let mut entries: Vec<BlurEntry<T>> = Vec::new();
        std::mem::swap(&mut entries, &mut self.blur_cache);
        let mut kept: Vec<BlurEntry<T>> = Vec::new();
        assert(all.subrange(0, 0).filter(pred) =~= Seq::empty()) by {
            reveal(Seq::filter);
        }
        for b in it: entries
            invariant
                it.seq() == all,
                pred == (|b: BlurEntry<T>|
                    b.output@ != output_name@ || live@.contains(b.surface)),
                kept@ == all.subrange(0, it.index() as int).filter(pred),
        {
            proof {
                let next = all.subrange(0, it.index() + 1);
                assert(next.drop_last() =~= all.subrange(0, it.index() as int));
                assert(next.last() == b);
                reveal(Seq::filter);
            }
            if !same_text(b.output.as_str(), output_name) || holds_id(live, b.surface) {
                kept.push(b);
            }
        }
        assert(all.subrange(0, all.len() as int) =~= all);
        proof {
            lemma_kept_blurs_distinct(all, pred);
        }
        self.blur_cache = kept;
    }

    /// Keeps a blur for a window that has none on an output.
    pub fn insert_blur(&mut self, output_name: &str, surface: u64, cache: BlurCache<T>)
        requires
            old(self).wf(),
            forall|k: int|
                0 <= k < old(self).blur_cache@.len() ==> !(#[trigger] old(self).blur_cache@[k]).is_of(
                    output_name@,
                    surface,
                ),
        ensures
            final(self).wf(),
            final(self).blur_cache@.len() == old(self).blur_cache@.len() + 1,
            final(self).blur_cache@.drop_last() == old(self).blur_cache@,
            final(self).blur_cache@.last().is_of(output_name@, surface),
            final(self).blur_cache@.last().cache == cache,
            *final(self) == (RenderCache { blur_cache: final(self).blur_cache, ..*old(self) }),
    {
        let entry = BlurEntry { output: String::from_str(output_name), surface, cache };
        self.blur_cache.push(entry);
        assert(self.blur_cache@.drop_last() =~= old(self).blur_cache@);
    }

    /// Drops the blurs of windows that are no longer blurred on an output. Those
    /// of other outputs stay. Where no window is left, the shared backdrop and the
    /// scratch textures go too: nothing samples them any more.
    pub fn prune_blur_cache(&mut self, output_name: &str, live: &[u64])
        requires
            old(self).wf(),
        ensures
            final(self).wf(),
            final(self).blur_cache@ == blurs_pruned(old(self).blur_cache@, output_name@, live@),
            live@.len() > 0 ==> *final(self) == (RenderCache {
                blur_cache: final(self).blur_cache,
                ..*old(self)
            }),
            live@.len() == 0 ==> {
                &&& final(self).shared_blur@ == old(self).shared_blur@.remove(output_name@)
                &&& final(self).blur_scratch@ == old(self).blur_scratch@.remove(output_name@)
                &&& *final(self) == (RenderCache {
                    shared_blur: final(self).shared_blur,
                    blur_scratch: final(self).blur_scratch,
                    blur_cache: final(self).blur_cache,
                    ..*old(self)
                })
            },
    {
        if live.len() == 0 {
            let ghost blurs = self.blur_cache@;
            self.remove_blur_caches(output_name);
            proof {
                let a = |b: BlurEntry<T>| b.output@ != output_name@ || live@.contains(b.surface);
                let b = |b: BlurEntry<T>| b.output@ != output_name@;
                assert(a =~= b);
                assert(blurs_pruned(blurs, output_name@, live@) == blurs_elsewhere(
                    blurs,
                    output_name@,
                ));
            }
        } else {
            self.retain_blurs(output_name, live);
        }
    }

    /// Drops an output's blurs, its shared backdrop and its scratch textures. All
    /// are made anew when they are needed.
    pub fn remove_blur_caches(&mut self, output_name: &str)
        requires
            old(self).wf(),
        ensures
            final(self).wf(),
            final(self).shared_blur@ == old(self).shared_blur@.remove(output_name@),
            final(self).blur_scratch@ == old(self).blur_scratch@.remove(output_name@),
            final(self).blur_cache@ == blurs_elsewhere(old(self).blur_cache@, output_name@),
            *final(self) == (RenderCache {
                shared_blur: final(self).shared_blur,
                blur_scratch: final(self).blur_scratch,
                blur_cache: final(self).blur_cache,
                ..*old(self)
            }),
    {
        self.shared_blur.remove(output_name);
        self.blur_scratch.remove(output_name);
        let none: Vec<u64> = Vec::new();
        let ghost blurs = self.blur_cache@;
        self.retain_blurs(output_name, none.as_slice());
        proof {
            let a = |b: BlurEntry<T>| b.output@ != output_name@ || none@.contains(b.surface);
            let b = |b: BlurEntry<T>| b.output@ != output_name@;
            assert(a =~= b);
            assert(blurs_pruned(blurs, output_name@, none@) == blurs_elsewhere(
                blurs,
                output_name@,
            ));
        }
    }

    /// Drops an output's capture states.
    pub fn remove_capture_state(&mut self, output_name: &str)
        requires
            old(self).wf(),
        ensures
            final(self).wf(),
            captures_elsewhere(
                final(self).capture_state@,
                old(self).capture_state@,
                output_name@,
            ),
            *final(self) == (RenderCache {
                capture_state: final(self).capture_state,
                ..*old(self)
            }),
    {
        let mut suffix: Vec<char> = Vec::new();
        suffix.push(':');
        let mut name = chars_of(output_name);
        suffix.append(&mut name);
        assert(suffix@ =~= seq![':'] + output_name@);
        crate::capture::remove_capture_state(&mut self.capture_state, &suffix);
    }

    /// Drops all that is kept for an output, so that nothing of it is used when
    /// it is connected again.
    pub fn remove_output(&mut self, output_name: &str)
        requires
            old(self).wf(),
        ensures
            final(self).wf(),
            final(self).cached_bg@ == old(self).cached_bg@.remove(output_name@),
            final(self).shared_blur@ == old(self).shared_blur@.remove(output_name@),
            final(self).blur_scratch@ == old(self).blur_scratch@.remove(output_name@),
            final(self).blur_cache@ == blurs_elsewhere(old(self).blur_cache@, output_name@),
            final(self).background_last_animate@ == old(self).background_last_animate@.remove(
                output_name@,
            ),
            final(self).cached_error_bar@ == old(self).cached_error_bar@.remove(output_name@),
            final(self).cached_outlines@ == old(self).cached_outlines@.remove(output_name@),
            final(self).cached_tile_chunks@ == old(self).cached_tile_chunks@.remove(output_name@),
            final(self).cached_shader_chunks@ == old(self).cached_shader_chunks@.remove(
                output_name@,
            ),
            captures_elsewhere(
                final(self).capture_state@,
                old(self).capture_state@,
                output_name@,
            ),
            *final(self) == (RenderCache {
                cached_bg: final(self).cached_bg,
                shared_blur: final(self).shared_blur,
                blur_scratch: final(self).blur_scratch,
                blur_cache: final(self).blur_cache,
                background_last_animate: final(self).background_last_animate,
                cached_error_bar: final(self).cached_error_bar,
                cached_outlines: final(self).cached_outlines,
                cached_tile_chunks: final(self).cached_tile_chunks,
                cached_shader_chunks: final(self).cached_shader_chunks,
                capture_state: final(self).capture_state,
                ..*old(self)
            }),
    {
        self.cached_bg.remove(output_name);
        self.remove_blur_caches(output_name);
        self.background_last_animate.remove(output_name);
        self.cached_error_bar.remove(output_name);
        self.cached_outlines.remove(output_name);
        self.remove_background_chunks(output_name);
        self.remove_capture_state(output_name);
    }
}

/// A count and what it counts.
pub struct Counter {
    pub name: &'static str,
    pub count: u128,
}

pub open spec fn counter_view(c: Counter) -> (Seq<char>, int) {
    (c.name@, c.count as int)
}

pub open spec fn counter_views(counters: Seq<Counter>) -> Seq<(Seq<char>, int)> {
    counters.map_values(|c: Counter| counter_view(c))
}

/// Textures in the first `n` pools.
pub open spec fn pooled<T>(pools: Seq<Named<ScratchPool<T>>>, n: int) -> int
    decreases n,
{
    if n <= 0 {
        0
    } else {
        pooled(pools, n - 1) + pools[n - 1].value.entries@.len()
    }
}

/// Chunks that the first `n` caches wait for.
pub open spec fn awaited<T>(caches: Seq<Named<BgChunkCache<T>>>, n: int) -> int
    decreases n,
{
    if n <= 0 {
        0
    } else {
        awaited(caches, n - 1) + caches[n - 1].value.in_flight@.len()
    }
}

fn push_counter(counters: &mut Vec<Counter>, name: &'static str, count: u128)
    ensures
        counter_views(final(counters)@) == counter_views(old(counters)@).push(
            (name@, count as int),
        ),
{
    counters.push(Counter { name, count });
    assert(counter_views(counters@) =~= counter_views(old(counters)@).push((name@, count as int)));
}

fn pooled_textures<T>(pools: &NamedMap<ScratchPool<T>>) -> (n: u128)
    ensures
        n == pooled(pools.entries@, pools.entries@.len() as int),
{
    let mut n: u128 = 0;
    let mut i: usize = 0;
    while i < pools.entries.len()
        invariant
            i <= pools.entries@.len(),
            n == pooled(pools.entries@, i as int),
            n <= i * usize::MAX,
        decreases pools.entries.len() - i,
    {
        proof {
            lemma_sum_fits(i as int);
        }
        n = n + pools.entries[i].value.entries.len() as u128;
        i = i + 1;
    }
    n
}

fn awaited_chunks<T>(caches: &NamedMap<BgChunkCache<T>>) -> (n: u128)
    ensures
        n == awaited(caches.entries@, caches.entries@.len() as int),
{
    let mut n: u128 = 0;
    let mut i: usize = 0;
    while i < caches.entries.len()
        invariant
            i <= caches.entries@.len(),
            n == awaited(caches.entries@, i as int),
            n <= i * usize::MAX,
        decreases caches.entries.len() - i,
    {
        proof {
            lemma_sum_fits(i as int);
        }
        n = n + caches.entries[i].value.in_flight_len() as u128;
        i = i + 1;
    }
    n
}

proof fn lemma_sum_fits(i: int)
    requires
        0 <= i < usize::MAX,
    ensures
        i * usize::MAX + usize::MAX <= u128::MAX,
        (i + 1) * usize::MAX == i * usize::MAX + usize::MAX,
{
    assert((i + 1) * usize::MAX == i * usize::MAX + usize::MAX) by (nonlinear_arith);
    assert((i + 1) * usize::MAX <= 0xffff_ffff_ffff_ffff * 0xffff_ffff_ffff_ffff)
        by (nonlinear_arith)
        requires
            0 <= i + 1 <= 0xffff_ffff_ffff_ffff,
            0 <= usize::MAX <= 0xffff_ffff_ffff_ffff,
    ;
}

/// Sizes of the collections outside of the render cache that grow with windows,
/// surfaces, clients or outputs.
#[derive(Clone, Copy, Debug, Default, PartialEq, Eq, Structural)]
pub struct StateCounts {
    pub stage_entries: usize,
    pub stage_focus_history: usize,
    pub stage_fullscreen: usize,
    pub stage_pinned: usize,
    pub decorations: usize,
    pub pending_ssd: usize,
    pub pending_center: usize,
    pub pending_size: usize,
    pub pending_fit: usize,
    pub pending_fullscreen: usize,
    pub auto_anchor_snapshot: usize,
    pub pending_recenter: usize,
    pub stable_snap_rects: usize,
    pub pending_adopt_settle: usize,
    pub pending_resizes: usize,
    pub suspend_marks: usize,
    pub real_close_marks: usize,
    pub window_animations: usize,
    pub closing_snapshots: usize,
    pub standin_fades: usize,
    pub close_pixels: usize,
    pub resize_captures: usize,
    pub resize_crossfades: usize,
    pub unmap_snapshots: usize,
    pub pending_relaunches: usize,
    pub pending_adoptions: usize,
    pub deferred_adoptions: usize,
    pub idle_inhibiting_surfaces: usize,
    pub canvas_layers: usize,
    pub lock_surfaces: usize,
    pub pending_screencopies: usize,
    pub pending_captures: usize,
    pub ipc_subscribers: usize,
    pub virtual_kb_bindings: usize,
    pub state_file_cameras: usize,
    pub disconnected_outputs: usize,
    pub pending_mode_changes: usize,
}

/// Caches among the first `n` that have chunks still to be drawn.
pub open spec fn baking<T>(caches: Seq<Named<ShaderChunks<T>>>, n: int) -> int
    decreases n,
{
    if n <= 0 {
        0
    } else {
        baking(caches, n - 1) + if caches[n - 1].value.pending_bakes > 0 {
            1int
        } else {
            0
        }
    }
}

fn baking_caches<T>(caches: &NamedMap<ShaderChunks<T>>) -> (n: u128)
    ensures
        n == baking(caches.entries@, caches.entries@.len() as int),
{
    let mut n: u128 = 0;
    let mut i: usize = 0;
    while i < caches.entries.len()
        invariant
            i <= caches.entries@.len(),
            n == baking(caches.entries@, i as int),
            n <= i,
        decreases caches.entries.len() - i,
    {
        if caches.entries[i].value.has_pending_bakes() {
            n = n + 1;
        }
        i = i + 1;
    }
    n
}

impl<T, B, E, P, D> RenderCache<T, B, E, P, D> {
    /// Every counter, in the order of the names.
    pub open spec fn counters(self, counts: StateCounts) -> Seq<(Seq<char>, int)> {
        seq![
            ("auto_anchor_snapshot"@, counts.auto_anchor_snapshot as int),
            ("background_last_animate"@, self.background_last_animate.entries@.len() as int),
            (
                "bg_chunk_loads_in_flight"@,
                awaited(
                    self.cached_tile_chunks.entries@,
                    self.cached_tile_chunks.entries@.len() as int,
                ),
            ),
            ("blur_cache"@, self.blur_cache@.len() as int),
            (
                "blur_scratch"@,
                pooled(self.blur_scratch.entries@, self.blur_scratch.entries@.len() as int),
            ),
            ("border_cache"@, self.border_cache@.len() as int),
            ("cached_bg"@, self.cached_bg.entries@.len() as int),
            ("cached_error_bar"@, self.cached_error_bar.entries@.len() as int),
            ("cached_outlines"@, self.cached_outlines.entries@.len() as int),
            ("cached_shader_chunks"@, self.cached_shader_chunks.entries@.len() as int),
            ("cached_tile_chunks"@, self.cached_tile_chunks.entries@.len() as int),
            ("canvas_layers"@, counts.canvas_layers as int),
            ("capture_state"@, self.capture_state.entries@.len() as int),
            ("close_pixels"@, counts.close_pixels as int),
            ("closing_snapshots"@, counts.closing_snapshots as int),
            ("decorations"@, counts.decorations as int),
            ("deferred_adoptions"@, counts.deferred_adoptions as int),
            ("disconnected_outputs"@, counts.disconnected_outputs as int),
            ("idle_inhibiting_surfaces"@, counts.idle_inhibiting_surfaces as int),
            ("ipc_subscribers"@, counts.ipc_subscribers as int),
            ("lock_surfaces"@, counts.lock_surfaces as int),
            ("pending_adopt_settle"@, counts.pending_adopt_settle as int),
            ("pending_adoptions"@, counts.pending_adoptions as int),
            ("pending_captures"@, counts.pending_captures as int),
            ("pending_center"@, counts.pending_center as int),
            ("pending_fit"@, counts.pending_fit as int),
            ("pending_fullscreen"@, counts.pending_fullscreen as int),
            ("pending_mode_changes"@, counts.pending_mode_changes as int),
            ("pending_recenter"@, counts.pending_recenter as int),
            ("pending_relaunches"@, counts.pending_relaunches as int),
            ("pending_resizes"@, counts.pending_resizes as int),
            ("pending_screencopies"@, counts.pending_screencopies as int),
            ("pending_size"@, counts.pending_size as int),
            ("pending_ssd"@, counts.pending_ssd as int),
            ("real_close_marks"@, counts.real_close_marks as int),
            ("resize_captures"@, counts.resize_captures as int),
            ("resize_crossfades"@, counts.resize_crossfades as int),
            (
                "shader_chunk_caches_pending"@,
                baking(
                    self.cached_shader_chunks.entries@,
                    self.cached_shader_chunks.entries@.len() as int,
                ),
            ),
            ("shadow_cache"@, self.shadow_cache@.len() as int),
            ("shared_blur"@, self.shared_blur.entries@.len() as int),
            ("stable_snap_rects"@, counts.stable_snap_rects as int),
            ("stage_entries"@, counts.stage_entries as int),
            ("stage_focus_history"@, counts.stage_focus_history as int),
            ("stage_fullscreen"@, counts.stage_fullscreen as int),
            ("stage_pinned"@, counts.stage_pinned as int),
            ("standin_fades"@, counts.standin_fades as int),
            ("state_file_cameras"@, counts.state_file_cameras as int),
            ("suspend_marks"@, counts.suspend_marks as int),
            ("unmap_snapshots"@, counts.unmap_snapshots as int),
            ("virtual_kb_bindings"@, counts.virtual_kb_bindings as int),
            ("window_animations"@, counts.window_animations as int),
        ]
    }

    /// How much is kept here and elsewhere, so that what grows and never shrinks
    /// is seen.
    pub fn debug_counters(&self, counts: &StateCounts) -> (counters: Vec<Counter>)
        ensures
            counter_views(counters@) == self.counters(*counts),
    {
        let mut c: Vec<Counter> = Vec::new();
        push_counter(&mut c, "auto_anchor_snapshot", counts.auto_anchor_snapshot as u128);
        push_counter(&mut c, "background_last_animate", self.background_last_animate.len() as u128);
        push_counter(&mut c, "bg_chunk_loads_in_flight", awaited_chunks(&self.cached_tile_chunks));
        push_counter(&mut c, "blur_cache", self.blur_cache.len() as u128);
        push_counter(&mut c, "blur_scratch", pooled_textures(&self.blur_scratch));
        push_counter(&mut c, "border_cache", self.border_cache.len() as u128);
        push_counter(&mut c, "cached_bg", self.cached_bg.len() as u128);
        push_counter(&mut c, "cached_error_bar", self.cached_error_bar.len() as u128);
        push_counter(&mut c, "cached_outlines", self.cached_outlines.len() as u128);
        push_counter(&mut c, "cached_shader_chunks", self.cached_shader_chunks.len() as u128);
        push_counter(&mut c, "cached_tile_chunks", self.cached_tile_chunks.len() as u128);
        push_counter(&mut c, "canvas_layers", counts.canvas_layers as u128);
        push_counter(&mut c, "capture_state", self.capture_state.len() as u128);
        push_counter(&mut c, "close_pixels", counts.close_pixels as u128);
        push_counter(&mut c, "closing_snapshots", counts.closing_snapshots as u128);
        push_counter(&mut c, "decorations", counts.decorations as u128);
        push_counter(&mut c, "deferred_adoptions", counts.deferred_adoptions as u128);
        push_counter(&mut c, "disconnected_outputs", counts.disconnected_outputs as u128);
        push_counter(&mut c, "idle_inhibiting_surfaces", counts.idle_inhibiting_surfaces as u128);
        push_counter(&mut c, "ipc_subscribers", counts.ipc_subscribers as u128);
        push_counter(&mut c, "lock_surfaces", counts.lock_surfaces as u128);
        push_counter(&mut c, "pending_adopt_settle", counts.pending_adopt_settle as u128);
        push_counter(&mut c, "pending_adoptions", counts.pending_adoptions as u128);
        push_counter(&mut c, "pending_captures", counts.pending_captures as u128);
        push_counter(&mut c, "pending_center", counts.pending_center as u128);
        push_counter(&mut c, "pending_fit", counts.pending_fit as u128);
        push_counter(&mut c, "pending_fullscreen", counts.pending_fullscreen as u128);
        push_counter(&mut c, "pending_mode_changes", counts.pending_mode_changes as u128);
        push_counter(&mut c, "pending_recenter", counts.pending_recenter as u128);
        push_counter(&mut c, "pending_relaunches", counts.pending_relaunches as u128);
        push_counter(&mut c, "pending_resizes", counts.pending_resizes as u128);
        push_counter(&mut c, "pending_screencopies", counts.pending_screencopies as u128);
        push_counter(&mut c, "pending_size", counts.pending_size as u128);
        push_counter(&mut c, "pending_ssd", counts.pending_ssd as u128);
        push_counter(&mut c, "real_close_marks", counts.real_close_marks as u128);
        push_counter(&mut c, "resize_captures", counts.resize_captures as u128);
        push_counter(&mut c, "resize_crossfades", counts.resize_crossfades as u128);
        push_counter(
            &mut c,
            "shader_chunk_caches_pending",
            baking_caches(&self.cached_shader_chunks),
        );
        push_counter(&mut c, "shadow_cache", self.shadow_cache.len() as u128);
        push_counter(&mut c, "shared_blur", self.shared_blur.len() as u128);
        push_counter(&mut c, "stable_snap_rects", counts.stable_snap_rects as u128);
        push_counter(&mut c, "stage_entries", counts.stage_entries as u128);
        push_counter(&mut c, "stage_focus_history", counts.stage_focus_history as u128);
        push_counter(&mut c, "stage_fullscreen", counts.stage_fullscreen as u128);
        push_counter(&mut c, "stage_pinned", counts.stage_pinned as u128);
        push_counter(&mut c, "standin_fades", counts.standin_fades as u128);
        push_counter(&mut c, "state_file_cameras", counts.state_file_cameras as u128);
        push_counter(&mut c, "suspend_marks", counts.suspend_marks as u128);
        push_counter(&mut c, "unmap_snapshots", counts.unmap_snapshots as u128);
        push_counter(&mut c, "virtual_kb_bindings", counts.virtual_kb_bindings as u128);
        push_counter(&mut c, "window_animations", counts.window_animations as u128);
        assert(counter_views(c@) =~= self.counters(*counts));
        c
    }
}

/// Pruning an output drops its blurs of windows that are no longer blurred there,
/// and no other.
pub proof fn law_pruning_drops_what_is_no_longer_blurred<T>(
    blurs: Seq<BlurEntry<T>>,
    name: Seq<char>,
    live: Seq<u64>,
    b: BlurEntry<T>,
)
    ensures
        blurs_pruned(blurs, name, live).contains(b) <==> blurs.contains(b) && !(b.output@ == name
            && !live.contains(b.surface)),
    decreases blurs.len(),
{
    reveal(Seq::filter);
    let kept = blurs_pruned(blurs, name, live);
    if blurs.len() > 0 {
        let init = blurs.drop_last();
        law_pruning_drops_what_is_no_longer_blurred(init, name, live, b);
        lemma_one_more(init, blurs.last(), b);
        lemma_one_more(blurs_pruned(init, name, live), blurs.last(), b);
        assert(blurs =~= init.push(blurs.last()));
    }
}

/// An output that goes takes its own blurs with it, and no other.
pub proof fn law_output_takes_its_blurs<T>(
    blurs: Seq<BlurEntry<T>>,
    name: Seq<char>,
    b: BlurEntry<T>,
)
    ensures
        blurs_elsewhere(blurs, name).contains(b) <==> blurs.contains(b) && b.output@ != name,
    decreases blurs.len(),
{
    reveal(Seq::filter);
    if blurs.len() > 0 {
        let init = blurs.drop_last();
        law_output_takes_its_blurs(init, name, b);
        lemma_one_more(init, blurs.last(), b);
        lemma_one_more(blurs_elsewhere(init, name), blurs.last(), b);
        assert(blurs =~= init.push(blurs.last()));
    }
}

proof fn lemma_one_more<A>(s: Seq<A>, last: A, a: A)
    ensures
        s.push(last).contains(a) <==> s.contains(a) || a == last,
{
    let all = s.push(last);
    if s.contains(a) {
        let k = choose|k: int| 0 <= k < s.len() && s[k] == a;
        assert(all[k] == a);
    }
    if a == last {
        assert(all[s.len() as int] == a);
    }
    if all.contains(a) {
        let k = choose|k: int| 0 <= k < all.len() && all[k] == a;
        if k < s.len() {
            assert(s[k] == a);
        }
    }
}

/// Counts of pooled textures and of awaited chunks go over all outputs: taking in
/// one more adds its own.
pub proof fn law_counts_go_over_all_outputs<T>(
    pools: Seq<Named<ScratchPool<T>>>,
    caches: Seq<Named<BgChunkCache<T>>>,
    i: int,
)
    ensures
        0 <= i < pools.len() ==> pooled(pools, i + 1) == pooled(pools, i)
            + pools[i].value.entries@.len(),
        0 <= i < caches.len() ==> awaited(caches, i + 1) == awaited(caches, i)
            + caches[i].value.in_flight@.len(),
        pooled(pools, 0) == 0,
        awaited(caches, 0) == 0,
{
}

/// An output takes its capture states with it, whatever was captured; a state whose
/// key ends otherwise stays as it was.
pub proof fn law_output_takes_its_captures<T>(
    after: Map<Seq<char>, CaptureOutputState<T>>,
    before: Map<Seq<char>, CaptureOutputState<T>>,
    name: Seq<char>,
    what: Seq<char>,
    other: Seq<char>,
)
    requires
        captures_elsewhere(after, before, name),
    ensures
        !after.dom().contains(what + seq![':'] + name),
        before.dom().contains(other) && (forall|k: Seq<char>| #[trigger]
            (k + (seq![':'] + name)) != other) ==> after.dom().contains(other) && after[other]
            == before[other],
        after.dom().contains(other) ==> before.dom().contains(other) && after[other]
            == before[other],
{
    let suffix = seq![':'] + name;
    let key = what + seq![':'] + name;
    assert(key.subrange(key.len() - suffix.len(), key.len() as int) =~= suffix);
    if before.dom().contains(other) && ends_with(other, suffix) {
        let k = other.subrange(0, other.len() - suffix.len());
        assert(k + suffix =~= other);
    }
}

/// Shrinking an output's background frees its chunks, counts nothing as held and
/// waits for nothing, but keeps what it takes to draw the background again. Other
/// outputs are not touched.
pub proof fn law_shrinking_frees_one_output<T>(
    before: Map<Seq<char>, BgChunkCache<T>>,
    after: Map<Seq<char>, BgChunkCache<T>>,
    name: Seq<char>,
    other: Seq<char>,
)
    requires
        tiles_shrunk(before, after, name),
    ensures
        after.dom() == before.dom(),
        other != name && before.dom().contains(other) ==> after[other] == before[other],
        before.dom().contains(name) ==> {
            let cache = after[name];
            &&& cache.chunks.entries@.len() == 0
            &&& cache.in_flight@.len() == 0
            &&& cache.vram_bytes == 0
            &&& cache.pyramid == before[name].pyramid
            &&& cache.failed == before[name].failed
            &&& cache.frame_counter == before[name].frame_counter
        },
{
    assert(after.dom() =~= before.dom());
}

/// The same of a background shader: its cover plane stays.
pub proof fn law_shrinking_keeps_the_cover<T>(
    before: Map<Seq<char>, ShaderChunks<T>>,
    after: Map<Seq<char>, ShaderChunks<T>>,
    name: Seq<char>,
    other: Seq<char>,
)
    requires
        shaders_shrunk(before, after, name),
    ensures
        after.dom() == before.dom(),
        other != name && before.dom().contains(other) ==> after[other] == before[other],
        before.dom().contains(name) ==> after[name].chunks@.len() == 0
            && after[name].pending_bakes == 0 && after[name].cover == before[name].cover,
{
    assert(after.dom() =~= before.dom());
}

/// A window's blur is drawn exactly if it has one on the output that holds
/// something.
pub proof fn law_blur_is_shown_if_it_holds_something<T>(
    blurs: Seq<BlurEntry<T>>,
    output: Seq<char>,
    surface: u64,
    k: int,
)
    requires
        distinct_blurs(blurs),
        0 <= k < blurs.len(),
        blurs[k].output@ == output,
        blurs[k].surface == surface,
    ensures
        shows_blur(blurs, output, surface) <==> !blurs[k].cache.zeroed,
{
    if shows_blur(blurs, output, surface) {
        let j = choose|j: int|
            0 <= j < blurs.len() && (#[trigger] blurs[j]).is_of(output, surface)
                && !blurs[j].cache.zeroed;
        if j < k {
            assert(!blurs[j].is_of(blurs[k].output@, blurs[k].surface));
        } else if k < j {
            assert(!blurs[k].is_of(blurs[j].output@, blurs[j].surface));
        }
    } else {
        assert(blurs[k].is_of(output, surface));
    }
}

/// Caches are counted that have a chunk still to be drawn, each once.
pub proof fn law_baking_counts_caches_with_work<T>(
    caches: Seq<Named<ShaderChunks<T>>>,
    i: int,
)
    requires
        0 <= i < caches.len(),
    ensures
        baking(caches, 0) == 0,
        caches[i].value.pending_bakes > 0 ==> baking(caches, i + 1) == baking(caches, i) + 1,
        caches[i].value.pending_bakes == 0 ==> baking(caches, i + 1) == baking(caches, i),
{
}

/// What is held is counted under its name: as many as there are, of textures and
/// awaited chunks over all outputs.
pub proof fn law_what_is_held_is_counted<T, B, E, P, D>(
    cache: RenderCache<T, B, E, P, D>,
    counts: StateCounts,
)
    ensures
        ({
            let all = cache.counters(counts);
            &&& all.contains(("blur_cache"@, cache.blur_cache@.len() as int))
            &&& all.contains(("border_cache"@, cache.border_cache@.len() as int))
            &&& all.contains(("shadow_cache"@, cache.shadow_cache@.len() as int))
            &&& all.contains(("cached_bg"@, cache.cached_bg.entries@.len() as int))
            &&& all.contains(("capture_state"@, cache.capture_state.entries@.len() as int))
            &&& all.contains(("shared_blur"@, cache.shared_blur.entries@.len() as int))
            &&& all.contains(("cached_outlines"@, cache.cached_outlines.entries@.len() as int))
            &&& all.contains(("cached_error_bar"@, cache.cached_error_bar.entries@.len() as int))
            &&& all.contains(
                ("cached_tile_chunks"@, cache.cached_tile_chunks.entries@.len() as int),
            )
            &&& all.contains(
                ("cached_shader_chunks"@, cache.cached_shader_chunks.entries@.len() as int),
            )
            &&& all.contains(
                (
                    "blur_scratch"@,
                    pooled(cache.blur_scratch.entries@, cache.blur_scratch.entries@.len() as int),
                ),
            )
            &&& all.contains(
                (
                    "bg_chunk_loads_in_flight"@,
                    awaited(
                        cache.cached_tile_chunks.entries@,
                        cache.cached_tile_chunks.entries@.len() as int,
                    ),
                ),
            )
        }),
{
    let all = cache.counters(counts);
    assert(all.len() == 51);
    assert forall|i: int| 0 <= i < 51 implies all.contains(#[trigger] all[i]) by {}
    assert(all[2].0 == "bg_chunk_loads_in_flight"@);
    assert(all[3].0 == "blur_cache"@);
    assert(all[4].0 == "blur_scratch"@);
    assert(all[5].0 == "border_cache"@);
    assert(all[6].0 == "cached_bg"@);
    assert(all[7].0 == "cached_error_bar"@);
    assert(all[8].0 == "cached_outlines"@);
    assert(all[9].0 == "cached_shader_chunks"@);
    assert(all[10].0 == "cached_tile_chunks"@);
    assert(all[12].0 == "capture_state"@);
    assert(all[38].0 == "shadow_cache"@);
    assert(all[39].0 == "shared_blur"@);
}

} // verus!
