//! The table of cached chunks, and its eviction by age.

use vstd::prelude::*;

verus! {

/// A chunk of a level.
#[derive(Clone, Copy, Debug, PartialEq, Eq, Hash, Structural)]
pub struct ChunkKey {
    pub lod: u32,
    pub cx: i32,
    pub cy: i32,
}

/// What a cached chunk costs and when it was last needed.
#[derive(Clone, Copy, Debug, PartialEq, Eq, Structural)]
pub struct ChunkMeta {
    pub bytes: u64,
    pub last_touched_frame: u64,
}

/// A cached chunk.
pub struct CachedChunk<T> {
    pub key: ChunkKey,
    pub meta: ChunkMeta,
    pub texture: T,
}

/// The cached chunks. No chunk is cached twice.
pub struct ChunkTable<T> {
    pub entries: Vec<CachedChunk<T>>,
}

pub open spec fn keys_distinct<T>(entries: Seq<CachedChunk<T>>) -> bool {
    forall|i: int, j: int|
        0 <= i < j < entries.len() ==> (#[trigger] entries[i]).key != (#[trigger] entries[j]).key
}

pub open spec fn holds<T>(entries: Seq<CachedChunk<T>>, key: ChunkKey) -> bool {
    exists|i: int| 0 <= i < entries.len() && (#[trigger] entries[i]).key == key
}

/// The entry untouched for longest; the first of several.
pub open spec fn oldest<T>(entries: Seq<CachedChunk<T>>) -> int
    decreases entries.len(),
{
    if entries.len() <= 1 {
        0
    } else {
        let k = oldest(entries.drop_last());
        if entries.last().meta.last_touched_frame < entries[k].meta.last_touched_frame {
            entries.len() - 1
        } else {
            k
        }
    }
}

/// `a - b`, or 0 where that is negative.
pub open spec fn minus(a: int, b: int) -> int {
    if a >= b {
        a - b
    } else {
        0
    }
}

/// The keys of the entries that are given up, oldest first, until the count of
/// bytes is within the budget.
pub open spec fn evicted_keys<T>(
    entries: Seq<CachedChunk<T>>,
    vram: int,
    budget: int,
) -> Seq<ChunkKey>
    decreases entries.len(),
{
    if vram <= budget || entries.len() == 0 || !(0 <= oldest(entries) < entries.len()) {
        Seq::empty()
    } else {
        let k = oldest(entries);
        seq![entries[k].key] + evicted_keys(
            entries.remove(k),
            minus(vram, entries[k].meta.bytes as int),
            budget,
        )
    }
}

/// What is left after that.
pub open spec fn kept_entries<T>(
    entries: Seq<CachedChunk<T>>,
    vram: int,
    budget: int,
) -> Seq<CachedChunk<T>>
    decreases entries.len(),
{
    if vram <= budget || entries.len() == 0 || !(0 <= oldest(entries) < entries.len()) {
        entries
    } else {
        let k = oldest(entries);
        kept_entries(entries.remove(k), minus(vram, entries[k].meta.bytes as int), budget)
    }
}

/// The count of bytes after that.
pub open spec fn kept_bytes<T>(entries: Seq<CachedChunk<T>>, vram: int, budget: int) -> int
    decreases entries.len(),
{
    if vram <= budget || entries.len() == 0 || !(0 <= oldest(entries) < entries.len()) {
        vram
    } else {
        let k = oldest(entries);
        kept_bytes(entries.remove(k), minus(vram, entries[k].meta.bytes as int), budget)
    }
}

/// Bytes of all entries.
pub open spec fn total_bytes<T>(entries: Seq<CachedChunk<T>>) -> int
    decreases entries.len(),
{
    if entries.len() == 0 {
        0
    } else {
        total_bytes(entries.drop_last()) + entries.last().meta.bytes
    }
}

proof fn lemma_oldest<T>(entries: Seq<CachedChunk<T>>)
    requires
        entries.len() > 0,
    ensures
        0 <= oldest(entries) < entries.len(),
        forall|k: int|
            0 <= k < entries.len() ==> (#[trigger] entries[k]).meta.last_touched_frame
                >= entries[oldest(entries)].meta.last_touched_frame,
    decreases entries.len(),
{
    if entries.len() > 1 {
        let init = entries.drop_last();
        lemma_oldest(init);
        assert forall|k: int| 0 <= k < entries.len() implies (
        #[trigger] entries[k]).meta.last_touched_frame >= entries[oldest(
            entries,
        )].meta.last_touched_frame by {
            if k < init.len() {
                assert(init[k] == entries[k]);
            }
        }
    }
}

proof fn lemma_total_remove<T>(entries: Seq<CachedChunk<T>>, k: int)
    requires
        0 <= k < entries.len(),
    ensures
        total_bytes(entries.remove(k)) == total_bytes(entries) - entries[k].meta.bytes,
        total_bytes(entries.remove(k)) >= 0,
    decreases entries.len(),
{
    let init = entries.drop_last();
    if k == entries.len() - 1 {
        assert(entries.remove(k) =~= init);
        lemma_total_nonneg(init);
    } else {
        lemma_total_remove(init, k);
        assert(entries.remove(k).drop_last() =~= init.remove(k));
        assert(entries.remove(k).last() == entries.last());
    }
}

pub(crate) proof fn lemma_total_nonneg<T>(entries: Seq<CachedChunk<T>>)
    ensures
        total_bytes(entries) >= 0,
    decreases entries.len(),
{
    if entries.len() > 0 {
        lemma_total_nonneg(entries.drop_last());
    }
}

impl<T> ChunkTable<T> {
    pub open spec fn wf(self) -> bool {
        keys_distinct(self.entries@)
    }

    pub fn new() -> (t: ChunkTable<T>)
        ensures
            t.entries@.len() == 0,
            t.wf(),
    {
        ChunkTable { entries: Vec::new() }
    }

    /// How many chunks are cached.
    pub fn len(&self) -> (n: usize)
        ensures
            n == self.entries@.len(),
    {
        self.entries.len()
    }

    /// Where a chunk is cached.
    pub fn position(&self, key: ChunkKey) -> (at: Option<usize>)
        ensures
            match at {
                Some(i) => i < self.entries@.len() && self.entries@[i as int].key == key,
                None => !holds(self.entries@, key),
            },
    {
        let mut i: usize = 0;
        while i < self.entries.len()
            invariant
                i <= self.entries.len(),
                forall|k: int| 0 <= k < i ==> (#[trigger] self.entries@[k]).key != key,
            decreases self.entries.len() - i,
        {
            if self.entries[i].key == key {
                return Some(i);
            }
            i = i + 1;
        }
        None
    }

    /// Whether a chunk is cached.
    pub fn contains_key(&self, key: ChunkKey) -> (cached: bool)
        ensures
            cached == holds(self.entries@, key),
    {
        match self.position(key) {
            Some(i) => {
                assert(self.entries@[i as int].key == key);
                true
            },
            None => false,
        }
    }

    /// Caches a chunk, in place of what was cached for its key.
    pub fn insert(&mut self, key: ChunkKey, meta: ChunkMeta, texture: T)
        requires
            old(self).wf(),
        ensures
            final(self).wf(),
            holds(final(self).entries@, key),
            !holds(old(self).entries@, key) ==> final(self).entries@ == old(self).entries@.push(
                CachedChunk { key, meta, texture },
            ),
            forall|i: int|
                0 <= i < old(self).entries@.len() && (#[trigger] old(self).entries@[i]).key == key
                    ==> final(self).entries@ == old(self).entries@.update(
                    i,
                    CachedChunk { key, meta, texture },
                ),
    {
        match self.position(key) {
            Some(i) => {
                self.entries.set(i, CachedChunk { key, meta, texture });
                assert(self.entries@[i as int].key == key);
            },
            None => {
                self.entries.push(CachedChunk { key, meta, texture });
                assert(self.entries@.last().key == key);
            },
        }
    }
}

/// Gives up the chunks untouched for longest until `vram_bytes` is within
/// `budget`, and returns their keys, oldest first.
pub fn evict_lru_to_budget<T>(
    meta: &mut ChunkTable<T>,
    vram_bytes: &mut u64,
    budget: u64,
) -> (evicted: Vec<ChunkKey>)
    ensures
        evicted@ == evicted_keys(old(meta).entries@, *old(vram_bytes) as int, budget as int),
        final(meta).entries@ == kept_entries(
            old(meta).entries@,
            *old(vram_bytes) as int,
            budget as int,
        ),
        *final(vram_bytes) == kept_bytes(
            old(meta).entries@,
            *old(vram_bytes) as int,
            budget as int,
        ),
        old(meta).wf() ==> final(meta).wf(),
{
    let mut evicted: Vec<ChunkKey> = Vec::new();
    let ghost all = meta.entries@;
    let ghost start = *vram_bytes as int;
    while *vram_bytes > budget && meta.entries.len() > 0
        invariant
            evicted@ + evicted_keys(meta.entries@, *vram_bytes as int, budget as int)
                =~= evicted_keys(all, start, budget as int),
            kept_entries(meta.entries@, *vram_bytes as int, budget as int) == kept_entries(
                all,
                start,
                budget as int,
            ),
            kept_bytes(meta.entries@, *vram_bytes as int, budget as int) == kept_bytes(
                all,
                start,
                budget as int,
            ),
            keys_distinct(all) ==> keys_distinct(meta.entries@),
        decreases meta.entries.len(),
    {
        let mut at: usize = 0;
        let mut i: usize = 1;
        while i < meta.entries.len()
            invariant
                1 <= i <= meta.entries.len(),
                at < i,
                at == oldest(meta.entries@.subrange(0, i as int)),
            decreases meta.entries.len() - i,
        {
            proof {
                assert(meta.entries@.subrange(0, i + 1).drop_last() =~= meta.entries@.subrange(
                    0,
                    i as int,
                ));
            }
            if meta.entries[i].meta.last_touched_frame
                < meta.entries[at].meta.last_touched_frame {
                at = i;
            }
            i = i + 1;
        }
        assert(meta.entries@.subrange(0, i as int) =~= meta.entries@);
        let gone = meta.entries.remove(at);
        *vram_bytes = vram_bytes.saturating_sub(gone.meta.bytes);
        evicted.push(gone.key);
    }
    evicted
}

/// Eviction ends within the budget, or with nothing left to give up.
pub proof fn law_eviction_reaches_the_budget<T>(
    entries: Seq<CachedChunk<T>>,
    vram: int,
    budget: int,
)
    ensures
        kept_bytes(entries, vram, budget) <= budget || kept_entries(
            entries,
            vram,
            budget,
        ).len() == 0,
        evicted_keys(entries, vram, budget).len() + kept_entries(entries, vram, budget).len()
            == entries.len(),
    decreases entries.len(),
{
    if vram > budget && entries.len() > 0 {
        let k = oldest(entries);
        lemma_oldest(entries);
        law_eviction_reaches_the_budget(
            entries.remove(k),
            minus(vram, entries[k].meta.bytes as int),
            budget,
        );
    }
}

/// Nothing is evicted within the budget.
pub proof fn law_no_eviction_within_budget<T>(
    entries: Seq<CachedChunk<T>>,
    vram: int,
    budget: int,
)
    requires
        vram <= budget,
    ensures
        evicted_keys(entries, vram, budget).len() == 0,
        kept_entries(entries, vram, budget) == entries,
        kept_bytes(entries, vram, budget) == vram,
{
}

/// Where the count of bytes is the sum over the table, it stays so.
pub proof fn law_eviction_keeps_the_account<T>(
    entries: Seq<CachedChunk<T>>,
    budget: int,
)
    ensures
        kept_bytes(entries, total_bytes(entries), budget) == total_bytes(
            kept_entries(entries, total_bytes(entries), budget),
        ),
    decreases entries.len(),
{
    let vram = total_bytes(entries);
    if vram > budget && entries.len() > 0 {
        let k = oldest(entries);
        lemma_oldest(entries);
        lemma_total_remove(entries, k);
        law_eviction_keeps_the_account(entries.remove(k), budget);
    }
}

/// What is kept was touched no earlier than anything that went.
pub proof fn law_eviction_takes_oldest_first<T>(
    entries: Seq<CachedChunk<T>>,
    vram: int,
    budget: int,
    k: int,
    s: int,
)
    requires
        keys_distinct(entries),
        0 <= k < entries.len(),
        evicted_keys(entries, vram, budget).contains(entries[k].key),
        0 <= s < kept_entries(entries, vram, budget).len(),
    ensures
        entries[k].meta.last_touched_frame <= kept_entries(
            entries,
            vram,
            budget,
        )[s].meta.last_touched_frame,
    decreases entries.len(),
{
    if vram > budget && entries.len() > 0 {
        let gone = oldest(entries);
        lemma_oldest(entries);
        let rest = entries.remove(gone);
        let less = minus(vram, entries[gone].meta.bytes as int);
        lemma_kept_is_part(rest, less, budget);
        let kept = kept_entries(rest, less, budget);
        let at = choose|j: int| 0 <= j < rest.len() && rest[j] == kept[s];
        assert(kept.contains(kept[s]));
        assert(rest[at] == if at < gone {
            entries[at]
        } else {
            entries[at + 1]
        });
        if k != gone {
            let keys = evicted_keys(rest, less, budget);
            let all = evicted_keys(entries, vram, budget);
            let e = choose|e: int| 0 <= e < all.len() && all[e] == entries[k].key;
            assert(all =~= seq![entries[gone].key] + keys);
            if e == 0 {
                assert(entries[gone].key == entries[k].key);
            } else {
                assert(keys[e - 1] == entries[k].key);
            }
            assert(keys.contains(entries[k].key));
            assert(keys_distinct(rest)) by {
                assert forall|i: int, j: int| 0 <= i < j < rest.len() implies (
                #[trigger] rest[i]).key != (#[trigger] rest[j]).key by {
                    let a = if i < gone {
                        i
                    } else {
                        i + 1
                    };
                    let b = if j < gone {
                        j
                    } else {
                        j + 1
                    };
                    assert(entries[a].key != entries[b].key);
                }
            }
            let k2 = if k < gone {
                k
            } else {
                k - 1
            };
            assert(rest[k2] == entries[k]);
            law_eviction_takes_oldest_first(rest, less, budget, k2, s);
        }
    }
}

pub(crate) proof fn lemma_kept_is_part<T>(entries: Seq<CachedChunk<T>>, vram: int, budget: int)
    ensures
        forall|e: CachedChunk<T>| #[trigger]
            kept_entries(entries, vram, budget).contains(e) ==> entries.contains(e),
    decreases entries.len(),
{
    if vram > budget && entries.len() > 0 {
        let gone = oldest(entries);
        lemma_oldest(entries);
        let rest = entries.remove(gone);
        let less = minus(vram, entries[gone].meta.bytes as int);
        lemma_kept_is_part(rest, less, budget);
        assert forall|e: CachedChunk<T>| #[trigger]
            kept_entries(entries, vram, budget).contains(e) implies entries.contains(e) by {
            assert(kept_entries(rest, less, budget).contains(e));
            let j = choose|j: int| 0 <= j < rest.len() && rest[j] == e;
            assert(entries[if j < gone {
                j
            } else {
                j + 1
            }] == e);
        }
    }
}

/// Over the budget, the chunk that was touched longest ago goes, the first of
/// several, its bytes are no longer counted, and the rest is treated in the same
/// way.
pub proof fn law_oldest_goes_first<T>(
    entries: Seq<CachedChunk<T>>,
    vram: int,
    budget: int,
    k: int,
)
    requires
        vram > budget,
        0 <= k < entries.len(),
        forall|j: int|
            0 <= j < entries.len() ==> (#[trigger] entries[j]).meta.last_touched_frame
                >= entries[k].meta.last_touched_frame && (j < k
                ==> entries[j].meta.last_touched_frame > entries[k].meta.last_touched_frame),
    ensures
        ({
            let rest = entries.remove(k);
            let left = if vram >= entries[k].meta.bytes {
                vram - entries[k].meta.bytes
            } else {
                0
            };
            &&& evicted_keys(entries, vram, budget) == seq![entries[k].key] + evicted_keys(
                rest,
                left,
                budget,
            )
            &&& kept_entries(entries, vram, budget) == kept_entries(rest, left, budget)
            &&& kept_bytes(entries, vram, budget) == kept_bytes(rest, left, budget)
        }),
{
    lemma_oldest(entries);
    lemma_first_of_the_oldest(entries);
    let o = oldest(entries);
    if k < o {
        assert(entries[k].meta.last_touched_frame > entries[o].meta.last_touched_frame);
    }
    assert(o == k) by {
        assert(entries[o].meta.last_touched_frame >= entries[k].meta.last_touched_frame);
        assert(entries[k].meta.last_touched_frame >= entries[o].meta.last_touched_frame);
    }
}

proof fn lemma_first_of_the_oldest<T>(entries: Seq<CachedChunk<T>>)
    requires
        entries.len() > 0,
    ensures
        forall|k: int|
            0 <= k < oldest(entries) ==> (#[trigger] entries[k]).meta.last_touched_frame
                > entries[oldest(entries)].meta.last_touched_frame,
    decreases entries.len(),
{
    if entries.len() > 1 {
        let init = entries.drop_last();
        lemma_first_of_the_oldest(init);
        lemma_oldest(init);
        assert forall|k: int| 0 <= k < oldest(entries) implies (
        #[trigger] entries[k]).meta.last_touched_frame
            > entries[oldest(entries)].meta.last_touched_frame by {
            assert(init[k] == entries[k]);
        }
    }
}

} // verus!
