//! A pool of scratch textures, keyed by extent and bounded in bytes.

use crate::geometry::{Size, max_i32, max_of};
use vstd::prelude::*;

verus! {

/// Frames a scratch texture survives without being asked for again.
pub const SCRATCH_KEEP_FRAMES: u32 = 60;

/// What the pool may hold, as a multiple of one output-sized texture.
pub const SCRATCH_BUDGET_OUTPUTS: u128 = 2;

/// A pooled texture.
pub struct ScratchEntry<T> {
    pub size: Size,
    pub texture: T,
    pub idle_frames: u32,
}

/// Per-output pool of the scratch textures that edge captures render into.
///
/// Keyed on the exact extent: a texture of any other size would move the
/// mirrored edge away from where the content ends.
pub struct ScratchPool<T> {
    pub entries: Vec<ScratchEntry<T>>,
}

/// Bytes of a texture at four bytes per pixel.
pub open spec fn bytes_of(size: Size) -> int {
    max_of(size.w as int, 0) * max_of(size.h as int, 0) * 4
}

/// Bytes of all entries together.
pub open spec fn bytes_held<T>(entries: Seq<ScratchEntry<T>>) -> int
    decreases entries.len(),
{
    if entries.len() == 0 {
        0
    } else {
        bytes_held(entries.drop_last()) + bytes_of(entries.last().size)
    }
}

/// `k` is the first entry of extent `size`.
pub open spec fn is_slot<T>(entries: Seq<ScratchEntry<T>>, size: Size, k: int) -> bool {
    &&& 0 <= k < entries.len()
    &&& entries[k].size == size
    &&& forall|j: int| 0 <= j < k ==> (#[trigger] entries[j]).size != size
}

/// The entry longest unused; the last of several.
pub open spec fn stalest<T>(entries: Seq<ScratchEntry<T>>) -> int
    decreases entries.len(),
{
    if entries.len() <= 1 {
        0
    } else {
        let k = stalest(entries.drop_last());
        if entries.last().idle_frames >= entries[k].idle_frames {
            entries.len() - 1
        } else {
            k
        }
    }
}

/// What is left once `wanted` more bytes fit within `budget`: entries are given
/// up one by one, the stalest first.
pub open spec fn room_made<T>(
    entries: Seq<ScratchEntry<T>>,
    wanted: int,
    budget: int,
) -> Seq<ScratchEntry<T>>
    decreases entries.len(),
{
    if entries.len() == 0 || bytes_held(entries) + wanted <= budget {
        entries
    } else if 0 <= stalest(entries) < entries.len() {
        room_made(entries.remove(stalest(entries)), wanted, budget)
    } else {
        entries
    }
}

/// An entry one idle frame later.
pub open spec fn aged<T>(e: ScratchEntry<T>) -> ScratchEntry<T> {
    ScratchEntry {
        size: e.size,
        texture: e.texture,
        idle_frames: if e.idle_frames == u32::MAX {
            u32::MAX
        } else {
            (e.idle_frames + 1) as u32
        },
    }
}

/// The entries that stay after a frame, in order.
pub open spec fn survivors<T>(entries: Seq<ScratchEntry<T>>) -> Seq<ScratchEntry<T>>
    decreases entries.len(),
{
    if entries.len() == 0 {
        Seq::empty()
    } else {
        let init = survivors(entries.drop_last());
        let last = aged(entries.last());
        if last.idle_frames <= SCRATCH_KEEP_FRAMES {
            init.push(last)
        } else {
            init
        }
    }
}

proof fn lemma_bytes_of(size: Size)
    ensures
        0 <= bytes_of(size) <= 0xffff_fffc_0000_0004,
{
    let w = max_of(size.w as int, 0);
    let h = max_of(size.h as int, 0);
    assert(0 <= w * h <= 0x7fff_ffff * 0x7fff_ffff) by (nonlinear_arith)
        requires
            0 <= w <= 0x7fff_ffff,
            0 <= h <= 0x7fff_ffff,
    ;
}

proof fn lemma_bytes_held<T>(entries: Seq<ScratchEntry<T>>)
    ensures
        0 <= bytes_held(entries) <= entries.len() * 0xffff_fffc_0000_0004,
    decreases entries.len(),
{
    if entries.len() > 0 {
        lemma_bytes_held(entries.drop_last());
        lemma_bytes_of(entries.last().size);
    }
}

proof fn lemma_bytes_held_fit<T>(entries: Seq<ScratchEntry<T>>, size: Size)
    requires
        entries.len() <= u64::MAX,
    ensures
        0 <= bytes_held(entries) <= u128::MAX,
        0 <= bytes_held(entries) + bytes_of(size) <= u128::MAX,
{
    lemma_bytes_held(entries);
    lemma_bytes_of(size);
    let n = entries.len() as int;
    assert(n * 0xffff_fffc_0000_0004 <= 0xffff_ffff_ffff_ffff * 0xffff_fffc_0000_0004)
        by (nonlinear_arith)
        requires
            0 <= n <= 0xffff_ffff_ffff_ffff,
    ;
}

proof fn lemma_stalest<T>(entries: Seq<ScratchEntry<T>>)
    requires
        entries.len() > 0,
    ensures
        0 <= stalest(entries) < entries.len(),
        forall|k: int|
            0 <= k < entries.len() ==> (#[trigger] entries[k]).idle_frames
                <= entries[stalest(entries)].idle_frames,
    decreases entries.len(),
{
    if entries.len() > 1 {
        let init = entries.drop_last();
        lemma_stalest(init);
        assert forall|k: int| 0 <= k < entries.len() implies (#[trigger] entries[k]).idle_frames
            <= entries[stalest(entries)].idle_frames by {
            if k < init.len() {
                assert(init[k] == entries[k]);
            }
        }
    }
}

/// Bytes of one texture.
pub fn scratch_bytes(size: Size) -> (bytes: u128)
    ensures
        bytes == bytes_of(size),
{
    let w: u128 = max_i32(size.w, 0) as u128;
    let h: u128 = max_i32(size.h, 0) as u128;
    proof {
        lemma_bytes_of(size);
        assert(0 <= w * h <= 0x7fff_ffff * 0x7fff_ffff) by (nonlinear_arith)
            requires
                0 <= w <= 0x7fff_ffff,
                0 <= h <= 0x7fff_ffff,
        ;
    }
    w * h * 4
}

impl<T> Default for ScratchPool<T> {
    fn default() -> (p: Self)
        ensures
            p.entries@.len() == 0,
    {
        ScratchPool { entries: Vec::new() }
    }
}

impl<T: Clone> ScratchPool<T> {
    /// The pooled texture for `size`, if there is one, marked as used.
    pub fn hit(&mut self, size: Size) -> (texture: Option<T>)
        ensures
            match texture {
                Some(t) => exists|k: int| #[trigger]
                    is_slot(old(self).entries@, size, k) && cloned(
                        old(self).entries@[k].texture,
                        t,
                    ) && final(self).entries@ == old(self).entries@.update(
                        k,
                        ScratchEntry { idle_frames: 0, ..old(self).entries@[k] },
                    ),
                None => final(self).entries@ == old(self).entries@ && forall|k: int|
                    0 <= k < old(self).entries@.len() ==> (#[trigger] old(self).entries@[k]).size
                        != size,
            },
    {
        let mut i: usize = 0;
        while i < self.entries.len()
            invariant
                i <= self.entries.len(),
                self.entries@ == old(self).entries@,
                forall|j: int| 0 <= j < i ==> (#[trigger] self.entries@[j]).size != size,
            decreases self.entries.len() - i,
        {
            if self.entries[i].size == size {
                self.entries[i].idle_frames = 0;
                let texture = self.entries[i].texture.clone();
                proof {
                    assert(is_slot(old(self).entries@, size, i as int));
                    assert(self.entries@ =~= old(self).entries@.update(
                        i as int,
                        ScratchEntry { idle_frames: 0, ..old(self).entries@[i as int] },
                    ));
                }
                return Some(texture);
            }
            i = i + 1;
        }
        None
    }

    /// Bytes of everything pooled.
    pub fn held_bytes(&self) -> (bytes: u128)
        ensures
            bytes == bytes_held(self.entries@),
    {
        let mut sum: u128 = 0;
        let mut i: usize = 0;
        while i < self.entries.len()
            invariant
                i <= self.entries.len(),
                sum == bytes_held(self.entries@.subrange(0, i as int)),
            decreases self.entries.len() - i,
        {
            proof {
                let next = self.entries@.subrange(0, i + 1);
                assert(next.drop_last() =~= self.entries@.subrange(0, i as int));
                lemma_bytes_held_fit(next, next.last().size);
            }
            sum = sum + scratch_bytes(self.entries[i].size);
            i = i + 1;
        }
        assert(self.entries@.subrange(0, i as int) =~= self.entries@);
        sum
    }

    /// How many textures are pooled.
    pub fn len(&self) -> (n: usize)
        ensures
            n == self.entries@.len(),
    {
        self.entries.len()
    }

    /// Drops the longest unused entries until one more texture of `size` fits
    /// inside `budget_bytes`. Called before the allocation, so the budget bounds
    /// what exists at any moment.
    pub fn make_room(&mut self, size: Size, budget_bytes: u128)
        ensures
            final(self).entries@ == room_made(
                old(self).entries@,
                bytes_of(size),
                budget_bytes as int,
            ),
    {
        let wanted: u128 = scratch_bytes(size);
        while self.entries.len() > 0
            invariant
                wanted == bytes_of(size),
                room_made(self.entries@, wanted as int, budget_bytes as int) == room_made(
                    old(self).entries@,
                    wanted as int,
                    budget_bytes as int,
                ),
            decreases self.entries.len(),
        {
            proof {
                lemma_bytes_held_fit(self.entries@, size);
            }
            if self.held_bytes() + wanted <= budget_bytes {
                return ;
            }
            let mut lru: usize = 0;
            let mut i: usize = 1;
            while i < self.entries.len()
                invariant
                    1 <= i <= self.entries.len(),
                    lru == stalest(self.entries@.subrange(0, i as int)),
                    lru < i,
                decreases self.entries.len() - i,
            {
                proof {
                    let next = self.entries@.subrange(0, i + 1);
                    assert(next.drop_last() =~= self.entries@.subrange(0, i as int));
                }
                if self.entries[i].idle_frames >= self.entries[lru].idle_frames {
                    lru = i;
                }
                i = i + 1;
            }
            assert(self.entries@.subrange(0, i as int) =~= self.entries@);
            self.entries.remove(lru);
        }
    }

    /// Takes a freshly created texture into the pool.
    pub fn store(&mut self, size: Size, texture: T)
        ensures
            final(self).entries@ == old(self).entries@.push(
                ScratchEntry { size, texture, idle_frames: 0 },
            ),
    {
        self.entries.push(ScratchEntry { size, texture, idle_frames: 0 });
    }

    /// Ages everything, and drops what has gone unused for too long.
    pub fn end_frame(&mut self)
        ensures
            final(self).entries@ == survivors(old(self).entries@),
    {
        let ghost all = self.entries@;
        let ghost mut done: int = 0;
        let mut i: usize = 0;
        assert(all.subrange(0, 0) =~= Seq::empty());
        while i < self.entries.len()
            invariant
                i <= self.entries.len(),
                0 <= done <= all.len(),
                i == survivors(all.subrange(0, done)).len(),
                self.entries@ =~= survivors(all.subrange(0, done)) + all.subrange(
                    done,
                    all.len() as int,
                ),
            decreases self.entries.len() - i,
        {
            let ghost kept = survivors(all.subrange(0, done));
            proof {
                let next = all.subrange(0, done + 1);
                assert(next.drop_last() =~= all.subrange(0, done));
                assert(next.last() == all[done]);
                assert(self.entries@[i as int] == all[done]);
            }
            let idle: u32 = self.entries[i].idle_frames.saturating_add(1);
            if idle <= SCRATCH_KEEP_FRAMES {
                self.entries[i].idle_frames = idle;
                i = i + 1;
                proof {
                    assert(self.entries@[i - 1] == aged(all[done]));
                    assert(survivors(all.subrange(0, done + 1)) == kept.push(aged(all[done])));
                }
            } else {
                self.entries.remove(i);
                assert(survivors(all.subrange(0, done + 1)) == kept);
            }
            proof {
                done = done + 1;
            }
        }
        assert(all.subrange(0, done) =~= all);
    }
}

/// After room was made, the held bytes and the new texture fit the budget, or
/// the pool is empty.
pub proof fn law_pool_stays_within_budget<T>(
    entries: Seq<ScratchEntry<T>>,
    wanted: int,
    budget: int,
)
    ensures
        room_made(entries, wanted, budget).len() == 0 || bytes_held(
            room_made(entries, wanted, budget),
        ) + wanted <= budget,
    decreases entries.len(),
{
    if entries.len() > 0 && bytes_held(entries) + wanted > budget {
        lemma_stalest(entries);
        law_pool_stays_within_budget(entries.remove(stalest(entries)), wanted, budget);
    }
}

/// Eviction takes the least recently used: an entry that stays was used no less
/// recently than one that goes.
pub proof fn law_eviction_takes_least_recently_used<T>(
    entries: Seq<ScratchEntry<T>>,
    wanted: int,
    budget: int,
    k: int,
    s: int,
)
    requires
        0 <= k < entries.len(),
        !room_made(entries, wanted, budget).contains(entries[k]),
        0 <= s < room_made(entries, wanted, budget).len(),
    ensures
        room_made(entries, wanted, budget)[s].idle_frames <= entries[k].idle_frames,
    decreases entries.len(),
{
    lemma_room_is_part(entries, wanted, budget);
    if entries.len() == 0 || bytes_held(entries) + wanted <= budget {
        assert(entries.contains(entries[k]));
    } else {
        let gone = stalest(entries);
        lemma_stalest(entries);
        let rest = entries.remove(gone);
        let left = room_made(rest, wanted, budget);
        assert(left.contains(left[s]));
        lemma_room_is_part(rest, wanted, budget);
        let at = choose|j: int| 0 <= j < rest.len() && rest[j] == left[s];
        assert(entries.contains(rest[at])) by {
            assert(rest[at] == if at < gone {
                entries[at]
            } else {
                entries[at + 1]
            });
        }
        if k < gone {
            assert(rest[k] == entries[k]);
            law_eviction_takes_least_recently_used(rest, wanted, budget, k, s);
        } else if k > gone {
            assert(rest[k - 1] == entries[k]);
            law_eviction_takes_least_recently_used(rest, wanted, budget, k - 1, s);
        }
    }
}

proof fn lemma_room_is_part<T>(entries: Seq<ScratchEntry<T>>, wanted: int, budget: int)
    ensures
        forall|e: ScratchEntry<T>| #[trigger]
            room_made(entries, wanted, budget).contains(e) ==> entries.contains(e),
    decreases entries.len(),
{
    if entries.len() > 0 && bytes_held(entries) + wanted > budget {
        let gone = stalest(entries);
        lemma_stalest(entries);
        let rest = entries.remove(gone);
        lemma_room_is_part(rest, wanted, budget);
        assert forall|e: ScratchEntry<T>| #[trigger]
            room_made(entries, wanted, budget).contains(e) implies entries.contains(e) by {
            assert(room_made(rest, wanted, budget).contains(e));
            assert(rest.contains(e));
            let j = choose|j: int| 0 <= j < rest.len() && rest[j] == e;
            if j < gone {
                assert(entries[j] == e);
            } else {
                assert(entries[j + 1] == e);
            }
        }
    }
}

/// An entry that was just used survives the frame, and one that has been idle
/// for the whole keep window does not.
pub proof fn law_keep_window<T>(entries: Seq<ScratchEntry<T>>)
    ensures
        forall|k: int|
            0 <= k < entries.len() && (#[trigger] entries[k]).idle_frames < SCRATCH_KEEP_FRAMES
                ==> survivors(entries).contains(aged(entries[k])),
        forall|s: int|
            0 <= s < survivors(entries).len() ==> (#[trigger] survivors(entries)[s]).idle_frames
                <= SCRATCH_KEEP_FRAMES,
    decreases entries.len(),
{
    if entries.len() > 0 {
        let init = entries.drop_last();
        law_keep_window(init);
        assert forall|k: int|
            0 <= k < entries.len() && (#[trigger] entries[k]).idle_frames
                < SCRATCH_KEEP_FRAMES implies survivors(entries).contains(aged(entries[k])) by {
            if k < init.len() {
                assert(init[k] == entries[k]);
                let kept = survivors(init);
                let j = choose|j: int| 0 <= j < kept.len() && kept[j] == aged(entries[k]);
                assert(survivors(entries)[j] == aged(entries[k]));
            } else {
                assert(survivors(entries).last() == aged(entries[k]));
            }
        }
        assert forall|s: int| 0 <= s < survivors(entries).len() implies (#[trigger] survivors(
            entries,
        )[s]).idle_frames <= SCRATCH_KEEP_FRAMES by {
            if s < survivors(init).len() {
                assert(survivors(entries)[s] == survivors(init)[s]);
            }
        }
    }
}

/// A texture takes four bytes for each of its pixels, and textures add up.
pub proof fn law_bytes_add_up<T>(
    a: Seq<ScratchEntry<T>>,
    b: Seq<ScratchEntry<T>>,
    e: ScratchEntry<T>,
)
    ensures
        e.size.valid() ==> bytes_of(e.size) == 4 * (e.size.w * e.size.h),
        bytes_held(seq![e]) == bytes_of(e.size),
        bytes_held(a + b) == bytes_held(a) + bytes_held(b),
    decreases b.len(),
{
    assert(seq![e].drop_last() =~= Seq::empty());
    assert(bytes_held(seq![e].drop_last()) == 0);
    if b.len() > 0 {
        law_bytes_add_up(a, b.drop_last(), e);
        assert((a + b).drop_last() =~= a + b.drop_last());
        assert((a + b).last() == b.last());
    } else {
        assert(a + b =~= a);
    }
}

/// Nothing is given up where there is room. Where there is none, the entry that
/// has been unused longest goes first, the last of several, and the rest makes
/// room in the same way.
pub proof fn law_room_is_made_only_where_needed<T>(
    entries: Seq<ScratchEntry<T>>,
    wanted: int,
    budget: int,
    k: int,
)
    requires
        0 <= k < entries.len(),
        forall|j: int|
            0 <= j < entries.len() ==> (#[trigger] entries[j]).idle_frames <= entries[k].idle_frames
                && (j > k ==> entries[j].idle_frames < entries[k].idle_frames),
    ensures
        bytes_held(entries) + wanted <= budget ==> room_made(entries, wanted, budget) == entries,
        bytes_held(entries) + wanted > budget ==> room_made(entries, wanted, budget) == room_made(
            entries.remove(k),
            wanted,
            budget,
        ),
{
    lemma_stalest(entries);
    lemma_last_of_the_stalest(entries);
    let s = stalest(entries);
    if s < k {
        assert(entries[k].idle_frames < entries[s].idle_frames);
    }
    assert(s == k) by {
        assert(entries[k].idle_frames <= entries[s].idle_frames);
        assert(entries[s].idle_frames <= entries[k].idle_frames);
    }
}

proof fn lemma_last_of_the_stalest<T>(entries: Seq<ScratchEntry<T>>)
    requires
        entries.len() > 0,
    ensures
        forall|k: int|
            stalest(entries) < k < entries.len() ==> (#[trigger] entries[k]).idle_frames
                < entries[stalest(entries)].idle_frames,
    decreases entries.len(),
{
    if entries.len() > 1 {
        let init = entries.drop_last();
        lemma_last_of_the_stalest(init);
        lemma_stalest(init);
        assert forall|k: int| stalest(entries) < k < entries.len() implies (
        #[trigger] entries[k]).idle_frames < entries[stalest(entries)].idle_frames by {
            if k < init.len() {
                assert(init[k] == entries[k]);
            }
        }
    }
}

/// Making room gives up entries and changes none.
pub proof fn law_room_keeps_entries_as_they_are<T>(
    entries: Seq<ScratchEntry<T>>,
    wanted: int,
    budget: int,
    e: ScratchEntry<T>,
)
    requires
        room_made(entries, wanted, budget).contains(e),
    ensures
        entries.contains(e),
{
    lemma_room_is_part(entries, wanted, budget);
}

/// A frame makes every entry a frame older, and keeps exactly those that are not
/// too old then, in order, with their textures.
pub proof fn law_frame_ages_every_entry<T>(entries: Seq<ScratchEntry<T>>)
    ensures
        survivors(entries) == entries.map_values(
            |e: ScratchEntry<T>|
                ScratchEntry {
                    size: e.size,
                    texture: e.texture,
                    idle_frames: if e.idle_frames == u32::MAX {
                        u32::MAX
                    } else {
                        (e.idle_frames + 1) as u32
                    },
                },
        ).filter(|e: ScratchEntry<T>| e.idle_frames <= SCRATCH_KEEP_FRAMES),
    decreases entries.len(),
{
    reveal(Seq::filter);
    let older = |e: ScratchEntry<T>|
        ScratchEntry {
            size: e.size,
            texture: e.texture,
            idle_frames: if e.idle_frames == u32::MAX {
                u32::MAX
            } else {
                (e.idle_frames + 1) as u32
            },
        };
    let young = |e: ScratchEntry<T>| e.idle_frames <= SCRATCH_KEEP_FRAMES;
    let all = entries.map_values(older);
    if entries.len() > 0 {
        let init = entries.drop_last();
        law_frame_ages_every_entry(init);
        assert(all.drop_last() =~= init.map_values(older));
        assert(all.last() == aged(entries.last()));
    } else {
        assert(all.filter(young) =~= Seq::empty());
    }
}

} // verus!
