//! The activated hint: one window has it, and a change reaches its client.

use vstd::prelude::*;

verus! {

/// A window, as far as the hint goes.
#[derive(Clone, Copy, Debug, PartialEq, Eq, Structural)]
pub struct HintedWindow {
    pub id: u64,
    /// It has a client. One without never has the hint.
    pub client: bool,
    pub activated: bool,
    /// Its client has had its first configuration.
    pub configured: bool,
}

/// Whether a window is to have the hint.
pub open spec fn hinted(w: HintedWindow, target: u64) -> bool {
    if w.client {
        w.id == target
    } else {
        w.activated
    }
}

/// Whether a window's client is to be told.
pub open spec fn is_flushed(w: HintedWindow, target: u64, flush_target: bool) -> bool {
    &&& w.client
    &&& w.configured
    &&& w.activated != (w.id == target)
    &&& w.id != target || flush_target
}

/// The windows among the first `n` whose clients are to be told.
pub open spec fn flushed(
    windows: Seq<HintedWindow>,
    target: u64,
    flush_target: bool,
    n: int,
) -> Seq<usize>
    decreases n,
{
    if n <= 0 {
        Seq::empty()
    } else {
        let init = flushed(windows, target, flush_target, n - 1);
        if is_flushed(windows[n - 1], target, flush_target) {
            init.push((n - 1) as usize)
        } else {
            init
        }
    }
}

/// Gives the hint to one window and takes it from all others. Returns the
/// windows whose clients are to be told now: those whose hint changed, once they
/// have had their first configuration; the target itself only with
/// `flush_target`, since a configuration that follows may carry its hint.
pub fn activate_exclusive(
    windows: &mut Vec<HintedWindow>,
    target: u64,
    flush_target: bool,
) -> (tell: Vec<usize>)
    ensures
        final(windows)@.len() == old(windows)@.len(),
        forall|i: int|
            0 <= i < old(windows)@.len() ==> #[trigger] final(windows)@[i] == (HintedWindow {
                activated: hinted(old(windows)@[i], target),
                ..old(windows)@[i]
            }),
        tell@ == flushed(old(windows)@, target, flush_target, old(windows)@.len() as int),
{
    let ghost before = windows@;
    let mut tell: Vec<usize> = Vec::new();
    let mut i: usize = 0;
    while i < windows.len()
        invariant
            i <= windows@.len() == before.len(),
            before == old(windows)@,
            forall|k: int|
                0 <= k < i ==> #[trigger] windows@[k] == (HintedWindow {
                    activated: hinted(before[k], target),
                    ..before[k]
                }),
            forall|k: int| i <= k < before.len() ==> #[trigger] windows@[k] == before[k],
            tell@ == flushed(before, target, flush_target, i as int),
        decreases windows.len() - i,
    {
        assert(windows@[i as int] == before[i as int]);
        let w = windows[i];
        let is_target = w.id == target;
        if w.client && w.activated != is_target {
            windows.set(
                i,
                HintedWindow {
                    id: w.id,
                    client: w.client,
                    activated: is_target,
                    configured: w.configured,
                },
            );
            if (!is_target || flush_target) && w.configured {
                tell.push(i);
            }
        }
        i = i + 1;
    }
    tell
}

/// Gives the hint to one window and tells every client whose hint changed.
pub fn set_activated_exclusive(windows: &mut Vec<HintedWindow>, target: u64) -> (tell: Vec<usize>)
    ensures
        final(windows)@.len() == old(windows)@.len(),
        forall|i: int|
            0 <= i < old(windows)@.len() ==> #[trigger] final(windows)@[i] == (HintedWindow {
                activated: hinted(old(windows)@[i], target),
                ..old(windows)@[i]
            }),
        tell@ == flushed(old(windows)@, target, true, old(windows)@.len() as int),
{
    activate_exclusive(windows, target, true)
}

/// Gives the hint to a window that is about to be configured anyway, which
/// carries its hint; tells the others.
pub fn activate_riding_batch(windows: &mut Vec<HintedWindow>, target: u64) -> (tell: Vec<usize>)
    ensures
        final(windows)@.len() == old(windows)@.len(),
        forall|i: int|
            0 <= i < old(windows)@.len() ==> #[trigger] final(windows)@[i] == (HintedWindow {
                activated: hinted(old(windows)@[i], target),
                ..old(windows)@[i]
            }),
        tell@ == flushed(old(windows)@, target, false, old(windows)@.len() as int),
{
    activate_exclusive(windows, target, false)
}

/// The windows as `activate_exclusive` leaves them: every client's hint says
/// whether it is the target, and nothing else is changed.
pub open spec fn activated_on(windows: Seq<HintedWindow>, target: u64) -> Seq<HintedWindow> {
    windows.map_values(
        |w: HintedWindow| HintedWindow { activated: hinted(w, target), ..w },
    )
}

/// Of windows with clients, exactly the target has the hint.
pub proof fn law_one_window_has_the_hint(windows: Seq<HintedWindow>, target: u64, i: int)
    requires
        0 <= i < windows.len(),
        windows[i].client,
    ensures
        activated_on(windows, target)[i].activated <==> windows[i].id == target,
{
}

/// Giving the hint again to the window that has it tells no one.
pub proof fn law_repeated_activation_is_silent(
    windows: Seq<HintedWindow>,
    target: u64,
    flush_target: bool,
)
    ensures
        activated_on(activated_on(windows, target), target) == activated_on(windows, target),
        flushed(activated_on(windows, target), target, flush_target, windows.len() as int).len()
            == 0,
{
    let once = activated_on(windows, target);
    assert(activated_on(once, target) =~= once);
    lemma_silent(windows, target, flush_target, windows.len() as int);
}

proof fn lemma_silent(windows: Seq<HintedWindow>, target: u64, flush_target: bool, n: int)
    requires
        n <= windows.len(),
    ensures
        flushed(activated_on(windows, target), target, flush_target, n).len() == 0,
    decreases n,
{
    if n > 0 {
        lemma_silent(windows, target, flush_target, n - 1);
    }
}

/// A client is told exactly if it has had its first configuration and its window's
/// hint comes or goes; the target's only where it is to be told as well.
pub proof fn law_clients_are_told_of_a_change(
    windows: Seq<HintedWindow>,
    target: u64,
    flush_target: bool,
    n: int,
    i: int,
)
    requires
        0 <= n <= windows.len() <= usize::MAX,
        0 <= i < n,
    ensures
        ({
            let w = windows[i];
            let told = flushed(windows, target, flush_target, n);
            &&& told.contains(i as usize) <==> {
                &&& w.client && w.configured
                &&& w.activated && w.id != target || (!w.activated && w.id == target
                    && flush_target)
            }
            &&& forall|k: int| 0 <= k < told.len() ==> (#[trigger] told[k]) < n
            &&& forall|j: int, k: int|
                0 <= j < k < told.len() ==> (#[trigger] told[j]) < (#[trigger] told[k])
        }),
    decreases n,
{
    let all = flushed(windows, target, flush_target, n);
    let init = flushed(windows, target, flush_target, n - 1);
    if n > 1 {
        law_clients_are_told_of_a_change(
            windows,
            target,
            flush_target,
            n - 1,
            if i < n - 1 {
                i
            } else {
                0
            },
        );
    }
    if init.contains(i as usize) {
        let k = choose|k: int| 0 <= k < init.len() && init[k] == i as usize;
        assert(all[k] == i as usize);
    }
    if i == n - 1 && all.len() > init.len() {
        assert(all[init.len() as int] == i as usize);
    }
    if all.contains(i as usize) {
        let k = choose|k: int| 0 <= k < all.len() && all[k] == i as usize;
        if k < init.len() {
            assert(init[k] == i as usize);
        }
    }
    assert forall|j: int, k: int| 0 <= j < k < all.len() implies (#[trigger] all[j]) < (
    #[trigger] all[k]) by {
        assert(all[j] == init[j]);
        if k < init.len() {
            assert(all[k] == init[k]);
        }
    }
}

/// A window without a client keeps what it has, and nothing but the hint changes.
pub proof fn law_only_the_hint_changes(windows: Seq<HintedWindow>, target: u64, i: int)
    requires
        0 <= i < windows.len(),
    ensures
        ({
            let a = activated_on(windows, target)[i];
            let w = windows[i];
            &&& a.id == w.id && a.client == w.client && a.configured == w.configured
            &&& !w.client ==> a.activated == w.activated
        }),
{
}

} // verus!
