//! Taking over a changed configuration. A configuration that cannot be read or
//! understood changes nothing.

use crate::names::{Named, NamedMap};
use crate::state::redraw::Redraws;
use crate::state::render_cache::{RenderCache, ShaderChunks};
use crate::text::same_text;
use crate::tiles::cache::BgChunkCache;
use vstd::prelude::*;

verus! {

/// The keyboard's layout.
pub struct KeyboardLayout {
    pub layout: String,
    pub variant: String,
    pub options: String,
    pub model: String,
}

impl KeyboardLayout {
    pub open spec fn same_as(self, other: KeyboardLayout) -> bool {
        &&& self.layout@ == other.layout@
        &&& self.variant@ == other.variant@
        &&& self.options@ == other.options@
        &&& self.model@ == other.model@
    }

    pub fn is_same(&self, other: &KeyboardLayout) -> (r: bool)
        ensures
            r == self.same_as(*other),
    {
        same_text(self.layout.as_str(), other.layout.as_str()) && same_text(
            self.variant.as_str(),
            other.variant.as_str(),
        ) && same_text(self.options.as_str(), other.options.as_str()) && same_text(
            self.model.as_str(),
            other.model.as_str(),
        )
    }
}

/// What of a configuration is compared with the one in force.
pub struct ReloadView {
    pub keyboard_layout: KeyboardLayout,
    pub repeat_rate: i32,
    pub repeat_delay: i32,
    pub cursor_theme: Option<String>,
    pub cursor_size: Option<u32>,
    /// Environment of started programs.
    pub env: NamedMap<String>,
}

/// Why a configuration was not taken over.
#[derive(Clone, Copy, Debug, PartialEq, Eq, Structural)]
pub enum ReloadError {
    Unreadable,
    Malformed,
}

/// What becomes of the cursor theme.
#[derive(Clone, Copy, Debug, PartialEq, Eq, Structural)]
pub enum ThemeStep {
    Keep,
    /// The theme that the new configuration names is looked up.
    LookUp,
    /// The setting is dropped.
    Unset,
}

/// What becomes of the cursor size.
#[derive(Clone, Copy, Debug, PartialEq, Eq, Structural)]
pub enum SizeStep {
    Keep,
    Assign(u32),
    Unset,
}

/// What has to be done to take over a configuration.
pub struct ReloadPlan {
    pub set_keyboard_layout: bool,
    pub set_repeat: bool,
    pub set_friction: bool,
    pub theme: ThemeStep,
    pub size: SizeStep,
    pub configure_trackpads: bool,
    /// Variables to set, by their place in the new configuration.
    pub env_set: Vec<usize>,
    /// Variables to unset.
    pub env_unset: Vec<String>,
}

pub open spec fn text_opt(s: Option<String>) -> Option<Seq<char>> {
    match s {
        Some(s) => Some(s@),
        None => None,
    }
}

pub open spec fn text_map(m: Map<Seq<char>, String>) -> Map<Seq<char>, Seq<char>> {
    m.map_values(|s: String| s@)
}

/// A variable has to be set: it is new, or has another value.
pub open spec fn has_to_be_set(
    old: Map<Seq<char>, Seq<char>>,
    name: Seq<char>,
    value: Seq<char>,
) -> bool {
    !(old.dom().contains(name) && old[name] == value)
}

/// The places among the first `n` entries of the variables to set.
pub open spec fn places_to_set(
    old: Map<Seq<char>, Seq<char>>,
    new: Seq<Named<String>>,
    n: int,
) -> Seq<usize>
    decreases n,
{
    if n <= 0 {
        Seq::empty()
    } else {
        let init = places_to_set(old, new, n - 1);
        if has_to_be_set(old, new[n - 1].name@, new[n - 1].value@) {
            init.push((n - 1) as usize)
        } else {
            init
        }
    }
}

/// The names among the first `n` entries of the variables to unset.
pub open spec fn names_to_unset(
    old: Seq<Named<String>>,
    new: Map<Seq<char>, String>,
    n: int,
) -> Seq<Seq<char>>
    decreases n,
{
    if n <= 0 {
        Seq::empty()
    } else {
        let init = names_to_unset(old, new, n - 1);
        if new.dom().contains(old[n - 1].name@) {
            init
        } else {
            init.push(old[n - 1].name@)
        }
    }
}

pub open spec fn name_views(names: Seq<String>) -> Seq<Seq<char>> {
    names.map_values(|s: String| s@)
}

fn same_text_opt(a: &Option<String>, b: &Option<String>) -> (r: bool)
    ensures
        r == (text_opt(*a) == text_opt(*b)),
{
    match a {
        Some(x) => match b {
            Some(y) => same_text(x.as_str(), y.as_str()),
            None => false,
        },
        None => b.is_none(),
    }
}

fn env_to_set(old: &NamedMap<String>, new: &NamedMap<String>) -> (places: Vec<usize>)
    requires
        old.wf(),
    ensures
        places@ == places_to_set(text_map(old@), new.entries@, new.entries@.len() as int),
{
    let mut places: Vec<usize> = Vec::new();
    let mut i: usize = 0;
    while i < new.entries.len()
        invariant
            i <= new.entries@.len(),
            old.wf(),
            places@ == places_to_set(text_map(old@), new.entries@, i as int),
        decreases new.entries.len() - i,
    {
        let held = match old.get(new.entries[i].name.as_str()) {
            Some(v) => same_text(v.as_str(), new.entries[i].value.as_str()),
            None => false,
        };
        if !held {
            places.push(i);
        }
        i = i + 1;
    }
    places
}

fn env_to_unset(old: &NamedMap<String>, new: &NamedMap<String>) -> (names: Vec<String>)
    requires
        new.wf(),
    ensures
        name_views(names@) == names_to_unset(old.entries@, new@, old.entries@.len() as int),
{
    let mut names: Vec<String> = Vec::new();
    let mut i: usize = 0;
    assert(name_views(names@) =~= names_to_unset(old.entries@, new@, 0));
    while i < old.entries.len()
        invariant
            i <= old.entries@.len(),
            new.wf(),
            name_views(names@) == names_to_unset(old.entries@, new@, i as int),
        decreases old.entries.len() - i,
    {
        if !new.contains(old.entries[i].name.as_str()) {
            let ghost before = names@;
            names.push(old.entries[i].name.clone());
            assert(name_views(names@) =~= name_views(before).push(old.entries@[i as int].name@));
        }
        i = i + 1;
    }
    names
}

/// What has to be done to take over a new configuration; nothing if it could not
/// be read or understood. `friction_changed` and `trackpad_changed` tell whether
/// those settings differ.
pub fn reload_config(
    old: &ReloadView,
    new: Result<&ReloadView, ReloadError>,
    friction_changed: bool,
    trackpad_changed: bool,
) -> (plan: Option<ReloadPlan>)
    requires
        old.env.wf(),
        new matches Ok(n) ==> n.env.wf(),
    ensures
        plan is None <==> new is Err,
        plan matches Some(p) ==> {
            let n = *new->Ok_0;
            &&& p.set_keyboard_layout == !n.keyboard_layout.same_as(old.keyboard_layout)
            &&& p.set_repeat == (n.repeat_rate != old.repeat_rate || n.repeat_delay
                != old.repeat_delay)
            &&& p.set_friction == friction_changed
            &&& p.theme == if text_opt(n.cursor_theme) == text_opt(old.cursor_theme) {
                ThemeStep::Keep
            } else if n.cursor_theme is Some {
                ThemeStep::LookUp
            } else {
                ThemeStep::Unset
            }
            &&& p.size == if n.cursor_size == old.cursor_size {
                SizeStep::Keep
            } else {
                match n.cursor_size {
                    Some(s) => SizeStep::Assign(s),
                    None => SizeStep::Unset,
                }
            }
            &&& p.configure_trackpads == trackpad_changed
            &&& p.env_set@ == places_to_set(
                text_map(old.env@),
                n.env.entries@,
                n.env.entries@.len() as int,
            )
            &&& name_views(p.env_unset@) == names_to_unset(
                old.env.entries@,
                n.env@,
                old.env.entries@.len() as int,
            )
        },
{
    match new {
        Err(_) => None,
        Ok(n) => {
            let theme = if same_text_opt(&n.cursor_theme, &old.cursor_theme) {
                ThemeStep::Keep
            } else if n.cursor_theme.is_some() {
                ThemeStep::LookUp
            } else {
                ThemeStep::Unset
            };
            let size = match n.cursor_size {
                Some(s) => match old.cursor_size {
                    Some(o) => if s == o {
                        SizeStep::Keep
                    } else {
                        SizeStep::Assign(s)
                    },
                    None => SizeStep::Assign(s),
                },
                None => if old.cursor_size.is_none() {
                    SizeStep::Keep
                } else {
                    SizeStep::Unset
                },
            };
            Some(
                ReloadPlan {
                    set_keyboard_layout: !n.keyboard_layout.is_same(&old.keyboard_layout),
                    set_repeat: n.repeat_rate != old.repeat_rate || n.repeat_delay
                        != old.repeat_delay,
                    set_friction: friction_changed,
                    theme,
                    size,
                    configure_trackpads: trackpad_changed,
                    env_set: env_to_set(&old.env, &n.env),
                    env_unset: env_to_unset(&old.env, &n.env),
                },
            )
        },
    }
}

/// What came of the parts of a plan that can fail.
#[derive(Clone, Copy, Debug, PartialEq, Eq, Structural)]
pub struct ReloadOutcome {
    /// The keyboard took the new layout.
    pub keyboard_ok: bool,
    /// The new cursor theme was found.
    pub theme_found: bool,
    /// Num lock before the keyboard took the new layout, and after.
    pub num_lock_before: bool,
    pub num_lock_after: bool,
}

/// What is left to do for a reload.
#[derive(Clone, Copy, Debug, PartialEq, Eq, Structural)]
pub struct ReloadFinish {
    /// The old keyboard layout stays in force.
    pub keep_old_layout: bool,
    /// Num lock is put back as it was.
    pub restore_num_lock: bool,
    /// The old cursor theme stays in force.
    pub keep_old_theme: bool,
    /// The new cursor theme is put into force, or the setting dropped.
    pub theme_changed: bool,
    /// Loaded cursors are dropped.
    pub clear_cursors: bool,
}

/// Settles a reload: a layout that the keyboard refused and a theme that was not
/// found leave the old ones in force; num lock survives a new layout; cursors are
/// loaded anew if their theme or size changed.
pub fn finish_reload(plan: &ReloadPlan, outcome: ReloadOutcome) -> (finish: ReloadFinish)
    ensures
        finish.keep_old_layout == (plan.set_keyboard_layout && !outcome.keyboard_ok),
        finish.restore_num_lock == (plan.set_keyboard_layout && outcome.keyboard_ok
            && outcome.num_lock_before != outcome.num_lock_after),
        finish.keep_old_theme == (plan.theme is LookUp && !outcome.theme_found),
        finish.theme_changed == (plan.theme is Unset || (plan.theme is LookUp
            && outcome.theme_found)),
        finish.clear_cursors == (finish.theme_changed || !(plan.size is Keep)),
{
    let look_up = matches!(plan.theme, ThemeStep::LookUp);
    let theme_changed = matches!(plan.theme, ThemeStep::Unset) || (look_up && outcome.theme_found);
    ReloadFinish {
        keep_old_layout: plan.set_keyboard_layout && !outcome.keyboard_ok,
        restore_num_lock: plan.set_keyboard_layout && outcome.keyboard_ok
            && outcome.num_lock_before != outcome.num_lock_after,
        keep_old_theme: look_up && !outcome.theme_found,
        theme_changed,
        clear_cursors: theme_changed || !matches!(plan.size, SizeStep::Keep),
    }
}

/// What every reload does, whatever has changed: the backgrounds and the shaders
/// that they were drawn with are dropped, so that an edited file takes effect,
/// and every active output is drawn anew.
pub fn refresh_after_reload<T, B, E, P, D>(
    cache: &mut RenderCache<T, B, E, P, D>,
    redraws: &mut Redraws,
    active: &[u64],
)
    requires
        old(cache).wf(),
        active@.no_duplicates(),
    ensures
        final(cache).wf(),
        final(cache).background_shader is None,
        final(cache).tile_shader is None,
        final(cache).cached_bg@ == Map::<Seq<char>, B>::empty(),
        final(cache).cached_tile_chunks@ == Map::<Seq<char>, BgChunkCache<T>>::empty(),
        final(cache).cached_shader_chunks@ == Map::<Seq<char>, ShaderChunks<T>>::empty(),
        *final(cache) == (RenderCache {
            background_shader: None,
            tile_shader: None,
            cached_bg: final(cache).cached_bg,
            cached_tile_chunks: final(cache).cached_tile_chunks,
            cached_shader_chunks: final(cache).cached_shader_chunks,
            ..*old(cache)
        }),
        final(redraws).wf(),
        final(redraws).needed@ == active@,
{
    cache.reset_backgrounds();
    redraws.mark_all_dirty(active);
}

/// Options that the keyboard is given: none rather than empty ones.
pub fn xkb_options(options: &str) -> (r: Option<String>)
    ensures
        r is None <==> options@.len() == 0,
        r matches Some(s) ==> s@ == options@,
{
    proof {
        reveal_strlit("");
        assert(options@.len() == 0 <==> options@ =~= ""@);
    }
    if same_text(options, "") {
        None
    } else {
        Some(options.to_owned())
    }
}

/// An environment with some variables set and some unset.
pub open spec fn env_applied(
    old: Map<Seq<char>, Seq<char>>,
    new: Seq<Named<String>>,
    set: Seq<usize>,
    unset: Seq<Seq<char>>,
) -> Map<Seq<char>, Seq<char>> {
    Map::new(
        |name: Seq<char>|
            (old.dom().contains(name) && !unset.contains(name)) || exists|k: int|
                0 <= k < set.len() && new[#[trigger] set[k] as int].name@ == name,
        |name: Seq<char>|
            if exists|k: int| 0 <= k < set.len() && new[#[trigger] set[k] as int].name@ == name {
                new[set[choose|k: int|
                    0 <= k < set.len() && new[#[trigger] set[k] as int].name@ == name] as int].value@
            } else {
                old[name]
            },
    )
}

proof fn lemma_places(old: Map<Seq<char>, Seq<char>>, new: Seq<Named<String>>, n: int)
    requires
        0 <= n <= new.len(),
        new.len() <= usize::MAX,
    ensures
        forall|k: int|
            0 <= k < places_to_set(old, new, n).len() ==> (#[trigger] places_to_set(old, new, n)[k])
                < n,
        forall|i: int|
            0 <= i < n && has_to_be_set(old, (#[trigger] new[i]).name@, new[i].value@)
                ==> places_to_set(old, new, n).contains(i as usize),
    decreases n,
{
    if n > 0 {
        lemma_places(old, new, n - 1);
        let init = places_to_set(old, new, n - 1);
        let all = places_to_set(old, new, n);
        assert forall|i: int|
            0 <= i < n && has_to_be_set(old, (#[trigger] new[i]).name@, new[i].value@) implies all.contains(
        i as usize) by {
            if i < n - 1 {
                assert(init.contains(i as usize));
                let k = choose|k: int| 0 <= k < init.len() && init[k] == i as usize;
                assert(all[k] == i as usize);
            } else {
                assert(all[all.len() - 1] == i as usize);
            }
        }
    }
}

proof fn lemma_unset(old: Seq<Named<String>>, new: Map<Seq<char>, String>, n: int, name: Seq<char>)
    requires
        0 <= n <= old.len(),
    ensures
        names_to_unset(old, new, n).contains(name) <==> !new.dom().contains(name) && exists|i: int|
            0 <= i < n && (#[trigger] old[i]).name@ == name,
    decreases n,
{
    if n > 0 {
        lemma_unset(old, new, n - 1, name);
        let init = names_to_unset(old, new, n - 1);
        let all = names_to_unset(old, new, n);
        if init.contains(name) {
            let k = choose|k: int| 0 <= k < init.len() && init[k] == name;
            assert(all[k] == name);
        }
        if all.contains(name) {
            let k = choose|k: int| 0 <= k < all.len() && all[k] == name;
            if k < init.len() {
                assert(init[k] == name);
            } else {
                assert(old[n - 1].name@ == name);
            }
        }
        if !new.dom().contains(name) && old[n - 1].name@ == name {
            assert(all[all.len() - 1] == name);
        }
    }
}

/// Setting and unsetting what a reload says turns the old environment into the
/// new one.
pub proof fn law_environment_is_taken_over(old: NamedMap<String>, new: NamedMap<String>)
    requires
        old.wf(),
        new.wf(),
        new.entries@.len() <= usize::MAX,
    ensures
        env_applied(
            text_map(old@),
            new.entries@,
            places_to_set(text_map(old@), new.entries@, new.entries@.len() as int),
            names_to_unset(old.entries@, new@, old.entries@.len() as int),
        ) == text_map(new@),
{
    let o = text_map(old@);
    let entries = new.entries@;
    let n = entries.len() as int;
    let set = places_to_set(o, entries, n);
    let unset = names_to_unset(old.entries@, new@, old.entries@.len() as int);
    let got = env_applied(o, entries, set, unset);
    let want = text_map(new@);
    lemma_places(o, entries, n);
    assert forall|name: Seq<char>| #[trigger]
        got.dom().contains(name) <==> want.dom().contains(name) by {
        lemma_unset(old.entries@, new@, old.entries@.len() as int, name);
        if exists|k: int| 0 <= k < set.len() && entries[#[trigger] set[k] as int].name@ == name {
            let k = choose|k: int|
                0 <= k < set.len() && entries[#[trigger] set[k] as int].name@ == name;
            crate::names::lemma_entry(entries, set[k] as int);
        }
        if old@.dom().contains(name) {
            let i = crate::names::lemma_find(old.entries@, name);
            assert(old.entries@[i].name@ == name);
        }
        if new@.dom().contains(name) {
            let i = crate::names::lemma_find(entries, name);
            crate::names::lemma_entry(entries, i);
            if has_to_be_set(o, entries[i].name@, entries[i].value@) {
                assert(set.contains(i as usize));
                let k = choose|k: int| 0 <= k < set.len() && set[k] == i as usize;
                assert(entries[set[k] as int].name@ == name);
            }
        }
    }
    assert forall|name: Seq<char>| #[trigger] got.dom().contains(name) implies got[name]
        == want[name] by {
        lemma_unset(old.entries@, new@, old.entries@.len() as int, name);
        let i = crate::names::lemma_find(entries, name);
        crate::names::lemma_entry(entries, i);
        if exists|k: int| 0 <= k < set.len() && entries[#[trigger] set[k] as int].name@ == name {
            let k = choose|k: int|
                0 <= k < set.len() && entries[#[trigger] set[k] as int].name@ == name;
            crate::names::lemma_entry(entries, set[k] as int);
        } else {
            if has_to_be_set(o, entries[i].name@, entries[i].value@) {
                assert(set.contains(i as usize));
                let k = choose|k: int| 0 <= k < set.len() && set[k] == i as usize;
                assert(entries[set[k] as int].name@ == name);
            }
        }
    }
    assert(got =~= want);
}

/// Layouts are the same only if nothing of them differs.
pub proof fn law_layouts_differ_by_any_part(a: KeyboardLayout, b: KeyboardLayout)
    ensures
        a.same_as(a),
        a.layout@ != b.layout@ || a.variant@ != b.variant@ || a.options@ != b.options@ || a.model@
            != b.model@ ==> !a.same_as(b),
        a.same_as(b) ==> b.same_as(a),
        a.layout@ == b.layout@ && a.variant@ == b.variant@ && a.options@ == b.options@ && a.model@
            == b.model@ ==> a.same_as(b),
{
}

/// A variable is set exactly if it is new or has another value than before; those
/// that have not changed are left alone. They are set in order.
pub proof fn law_only_changed_variables_are_set(
    old: Map<Seq<char>, Seq<char>>,
    new: Seq<Named<String>>,
    n: int,
    i: int,
)
    requires
        0 <= n <= new.len() <= usize::MAX,
        0 <= i < n,
    ensures
        places_to_set(old, new, n).contains(i as usize) <==> !old.dom().contains(new[i].name@)
            || old[new[i].name@] != new[i].value@,
        forall|j: int, k: int|
            0 <= j < k < places_to_set(old, new, n).len() ==> (#[trigger] places_to_set(
                old,
                new,
                n,
            )[j]) < (#[trigger] places_to_set(old, new, n)[k]),
    decreases n,
{
    lemma_places(old, new, n);
    lemma_places(old, new, n - 1);
    let all = places_to_set(old, new, n);
    let init = places_to_set(old, new, n - 1);
    if n > 1 {
        law_only_changed_variables_are_set(
            old,
            new,
            n - 1,
            if i < n - 1 {
                i
            } else {
                0
            },
        );
    }
    if all.contains(i as usize) {
        let k = choose|k: int| 0 <= k < all.len() && all[k] == i as usize;
        if k < init.len() {
            assert(init[k] == i as usize);
            assert(init.contains(i as usize));
        }
    }
    assert forall|j: int, k: int| 0 <= j < k < all.len() implies (#[trigger] all[j]) < (
    #[trigger] all[k]) by {
        assert(all[j] == init[j]);
        if k < init.len() {
            assert(all[k] == init[k]);
        }
    }
}

/// A variable is unset exactly if the old configuration gave it and the new one
/// does not.
pub proof fn law_only_dropped_variables_are_unset(
    old: Seq<Named<String>>,
    new: Map<Seq<char>, String>,
    name: Seq<char>,
)
    ensures
        names_to_unset(old, new, old.len() as int).contains(name) <==> !new.dom().contains(name)
            && exists|i: int| 0 <= i < old.len() && (#[trigger] old[i]).name@ == name,
{
    lemma_unset(old, new, old.len() as int, name);
}

} // verus!
