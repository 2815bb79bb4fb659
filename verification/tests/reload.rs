use driftwm::names::NamedMap;
use driftwm::state::reload::{
    KeyboardLayout, ReloadError, ReloadOutcome, ReloadView, SizeStep, ThemeStep, finish_reload,
    refresh_after_reload, reload_config, xkb_options,
};
use driftwm::state::redraw::Redraws;
use driftwm::state::render_cache::{RenderCache, ShaderChunks};

fn layout(name: &str) -> KeyboardLayout {
    KeyboardLayout {
        layout: name.to_string(),
        variant: String::new(),
        options: String::new(),
        model: String::new(),
    }
}

fn view(env: &[(&str, &str)]) -> ReloadView {
    let mut vars = NamedMap::new();
    for (name, value) in env {
        vars.insert(name.to_string(), value.to_string());
    }
    ReloadView {
        keyboard_layout: layout("us"),
        repeat_rate: 25,
        repeat_delay: 200,
        cursor_theme: None,
        cursor_size: None,
        env: vars,
    }
}

#[test]
fn each_setting_is_compared() {
    let old = view(&[]);
    assert!(reload_config(&old, Err(ReloadError::Unreadable), true, true).is_none());
    assert!(reload_config(&old, Err(ReloadError::Malformed), true, true).is_none());
    let old = view(&[]);
    let mut new = view(&[]);
    new.keyboard_layout.variant = "intl".to_string();
    new.repeat_delay = 300;
    new.cursor_theme = Some("Adwaita".to_string());
    new.cursor_size = Some(32);
    let plan = reload_config(&old, Ok(&new), true, true).unwrap();
    assert!(plan.set_keyboard_layout && plan.set_repeat && plan.set_friction);
    assert!(plan.configure_trackpads);
    assert_eq!(plan.theme, ThemeStep::LookUp);
    assert_eq!(plan.size, SizeStep::Assign(32));
    let back = reload_config(&new, Ok(&old), false, false).unwrap();
    assert_eq!(back.theme, ThemeStep::Unset);
    assert_eq!(back.size, SizeStep::Unset);
}

#[test]
fn the_same_configuration_asks_for_nothing() {
    let old = view(&[("A", "1")]);
    let plan = reload_config(&old, Ok(&view(&[("A", "1")])), false, false).unwrap();
    assert!(!plan.set_keyboard_layout && !plan.set_repeat && !plan.set_friction);
    assert!(!plan.configure_trackpads);
    assert_eq!(plan.theme, ThemeStep::Keep);
    assert_eq!(plan.size, SizeStep::Keep);
    assert!(plan.env_set.is_empty() && plan.env_unset.is_empty());
}

#[test]
fn the_environment_is_taken_over() {
    let old = view(&[("KEEP", "1"), ("CHANGE", "1"), ("GONE", "1")]);
    let new = view(&[("KEEP", "1"), ("CHANGE", "2"), ("NEW", "3")]);
    let plan = reload_config(&old, Ok(&new), false, false).unwrap();
    let set: Vec<&str> = plan.env_set.iter().map(|i| new.env.entries[*i].name.as_str()).collect();
    assert_eq!(set, vec!["CHANGE", "NEW"]);
    assert_eq!(plan.env_unset, vec!["GONE"]);
}

fn outcome(keyboard_ok: bool, theme_found: bool) -> ReloadOutcome {
    ReloadOutcome {
        keyboard_ok,
        theme_found,
        num_lock_before: true,
        num_lock_after: false,
    }
}

#[test]
fn a_failed_part_keeps_its_old_setting() {
    let old = view(&[]);
    let mut new = view(&[]);
    new.keyboard_layout = layout("nonsense");
    new.cursor_theme = Some("Missing".to_string());
    let plan = reload_config(&old, Ok(&new), false, false).unwrap();
    let failed = finish_reload(&plan, outcome(false, false));
    assert!(failed.keep_old_layout && !failed.restore_num_lock);
    assert!(failed.keep_old_theme && !failed.theme_changed && !failed.clear_cursors);
    let fine = finish_reload(&plan, outcome(true, true));
    assert!(!fine.keep_old_layout && fine.restore_num_lock);
    assert!(!fine.keep_old_theme && fine.theme_changed && fine.clear_cursors);
}

#[test]
fn a_new_cursor_size_drops_the_loaded_cursors() {
    let old = view(&[]);
    let mut new = view(&[]);
    new.cursor_size = Some(48);
    let plan = reload_config(&old, Ok(&new), false, false).unwrap();
    let finish = finish_reload(&plan, outcome(true, true));
    assert!(finish.clear_cursors && !finish.theme_changed && !finish.restore_num_lock);
}

#[test]
fn empty_options_are_no_options() {
    assert_eq!(xkb_options(""), None);
    assert_eq!(xkb_options("caps:escape"), Some("caps:escape".to_string()));
}

#[test]
fn a_reload_draws_the_background_anew() {
    let mut cache: RenderCache<u8, u8, u8, u8, u8> = RenderCache::new();
    cache.background_shader = Some(1);
    cache.tile_shader = Some(2);
    cache.cached_bg.insert("A".to_string(), 3);
    let chunks = ShaderChunks {
        cover: 4,
        chunks: vec![],
        pending_bakes: 0,
    };
    cache.cached_shader_chunks.insert("A".to_string(), chunks);
    cache.cached_error_bar.insert("A".to_string(), 5);
    let mut redraws = Redraws { needed: vec![7] };
    refresh_after_reload(&mut cache, &mut redraws, &[1, 2]);
    assert!(cache.background_shader.is_none() && cache.tile_shader.is_none());
    assert!(!cache.cached_bg.contains("A") && !cache.cached_shader_chunks.contains("A"));
    assert!(cache.cached_error_bar.contains("A"));
    assert_eq!(redraws.needed, vec![1, 2]);
}
