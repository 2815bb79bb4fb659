use driftwm::geometry::{Point, Size};
use driftwm::help::card::{
    BandStyle, Measures, Rgba, band_range, card_pixels, corner_radius_of, fill_rounded_rect,
    is_path_line, lines_per_column, render_pixels,
};
use driftwm::help::describe::{
    Action, Direction, KeyCombo, Modifiers, PathCandidate, describe_action, describe_exec,
    dir_label, format_combo, key_name, program_of, resolve_on_path,
};
use driftwm::help::overlay::{
    CardKey, HelpOverlayCache, OverlayStep, build_help_overlay_elements, card_origin,
    overlay_bounds, signature,
};
use driftwm::help::rows::{Block, Category, Row, collect_rows, layout_columns, sort_rows};

fn combo(logo: bool, shift: bool, key: &str) -> KeyCombo {
    KeyCombo {
        modifiers: Modifiers {
            logo,
            ctrl: false,
            alt: false,
            shift,
        },
        key: key.to_string(),
    }
}

fn row(category: Category, keys: &str, desc: &str) -> Row {
    Row {
        category,
        keys: keys.to_string(),
        desc: desc.to_string(),
    }
}

fn found(path: &str, executable_file: bool) -> PathCandidate {
    PathCandidate {
        path: path.to_string(),
        executable_file,
    }
}

#[test]
fn format_combo_orders_mods_then_key() {
    let c = combo(true, true, "w");
    assert_eq!(format_combo(&c), "Super + Shift + W");
}

#[test]
fn format_combo_names_every_modifier_in_order() {
    let c = KeyCombo {
        modifiers: Modifiers {
            logo: true,
            ctrl: true,
            alt: true,
            shift: true,
        },
        key: "Left".to_string(),
    };
    assert_eq!(format_combo(&c), "Super + Ctrl + Alt + Shift + ←");
}

#[test]
fn key_name_prettifies_common_syms() {
    assert_eq!(key_name("Return"), "Enter");
    assert_eq!(key_name("equal"), "=");
}

#[test]
fn key_name_covers_the_rest_of_the_table() {
    for (raw, name) in [
        ("minus", "−"),
        ("plus", "+"),
        ("space", "Space"),
        ("Prior", "PageUp"),
        ("Next", "PageDown"),
        ("Up", "↑"),
        ("Down", "↓"),
        ("Left", "←"),
        ("Right", "→"),
        ("q", "Q"),
        ("é", "É"),
        ("XF86AudioMute", "XF86AudioMute"),
    ] {
        assert_eq!(key_name(raw), name);
    }
}

#[test]
fn resolve_on_path_rejects_paths_and_empty() {
    let everything = [found("/bin/foot", true)];
    assert!(resolve_on_path("", &everything).is_none());
    assert!(resolve_on_path("/usr/bin/foot", &everything).is_none());
}

#[test]
fn resolve_on_path_takes_the_first_executable() {
    let places = [
        found("/a/foot", false),
        found("/b/foot", true),
        found("/c/foot", true),
    ];
    assert_eq!(resolve_on_path("foot", &places).unwrap(), "/b/foot");
    assert!(resolve_on_path("foot", &places[..1]).is_none());
}

#[test]
fn describe_exec_includes_resolved_path() {
    let prog = program_of("sh -c true");
    assert_eq!(prog, "sh");
    let path = resolve_on_path(&prog, &[found("/bin/sh", true)]);
    let desc = describe_exec("sh -c true", path.as_deref());
    assert!(desc.starts_with("Run sh -c true"));
    assert_eq!(desc, "Run sh -c true   ·   /bin/sh");
    assert_eq!(describe_exec("nothing", None), "Run nothing");
}

#[test]
fn program_is_the_first_word() {
    assert_eq!(program_of("  \tfoot\u{a0}-e"), "foot");
    assert_eq!(program_of(" \n"), "");
    assert_eq!(program_of(""), "");
}

#[test]
fn actions_are_described() {
    let (category, text) = describe_action(&Action::SendToOutput(Direction::UpLeft));
    assert_eq!(category, Category::Windows);
    assert_eq!(text, "Send window to up-left output");
    let (category, text) = describe_action(&Action::GoToPosition {
        x: "10".to_string(),
        y: "-4".to_string(),
    });
    assert_eq!(category, Category::Navigation);
    assert_eq!(text, "Jump to bookmark (10, -4)");
    let (_, text) = describe_action(&Action::CycleWindows { backward: true });
    assert_eq!(text, "Cycle windows (reverse)");
    let (category, text) = describe_action(&Action::Exec {
        cmd: "foot".to_string(),
        resolved: None,
    });
    assert_eq!((category, text.as_str()), (Category::Apps, "Run foot"));
    assert_eq!(dir_label(&Direction::DownRight), "down-right");
}

#[test]
fn rows_go_by_category_description_and_keys() {
    let listed = || {
        vec![
            row(Category::Zoom, "b", "in"),
            row(Category::Apps, "z", "Run b"),
            row(Category::Apps, "y", "Run b"),
            row(Category::Apps, "a", "Run"),
        ]
    };
    let rows = sort_rows(listed());
    let keys: Vec<&str> = rows.iter().map(|r| r.keys.as_str()).collect();
    assert_eq!(keys, ["a", "y", "z", "b"]);
    // The order they are listed in does not show.
    let texts = |rows: &[Row]| -> Vec<Vec<String>> {
        layout_columns(rows, 3)
            .iter()
            .map(|column| {
                column
                    .iter()
                    .map(|block| match block {
                        Block::Header(title) => title.clone(),
                        Block::Row { keys, desc } => format!("{keys} {desc}"),
                    })
                    .collect()
            })
            .collect()
    };
    let mut backwards = listed();
    backwards.reverse();
    assert_eq!(texts(&backwards), texts(&listed()));
    assert_eq!(texts(&backwards)[0], ["Applications", "a Run", "y Run b", "z Run b"]);
}

#[test]
fn bindings_become_sorted_rows() {
    let rows = collect_rows(&[
        (combo(true, false, "q"), Action::Quit),
        (combo(true, false, "plus"), Action::ZoomIn),
    ]);
    assert_eq!(rows.len(), 2);
    assert_eq!(rows[0].category, Category::Zoom);
    assert_eq!(rows[0].keys, "Super + +");
    assert_eq!(rows[1].desc, "Quit driftwm");
}

#[test]
fn layout_splits_into_columns_when_tall() {
    // Several sections, each small, with a tight per-column budget: they
    // should spill into multiple columns.
    let cats = [
        Category::Apps,
        Category::Navigation,
        Category::View,
        Category::Windows,
    ];
    let rows: Vec<Row> = cats
        .iter()
        .flat_map(|&c| (0..3).map(move |i| row(c, &format!("Super + {i}"), &format!("action {i}"))))
        .collect();
    let cols = layout_columns(&rows, 5);
    assert!(
        cols.len() >= 2,
        "expected multiple columns, got {}",
        cols.len()
    );
    assert_eq!(cols.len(), 4);
}

#[test]
fn layout_keeps_sections_intact() {
    // A header must always be followed by at least its first row in the same
    // column — sections are never split across a column break.
    let cats = [Category::Apps, Category::Navigation, Category::Windows];
    let rows: Vec<Row> = cats
        .iter()
        .flat_map(|&c| (0..4).map(move |i| row(c, &format!("K{i}"), &format!("d{i}"))))
        .collect();
    for col in layout_columns(&rows, 5) {
        for (i, block) in col.iter().enumerate() {
            if matches!(block, Block::Header(_)) {
                assert!(
                    matches!(col.get(i + 1), Some(Block::Row { .. })),
                    "header not followed by its rows in the same column"
                );
            }
        }
    }
}

#[test]
fn an_oversized_section_gets_a_longer_column() {
    let rows: Vec<Row> = (0..9)
        .map(|i| row(Category::Apps, &format!("K{i}"), "d"))
        .collect();
    let cols = layout_columns(&rows, 0);
    assert_eq!(cols.len(), 1);
    assert_eq!(cols[0].len(), 10);
    assert_eq!(layout_columns(&[], 5).len(), 1);
}

fn measures(n: usize, keys: i32, descs: i32) -> Measures {
    Measures {
        keys: vec![keys; n],
        descs: vec![descs; n],
        headers: vec![90; 6],
        title: 240,
    }
}

#[test]
fn the_card_holds_every_line() {
    let rows = vec![
        row(Category::Apps, "k", "one"),
        row(Category::Apps, "k", "two"),
    ];
    let plan = render_pixels(&rows, &measures(2, 50, 100), 1000, 800, 1).unwrap();
    // 2 * 26 margin, 50 + 22 + 100 column against a 240 title.
    assert_eq!((plan.size.w, plan.size.h), (292, 52 + 31 + 3 * 21));
    assert_eq!((plan.size.key_w, plan.size.desc_w, plan.radius), (50, 100, 18));
    let styles: Vec<BandStyle> = plan.bands.iter().map(|b| b.style).collect();
    assert_eq!(
        styles,
        [
            BandStyle::Title,
            BandStyle::Header,
            BandStyle::Keys,
            BandStyle::Desc,
            BandStyle::Keys,
            BandStyle::Desc
        ]
    );
    assert_eq!((plan.bands[0].x, plan.bands[0].y, plan.bands[0].h), (26, 26, 17));
    assert_eq!((plan.bands[1].x, plan.bands[1].y), (26, 57));
    assert_eq!((plan.bands[3].x, plan.bands[3].y), (98, 78));
    assert_eq!(plan.bands[5].text, "two");
}

#[test]
fn long_descriptions_are_cut_and_narrow_screens_bound_the_card() {
    let rows = vec![row(Category::Apps, "k", "one")];
    let plan = render_pixels(&rows, &measures(1, 50, 5000), 300, 800, 2).unwrap();
    assert_eq!(plan.size.desc_w, 720);
    assert_eq!(plan.size.w, 300);
    assert_eq!(lines_per_column(800, 2), 15);
    assert_eq!(lines_per_column(0, 1), 1);
    assert!(render_pixels(&rows, &measures(1, 50, 50), 300, 800, i32::MAX).is_none());
    // Margins of 26, a gap of 22 and a description of 100 beside the keys.
    let widest = i32::MAX - 52 - 22 - 100;
    assert!(render_pixels(&rows, &measures(1, widest, 100), 300, 800, 1).is_some());
    assert!(render_pixels(&rows, &measures(1, widest + 1, 100), 300, 800, 1).is_none());
}

#[test]
fn a_band_is_there_in_full_or_not_at_all() {
    assert_eq!(band_range(400, 10, 2, 3), Some((80, 200)));
    assert_eq!(band_range(199, 10, 2, 3), None);
    assert_eq!(band_range(400, 10, 2, 0), None);
    assert_eq!(band_range(usize::MAX, u32::MAX, u32::MAX, u32::MAX), None);
    assert!(is_path_line("Run sh   ·   /bin/sh"));
    assert!(!is_path_line("Run sh"));
}

#[test]
fn corners_are_mirrored_and_the_rest_is_filled() {
    let color = Rgba {
        r: 1,
        g: 2,
        b: 3,
        a: 200,
    };
    assert_eq!(corner_radius_of(4, 6, 9), 2);
    let corner = [None, Some(20), Some(30), Some(40)];
    let mut pixels = vec![9u8; 4 * 6 * 4 + 1];
    fill_rounded_rect(&mut pixels, 4, 6, 9, color, &corner);
    let alpha = |x: usize, y: usize| pixels[(y * 4 + x) * 4 + 3];
    // Outside the arc nothing is painted.
    assert_eq!(&pixels[0..4], &[9, 9, 9, 9]);
    for (x, y) in [(0, 0), (3, 0), (0, 5), (3, 5)] {
        assert_eq!(alpha(x, y), 9);
    }
    for (x, y) in [(1, 0), (2, 0), (1, 5), (2, 5)] {
        assert_eq!(alpha(x, y), 20);
    }
    for (x, y) in [(0, 1), (3, 1), (0, 4), (3, 4)] {
        assert_eq!(alpha(x, y), 30);
    }
    assert_eq!(alpha(0, 2), 200);
    assert_eq!(&pixels[8 * 4..8 * 4 + 3], &[1, 2, 3]);
    assert_eq!(pixels[4 * 6 * 4], 9);
    let card = card_pixels(4, 6, 9, color, &corner);
    assert_eq!(card.len(), 4 * 6 * 4);
    assert_eq!(&card[0..8], &[0, 0, 0, 0, 1, 2, 3, 20]);
    assert_eq!(&card[8 * 4..9 * 4], &[1, 2, 3, 200]);
}

#[test]
fn the_card_is_drawn_once_for_what_it_shows() {
    let rows = vec![
        row(Category::Apps, "a", "b"),
        row(Category::System, "c", "d"),
    ];
    assert_eq!(signature(&rows), "0\u{1}a\u{1}b\u{2}5\u{1}c\u{1}d");
    let key = |w: i32| CardKey {
        signature: signature(&rows),
        w,
        h: 5,
        scale: 2,
    };
    let cache = HelpOverlayCache {
        key: key(10),
        buffer: (),
        size: Size::new(20, 20),
    };
    let step = |visible: bool, fonts: bool, rows: &[Row], w: i32| {
        build_help_overlay_elements(visible, fonts, rows, Some(&cache), &key(w))
    };
    assert_eq!(step(true, true, &rows, 10), OverlayStep::Keep);
    assert_eq!(step(true, true, &rows, 11), OverlayStep::Draw);
    assert_eq!(step(false, true, &rows, 10), OverlayStep::Drop);
    assert_eq!(step(true, false, &rows, 10), OverlayStep::Drop);
    assert_eq!(step(true, true, &[], 10), OverlayStep::Drop);
    assert_eq!(
        build_help_overlay_elements::<()>(true, true, &rows, None, &key(10)),
        OverlayStep::Draw
    );
}

#[test]
fn the_card_is_centred_on_its_output() {
    assert_eq!(overlay_bounds(Size::new(1920, 1080), 2), (3648, 1968));
    assert_eq!(overlay_bounds(Size::new(100, 100), 1), (200, 120));
    assert_eq!(
        card_origin(Size::new(1920, 1080), Size::new(1001, 400), 2),
        Point::new(710, 440)
    );
    // A card that is too large hangs over both edges, rounded towards 0.
    assert_eq!(
        card_origin(Size::new(101, 100), Size::new(204, 205), 1),
        Point::new(-51, -52)
    );
}
