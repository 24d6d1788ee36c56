use xtop::chooser::{
    active_profile_index, centered_rect, chooser_popup, same_path, Command, LineStyle, PathKey, Session,
};
use xtop::config::ProfileInfo;
use xtop::event::{action_for_key, Action, Key, KeyInput};
use xtop::layout::Rect;
use xtop::theme::{Color, Theme};
use xtop::util::fmt_bytes;
use xtop::config::GpuMode;
use xtop::widgets::{
    block_symbol, compact_gpu_name, format_duration, graph_cell_layout, graph_window,
    history_span_label, history_window_label, now_label_column, sparkline_layout, use_compact_view,
    CellPlan,
    SparklineLabels,
};
use xtop::layout::Constraint;
use xtop::widgets::{
    compact_section_plan, memory_constraints, memory_rows, memory_rows_from, section_constraints,
    section_rows_from, SectionPlan,
};

fn key(k: Key) -> KeyInput {
    KeyInput { key: k, control: false, release: false }
}

fn profiles(names: &[&str]) -> Vec<ProfileInfo> {
    names
        .iter()
        .map(|n| ProfileInfo { name: n.to_string(), path: format!("/cfg/{n}") })
        .collect()
}

#[test]
fn history_window_label_reflects_visible_plot_samples() {
    assert_eq!(history_window_label(240, 125, 1000), "-3m");
    assert_eq!(history_window_label(10, 20, 500), "-4s");
}

#[test]
fn span_labels_count_two_samples_per_column() {
    assert_eq!(history_span_label(240, 10, 1000), "-19s");
    assert_eq!(history_span_label(0, 10, 1000), "-1s");
    assert_eq!(history_window_label(1, 3, 1000), "-1s");
}

#[test]
fn durations_use_seconds_minutes_then_hours() {
    assert_eq!(format_duration(0), "1s");
    assert_eq!(format_duration(59_999), "59s");
    assert_eq!(format_duration(60_000), "1m");
    assert_eq!(format_duration(3_599_000), "59m");
    assert_eq!(format_duration(7_200_000), "2h");
}

#[test]
fn block_symbols_fill_by_eighths() {
    assert_eq!(block_symbol(1), "▁");
    assert_eq!(block_symbol(4), "▄");
    assert_eq!(block_symbol(7), "▇");
    assert_eq!(block_symbol(8), "█");
    assert_eq!(block_symbol(0), "█");
}

#[test]
fn compact_gpu_names_drop_the_vendor() {
    assert_eq!(compact_gpu_name("  NVIDIA GH200 480GB "), "GH200 480GB");
    assert_eq!(compact_gpu_name("Tesla V100"), "Tesla V100");
}

#[test]
fn fmt_bytes_matches_float_formatting() {
    for &b in &[0u64, 1, 1023, 1024, 1536, 1_048_575, 1_048_576, 5_000_000_000, u64::MAX, 1_125_899_906_842_624 * 3] {
        let mut v = b as f64;
        let mut unit = 0;
        let units = ["B", "KiB", "MiB", "GiB", "TiB", "PiB"];
        while v >= 1024.0 && unit < units.len() - 1 {
            v /= 1024.0;
            unit += 1;
        }
        let expected = if unit == 0 { format!("{b} B") } else { format!("{v:.1} {}", units[unit]) };
        assert_eq!(fmt_bytes(b), expected, "bytes {b}");
    }
    assert_eq!(fmt_bytes(1536), "1.5 KiB");
}

#[test]
fn keys_map_to_documented_actions() {
    assert_eq!(action_for_key(key(Key::Char('q'))), Action::Quit);
    assert_eq!(action_for_key(KeyInput { key: Key::Char('c'), control: true, release: false }), Action::Quit);
    assert_eq!(action_for_key(key(Key::Char('c'))), Action::Idle);
    assert_eq!(action_for_key(key(Key::Esc)), Action::Cancel);
    assert_eq!(action_for_key(key(Key::Char(' '))), Action::TogglePause);
    assert_eq!(action_for_key(key(Key::Char('p'))), Action::TogglePause);
    assert_eq!(action_for_key(key(Key::Char('l'))), Action::OpenProfiles);
    assert_eq!(action_for_key(key(Key::Char('k'))), Action::MoveProfileUp);
    assert_eq!(action_for_key(key(Key::Up)), Action::MoveProfileUp);
    assert_eq!(action_for_key(key(Key::Char('j'))), Action::MoveProfileDown);
    assert_eq!(action_for_key(key(Key::Down)), Action::MoveProfileDown);
    assert_eq!(action_for_key(key(Key::Enter)), Action::SelectProfile);
    assert_eq!(action_for_key(KeyInput { key: Key::Char('q'), control: false, release: true }), Action::Idle);
}

#[test]
fn chooser_moves_wrap_and_come_back() {
    let mut s = Session::new();
    s.refresh_profiles(profiles(&["default.toml", "simple.toml", "wide.toml"]), Some(1));
    assert_eq!(s.highlighted_index, 1);
    s.move_highlight(1);
    assert_eq!(s.highlighted_index, 1, "closed chooser does not move");
    s.chooser_opened();
    s.move_highlight(1);
    s.move_highlight(1);
    assert_eq!(s.highlighted_index, 0);
    s.move_highlight(-1);
    assert_eq!(s.highlighted_index, 2);
    s.move_highlight(1);
    assert_eq!(s.highlighted_index, 0);
}

#[test]
fn pause_and_cancel_depend_on_the_chooser() {
    let mut s = Session::new();
    s.refresh_profiles(profiles(&["default.toml", "wide.toml"]), None);
    assert!(matches!(s.handle(Action::TogglePause), Command::Redraw));
    assert!(s.paused);
    assert!(matches!(s.handle(Action::OpenProfiles), Command::ListProfiles));
    s.chooser_opened();
    s.handle(Action::TogglePause);
    assert!(s.paused, "pause is ignored while choosing");
    s.handle(Action::MoveProfileDown);
    match s.handle(Action::SelectProfile) {
        Command::ApplyProfile(p) => assert_eq!(p.name, "wide.toml"),
        other => panic!("expected a profile to apply, got {other:?}"),
    }
    assert!(matches!(s.handle(Action::Cancel), Command::Redraw));
    assert!(!s.chooser_open);
    assert!(matches!(s.handle(Action::Cancel), Command::Quit));
    assert!(matches!(s.handle(Action::Quit), Command::Quit));
}

#[test]
fn chooser_lines_mark_highlight_and_active() {
    let mut s = Session::new();
    s.refresh_profiles(profiles(&["default.toml", "wide.toml"]), Some(1));
    s.chooser_opened();
    s.move_highlight(1);
    assert_eq!(s.chooser_line(0), ">  default.toml");
    assert_eq!(s.chooser_line(1), " * wide.toml");
    assert_eq!(s.line_style(0), LineStyle::Highlighted);
    assert_eq!(s.line_style(1), LineStyle::Active);
    assert_eq!(s.active_profile_name(), "wide.toml");
    s.profile_applied("wide.toml");
    assert_eq!(s.message.as_deref(), Some("layout: wide.toml"));
    let empty = Session::new();
    assert_eq!(empty.active_profile_name(), "unknown");
}

#[test]
fn active_profile_is_found_by_resolved_path() {
    let key = |raw: &str, canonical: Option<&str>| PathKey {
        raw: raw.to_string(),
        canonical: canonical.map(|c| c.to_string()),
    };
    let list = vec![key("/a/default.toml", Some("/a/default.toml")), key("/a/wide.toml", Some("/b/wide.toml"))];
    assert_eq!(active_profile_index(&list, &key("/a/selected.toml", Some("/b/wide.toml"))), Some(1));
    assert_eq!(active_profile_index(&list, &key("/a/wide.toml", None)), Some(1));
    assert_eq!(active_profile_index(&list, &key("/x", None)), None);
}

#[test]
fn popup_is_centred_and_sized_to_the_list() {
    let area = Rect::new(0, 0, 100, 40);
    assert_eq!(centered_rect(56, 7, area), Rect::new(22, 16, 56, 7));
    assert_eq!(chooser_popup(area, 3), Some(Rect::new(22, 16, 56, 7)));
    assert_eq!(chooser_popup(Rect::new(0, 0, 20, 6), 10), Some(Rect::new(1, 0, 18, 5)));
    assert_eq!(chooser_popup(Rect::new(0, 0, 11, 10), 1), None);
}

#[test]
fn themes_are_chosen_by_name() {
    assert_eq!(Theme::by_name("mono").title, Color::White);
    assert_eq!(Theme::by_name("default").title, Color::Cyan);
    assert_eq!(Theme::by_name("anything").high, Color::Red);
}

#[test]
fn gpu_view_turns_compact_from_four_devices_in_auto_mode() {
    assert!(!use_compact_view(GpuMode::Auto, 3));
    assert!(use_compact_view(GpuMode::Auto, 4));
    assert!(use_compact_view(GpuMode::Compact, 1));
    assert!(!use_compact_view(GpuMode::PerDevice, 8));
}

#[test]
fn graph_window_keeps_newest_samples_at_the_right() {
    // Ten samples on a three-column braille graph (six dot columns).
    let w = graph_window(10, 6);
    assert_eq!((w.first, w.start), (4, 0));
    let w = graph_window(2, 6);
    assert_eq!((w.first, w.start), (0, 4));
    let w = graph_window(0, 6);
    assert_eq!((w.first, w.start), (0, 6));
}

#[test]
fn labelled_graph_keeps_a_gutter_and_an_axis_row() {
    let labels = SparklineLabels {
        y_top: "100%",
        y_middle: "50%",
        y_bottom: "0%",
        x_left: "-3m",
        x_right: "now",
    };
    let layout = sparkline_layout(Rect::new(0, 0, 40, 10), &labels).unwrap();
    assert_eq!(layout.graph, Rect::new(5, 0, 35, 9));
    assert_eq!(layout.label_width, 4);
    assert_eq!((layout.top_y, layout.middle_y, layout.bottom_y, layout.axis_y), (0, 4, 8, 9));
    assert_eq!(layout.right_x, Some(37));
    assert!(sparkline_layout(Rect::new(0, 0, 20, 10), &labels).is_none());
    assert!(sparkline_layout(Rect::new(0, 0, 40, 4), &labels).is_none());
}

#[test]
fn graph_cells_reserve_title_and_axis_rows() {
    assert_eq!(
        graph_cell_layout(Rect::new(0, 0, 10, 5), true),
        CellPlan::Titled { graph: Rect::new(0, 1, 10, 3), axis: Some(Rect::new(0, 4, 10, 1)) }
    );
    assert_eq!(
        graph_cell_layout(Rect::new(0, 0, 10, 2), true),
        CellPlan::Titled { graph: Rect::new(0, 1, 10, 1), axis: None }
    );
    assert_eq!(graph_cell_layout(Rect::new(0, 0, 10, 1), false), CellPlan::Plain);
    assert_eq!(graph_cell_layout(Rect::new(0, 0, 0, 5), true), CellPlan::Nothing);
}

#[test]
fn now_sits_at_the_right_end_when_it_fits_beside_the_span() {
    let axis = Rect::new(2, 9, 10, 1);
    assert_eq!(now_label_column(axis, "-4s"), Some(9));
    assert_eq!(now_label_column(axis, "-1h2m"), Some(9));
    assert_eq!(now_label_column(axis, "-1h20m"), None);
    assert_eq!(now_label_column(Rect::new(0, 0, 3, 1), ""), None);
    assert_eq!(now_label_column(Rect::new(0, 0, 4, 1), ""), None);
    assert_eq!(now_label_column(Rect::new(0, 0, 5, 1), ""), Some(2));
}

#[test]
fn compact_sections_grow_rows_with_height() {
    assert_eq!(compact_section_plan(Rect::new(0, 0, 0, 5)), SectionPlan::Nothing);
    assert_eq!(compact_section_plan(Rect::new(0, 0, 20, 2)), SectionPlan::Summary);
    match compact_section_plan(Rect::new(0, 0, 20, 4)) {
        SectionPlan::Rows { summary, per_device, graph } => {
            assert_eq!(summary, Rect::new(0, 0, 20, 1));
            assert_eq!(per_device, None);
            assert_eq!(graph, Rect::new(0, 1, 20, 3));
        }
        other => panic!("expected rows, got {other:?}"),
    }
    match compact_section_plan(Rect::new(2, 3, 20, 8)) {
        SectionPlan::Rows { summary, per_device, graph } => {
            assert_eq!(summary, Rect::new(2, 3, 20, 1));
            assert_eq!(per_device, Some(Rect::new(2, 4, 20, 1)));
            assert_eq!(graph, Rect::new(2, 5, 20, 6));
        }
        other => panic!("expected rows, got {other:?}"),
    }
}

#[test]
fn memory_rows_follow_the_shown_parts() {
    let m = memory_rows(Rect::new(0, 0, 30, 10), true, true);
    assert_eq!(m.ram_text, Rect::new(0, 0, 30, 1));
    assert_eq!(m.usage_bar, Some(Rect::new(0, 1, 30, 1)));
    assert_eq!(m.swap, Some((Rect::new(0, 2, 30, 1), Rect::new(0, 3, 30, 1))));
    assert_eq!(m.history, Rect::new(0, 4, 30, 6));
    let bare = memory_rows(Rect::new(0, 0, 30, 10), false, false);
    assert_eq!(bare.usage_bar, None);
    assert_eq!(bare.swap, None);
    assert_eq!(bare.history, Rect::new(0, 1, 30, 9));
}

#[test]
fn paths_compare_by_components() {
    let raw = |p: &str| PathKey { raw: p.to_string(), canonical: None };
    assert!(same_path(&raw("/cfg//a.toml"), &raw("/cfg/a.toml")));
    assert!(same_path(&raw("/cfg/./a.toml"), &raw("/cfg/a.toml")));
    assert!(same_path(&raw("cfg/"), &raw("cfg")));
    assert!(!same_path(&raw("./a.toml"), &raw("a.toml")));
    assert!(!same_path(&raw("/a.toml"), &raw("a.toml")));
    assert!(!same_path(&raw("/cfg/b.toml"), &raw("/cfg/a.toml")));
}

#[test]
fn chooser_popup_counts_profiles_as_u16() {
    let area = Rect::new(0, 0, 80, 24);
    assert_eq!(chooser_popup(area, 3), chooser_popup(area, 65536 + 3));
    assert_eq!(chooser_popup(area, 3), Some(Rect::new(12, 8, 56, 7)));
}

#[test]
fn row_constraints_and_rows_follow_the_shown_parts() {
    assert_eq!(
        memory_constraints(true, true),
        vec![
            Constraint::Length(1),
            Constraint::Length(1),
            Constraint::Length(1),
            Constraint::Length(1),
            Constraint::Fill(1)
        ]
    );
    assert_eq!(memory_constraints(false, false), vec![Constraint::Length(1), Constraint::Fill(1)]);
    assert_eq!(
        section_constraints(true),
        vec![Constraint::Length(1), Constraint::Length(1), Constraint::Fill(1)]
    );
    let rows: Vec<Rect> = (0..4u16).map(|i| Rect::new(0, i, 10, 1)).collect();
    let m = memory_rows_from(&rows, false, true);
    assert_eq!(m.ram_text, rows[0]);
    assert_eq!(m.usage_bar, None);
    assert_eq!(m.swap, Some((rows[1], rows[2])));
    assert_eq!(m.history, rows[3]);
    assert_eq!(
        section_rows_from(&rows[..3].to_vec(), true),
        SectionPlan::Rows { summary: rows[0], per_device: Some(rows[1]), graph: rows[2] }
    );
}
