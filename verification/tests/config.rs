use xtop::config::decode::DecodeErrorKind;
use xtop::config::load::ConfigError;
use xtop::config::profile::{join_path, SelectedLink};
use xtop::config::{
    validate_split, Child, Config, Direction, GpuMode, GraphStyle, LayoutError, ProfileInfo,
    SizeSpec, Split, WidgetKind,
};
use xtop::layout::{child_constraints, child_slots, resolve, Constraint, Rect, SizeError, Slot};

fn names(files: &[&str]) -> Vec<String> {
    files.iter().map(|f| f.to_string()).collect()
}

#[test]
fn builtin_configuration_loads_with_documented_defaults() {
    let c = Config::load_profile(None).unwrap();
    assert_eq!(c.settings.update_ms, 1000);
    assert_eq!(c.settings.history, 240);
    assert_eq!(c.settings.theme, "default");
    assert_eq!(c.settings.graph_style, GraphStyle::Braille);
    assert_eq!(c.layout.direction, Direction::Vertical);
    assert_eq!(c.layout.children.len(), 2);
    assert_eq!(c.widgets.disk.graph_style, Some(GraphStyle::Bar));
    assert_eq!(c.widgets.network.graph_style, Some(GraphStyle::Bar));
    assert!(c.widgets.memory.show_swap);
    assert_eq!(c.widgets.gpu.mode, GpuMode::Auto);
}

#[test]
fn partial_profile_falls_back_to_builtin_defaults() {
    let c = Config::load_active(Some("[settings]\nhistory = 7\n")).unwrap();
    assert_eq!(c.settings.history, 7);
    assert_eq!(c.settings.update_ms, 1000);
    assert_eq!(c.layout.children.len(), 2);
    let d = Config::load(Some("[settings]\nhistory = 9\n")).unwrap();
    assert_eq!(d.settings.history, 9);
}

#[test]
fn profile_layout_replaces_the_builtin_children() {
    let text = "[layout]\ndirection = \"horizontal\"\nchildren = [\n  { size = \"50%\", split = { direction = \"vertical\", children = [\n      { widget = \"cpu\" },\n      { widget = \"gpu\" },\n  ] } },\n  { size = \"50%\", widget = \"memory\" },\n]\n";
    let c = Config::load_profile(Some(text)).unwrap();
    assert_eq!(c.layout.direction, Direction::Horizontal);
    assert_eq!(c.layout.children.len(), 2);
    assert_eq!(c.layout.children[1].widget, Some(WidgetKind::Memory));
    let nested = c.layout.children[0].split.as_ref().unwrap();
    assert_eq!(nested.children[1].widget, Some(WidgetKind::Gpu));
    assert!(matches!(&nested.children[0].size, SizeSpec::Keyword(k) if k == "fill"));
}

#[test]
fn unknown_keys_and_bad_values_are_refused() {
    match Config::load_profile(Some("[settings]\nhistroy = 7\n")) {
        Err(ConfigError::Decode(e)) => {
            assert_eq!(e.kind, DecodeErrorKind::UnknownField);
            assert_eq!(e.key, "histroy");
        }
        other => panic!("expected an unknown field, got {other:?}"),
    }
    match Config::load_profile(Some("[settings]\ntheme = 3\n")) {
        Err(ConfigError::Decode(e)) => {
            assert_eq!(e.kind, DecodeErrorKind::InvalidValue);
            assert_eq!(e.key, "theme");
        }
        other => panic!("expected an invalid value, got {other:?}"),
    }
    match Config::load_profile(Some("[widgets.gpu]\nmode = \"per_device\"\n")) {
        Ok(c) => assert_eq!(c.widgets.gpu.mode, GpuMode::PerDevice),
        other => panic!("expected a configuration, got {other:?}"),
    }
    assert!(matches!(
        Config::load_profile(Some("[settings\n")),
        Err(ConfigError::Parse(_))
    ));
}

#[test]
fn layout_children_must_set_one_of_widget_and_split() {
    let both = "[layout]\ndirection = \"vertical\"\nchildren = [ { widget = \"cpu\", split = { direction = \"vertical\", children = [ { widget = \"gpu\" } ] } } ]\n";
    assert!(matches!(
        Config::load_profile(Some(both)),
        Err(ConfigError::Layout(LayoutError::WidgetAndSplit))
    ));
    let neither = "[layout]\ndirection = \"vertical\"\nchildren = [ { size = \"fill\" } ]\n";
    assert!(matches!(
        Config::load_profile(Some(neither)),
        Err(ConfigError::Layout(LayoutError::NeitherWidgetNorSplit))
    ));
    let empty = "[layout]\ndirection = \"vertical\"\nchildren = []\n";
    assert!(matches!(
        Config::load_profile(Some(empty)),
        Err(ConfigError::Layout(LayoutError::EmptySplit))
    ));
}

#[test]
fn child_validation_reports_each_error() {
    let child = |widget: Option<WidgetKind>, split: Option<Split>| Child {
        size: SizeSpec::Keyword("fill".to_string()),
        widget,
        split,
    };
    assert!(child(Some(WidgetKind::Cpu), None).validate().is_ok());
    assert_eq!(child(None, None).validate(), Err(LayoutError::NeitherWidgetNorSplit));
    let inner = Split { direction: Direction::Vertical, children: vec![child(Some(WidgetKind::Disk), None)] };
    assert_eq!(child(Some(WidgetKind::Cpu), Some(inner)).validate(), Err(LayoutError::WidgetAndSplit));
    let empty = Split { direction: Direction::Horizontal, children: vec![] };
    assert_eq!(validate_split(&empty), Err(LayoutError::EmptySplit));
}

#[test]
fn size_specs_become_constraints() {
    assert_eq!(SizeSpec::Keyword(" 58% ".to_string()).to_constraint().unwrap(), Constraint::Percentage(58));
    assert_eq!(SizeSpec::Keyword("FILL".to_string()).to_constraint().unwrap(), Constraint::Fill(1));
    assert_eq!(SizeSpec::Keyword("min".to_string()).to_constraint().unwrap(), Constraint::Fill(1));
    assert_eq!(SizeSpec::Length { length: 3 }.to_constraint().unwrap(), Constraint::Length(3));
    assert_eq!(SizeSpec::Ratio { ratio: [1, 3] }.to_constraint().unwrap(), Constraint::Ratio(1, 3));
    assert!(SizeSpec::Keyword("abc%".to_string()).to_constraint().is_err());
    assert!(SizeSpec::Keyword("wide".to_string()).to_constraint().is_err());
}

#[test]
fn list_profiles_puts_default_first_and_skips_the_selected_link() {
    let files = names(&["wide.toml", "selected.toml", "notes.txt", "simple.toml", "default.toml", "gpu-detail.toml", ".toml"]);
    let profiles = Config::list_profiles("/home/u/.config/xtop", &files);
    let listed: Vec<&str> = profiles.iter().map(|p| p.name.as_str()).collect();
    assert_eq!(listed, vec!["default.toml", "gpu-detail.toml", "simple.toml", "wide.toml"]);
    assert_eq!(profiles[3].path, "/home/u/.config/xtop/wide.toml");
}

#[test]
fn active_profile_follows_the_selected_link() {
    let dir = "/cfg/xtop";
    assert_eq!(Config::active_profile_path(dir, &SelectedLink::Absent), "/cfg/xtop/default.toml");
    assert_eq!(
        Config::active_profile_path(dir, &SelectedLink::Link("/elsewhere/compact.toml".to_string())),
        "/elsewhere/compact.toml"
    );
    assert_eq!(
        Config::active_profile_path(dir, &SelectedLink::Link("compact.toml".to_string())),
        "/cfg/xtop/compact.toml"
    );
    assert_eq!(Config::active_profile_path(dir, &SelectedLink::NotALink), "/cfg/xtop/selected.toml");
}

#[test]
fn selecting_a_profile_links_selected_to_it() {
    let profile = ProfileInfo { name: "compact.toml".to_string(), path: "/cfg/xtop/compact.toml".to_string() };
    let req = Config::set_active_profile("/cfg/xtop/", &profile);
    assert_eq!(req.link, "/cfg/xtop/selected.toml");
    assert_eq!(req.target, "/cfg/xtop/compact.toml");
    let active = Config::active_profile_path("/cfg/xtop", &SelectedLink::Link(req.target.clone()));
    assert_eq!(active, profile.path);
}

#[test]
fn join_path_adds_one_separator() {
    assert_eq!(join_path("a", "b.toml"), "a/b.toml");
    assert_eq!(join_path("a/", "b.toml"), "a/b.toml");
    assert_eq!(join_path("", "b.toml"), "b.toml");
    assert_eq!(join_path("a", "/abs/b.toml"), "/abs/b.toml");
}

#[test]
fn nested_split_without_direction_is_a_missing_field() {
    let text = "[layout]\ndirection = \"vertical\"\nchildren = [ { split = { children = [ { widget = \"cpu\" } ] } } ]\n";
    match Config::load_profile(Some(text)) {
        Err(ConfigError::Decode(e)) => {
            assert_eq!(e.kind, DecodeErrorKind::MissingField);
            assert_eq!(e.key, "direction");
        }
        other => panic!("expected a missing field, got {other:?}"),
    }
}

#[test]
fn size_errors_tell_percentages_from_keywords() {
    assert!(matches!(
        SizeSpec::Keyword("12x%".to_string()).to_constraint(),
        Err(SizeError::InvalidPercentage(k)) if k == "12x%"
    ));
    assert!(matches!(
        SizeSpec::Keyword(" wide ".to_string()).to_constraint(),
        Err(SizeError::InvalidKeyword(k)) if k == "wide"
    ));
}

#[test]
fn resolve_places_widgets_in_tree_order() {
    let c = Config::load_profile(Some(
        "[layout]\ndirection = \"horizontal\"\nchildren = [ { size = \"50%\", widget = \"cpu\" }, { size = \"50%\", split = { direction = \"vertical\", children = [ { widget = \"disk\" }, { widget = \"network\" } ] } } ]\n",
    ))
    .unwrap();
    let placed = resolve(&c.layout, Rect::new(0, 0, 100, 10)).unwrap();
    let kinds: Vec<WidgetKind> = placed.iter().map(|p| p.0).collect();
    assert_eq!(kinds, vec![WidgetKind::Cpu, WidgetKind::Disk, WidgetKind::Network]);
    assert_eq!(placed[0].1, Rect::new(0, 0, 50, 10));
    assert_eq!(placed[1].1, Rect::new(50, 0, 50, 5));
    assert_eq!(placed[2].1, Rect::new(50, 5, 50, 5));
    let bad = Config::load_profile(Some(
        "[layout]\ndirection = \"horizontal\"\nchildren = [ { size = \"huge\", widget = \"cpu\" } ]\n",
    ))
    .unwrap();
    assert!(resolve(&bad.layout, Rect::new(0, 0, 100, 10)).is_err());
}

#[test]
fn load_active_falls_back_to_default_profile() {
    let dir = "/cfg/active-default";
    let path = Config::active_profile_path(dir, &SelectedLink::Absent);
    assert_eq!(path, "/cfg/active-default/default.toml");
    let config = Config::load_active(Some("[settings]\nhistory = 7\n")).unwrap();
    assert_eq!(config.settings.history, 7);
}

#[test]
fn set_active_profile_creates_selected_symlink() {
    let dir = "/cfg/selected";
    let target = ProfileInfo {
        name: "compact.toml".to_string(),
        path: join_path(dir, "compact.toml"),
    };
    let req = Config::set_active_profile(dir, &target);
    assert_eq!(req.link, "/cfg/selected/selected.toml");
    assert_eq!(req.target, target.path);
    let active = Config::active_profile_path(dir, &SelectedLink::Link(req.target.clone()));
    assert_eq!(active, target.path);
    let config = Config::load_active(Some("[settings]\nhistory = 9\n")).unwrap();
    assert_eq!(config.settings.history, 9);
}

#[test]
fn every_widget_is_placed_within_the_area() {
    let c = Config::load_profile(None).unwrap();
    let area = Rect::new(3, 2, 120, 40);
    let placed = resolve(&c.layout, area).unwrap();
    assert!(!placed.is_empty());
    for (_, r) in &placed {
        assert!(r.x >= area.x && r.x + r.width <= area.x + area.width);
        assert!(r.y >= area.y && r.y + r.height <= area.y + area.height);
    }
}

#[test]
fn list_profiles_includes_default_and_excludes_selected_pointer() {
    let files = names(&[
        "default.toml",
        "gpu-detail.toml",
        "simple.toml",
        "wide.toml",
        "selected.toml",
        "notes.txt",
    ]);
    let listed: Vec<String> =
        Config::list_profiles("/tmp/profiles", &files).into_iter().map(|p| p.name).collect();
    assert_eq!(listed, vec!["default.toml", "gpu-detail.toml", "simple.toml", "wide.toml"]);
}

#[test]
fn the_first_refused_key_in_key_order_is_reported() {
    match Config::load_profile(Some("[settings]\nzoom = 1\nhistory = \"long\"\n")) {
        Err(ConfigError::Decode(e)) => {
            assert_eq!(e.kind, DecodeErrorKind::InvalidValue);
            assert_eq!(e.key, "history");
        }
        other => panic!("expected an invalid value, got {other:?}"),
    }
    match Config::load_profile(Some("[settings]\nabc = 1\nhistory = \"long\"\n")) {
        Err(ConfigError::Decode(e)) => {
            assert_eq!(e.kind, DecodeErrorKind::UnknownField);
            assert_eq!(e.key, "abc");
        }
        other => panic!("expected an unknown field, got {other:?}"),
    }
    // A nested table's failure comes at its key, before later keys.
    match Config::load_profile(Some("wrong = 1\n[settings]\ntheme = 3\n")) {
        Err(ConfigError::Decode(e)) => {
            assert_eq!(e.kind, DecodeErrorKind::InvalidValue);
            assert_eq!(e.key, "theme");
        }
        other => panic!("expected an invalid value, got {other:?}"),
    }
}

#[test]
fn each_child_takes_the_rectangle_of_its_own_slot() {
    let fill = || SizeSpec::Keyword("fill".to_string());
    let children = vec![
        Child { size: fill(), widget: Some(WidgetKind::Cpu), split: None },
        Child {
            size: fill(),
            widget: None,
            split: Some(Split { direction: Direction::Vertical, children: Vec::new() }),
        },
        Child { size: fill(), widget: None, split: None },
    ];
    let rects = vec![Rect::new(0, 0, 3, 1), Rect::new(3, 0, 4, 1), Rect::new(7, 0, 5, 1)];
    let slots = child_slots(&children, &rects);
    assert_eq!(
        slots,
        vec![
            Slot::Widget(WidgetKind::Cpu, Rect::new(0, 0, 3, 1)),
            Slot::Split(Rect::new(3, 0, 4, 1)),
            Slot::Empty,
        ]
    );
}

#[test]
fn child_constraints_follow_the_sizes_in_order() {
    let child = |size: &str| Child { size: SizeSpec::Keyword(size.to_string()), widget: Some(WidgetKind::Cpu), split: None };
    let cs = child_constraints(&vec![child("30%"), child("fill")]).unwrap();
    assert_eq!(cs, vec![Constraint::Percentage(30), Constraint::Fill(1)]);
    match child_constraints(&vec![child("huge"), child("x%")]) {
        Err(SizeError::InvalidKeyword(k)) => assert_eq!(k, "huge"),
        other => panic!("expected the first bad size, got {other:?}"),
    }
}
