use terminal_demo::panels::Kind;
use terminal_demo::layouts::{reset_layout_kind, 
    clears_current, delete_layout, layout_label, layout_name_from_input, load_current_layout,
    overwrite_target, preset_display, resolve_layout_request, save_button_text,
    set_current_layout, upsert_layout, CurrentLayoutKind, LayoutSource, Preset, SavedLayouts,
    PRESET_FUNDAMENTAL, PRESET_GENERAL, PRESET_TECHNICAL,
};

fn names<V>(l: &SavedLayouts<V>) -> Vec<String> {
    l.names_list()
}

#[test]
fn saved_layouts_listed_alphabetically() {
    let mut l: SavedLayouts<u32> = SavedLayouts::new();
    upsert_layout(&mut l, "Momentum", 1);
    upsert_layout(&mut l, "Alpha", 2);
    upsert_layout(&mut l, "Zeta", 3);
    upsert_layout(&mut l, "Beta", 4);
    assert_eq!(names(&l), vec!["Alpha", "Beta", "Momentum", "Zeta"]);
    // byte order: upper case before lower case
    upsert_layout(&mut l, "alpha", 5);
    assert_eq!(names(&l), vec!["Alpha", "Beta", "Momentum", "Zeta", "alpha"]);
    assert_eq!(l.len(), 5);
}

#[test]
fn upsert_overwrites_and_get_reads_back() {
    let mut l: SavedLayouts<&str> = SavedLayouts::new();
    assert!(l.is_empty());
    upsert_layout(&mut l, "Swing", "v1");
    assert_eq!(l.get("Swing"), Some(&"v1"));
    upsert_layout(&mut l, "Swing", "v2");
    assert_eq!(l.get("Swing"), Some(&"v2"));
    assert_eq!(l.len(), 1);
    assert_eq!(l.get("swing"), None);
}

#[test]
fn delete_reports_whether_anything_was_removed() {
    let mut l: SavedLayouts<u8> = SavedLayouts::new();
    upsert_layout(&mut l, "A", 1);
    upsert_layout(&mut l, "B", 2);
    assert!(delete_layout(&mut l, "A"));
    assert_eq!(l.get("A"), None);
    assert!(!delete_layout(&mut l, "A"));
    assert_eq!(names(&l), vec!["B"]);
    assert_eq!(l.remove("B"), Some(2));
    assert!(l.is_empty());
}

#[test]
fn entries_follow_listing_order() {
    let mut l: SavedLayouts<i32> = SavedLayouts::new();
    l.insert("b".to_string(), 2);
    l.insert("a".to_string(), 1);
    let (n0, v0) = l.entry(0);
    let (n1, v1) = l.entry(1);
    assert_eq!((n0.as_str(), *v0), ("a", 1));
    assert_eq!((n1.as_str(), *v1), ("b", 2));
}

#[test]
fn presets() {
    assert_eq!(PRESET_GENERAL, "__preset_general");
    assert_eq!(Preset::from_id(PRESET_FUNDAMENTAL), Some(Preset::Fundamental));
    assert_eq!(Preset::from_id(PRESET_TECHNICAL), Some(Preset::Technical));
    assert_eq!(Preset::from_id("General"), None);
    let labels: Vec<&str> = Preset::all().into_iter().map(|p| p.label()).collect();
    assert_eq!(labels, vec!["General", "Fundamental", "Technical"]);
    for p in Preset::all() {
        assert_eq!(Preset::from_id(p.id()), Some(p));
    }
}

#[test]
fn preset_display_falls_back_to_id() {
    assert_eq!(preset_display("__preset_general"), "General");
    assert_eq!(preset_display("__preset_technical"), "Technical");
    assert_eq!(preset_display("__preset_new"), "__preset_new");
}

#[test]
fn current_layout_labels() {
    assert_eq!(layout_label(&CurrentLayoutKind::Unnamed), ("Layout".to_string(), false));
    assert_eq!(
        layout_label(&CurrentLayoutKind::Predefined { id: PRESET_FUNDAMENTAL.to_string() }),
        ("Fundamental".to_string(), false)
    );
    assert_eq!(
        layout_label(&CurrentLayoutKind::Saved { name: "Swing".to_string() }),
        ("Swing".to_string(), true)
    );
    assert_eq!(save_button_text(true), ("Save", "Save changes to current layout"));
    assert_eq!(
        save_button_text(false),
        ("Save As", "Save current layout under a new name (presets are read-only)")
    );
}

#[test]
fn current_layout_defaults_and_changes() {
    assert_eq!(load_current_layout(None), CurrentLayoutKind::Unnamed);
    assert_eq!(CurrentLayoutKind::default(), CurrentLayoutKind::Unnamed);
    let stored = CurrentLayoutKind::Saved { name: "X".to_string() };
    assert_eq!(load_current_layout(Some(stored.clone())), stored);
    let mut cur = CurrentLayoutKind::Unnamed;
    assert!(set_current_layout(&mut cur, stored.clone()));
    assert_eq!(cur, stored);
    assert!(!set_current_layout(&mut cur, CurrentLayoutKind::Saved { name: "X".to_string() }));
    assert!(set_current_layout(&mut cur, CurrentLayoutKind::Predefined { id: "X".to_string() }));
}

#[test]
fn save_and_delete_decisions() {
    let saved = CurrentLayoutKind::Saved { name: "Swing".to_string() };
    assert_eq!(overwrite_target(&saved), Some("Swing".to_string()));
    assert_eq!(overwrite_target(&CurrentLayoutKind::Predefined { id: PRESET_GENERAL.to_string() }), None);
    assert_eq!(overwrite_target(&CurrentLayoutKind::Unnamed), None);
    assert!(clears_current(&saved, "Swing"));
    assert!(!clears_current(&saved, "Other"));
    assert!(!clears_current(&CurrentLayoutKind::Predefined { id: "Swing".to_string() }, "Swing"));
    assert_eq!(layout_name_from_input("  My layout \n"), Some("My layout".to_string()));
    assert_eq!(layout_name_from_input(" \t "), None);
}

#[test]
fn apply_requests_resolve_presets_then_saved_layouts() {
    let mut l: SavedLayouts<u32> = SavedLayouts::new();
    upsert_layout(&mut l, "Swing", 42);
    match resolve_layout_request(PRESET_TECHNICAL, &l) {
        Some((LayoutSource::Preset(p), cur)) => {
            assert_eq!(p, Preset::Technical);
            assert_eq!(cur, CurrentLayoutKind::Predefined { id: PRESET_TECHNICAL.to_string() });
        }
        _ => panic!("expected a preset"),
    }
    match resolve_layout_request("Swing", &l) {
        Some((LayoutSource::Saved(v), cur)) => {
            assert_eq!(*v, 42);
            assert_eq!(cur, CurrentLayoutKind::Saved { name: "Swing".to_string() });
        }
        _ => panic!("expected the saved layout"),
    }
    assert!(resolve_layout_request("Missing", &l).is_none());
}

#[test]
fn preset_columns_and_reset() {
    let g = Preset::General.columns();
    assert_eq!(g, vec![
        (vec![Kind::Watchlist], Some(280)),
        (vec![Kind::Chart], None),
        (vec![Kind::Details], Some(320)),
    ]);
    let f = Preset::Fundamental.columns();
    assert_eq!(f[1], (vec![Kind::Portfolio, Kind::EconomicCalendar], None));
    assert_eq!(f[2].1, Some(360));
    let t = Preset::Technical.columns();
    assert_eq!(t[2], (vec![Kind::SmartMoney, Kind::Details], Some(320)));
    for p in Preset::all() {
        for (kinds, _) in p.columns() {
            assert!(kinds.iter().all(|k| !k.is_singleton()));
        }
    }
    assert_eq!(reset_layout_kind(), CurrentLayoutKind::Predefined { id: PRESET_GENERAL.to_string() });
}

#[test]
fn a_saved_layout_named_like_a_preset_is_shadowed_by_the_preset() {
    let mut l: SavedLayouts<u32> = SavedLayouts::new();
    upsert_layout(&mut l, PRESET_GENERAL, 9);
    assert_eq!(l.get(PRESET_GENERAL), Some(&9));
    assert!(matches!(
        resolve_layout_request(PRESET_GENERAL, &l),
        Some((LayoutSource::Preset(Preset::General), _))
    ));
}

#[test]
fn apply_after_delete_finds_nothing() {
    let mut l: SavedLayouts<u32> = SavedLayouts::new();
    upsert_layout(&mut l, "Swing", 1);
    assert!(delete_layout(&mut l, "Swing"));
    assert!(resolve_layout_request("Swing", &l).is_none());
}
