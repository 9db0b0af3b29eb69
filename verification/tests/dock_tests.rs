use terminal_demo::dock::{
    dock_state_without_singletons, is_current_version, panel_tree_has_singleton,
    prune_singletons_from_state, prunes_to_nothing, DockAreaState, PanelInfo, PanelState,
    LAYOUT_VERSION,
};

type State = PanelState<f32, String, ()>;

fn panel(name: &str) -> State {
    PanelState { panel_name: name.to_string(), children: vec![], info: PanelInfo::Panel(format!("{{\"{name}\"}}")) }
}

fn tabs(children: Vec<State>, active_index: usize) -> State {
    PanelState { panel_name: "TabPanel".to_string(), children, info: PanelInfo::Tabs { active_index } }
}

fn stack(children: Vec<State>, sizes: Vec<f32>) -> State {
    PanelState { panel_name: "StackPanel".to_string(), children, info: PanelInfo::Stack { sizes, axis: 1 } }
}

fn names(s: &State) -> Vec<String> {
    let mut out = Vec::new();
    if let PanelInfo::Panel(_) = s.info {
        out.push(s.panel_name.clone());
    }
    for c in &s.children {
        out.extend(names(c));
    }
    out
}

#[test]
fn singleton_leaves_are_pruned() {
    let tree = stack(
        vec![
            tabs(vec![panel("Watchlist")], 0),
            tabs(vec![panel("Chart"), panel("AiChat"), panel("Details")], 2),
            tabs(vec![panel("Position")], 0),
        ],
        vec![280.0, 500.0, 120.0],
    );
    assert!(panel_tree_has_singleton(&tree));
    assert!(!prunes_to_nothing(&tree));
    let pruned = prune_singletons_from_state(tree).unwrap();
    assert_eq!(names(&pruned), vec!["Watchlist", "Chart", "Details"]);
    assert!(!panel_tree_has_singleton(&pruned));
    match &pruned.info {
        PanelInfo::Stack { sizes, axis } => {
            assert_eq!(sizes, &vec![280.0, 500.0]);
            assert_eq!(*axis, 1);
        }
        _ => panic!("expected a stack"),
    }
    assert_eq!(pruned.children.len(), 2);
    match pruned.children[1].info {
        PanelInfo::Tabs { active_index } => assert_eq!(active_index, 1),
        _ => panic!("expected tabs"),
    }
}

#[test]
fn sizes_follow_surviving_children_only_where_present() {
    let tree = stack(
        vec![tabs(vec![panel("Execution")], 0), panel("Chart"), panel("Details")],
        vec![10.0, 20.0],
    );
    let pruned = prune_singletons_from_state(tree).unwrap();
    match &pruned.info {
        PanelInfo::Stack { sizes, .. } => assert_eq!(sizes, &vec![20.0]),
        _ => panic!("expected a stack"),
    }
    assert_eq!(names(&pruned), vec!["Chart", "Details"]);
}

#[test]
fn everything_singleton_prunes_to_nothing() {
    let tree = stack(vec![tabs(vec![panel("AiChat")], 0), tabs(vec![panel("Position"), panel("Execution")], 1)], vec![]);
    assert!(prunes_to_nothing(&tree));
    assert!(prune_singletons_from_state(tree).is_none());
    assert!(prune_singletons_from_state(panel("AiChat")).is_none());
    assert!(prune_singletons_from_state(tabs(vec![], 0)).is_none());
}

#[test]
fn pruning_twice_changes_nothing_more() {
    let tree = stack(
        vec![tabs(vec![panel("Chart"), panel("AiChat")], 5), panel("Trump")],
        vec![1.0, 2.0, 3.0],
    );
    let once = prune_singletons_from_state(tree).unwrap();
    let once_names = names(&once);
    let twice = prune_singletons_from_state(once).unwrap();
    assert_eq!(names(&twice), once_names);
    match twice.children[0].info {
        PanelInfo::Tabs { active_index } => assert_eq!(active_index, 0),
        _ => panic!("expected tabs"),
    }
}

#[test]
fn persisted_state_without_singletons() {
    let center = stack(vec![tabs(vec![panel("Watchlist")], 0), tabs(vec![panel("AiChat")], 0)], vec![1.0, 2.0]);
    let state = DockAreaState { version: Some(LAYOUT_VERSION), center, docks: "docks" };
    assert!(is_current_version(&state));
    let out = dock_state_without_singletons(state);
    assert_eq!(out.version, Some(1));
    assert_eq!(out.docks, "docks");
    assert_eq!(names(&out.center), vec!["Watchlist"]);
}

#[test]
fn persisted_state_never_becomes_empty() {
    let center = tabs(vec![panel("AiChat")], 0);
    let state = DockAreaState { version: None, center, docks: () };
    assert!(!is_current_version(&state));
    let out = dock_state_without_singletons(state);
    assert_eq!(names(&out.center), vec!["AiChat"]);
}

#[test]
fn singleton_free_state_is_returned_as_is() {
    let center = stack(vec![panel("Chart")], vec![1.0, 2.0]);
    let state = DockAreaState { version: Some(2), center, docks: () };
    assert!(!is_current_version(&state));
    let out = dock_state_without_singletons(state);
    match &out.center.info {
        PanelInfo::Stack { sizes, .. } => assert_eq!(sizes.len(), 2),
        _ => panic!("expected a stack"),
    }
}
