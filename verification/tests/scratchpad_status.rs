use zellij_tools::scratchpad::config::{Origin, ScratchpadConfig};
use zellij_tools::scratchpad::{
    PersistedState, ScratchpadConfigs, ScratchpadContext, ScratchpadDisplayState, ScratchpadManager,
};
use zellij_tools::tree::PaneNode;

type Manifest = Vec<(usize, Vec<PaneNode>)>;

fn make_config(title: Option<&str>) -> ScratchpadConfig {
    ScratchpadConfig {
        command: vec!["bash".to_string()],
        x: None,
        y: None,
        width: None,
        height: None,
        origin: Origin::default(),
        title: title.map(ToString::to_string),
        cwd: None,
    }
}

fn configs(entries: &[(&str, Option<&str>)]) -> ScratchpadConfigs {
    let mut configs = ScratchpadConfigs::new();
    for (name, title) in entries {
        configs.insert(name.to_string(), make_config(*title));
    }
    configs
}

fn make_context(pane_manifest: &Manifest, tab_id_to_position: &[(usize, usize)]) -> ScratchpadContext {
    ScratchpadContext {
        pane_manifest: pane_manifest.clone(),
        current_tab_position: 0,
        current_tab_id: Some(10),
        are_floating_panes_visible: true,
        tab_id_to_position: tab_id_to_position.to_vec(),
        placements: Vec::new(),
    }
}

fn make_pane(id: u32, suppressed: bool, focused: bool) -> PaneNode {
    PaneNode {
        id,
        is_plugin: false,
        is_focused: focused,
        is_fullscreen: false,
        is_floating: true,
        is_suppressed: suppressed,
        title: String::new(),
        exited: false,
        exit_status: None,
        is_held: false,
        pane_x: 0,
        pane_content_x: 0,
        pane_y: 0,
        pane_content_y: 0,
        pane_rows: 0,
        pane_content_rows: 0,
        pane_columns: 0,
        pane_content_columns: 0,
        cursor_coordinates_in_pane: None,
        terminal_command: None,
        plugin_url: None,
        is_selectable: true,
    }
}

fn with_panes(manager: &mut ScratchpadManager, panes: &[(&str, usize, u32)]) {
    let state = PersistedState {
        panes: panes.iter().map(|(name, tab, pane)| ((name.to_string(), *tab), *pane)).collect(),
        focus_times: Vec::new(),
        focus_counter: 0,
    };
    assert!(manager.restore_state(state).is_empty());
}

#[test]
fn current_snapshot_reports_closed_without_current_tab_pane() {
    let manager = ScratchpadManager::new(configs(&[("term", None)]));
    let manifest: Manifest = Vec::new();
    let snapshot = manager.status_snapshot(&make_context(&manifest, &[(10, 0)]));
    assert_eq!(snapshot.current_items[0].name, "term");
    assert_eq!(snapshot.current_items[0].state, ScratchpadDisplayState::Closed);
    assert_eq!(snapshot.current_items[0].title, "term");
    assert!(!snapshot.current_items[0].is_mru);
}

#[test]
fn snapshot_reports_current_visible_and_focused() {
    let mut manager = ScratchpadManager::new(configs(&[("term", Some("Terminal"))]));
    with_panes(&mut manager, &[("term", 10, 42)]);
    let manifest: Manifest = vec![(0, vec![make_pane(42, false, true)])];
    let snapshot = manager.status_snapshot(&make_context(&manifest, &[(10, 0)]));
    assert_eq!(snapshot.current_items[0].state, ScratchpadDisplayState::Visible);
    assert!(snapshot.current_items[0].is_focused);
    assert!(snapshot.current_items[0].is_mru);
    assert_eq!(snapshot.current_items[0].pane_id, Some(42));
    assert_eq!(snapshot.current_items[0].title, "Terminal");
}

#[test]
fn global_snapshot_prefers_focused_visible_instance() {
    let mut manager = ScratchpadManager::new(configs(&[("term", None)]));
    with_panes(&mut manager, &[("term", 10, 42), ("term", 11, 43)]);
    let manifest: Manifest = vec![(0, vec![make_pane(42, false, false)]), (1, vec![make_pane(43, false, true)])];
    let snapshot = manager.status_snapshot(&make_context(&manifest, &[(10, 0), (11, 1)]));
    assert_eq!(snapshot.global_items[0].state, ScratchpadDisplayState::Visible);
    assert_eq!(snapshot.global_items[0].pane_id, Some(43));
    assert!(snapshot.global_items[0].is_focused);
    assert_eq!(snapshot.global_count_items.len(), 2);
    assert_eq!(
        snapshot.global_count_items.iter().filter(|item| item.state == ScratchpadDisplayState::Visible).count(),
        2
    );
}

#[test]
fn current_mru_matches_toggle_target_and_tracks_focus_changes() {
    let mut manager = ScratchpadManager::new(configs(&[("term", None), ("notes", None)]));
    let state = PersistedState {
        panes: vec![(("term".to_string(), 10), 42), (("notes".to_string(), 10), 43), (("notes".to_string(), 11), 44)],
        focus_times: vec![(("term".to_string(), 10), 2), (("notes".to_string(), 10), 1), (("notes".to_string(), 11), 3)],
        focus_counter: 3,
    };
    assert!(manager.restore_state(state).is_empty());
    let mut manifest: Manifest = vec![(0, vec![make_pane(42, true, false), make_pane(43, true, false)])];
    let positions = [(10, 0), (11, 1)];
    let ctx = make_context(&manifest, &positions);
    let snapshot = manager.status_snapshot(&ctx);
    let mru = snapshot.current_items.iter().find(|item| item.is_mru).unwrap();
    assert_eq!(mru.name, "term");
    assert_eq!(mru.state, ScratchpadDisplayState::Hidden);
    assert_eq!(Some(mru.name.clone()), manager.default_target(&ctx));
    assert!(snapshot.global_items.iter().all(|item| !item.is_mru));

    manifest[0].1[1] = make_pane(43, false, true);
    let ctx = make_context(&manifest, &positions);
    let snapshot = manager.status_snapshot(&ctx);
    assert!(snapshot.current_items[0].is_focused);
    assert!(snapshot.current_items[0].is_mru);
    assert!(!snapshot.current_items[1].is_mru);
    manager.on_pane_update(&ctx, &[]);

    manifest[0].1[1] = make_pane(43, true, false);
    let snapshot = manager.status_snapshot(&make_context(&manifest, &positions));
    assert!(!snapshot.current_items[0].is_focused);
    assert!(snapshot.current_items[0].is_mru);
    assert!(!snapshot.current_items[1].is_mru);
}

#[test]
fn global_snapshot_is_hidden_when_only_hidden_instances_exist() {
    let mut manager = ScratchpadManager::new(configs(&[("term", None)]));
    with_panes(&mut manager, &[("term", 10, 42)]);
    let manifest: Manifest = vec![(0, vec![make_pane(42, true, false)])];
    let snapshot = manager.status_snapshot(&make_context(&manifest, &[(10, 0)]));
    assert_eq!(snapshot.global_items[0].state, ScratchpadDisplayState::Hidden);
    assert_eq!(snapshot.global_items[0].pane_id, Some(42));
}

#[test]
fn snapshot_orders_names_and_uses_closed_items_for_exited_panes() {
    let mut manager = ScratchpadManager::new(configs(&[("zeta", None), ("alpha", Some("A"))]));
    with_panes(&mut manager, &[("zeta", 10, 5)]);
    let mut exited = make_pane(5, false, false);
    exited.exited = true;
    let manifest: Manifest = vec![(0, vec![exited])];
    let snapshot = manager.status_snapshot(&make_context(&manifest, &[(10, 0)]));
    let names: Vec<_> = snapshot.current_items.iter().map(|item| item.name.as_str()).collect();
    assert_eq!(names, ["alpha", "zeta"]);
    assert_eq!(snapshot.current_items[0].title, "A");
    assert_eq!(snapshot.current_items[1].state, ScratchpadDisplayState::Closed);
    assert_eq!(snapshot.global_count_items.len(), 2);
    assert!(snapshot.global_items.iter().all(|item| item.state == ScratchpadDisplayState::Closed));
}
