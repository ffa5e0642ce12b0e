use zellij_tools::scratchpad::config::{Origin, ScratchpadConfig};
use zellij_tools::scratchpad::{PersistedState, ScratchpadConfigs, ScratchpadListQuery, ScratchpadManager};
use zellij_tools::tree::PaneNode;

type Manifest = Vec<(usize, Vec<PaneNode>)>;

fn make_config(cmd: &str) -> ScratchpadConfig {
    ScratchpadConfig {
        command: vec![cmd.to_string()],
        x: None,
        y: None,
        width: None,
        height: None,
        origin: Origin::default(),
        title: None,
        cwd: None,
    }
}

fn configs(entries: &[(&str, &str)]) -> ScratchpadConfigs {
    let mut configs = ScratchpadConfigs::new();
    for (name, cmd) in entries {
        configs.insert(name.to_string(), make_config(cmd));
    }
    configs
}

fn make_pane_info(id: u32, is_floating: bool, is_suppressed: bool) -> PaneNode {
    PaneNode {
        id,
        is_plugin: false,
        is_focused: false,
        is_fullscreen: false,
        is_floating,
        is_suppressed,
        title: String::new(),
        exited: false,
        exit_status: None,
        is_held: false,
        pane_x: 0,
        pane_content_x: 0,
        pane_y: 0,
        pane_content_y: 0,
        pane_rows: 0,
        pane_content_rows: 0,
        pane_columns: 0,
        pane_content_columns: 0,
        cursor_coordinates_in_pane: None,
        terminal_command: None,
        plugin_url: None,
        is_selectable: true,
    }
}

fn with_panes(manager: &mut ScratchpadManager, panes: &[(&str, usize, u32)]) {
    let state = PersistedState {
        panes: panes.iter().map(|(name, tab, pane)| ((name.to_string(), *tab), *pane)).collect(),
        focus_times: Vec::new(),
        focus_counter: 0,
    };
    manager.restore_state(state);
}

fn query(names: &[&str], tab_id: Option<u64>, full: bool) -> ScratchpadListQuery {
    ScratchpadListQuery { names: names.iter().map(|n| n.to_string()).collect(), tab_id, full }
}

#[test]
fn list_empty_manager() {
    let manager = ScratchpadManager::new(ScratchpadConfigs::new());
    let manifest: Manifest = Vec::new();
    let entries = manager.list(&query(&[], None, false), &manifest, &[]);
    assert!(entries.is_empty());
}

#[test]
fn list_configured_scratchpad_no_instances() {
    let manager = ScratchpadManager::new(configs(&[("term", "nu")]));
    let manifest: Manifest = Vec::new();
    let entries = manager.list(&query(&[], None, false), &manifest, &[]);
    assert_eq!(entries.len(), 1);
    assert_eq!(entries[0].name, "term");
    assert_eq!(entries[0].command.as_deref(), Some(&["nu".to_string()][..]));
    assert!(!entries[0].orphaned);
    assert!(entries[0].instances.is_empty());
}

#[test]
fn list_with_active_instance() {
    let mut manager = ScratchpadManager::new(configs(&[("term", "nu")]));
    with_panes(&mut manager, &[("term", 1, 42)]);
    let manifest: Manifest = vec![(0, vec![make_pane_info(42, true, false)])];
    let entries = manager.list(&query(&[], None, false), &manifest, &[(1, 0)]);
    assert_eq!(entries.len(), 1);
    assert_eq!(entries[0].instances.len(), 1);
    assert_eq!(entries[0].instances[0].tab_id, 1);
    assert_eq!(entries[0].instances[0].pane_id, 42);
    assert!(entries[0].instances[0].visible);
    assert!(entries[0].instances[0].pane.is_none());
}

#[test]
fn list_with_hidden_instance() {
    let mut manager = ScratchpadManager::new(configs(&[("term", "nu")]));
    with_panes(&mut manager, &[("term", 1, 42)]);
    let manifest: Manifest = vec![(0, vec![make_pane_info(42, true, true)])]; // suppressed
    let entries = manager.list(&query(&[], None, false), &manifest, &[(1, 0)]);
    assert!(!entries[0].instances[0].visible);
}

#[test]
fn list_with_name_filter() {
    let manager = ScratchpadManager::new(configs(&[("term", "nu"), ("htop", "htop")]));
    let manifest: Manifest = Vec::new();
    let entries = manager.list(&query(&["term"], None, false), &manifest, &[]);
    assert_eq!(entries.len(), 1);
    assert_eq!(entries[0].name, "term");
}

#[test]
fn list_with_tab_filter() {
    let mut manager = ScratchpadManager::new(configs(&[("term", "nu")]));
    with_panes(&mut manager, &[("term", 1, 42), ("term", 2, 99)]);
    let manifest: Manifest = vec![(0, vec![make_pane_info(42, true, false)]), (1, vec![make_pane_info(99, true, false)])];
    let entries = manager.list(&query(&[], Some(1), false), &manifest, &[(1, 0), (2, 1)]);
    assert_eq!(entries[0].instances.len(), 1);
    assert_eq!(entries[0].instances[0].tab_id, 1);
}

#[test]
fn list_full_includes_pane_info() {
    let mut manager = ScratchpadManager::new(configs(&[("term", "nu")]));
    with_panes(&mut manager, &[("term", 1, 42)]);
    let mut pane = make_pane_info(42, true, false);
    pane.title = "my terminal".to_string();
    let manifest: Manifest = vec![(0, vec![pane])];
    let entries = manager.list(&query(&[], None, true), &manifest, &[(1, 0)]);
    let pane_node = entries[0].instances[0].pane.as_ref().unwrap();
    assert_eq!(pane_node.title, "my terminal");
    assert!(pane_node.is_floating);
}

#[test]
fn list_entries_sorted_by_name() {
    let manager = ScratchpadManager::new(configs(&[("zebra", "z"), ("alpha", "a"), ("mid", "m")]));
    let manifest: Manifest = Vec::new();
    let entries = manager.list(&query(&[], None, false), &manifest, &[]);
    let names: Vec<&str> = entries.iter().map(|e| e.name.as_str()).collect();
    assert_eq!(names, vec!["alpha", "mid", "zebra"]);
}

#[test]
fn list_includes_orphaned_scratchpads_without_command() {
    let mut manager = ScratchpadManager::new(configs(&[("term", "nu"), ("htop", "htop")]));
    with_panes(&mut manager, &[("htop", 3, 7)]);
    manager.reconcile_config(configs(&[("term", "nu")]));
    let manifest: Manifest = vec![(0, vec![make_pane_info(7, true, false)])];
    let entries = manager.list(&query(&[], None, false), &manifest, &[(3, 0)]);
    assert_eq!(entries.len(), 2);
    assert_eq!(entries[0].name, "htop");
    assert!(entries[0].orphaned);
    assert!(entries[0].command.is_none());
    assert_eq!(entries[0].instances[0].tab_position, Some(0));
    assert_eq!(entries[1].name, "term");
}
