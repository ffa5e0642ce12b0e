use zellij_tools::scratchpad::ScratchpadConfigs;
use zellij_tools::scratchpad::config::{Origin, ResolvedCoordinates, ScratchpadConfig};
use zellij_tools::scratchpad::{
    PersistedState, ScratchpadAction, ScratchpadCommand, ScratchpadContext, ScratchpadManager,
};
use zellij_tools::tree::PaneNode;

type Manifest = Vec<(usize, Vec<PaneNode>)>;

fn make_pane(id: u32, is_floating: bool, is_focused: bool) -> PaneNode {
    PaneNode {
        id,
        is_plugin: false,
        is_focused,
        is_fullscreen: false,
        is_floating,
        is_suppressed: false,
        title: String::new(),
        exited: false,
        exit_status: None,
        is_held: false,
        pane_x: 0,
        pane_content_x: 0,
        pane_y: 0,
        pane_content_y: 0,
        pane_rows: 0,
        pane_content_rows: 0,
        pane_columns: 0,
        pane_content_columns: 0,
        cursor_coordinates_in_pane: None,
        terminal_command: None,
        plugin_url: None,
        is_selectable: true,
    }
}

fn make_floating_pane(id: u32, is_focused: bool) -> PaneNode {
    make_pane(id, true, is_focused)
}

fn make_config(cmd: &str) -> ScratchpadConfig {
    ScratchpadConfig {
        command: vec![cmd.to_string()],
        x: None,
        y: None,
        width: None,
        height: None,
        origin: Origin::default(),
        title: None,
        cwd: None,
    }
}

fn make_configs(names: &[&str]) -> ScratchpadConfigs {
    let mut configs = ScratchpadConfigs::new();
    for name in names {
        configs.insert(name.to_string(), make_config("bash"));
    }
    configs
}

fn placements(names: &[&str]) -> Vec<(String, ResolvedCoordinates)> {
    names
        .iter()
        .map(|name| (name.to_string(), make_config("bash").place(None, None, 0, 0, 200, 50)))
        .collect()
}

fn make_context(
    pane_manifest: &Manifest,
    current_tab: usize,
    tab_id: Option<usize>,
    floating_visible: bool,
    tab_id_to_position: &[(usize, usize)],
    names: &[&str],
) -> ScratchpadContext {
    ScratchpadContext {
        pane_manifest: pane_manifest.clone(),
        current_tab_position: current_tab,
        current_tab_id: tab_id,
        are_floating_panes_visible: floating_visible,
        tab_id_to_position: tab_id_to_position.to_vec(),
        placements: placements(names),
    }
}

#[test]
fn show_unconfigured_scratchpad_is_noop() {
    let mut manager = ScratchpadManager::new(ScratchpadConfigs::new());
    let manifest: Manifest = Vec::new();
    let ctx = make_context(&manifest, 0, Some(0), true, &[], &[]);
    let commands = manager.handle_action(ScratchpadAction::Show { name: "unknown".to_string() }, &ctx);
    assert!(commands.is_empty());
}

#[test]
fn show_new_scratchpad_opens_floating() {
    let mut manager = ScratchpadManager::new(make_configs(&["term"]));
    let manifest: Manifest = Vec::new();
    let ctx = make_context(&manifest, 0, Some(0), true, &[(0, 0)], &["term"]);
    let commands = manager.handle_action(ScratchpadAction::Show { name: "term".to_string() }, &ctx);
    assert_eq!(commands.len(), 1);
    assert!(matches!(commands[0], ScratchpadCommand::OpenFloating { .. }));
}

#[test]
fn show_existing_scratchpad_shows_pane() {
    let mut manager = ScratchpadManager::new(make_configs(&["term"]));
    let manifest: Manifest = vec![(0, vec![make_floating_pane(42, true)])];
    let ctx = make_context(&manifest, 0, Some(0), true, &[(0, 0)], &["term"]);
    manager.register_pane("term", 0, 42);
    let commands = manager.handle_action(ScratchpadAction::Show { name: "term".to_string() }, &ctx);
    assert!(commands.iter().any(|c| matches!(c, ScratchpadCommand::ShowPane { pane_id: 42, .. })));
}

#[test]
fn hide_scratchpad_hides_pane() {
    let mut manager = ScratchpadManager::new(make_configs(&["term"]));
    let manifest: Manifest = vec![(0, vec![make_floating_pane(42, true)])];
    let ctx = make_context(&manifest, 0, Some(0), true, &[(0, 0)], &["term"]);
    manager.register_pane("term", 0, 42);
    let commands = manager.handle_action(ScratchpadAction::Hide { name: "term".to_string() }, &ctx);
    assert_eq!(commands.len(), 1);
    assert!(matches!(commands[0], ScratchpadCommand::HidePane { pane_id: 42 }));
}

#[test]
fn close_scratchpad_closes_pane() {
    let mut manager = ScratchpadManager::new(make_configs(&["term"]));
    let manifest: Manifest = vec![(0, vec![make_floating_pane(42, true)])];
    let ctx = make_context(&manifest, 0, Some(0), true, &[(0, 0)], &["term"]);
    manager.register_pane("term", 0, 42);
    let commands = manager.handle_action(ScratchpadAction::Close { name: "term".to_string() }, &ctx);
    assert_eq!(commands.len(), 1);
    assert!(matches!(commands[0], ScratchpadCommand::ClosePane { pane_id: 42 }));
}

#[test]
fn toggle_hidden_scratchpad_shows_it() {
    let mut manager = ScratchpadManager::new(make_configs(&["term"]));
    let mut pane = make_floating_pane(42, false);
    pane.is_suppressed = true;
    let manifest: Manifest = vec![(0, vec![pane])];
    let ctx = make_context(&manifest, 0, Some(0), true, &[(0, 0)], &["term"]);
    manager.register_pane("term", 0, 42);
    manager.clear_just_shown(); // Simulate PaneUpdate
    let commands = manager.handle_action(ScratchpadAction::Toggle { name: Some("term".to_string()) }, &ctx);
    assert!(commands.iter().any(|c| matches!(c, ScratchpadCommand::ShowPane { pane_id: 42, .. })));
}

#[test]
fn toggle_visible_focused_scratchpad_hides_it() {
    let mut manager = ScratchpadManager::new(make_configs(&["term"]));
    let manifest: Manifest = vec![(0, vec![make_floating_pane(42, true)])];
    let ctx = make_context(&manifest, 0, Some(0), true, &[(0, 0)], &["term"]);
    manager.register_pane("term", 0, 42);
    let commands = manager.handle_action(ScratchpadAction::Toggle { name: Some("term".to_string()) }, &ctx);
    assert!(commands.iter().any(|c| matches!(c, ScratchpadCommand::HidePane { pane_id: 42 })));
}

#[test]
fn on_pane_update_closes_exited_scratchpads() {
    let mut manager = ScratchpadManager::new(make_configs(&["term"]));
    manager.register_pane("term", 0, 42);
    let mut exited_pane = make_floating_pane(42, false);
    exited_pane.exited = true;
    let manifest: Manifest = vec![(0, vec![exited_pane])];
    let ctx = make_context(&manifest, 0, Some(0), true, &[(0, 0)], &["term"]);
    let commands = manager.on_pane_update(&ctx, &[]);
    assert!(commands.iter().any(|c| matches!(c, ScratchpadCommand::ClosePane { pane_id: 42 })));
}

#[test]
fn on_pane_update_closes_orphaned_tab_scratchpads() {
    let mut manager = ScratchpadManager::new(make_configs(&["term"]));
    let manifest: Manifest = vec![(0, vec![make_floating_pane(42, true)])];
    let ctx = make_context(&manifest, 0, Some(0), true, &[(0, 0)], &["term"]);
    manager.register_pane("term", 0, 42);
    // Tab 0 is now orphaned
    let commands = manager.on_pane_update(&ctx, &[0]);
    assert!(commands.iter().any(|c| matches!(c, ScratchpadCommand::ClosePane { pane_id: 42 })));
}

#[test]
fn mod_persisted_state_roundtrip() {
    let mut manager = ScratchpadManager::new(make_configs(&["term", "htop"]));
    let manifest: Manifest = vec![(0, vec![make_floating_pane(42, true)]), (1, vec![make_floating_pane(99, true)])];
    let positions = [(0, 0), (1, 1)];
    manager.register_pane("term", 0, 42);
    manager.register_pane("htop", 1, 99);
    let state = manager.persisted_state();
    assert_eq!(state.panes.len(), 2);
    assert_eq!(state.focus_times.len(), 2);
    assert!(state.focus_counter >= 2);
    let mut new_manager = ScratchpadManager::new(make_configs(&["term", "htop"]));
    let commands = new_manager.restore_state(state);
    // No orphans since configs match
    assert!(commands.is_empty());
    let ctx = make_context(&manifest, 0, Some(0), true, &positions, &["term", "htop"]);
    assert!(new_manager.get_pane("term", &ctx).is_some());
}

#[test]
fn restore_state_detects_orphans() {
    let mut manager = ScratchpadManager::new(make_configs(&["term"]));
    let state = PersistedState {
        panes: vec![(("term".to_string(), 0), 42), (("htop".to_string(), 0), 99)],
        focus_times: vec![(("term".to_string(), 0), 1), (("htop".to_string(), 0), 2)],
        focus_counter: 2,
    };
    let commands = manager.restore_state(state);
    // Should have command to show orphaned htop pane
    assert_eq!(commands.len(), 1);
    assert!(matches!(commands[0], ScratchpadCommand::ShowPane { pane_id: 99, .. }));
}

#[test]
fn reconcile_config_detects_orphans() {
    let mut manager = ScratchpadManager::new(make_configs(&["term", "htop"]));
    let manifest: Manifest = vec![(0, vec![make_floating_pane(42, true), make_floating_pane(99, false)])];
    let ctx = make_context(&manifest, 0, Some(0), true, &[(0, 0)], &["term"]);
    manager.register_pane("term", 0, 42);
    manager.register_pane("htop", 0, 99);
    // Reconcile with config that only has "term"
    let commands = manager.reconcile_config(make_configs(&["term"]));
    // Should show htop pane since it was removed from config
    assert_eq!(commands.len(), 1);
    assert!(matches!(commands[0], ScratchpadCommand::ShowPane { pane_id: 99, .. }));
    // Toggle on htop should be a no-op now
    let commands = manager.handle_action(ScratchpadAction::Toggle { name: Some("htop".to_string()) }, &ctx);
    assert!(commands.is_empty());
}

#[test]
fn reconcile_config_unorphans_readded_scratchpad() {
    let mut manager = ScratchpadManager::new(make_configs(&["term", "htop"]));
    let manifest: Manifest = vec![(0, vec![make_floating_pane(99, true)])];
    let ctx = make_context(&manifest, 0, Some(0), true, &[(0, 0)], &["term", "htop"]);
    manager.register_pane("htop", 0, 99);
    // Remove htop from config (orphan it)
    manager.reconcile_config(make_configs(&["term"]));
    // Re-add htop to config
    manager.reconcile_config(make_configs(&["term", "htop"]));
    // Toggle on htop should work again
    let commands = manager.handle_action(ScratchpadAction::Toggle { name: Some("htop".to_string()) }, &ctx);
    // Should try to hide since it's visible and focused
    assert!(!commands.is_empty());
}

#[test]
fn on_pane_update_cleans_up_missing_panes_silently() {
    let mut manager = ScratchpadManager::new(make_configs(&["term"]));
    manager.register_pane("term", 0, 42);
    // Pane 42 is gone from manifest entirely (closed externally)
    let empty_manifest: Manifest = Vec::new();
    let ctx = make_context(&empty_manifest, 0, Some(0), true, &[(0, 0)], &["term"]);
    let commands = manager.on_pane_update(&ctx, &[]);
    // No ClosePane command should be emitted (pane is already gone)
    assert!(
        !commands.iter().any(|c| matches!(c, ScratchpadCommand::ClosePane { .. })),
        "Should not emit ClosePane for panes already missing from manifest"
    );
    // The pane should be removed from tracking
    assert!(manager.get_pane("term", &ctx).is_none(), "Pane should be removed from tracking after cleanup");
}

#[test]
fn on_pane_update_closes_held_scratchpads() {
    let mut manager = ScratchpadManager::new(make_configs(&["term"]));
    manager.register_pane("term", 0, 42);
    // Pane is now held (e.g. command exited with exit-on-close disabled)
    let mut held_pane = make_floating_pane(42, false);
    held_pane.is_held = true;
    let manifest: Manifest = vec![(0, vec![held_pane])];
    let ctx = make_context(&manifest, 0, Some(0), true, &[(0, 0)], &["term"]);
    let commands = manager.on_pane_update(&ctx, &[]);
    assert!(
        commands.iter().any(|c| matches!(c, ScratchpadCommand::ClosePane { pane_id: 42 })),
        "Should emit ClosePane for held panes"
    );
    // Pane should be removed from tracking
    assert!(manager.get_pane("term", &ctx).is_none(), "Held pane should be removed from tracking");
}

#[test]
fn register_with_title_emits_rename() {
    let mut config = make_config("bash");
    config.title = Some("My Shell".to_string());
    let mut configs = ScratchpadConfigs::new();
    configs.insert("term".to_string(), config);
    let mut manager = ScratchpadManager::new(configs);
    let commands = manager.register_pane("term", 0, 42);
    assert!(
        commands.iter().any(|c| matches!(c, ScratchpadCommand::RenamePane { pane_id: 42, name } if name == "My Shell")),
        "Should emit RenamePane with the configured title"
    );
}

#[test]
fn register_without_title_uses_scratchpad_name() {
    let mut manager = ScratchpadManager::new(make_configs(&["term"]));
    let commands = manager.register_pane("term", 0, 42);
    assert!(
        commands.iter().any(|c| matches!(c, ScratchpadCommand::RenamePane { pane_id: 42, name } if name == "term")),
        "Should emit RenamePane with the scratchpad name as fallback"
    );
}

#[test]
fn register_with_cwd_sets_cwd_on_command() {
    let mut config = make_config("bash");
    config.cwd = Some("/tmp/work".to_string());
    let mut configs = ScratchpadConfigs::new();
    configs.insert("term".to_string(), config);
    let mut manager = ScratchpadManager::new(configs);
    let manifest: Manifest = Vec::new();
    let ctx = make_context(&manifest, 0, Some(0), true, &[(0, 0)], &["term"]);
    let commands = manager.handle_action(ScratchpadAction::Show { name: "term".to_string() }, &ctx);
    assert_eq!(commands.len(), 1);
    match &commands[0] {
        ScratchpadCommand::OpenFloating { cwd, command, .. } => {
            assert_eq!(cwd.as_deref(), Some("/tmp/work"), "the command should have its cwd set");
            assert_eq!(command, &vec!["bash".to_string()]);
        }
        other => panic!("Expected OpenFloating, got {:?}", other),
    }
}

#[test]
fn focus_pane_for_scratchpad_returns_show_commands() {
    let mut manager = ScratchpadManager::new(make_configs(&["term"]));
    let manifest: Manifest = vec![(0, vec![make_floating_pane(42, true)])];
    let ctx = make_context(&manifest, 0, Some(0), true, &[(0, 0)], &["term"]);
    manager.register_pane("term", 0, 42);
    manager.clear_just_shown();
    // focus-pane for a scratchpad should return show commands
    let result = manager.handle_focus_pane(42, &ctx);
    assert!(result.is_some(), "Should return commands for a scratchpad pane");
    let commands = result.unwrap();
    assert!(
        commands.iter().any(|c| matches!(c, ScratchpadCommand::ShowPane { pane_id: 42, .. })),
        "Should emit ShowPane with coordinates for the scratchpad"
    );
}

#[test]
fn focus_pane_for_non_scratchpad_returns_none() {
    let mut manager = ScratchpadManager::new(make_configs(&["term"]));
    let manifest: Manifest = Vec::new();
    let ctx = make_context(&manifest, 0, Some(0), true, &[], &["term"]);
    // Pane 99 is not a scratchpad
    let result = manager.handle_focus_pane(99, &ctx);
    assert!(result.is_none(), "Should return None for non-scratchpad pane");
}

#[test]
fn focus_pane_for_orphaned_scratchpad_returns_none() {
    let mut manager = ScratchpadManager::new(make_configs(&["term", "htop"]));
    let manifest: Manifest = vec![(0, vec![make_floating_pane(99, true)])];
    let ctx = make_context(&manifest, 0, Some(0), true, &[(0, 0)], &["term"]);
    manager.register_pane("htop", 0, 99);
    // Remove htop from config (orphan it)
    manager.reconcile_config(make_configs(&["term"]));
    // focus-pane for an orphaned scratchpad should return None
    let result = manager.handle_focus_pane(99, &ctx);
    assert!(result.is_none(), "Should return None for orphaned scratchpad pane");
}

#[test]
fn focus_pane_scratchpad_on_different_tab() {
    let mut manager = ScratchpadManager::new(make_configs(&["term"]));
    let manifest: Manifest = vec![(0, vec![make_floating_pane(42, true)]), (1, vec![])];
    let positions = [(0, 0), (1, 1)];
    manager.register_pane("term", 0, 42);
    manager.clear_just_shown();
    // Now we're on tab 1, but focusing a scratchpad on tab 0
    let ctx = make_context(&manifest, 1, Some(1), true, &positions, &["term"]);
    let result = manager.handle_focus_pane(42, &ctx);
    assert!(result.is_some(), "Should return commands even when scratchpad is on a different tab");
    let commands = result.unwrap();
    assert!(
        commands.iter().any(|c| matches!(c, ScratchpadCommand::ShowPane { pane_id: 42, .. })),
        "Should emit ShowPane for cross-tab scratchpad focus"
    );
}

#[test]
fn show_rehides_other_hidden_floating_panes_and_uses_placement() {
    let mut manager = ScratchpadManager::new(make_configs(&["term"]));
    let mut hidden = make_floating_pane(7, false);
    hidden.is_suppressed = true;
    let manifest: Manifest = vec![(0, vec![make_floating_pane(42, false), hidden])];
    let ctx = make_context(&manifest, 0, Some(0), true, &[(0, 0)], &["term"]);
    manager.register_pane("term", 0, 42);
    let commands = manager.handle_action(ScratchpadAction::Show { name: "term".to_string() }, &ctx);
    assert_eq!(commands.len(), 2);
    match &commands[0] {
        ScratchpadCommand::ShowPane { pane_id: 42, coordinates: Some(c) } => {
            assert_eq!(c.x.as_deref(), Some("100"));
            assert_eq!(c.y.as_deref(), Some("25"));
        }
        other => panic!("unexpected {other:?}"),
    }
    assert!(matches!(commands[1], ScratchpadCommand::HidePane { pane_id: 7 }));
}

#[test]
fn toggle_without_name_targets_last_focused_on_tab() {
    let mut manager = ScratchpadManager::new(make_configs(&["term", "htop"]));
    let mut hidden = make_floating_pane(42, false);
    hidden.is_suppressed = true;
    let mut other = make_floating_pane(99, false);
    other.is_suppressed = true;
    let manifest: Manifest = vec![(0, vec![hidden, other])];
    let ctx = make_context(&manifest, 0, Some(0), true, &[(0, 0)], &["term", "htop"]);
    manager.register_pane("term", 0, 42);
    manager.register_pane("htop", 0, 99);
    manager.clear_just_shown();
    let commands = manager.handle_action(ScratchpadAction::Toggle { name: None }, &ctx);
    assert!(matches!(commands[0], ScratchpadCommand::ShowPane { pane_id: 99, .. }));
}

#[test]
fn instances_on_other_tabs_survive_close_and_reregistering_then_closing_closes_new_pane() {
    let mut manager = ScratchpadManager::new(make_configs(&["term"]));
    let manifest: Manifest = vec![
        (0, vec![make_floating_pane(42, true)]),
        (1, vec![make_floating_pane(43, false)]),
    ];
    manager.register_pane("term", 10, 42);
    manager.register_pane("term", 11, 43);
    let tab10 = make_context(&manifest, 0, Some(10), true, &[(10, 0), (11, 1)], &["term"]);
    let tab11 = make_context(&manifest, 1, Some(11), true, &[(10, 0), (11, 1)], &["term"]);
    let commands = manager.handle_action(ScratchpadAction::Close { name: "term".to_string() }, &tab10);
    assert!(matches!(commands[..], [ScratchpadCommand::ClosePane { pane_id: 42 }]));
    assert_eq!(manager.get_pane("term", &tab10), None);
    assert_eq!(manager.get_pane("term", &tab11), Some(43));
    manager.register_pane("term", 10, 50);
    let commands = manager.handle_action(ScratchpadAction::Close { name: "term".to_string() }, &tab10);
    assert!(matches!(commands[..], [ScratchpadCommand::ClosePane { pane_id: 50 }]));
}

#[test]
fn orphaned_scratchpad_ignores_show_hide_and_named_toggle() {
    let mut manager = ScratchpadManager::new(make_configs(&["term", "htop"]));
    let manifest: Manifest = vec![(0, vec![make_floating_pane(99, true)])];
    let ctx = make_context(&manifest, 0, Some(0), true, &[(0, 0)], &["term", "htop"]);
    manager.register_pane("htop", 0, 99);
    manager.reconcile_config(make_configs(&["term"]));
    for action in [
        ScratchpadAction::Show { name: "htop".to_string() },
        ScratchpadAction::Hide { name: "htop".to_string() },
        ScratchpadAction::Toggle { name: Some("htop".to_string()) },
    ] {
        assert!(manager.handle_action(action, &ctx).is_empty());
    }
    assert_eq!(manager.get_pane("htop", &ctx), Some(99));
}
