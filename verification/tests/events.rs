use zellij_tools::events::{
    Event, EventFilter, EventKind, EventStream, InitError, PaneInfo, PaneType, SubscribeMode, SubscribeSpec, TabInfo,
    TypedPaneId,
};


fn make_pane(id: u32, is_focused: bool, is_floating: bool) -> PaneInfo {
    PaneInfo {
        id,
        is_focused,
        is_floating,
        is_suppressed: false,
        is_plugin: false,
        tab_position: 0,
        title: String::new(),
        terminal_command: None,
        plugin_url: None,
    }
}

fn make_suppressed_pane(id: u32, is_focused: bool) -> PaneInfo {
    PaneInfo {
        id,
        is_focused,
        is_floating: true,
        is_suppressed: true,
        is_plugin: false,
        tab_position: 0,
        title: String::new(),
        terminal_command: None,
        plugin_url: None,
    }
}

// --- Filter matching ---

#[test]
fn filter_event_kind_matches_canonical_names() {
    let filter = EventFilter::from_spec(&SubscribeSpec {
        events: Some(vec![EventKind::PaneFocused, EventKind::TabMoved]),
        pane_ids: None,
        tab_ids: None,
        full: None,
    });

    assert!(filter.matches(&Event::PaneFocused {
        pane_id: 2,
        pane_type: PaneType::Terminal,
    }));
    assert!(filter.matches(&Event::TabMoved {
        stable_id: 42,
        old_position: 0,
        new_position: 1,
        name: "dev".to_string(),
    }));
    assert!(!filter.matches(&Event::PaneClosed {
        pane_id: 2,
        pane_type: PaneType::Terminal,
    }));
}

#[test]
fn filter_typed_pane_ids_distinguishes_terminal_and_plugin() {
    let filter = EventFilter::from_spec(&SubscribeSpec {
        events: None,
        pane_ids: Some(vec![
            "terminal_2".parse().unwrap(),
            "plugin_2".parse().unwrap(),
        ]),
        tab_ids: None,
        full: None,
    });

    assert!(filter.matches(&Event::PaneFocused {
        pane_id: 2,
        pane_type: PaneType::Terminal,
    }));
    assert!(filter.matches(&Event::PaneFocused {
        pane_id: 2,
        pane_type: PaneType::Plugin,
    }));
    assert!(!filter.matches(&Event::PaneFocused {
        pane_id: 3,
        pane_type: PaneType::Terminal,
    }));
}

#[test]
fn filter_tab_stable_ids_match_tab_events() {
    let filter = EventFilter::from_spec(&SubscribeSpec {
        events: None,
        pane_ids: None,
        tab_ids: Some(vec![101]),
        full: None,
    });

    assert!(filter.matches(&Event::TabFocused {
        stable_id: 101,
        position: 0,
        name: "main".to_string(),
    }));
    assert!(!filter.matches(&Event::TabFocused {
        stable_id: 202,
        position: 1,
        name: "other".to_string(),
    }));
}

#[test]
fn filter_omitted_fields_are_unconstrained() {
    let filter = EventFilter::from_spec(&SubscribeSpec {
        events: Some(vec![EventKind::PaneFocused]),
        pane_ids: None,
        tab_ids: None,
        full: None,
    });

    assert!(filter.matches(&Event::PaneFocused {
        pane_id: 999,
        pane_type: PaneType::Plugin,
    }));
}

#[test]
fn filter_empty_list_matches_none_for_dimension() {
    let pane_filter = EventFilter::from_spec(&SubscribeSpec {
        events: None,
        pane_ids: Some(vec![]),
        tab_ids: None,
        full: None,
    });
    assert!(!pane_filter.matches(&Event::PaneFocused {
        pane_id: 2,
        pane_type: PaneType::Terminal,
    }));

    let kind_filter = EventFilter::from_spec(&SubscribeSpec {
        events: Some(vec![]),
        pane_ids: None,
        tab_ids: None,
        full: None,
    });
    assert!(!kind_filter.matches(&Event::PaneFocused {
        pane_id: 2,
        pane_type: PaneType::Terminal,
    }));

    let tab_filter = EventFilter::from_spec(&SubscribeSpec {
        events: None,
        pane_ids: None,
        tab_ids: Some(vec![]),
        full: None,
    });
    assert!(!tab_filter.matches(&Event::TabFocused {
        stable_id: 101,
        position: 0,
        name: "main".to_string(),
    }));
}

#[test]
fn pending_subscribe_creates_pending_subscriber_only() {
    let mut stream = EventStream::new();
    stream.subscribe_pending("pipe-1".to_string(), SubscribeMode::Compact);

    assert!(stream.has_subscribers());
    assert!(!stream.is_active("pipe-1"));
}

#[test]
fn pending_subscriber_receives_no_stream_events() {
    let mut stream = EventStream::new();
    stream.subscribe_pending("pipe-1".to_string(), SubscribeMode::Compact);

    let panes = vec![make_pane(42, true, false)];
    let pane_output = stream.on_pane_update(&panes, 0);
    assert!(pane_output.is_empty());

    let tabs = vec![make_tab(100, 0, "tab1", true)];
    let tab_output = stream.on_tab_update(&tabs);
    assert!(tab_output.is_empty());
}

#[test]
fn subscribe_filter_no_events_before_init() {
    let mut stream = EventStream::new();
    stream.subscribe_pending("pipe-1".to_string(), SubscribeMode::Compact);

    let panes = vec![make_pane(42, true, false)];
    let output = stream.on_pane_update(&panes, 0);
    assert!(output.is_empty());
}

#[test]
fn event_pane_focused_serializes() {
    let event = Event::PaneFocused {
        pane_id: 42,
        pane_type: PaneType::Terminal,
    };
    assert_eq!(
        event.to_json(),
        r#"{"PaneFocused":{"pane_id":42,"pane_type":"terminal"}}"#
    );
}

#[test]
fn event_pane_unfocused_serializes() {
    let event = Event::PaneUnfocused {
        pane_id: 42,
        pane_type: PaneType::Terminal,
    };
    assert_eq!(
        event.to_json(),
        r#"{"PaneUnfocused":{"pane_id":42,"pane_type":"terminal"}}"#
    );
}

#[test]
fn event_pane_opened_serializes() {
    let event = Event::PaneOpened {
        pane_id: 5,
        pane_type: PaneType::Terminal,
        is_floating: true,
    };
    assert_eq!(
        event.to_json(),
        r#"{"PaneOpened":{"pane_id":5,"pane_type":"terminal","is_floating":true}}"#
    );
}

#[test]
fn event_pane_closed_serializes() {
    let event = Event::PaneClosed {
        pane_id: 7,
        pane_type: PaneType::Terminal,
    };
    assert_eq!(
        event.to_json(),
        r#"{"PaneClosed":{"pane_id":7,"pane_type":"terminal"}}"#
    );
}

// --- Subscriber management ---

#[test]
fn subscribe_with_no_prior_state_returns_empty() {
    let mut stream = EventStream::new();
    let events = stream.subscribe("pipe-1".to_string(), SubscribeMode::Compact);
    assert!(events.is_empty());
}

#[test]
fn subscribe_returns_current_focus() {
    let mut stream = EventStream::new();
    // Set up state with a focused pane
    let panes = vec![make_pane(42, true, false)];
    stream.on_pane_update(&panes, 0);

    let events = stream.subscribe("pipe-1".to_string(), SubscribeMode::Compact);
    assert_eq!(events.len(), 1);
    assert_eq!(
        events[0],
        Event::PaneFocused {
            pane_id: 42,
            pane_type: PaneType::Terminal,
        }
    );
}

#[test]
fn unsubscribe_removes_subscriber() {
    let mut stream = EventStream::new();
    stream.subscribe("pipe-1".to_string(), SubscribeMode::Compact);
    assert!(stream.has_subscribers());
    stream.unsubscribe("pipe-1");
    assert!(!stream.has_subscribers());
}

// --- Focus change detection ---

#[test]
fn focus_change_emits_focused_event() {
    let mut stream = EventStream::new();
    stream.subscribe("pipe-1".to_string(), SubscribeMode::Compact);

    let panes = vec![make_pane(42, true, false)];
    let output = stream.on_pane_update(&panes, 0);

    // Should have PaneOpened + PaneFocused
    let jsons: Vec<&str> = output.iter().map(|(_, json)| json.as_str()).collect();
    assert!(jsons.contains(&r#"{"PaneFocused":{"pane_id":42,"pane_type":"terminal"}}"#));
}

#[test]
fn focus_switch_emits_unfocus_then_focus() {
    let mut stream = EventStream::new();
    stream.subscribe("pipe-1".to_string(), SubscribeMode::Compact);

    // Initial: pane 42 focused
    let panes = vec![make_pane(42, true, false), make_pane(17, false, false)];
    stream.on_pane_update(&panes, 0);

    // Switch focus to pane 17
    let panes = vec![make_pane(42, false, false), make_pane(17, true, false)];
    let output = stream.on_pane_update(&panes, 0);

    let jsons: Vec<&str> = output.iter().map(|(_, json)| json.as_str()).collect();
    assert!(jsons.contains(&r#"{"PaneUnfocused":{"pane_id":42,"pane_type":"terminal"}}"#));
    assert!(jsons.contains(&r#"{"PaneFocused":{"pane_id":17,"pane_type":"terminal"}}"#));
}

#[test]
fn same_focus_emits_no_focus_events() {
    let mut stream = EventStream::new();
    stream.subscribe("pipe-1".to_string(), SubscribeMode::Compact);

    let panes = vec![make_pane(42, true, false)];
    stream.on_pane_update(&panes, 0);

    // Same state again
    let output = stream.on_pane_update(&panes, 0);
    assert!(output.is_empty());
}

#[test]
fn no_events_without_subscribers() {
    let mut stream = EventStream::new();
    let panes = vec![make_pane(42, true, false)];
    let output = stream.on_pane_update(&panes, 0);
    assert!(output.is_empty());
}

// --- Pane open/close detection ---

#[test]
fn new_pane_emits_opened_event() {
    let mut stream = EventStream::new();
    stream.subscribe("pipe-1".to_string(), SubscribeMode::Compact);

    // Initial: one pane
    let panes = vec![make_pane(1, true, false)];
    stream.on_pane_update(&panes, 0);

    // New pane appears
    let panes = vec![make_pane(1, true, false), make_pane(2, false, true)];
    let output = stream.on_pane_update(&panes, 0);

    let jsons: Vec<&str> = output.iter().map(|(_, json)| json.as_str()).collect();
    assert!(jsons.contains(
        &r#"{"PaneOpened":{"pane_id":2,"pane_type":"terminal","is_floating":true}}"#
    ));
}

#[test]
fn removed_pane_emits_closed_event() {
    let mut stream = EventStream::new();
    stream.subscribe("pipe-1".to_string(), SubscribeMode::Compact);

    // Initial: two panes
    let panes = vec![make_pane(1, true, false), make_pane(2, false, false)];
    stream.on_pane_update(&panes, 0);

    // Pane 2 disappears
    let panes = vec![make_pane(1, true, false)];
    let output = stream.on_pane_update(&panes, 0);

    let jsons: Vec<&str> = output.iter().map(|(_, json)| json.as_str()).collect();
    assert!(jsons.contains(&r#"{"PaneClosed":{"pane_id":2,"pane_type":"terminal"}}"#));
}

// --- Overlapping pane ID detection ---

fn make_plugin_pane(id: u32, is_focused: bool, is_suppressed: bool) -> PaneInfo {
    PaneInfo {
        id,
        is_focused,
        is_floating: false,
        is_suppressed,
        is_plugin: true,
        tab_position: 0,
        title: String::new(),
        terminal_command: None,
        plugin_url: Some("plugin://test".to_string()),
    }
}

#[test]
fn terminal_pane_open_detected_despite_same_id_plugin_pane() {
    let mut stream = EventStream::new();
    stream.subscribe("pipe-1".to_string(), SubscribeMode::Compact);

    // Initial: one terminal pane (0) and suppressed plugin panes (0, 1, 2)
    // This matches real zellij behavior where plugin and terminal IDs overlap
    let panes = vec![
        make_pane(0, true, false),
        make_plugin_pane(0, false, true),
        make_plugin_pane(1, false, true),
        make_plugin_pane(2, false, true),
    ];
    stream.on_pane_update(&panes, 0);

    // User opens a new terminal pane — terminal pane 1 has same ID as plugin pane 1
    let panes = vec![
        make_pane(0, false, false),
        make_pane(1, true, false), // new terminal pane
        make_plugin_pane(0, false, true),
        make_plugin_pane(1, false, true),
        make_plugin_pane(2, false, true),
    ];
    let output = stream.on_pane_update(&panes, 0);

    let jsons: Vec<&str> = output.iter().map(|(_, json)| json.as_str()).collect();
    assert!(
        jsons.contains(
            &r#"{"PaneOpened":{"pane_id":1,"pane_type":"terminal","is_floating":false}}"#
        ),
        "Should detect terminal pane 1 opening despite plugin pane 1 existing. Got: {:?}",
        jsons
    );
}

#[test]
fn terminal_pane_close_detected_despite_same_id_plugin_pane() {
    let mut stream = EventStream::new();
    stream.subscribe("pipe-1".to_string(), SubscribeMode::Compact);

    // Initial: two terminal panes (0, 1) and suppressed plugin panes (0, 1, 2)
    let panes = vec![
        make_pane(0, false, false),
        make_pane(1, true, false),
        make_plugin_pane(0, false, true),
        make_plugin_pane(1, false, true),
        make_plugin_pane(2, false, true),
    ];
    stream.on_pane_update(&panes, 0);

    // User closes terminal pane 1 — plugin pane 1 still exists
    let panes = vec![
        make_pane(0, true, false),
        make_plugin_pane(0, false, true),
        make_plugin_pane(1, false, true),
        make_plugin_pane(2, false, true),
    ];
    let output = stream.on_pane_update(&panes, 0);

    let jsons: Vec<&str> = output.iter().map(|(_, json)| json.as_str()).collect();
    assert!(
        jsons.contains(&r#"{"PaneClosed":{"pane_id":1,"pane_type":"terminal"}}"#),
        "Should detect terminal pane 1 closing despite plugin pane 1 still existing. Got: {:?}",
        jsons
    );
}

// --- Floating pane focus precedence ---

#[test]
fn floating_pane_takes_focus_precedence() {
    let mut stream = EventStream::new();
    stream.subscribe("pipe-1".to_string(), SubscribeMode::Compact);

    // Both tiled and floating report focused, floating wins
    let panes = vec![make_pane(1, true, false), make_pane(2, true, true)];
    let output = stream.on_pane_update(&panes, 0);

    let jsons: Vec<&str> = output.iter().map(|(_, json)| json.as_str()).collect();
    assert!(jsons.contains(&r#"{"PaneFocused":{"pane_id":2,"pane_type":"terminal"}}"#));
    // Pane 1 should NOT get a focused event
    assert!(!jsons.contains(&r#"{"PaneFocused":{"pane_id":1,"pane_type":"terminal"}}"#));
}

#[test]
fn suppressed_pane_not_considered_focused() {
    let mut stream = EventStream::new();
    stream.subscribe("pipe-1".to_string(), SubscribeMode::Compact);

    let panes = vec![make_pane(1, true, false), make_suppressed_pane(2, true)];
    let output = stream.on_pane_update(&panes, 0);

    let jsons: Vec<&str> = output.iter().map(|(_, json)| json.as_str()).collect();
    // Pane 1 (tiled) should be focused since pane 2 is suppressed
    assert!(jsons.contains(&r#"{"PaneFocused":{"pane_id":1,"pane_type":"terminal"}}"#));
}

// --- Tab event serialization ---

#[test]
fn event_tab_focused_serializes() {
    let event = Event::TabFocused {
        stable_id: 100,
        position: 0,
        name: "tab1".to_string(),
    };
    assert_eq!(
        event.to_json(),
        r#"{"TabFocused":{"stable_id":100,"position":0,"name":"tab1"}}"#
    );
}

#[test]
fn event_tab_created_serializes() {
    let event = Event::TabCreated {
        stable_id: 200,
        position: 2,
        name: "new-tab".to_string(),
    };
    assert_eq!(
        event.to_json(),
        r#"{"TabCreated":{"stable_id":200,"position":2,"name":"new-tab"}}"#
    );
}

#[test]
fn event_tab_closed_serializes() {
    let event = Event::TabClosed {
        stable_id: 300,
        position: 1,
        name: "old-tab".to_string(),
    };
    assert_eq!(
        event.to_json(),
        r#"{"TabClosed":{"stable_id":300,"position":1,"name":"old-tab"}}"#
    );
}

#[test]
fn event_tab_moved_serializes() {
    let event = Event::TabMoved {
        stable_id: 100,
        old_position: 0,
        new_position: 1,
        name: "tab1".to_string(),
    };
    assert_eq!(
        event.to_json(),
        r#"{"TabMoved":{"stable_id":100,"old_position":0,"new_position":1,"name":"tab1"}}"#
    );
}

// --- Tab focus detection ---

fn make_tab(stable_id: u64, position: usize, name: &str, active: bool) -> TabInfo {
    TabInfo {
        stable_id,
        position,
        name: name.to_string(),
        active,
    }
}

#[test]
fn tab_focus_change_emits_events() {
    let mut stream = EventStream::new();
    stream.subscribe("pipe-1".to_string(), SubscribeMode::Compact);

    // Initial: tab 0 active
    let tabs = vec![
        make_tab(100, 0, "tab1", true),
        make_tab(101, 1, "tab2", false),
    ];
    stream.on_tab_update(&tabs);

    // Switch to tab 1
    let tabs = vec![
        make_tab(100, 0, "tab1", false),
        make_tab(101, 1, "tab2", true),
    ];
    let output = stream.on_tab_update(&tabs);

    let jsons: Vec<&str> = output.iter().map(|(_, json)| json.as_str()).collect();
    assert!(jsons.contains(&r#"{"TabUnfocused":{"stable_id":100,"position":0,"name":"tab1"}}"#));
    assert!(jsons.contains(&r#"{"TabFocused":{"stable_id":101,"position":1,"name":"tab2"}}"#));
}

#[test]
fn same_tab_focus_emits_nothing() {
    let mut stream = EventStream::new();
    stream.subscribe("pipe-1".to_string(), SubscribeMode::Compact);

    let tabs = vec![make_tab(100, 0, "tab1", true)];
    stream.on_tab_update(&tabs);

    let output = stream.on_tab_update(&tabs);
    assert!(output.is_empty());
}

// --- Tab create/close detection ---

#[test]
fn new_tab_emits_created_event() {
    let mut stream = EventStream::new();
    stream.subscribe("pipe-1".to_string(), SubscribeMode::Compact);

    let tabs = vec![make_tab(100, 0, "tab1", true)];
    stream.on_tab_update(&tabs);

    // New tab appears
    let tabs = vec![
        make_tab(100, 0, "tab1", true),
        make_tab(101, 1, "tab2", false),
    ];
    let output = stream.on_tab_update(&tabs);

    let jsons: Vec<&str> = output.iter().map(|(_, json)| json.as_str()).collect();
    assert!(jsons.contains(&r#"{"TabCreated":{"stable_id":101,"position":1,"name":"tab2"}}"#));
}

#[test]
fn removed_tab_emits_closed_event() {
    let mut stream = EventStream::new();
    stream.subscribe("pipe-1".to_string(), SubscribeMode::Compact);

    let tabs = vec![
        make_tab(100, 0, "tab1", true),
        make_tab(101, 1, "tab2", false),
    ];
    stream.on_tab_update(&tabs);

    // Tab 101 disappears
    let tabs = vec![make_tab(100, 0, "tab1", true)];
    let output = stream.on_tab_update(&tabs);

    let jsons: Vec<&str> = output.iter().map(|(_, json)| json.as_str()).collect();
    assert!(jsons.contains(&r#"{"TabClosed":{"stable_id":101,"position":1,"name":"tab2"}}"#));
}

#[test]
fn subscribe_returns_current_active_tab() {
    let mut stream = EventStream::new();

    // Set up state with active tab
    let tabs = vec![make_tab(100, 0, "tab1", true)];
    stream.on_tab_update(&tabs);

    let events = stream.subscribe("pipe-1".to_string(), SubscribeMode::Compact);
    assert!(events.contains(&Event::TabFocused {
        stable_id: 100,
        position: 0,
        name: "tab1".to_string(),
    }));
}

// --- Tab move detection ---

#[test]
fn tab_swap_emits_moved_not_focus_change() {
    let mut stream = EventStream::new();
    stream.subscribe("pipe-1".to_string(), SubscribeMode::Compact);

    // Initial: tab A at pos 0 (active), tab B at pos 1
    let tabs = vec![
        make_tab(100, 0, "tabA", true),
        make_tab(101, 1, "tabB", false),
    ];
    stream.on_tab_update(&tabs);

    // Swap positions: tab A moves to pos 1, tab B to pos 0
    // Tab A stays active
    let tabs = vec![
        make_tab(101, 0, "tabB", false),
        make_tab(100, 1, "tabA", true),
    ];
    let output = stream.on_tab_update(&tabs);

    let jsons: Vec<&str> = output.iter().map(|(_, json)| json.as_str()).collect();

    // Should see TabMoved for both, NOT TabCreated/TabClosed
    assert!(jsons.iter().any(|j| j.contains("TabMoved")));
    assert!(!jsons.iter().any(|j| j.contains("TabCreated")));
    assert!(!jsons.iter().any(|j| j.contains("TabClosed")));

    // Should NOT see focus change since tab A (100) is still active
    assert!(!jsons.iter().any(|j| j.contains("TabFocused")));
    assert!(!jsons.iter().any(|j| j.contains("TabUnfocused")));
}

#[test]
fn tab_move_with_focus_change() {
    let mut stream = EventStream::new();
    stream.subscribe("pipe-1".to_string(), SubscribeMode::Compact);

    // Initial: tab A at pos 0 (active), tab B at pos 1
    let tabs = vec![
        make_tab(100, 0, "tabA", true),
        make_tab(101, 1, "tabB", false),
    ];
    stream.on_tab_update(&tabs);

    // Swap and focus switches to tab B
    let tabs = vec![
        make_tab(101, 0, "tabB", true),
        make_tab(100, 1, "tabA", false),
    ];
    let output = stream.on_tab_update(&tabs);

    let jsons: Vec<&str> = output.iter().map(|(_, json)| json.as_str()).collect();

    // Should see moves
    assert!(jsons.iter().any(|j| j.contains("TabMoved")));
    // Should see focus change
    assert!(jsons.iter().any(|j| j.contains("TabFocused")));
    assert!(jsons.iter().any(|j| j.contains("TabUnfocused")));
}

// --- Multiple subscribers ---

#[test]
fn events_broadcast_to_all_subscribers() {
    let mut stream = EventStream::new();
    stream.subscribe("pipe-1".to_string(), SubscribeMode::Compact);
    stream.subscribe("pipe-2".to_string(), SubscribeMode::Compact);

    let panes = vec![make_pane(42, true, false)];
    let output = stream.on_pane_update(&panes, 0);

    // Each event should be sent to both subscribers
    let pipe_ids: Vec<&str> = output
        .iter()
        .filter(|(_, json)| json.contains("PaneFocused"))
        .map(|(id, _)| id.as_str())
        .collect();
    assert!(pipe_ids.contains(&"pipe-1"));
    assert!(pipe_ids.contains(&"pipe-2"));
}

// --- Full mode ---

fn make_detailed_pane(id: u32, is_focused: bool, title: &str, command: &str) -> PaneInfo {
    PaneInfo {
        id,
        is_focused,
        is_floating: false,
        is_suppressed: false,
        is_plugin: false,
        tab_position: 0,
        title: title.to_string(),
        terminal_command: Some(command.to_string()),
        plugin_url: None,
    }
}

#[test]
fn full_mode_pane_event_includes_detail() {
    let mut stream = EventStream::new();
    stream.subscribe("pipe-1".to_string(), SubscribeMode::Full);

    let panes = vec![make_detailed_pane(42, true, "zsh", "/bin/zsh")];
    let output = stream.on_pane_update(&panes, 0);

    // Find the PaneFocused event
    let focus_json = output
        .iter()
        .find(|(_, json)| json.contains("PaneFocused"))
        .map(|(_, json)| json.clone())
        .expect("Should have PaneFocused event");

    let v: serde_json::Value = serde_json::from_str(&focus_json).unwrap();
    let inner = &v["PaneFocused"];
    assert_eq!(inner["pane_id"], 42);
    assert_eq!(inner["title"], "zsh");
    assert_eq!(inner["terminal_command"], "/bin/zsh");
    assert_eq!(inner["is_floating"], false);
}

#[test]
fn compact_mode_pane_event_has_no_extra_fields() {
    let mut stream = EventStream::new();
    stream.subscribe("pipe-1".to_string(), SubscribeMode::Compact);

    let panes = vec![make_detailed_pane(42, true, "zsh", "/bin/zsh")];
    let output = stream.on_pane_update(&panes, 0);

    let focus_json = output
        .iter()
        .find(|(_, json)| json.contains("PaneFocused"))
        .map(|(_, json)| json.clone())
        .expect("Should have PaneFocused event");

    // Compact mode should NOT have title
    let v: serde_json::Value = serde_json::from_str(&focus_json).unwrap();
    assert!(v["PaneFocused"]["title"].is_null());
}

#[test]
fn mixed_mode_subscribers_get_different_json() {
    let mut stream = EventStream::new();
    stream.subscribe("compact".to_string(), SubscribeMode::Compact);
    stream.subscribe("full".to_string(), SubscribeMode::Full);

    let panes = vec![make_detailed_pane(42, true, "zsh", "/bin/zsh")];
    let output = stream.on_pane_update(&panes, 0);

    let compact_json = output
        .iter()
        .find(|(id, json)| id == "compact" && json.contains("PaneFocused"))
        .map(|(_, json)| json.clone())
        .expect("compact subscriber should get PaneFocused");
    let full_json = output
        .iter()
        .find(|(id, json)| id == "full" && json.contains("PaneFocused"))
        .map(|(_, json)| json.clone())
        .expect("full subscriber should get PaneFocused");

    // Full should have more data
    assert!(full_json.len() > compact_json.len());
    assert!(full_json.contains("title"));
    assert!(!compact_json.contains("title"));
}

#[test]
fn event_ack_serializes() {
    let event = Event::Ack {};
    assert_eq!(event.to_json(), r#"{"Ack":{}}"#);
}

#[test]
fn event_init_ack_serializes() {
    let event = Event::InitAck {};
    assert_eq!(event.to_json(), r#"{"InitAck":{}}"#);
}

#[test]
fn event_init_error_serializes() {
    let event = Event::InitError {
        message: "bad spec".to_string(),
    };
    assert_eq!(event.to_json(), r#"{"InitError":{"message":"bad spec"}}"#);
}

// --- Heartbeat tracking ---

#[test]
fn record_heartbeat_updates_subscriber() {
    let mut stream = EventStream::new();
    stream.subscribe("pipe-1".to_string(), SubscribeMode::Compact);
    stream.record_heartbeat("pipe-1");
    stream.record_heartbeat("pipe-1");
    assert_eq!(stream.heartbeat_counter(), 2);
    assert!(stream.has_subscribers());
}

#[test]
fn prune_stale_removes_dead_subscriber() {
    let mut stream = EventStream::new();
    stream.subscribe("pipe-1".to_string(), SubscribeMode::Compact);
    // Simulate 100 heartbeats from a different source (not pipe-1)
    for _ in 0..100 {
        stream.record_heartbeat("other-pipe");
    }
    let pruned = stream.prune_stale_subscribers(50);
    assert_eq!(pruned, vec!["pipe-1"]);
    assert!(!stream.has_subscribers());
}

#[test]
fn prune_keeps_active_subscriber() {
    let mut stream = EventStream::new();
    stream.subscribe("pipe-1".to_string(), SubscribeMode::Compact);
    // pipe-1 sends heartbeats regularly
    for _ in 0..100 {
        stream.record_heartbeat("pipe-1");
    }
    let pruned = stream.prune_stale_subscribers(50);
    assert!(pruned.is_empty());
    assert!(stream.has_subscribers());
}

#[test]
fn update_pane_state_is_public() {
    let mut stream = EventStream::new();

    // Call update_pane_state directly (no subscribers needed)
    let panes = vec![make_pane(42, true, false), make_pane(17, false, false)];
    stream.update_pane_state(&panes, 0);

    // State should be tracked: subscribing now returns current focus
    let events = stream.subscribe("pipe-1".to_string(), SubscribeMode::Compact);
    assert_eq!(events.len(), 1);
    assert_eq!(
        events[0],
        Event::PaneFocused {
            pane_id: 42,
            pane_type: PaneType::Terminal,
        }
    );
}

#[test]
fn update_tab_state_is_public() {
    let mut stream = EventStream::new();

    // Call update_tab_state directly (no subscribers needed)
    let tabs = vec![
        make_tab(100, 0, "tab1", true),
        make_tab(101, 1, "tab2", false),
    ];
    stream.update_tab_state(&tabs);

    // State should be tracked: subscribing now returns current focus
    let events = stream.subscribe("pipe-1".to_string(), SubscribeMode::Compact);
    assert!(events.contains(&Event::TabFocused {
        stable_id: 100,
        position: 0,
        name: "tab1".to_string(),
    }));
}

// --- Floating pane focus across tab switches ---

#[test]
fn floating_pane_unfocused_on_tab_switch() {
    // Bug: when a floating pane is focused and user switches tabs,
    // PaneUnfocused/PaneFocused events should fire but don't because
    // find_focused gives floating panes precedence across all tabs.
    let mut stream = EventStream::new();
    stream.subscribe("pipe-1".to_string(), SubscribeMode::Compact);

    // Tab 0: tiled pane 0 (focused behind floating), floating pane 10 (focused)
    let panes = vec![
        PaneInfo {
            id: 0,
            is_focused: true,
            is_floating: false,
            is_suppressed: false,
            is_plugin: false,
            title: String::new(),
            terminal_command: None,
            plugin_url: None,
            tab_position: 0,
        },
        PaneInfo {
            id: 10,
            is_focused: true,
            is_floating: true,
            is_suppressed: false,
            is_plugin: false,
            title: String::new(),
            terminal_command: None,
            plugin_url: None,
            tab_position: 0,
        },
    ];
    stream.on_pane_update(&panes, 0);

    // Now switch to tab 1 — tiled pane 1 is focused on tab 1,
    // but floating pane 10 on tab 0 still has is_focused: true in the manifest
    let panes = vec![
        PaneInfo {
            id: 0,
            is_focused: true,
            is_floating: false,
            is_suppressed: false,
            is_plugin: false,
            title: String::new(),
            terminal_command: None,
            plugin_url: None,
            tab_position: 0,
        },
        PaneInfo {
            id: 10,
            is_focused: true,
            is_floating: true,
            is_suppressed: false,
            is_plugin: false,
            title: String::new(),
            terminal_command: None,
            plugin_url: None,
            tab_position: 0,
        },
        PaneInfo {
            id: 1,
            is_focused: true,
            is_floating: false,
            is_suppressed: false,
            is_plugin: false,
            title: String::new(),
            terminal_command: None,
            plugin_url: None,
            tab_position: 1,
        },
    ];
    let output = stream.on_pane_update(&panes, 1);

    let jsons: Vec<&str> = output.iter().map(|(_, json)| json.as_str()).collect();
    // Should unfocus floating pane 10 and focus tiled pane 1
    assert!(
        jsons.contains(&r#"{"PaneUnfocused":{"pane_id":10,"pane_type":"terminal"}}"#),
        "Should emit PaneUnfocused for floating pane 10 when switching tabs. Got: {:?}",
        jsons
    );
    assert!(
        jsons.contains(&r#"{"PaneFocused":{"pane_id":1,"pane_type":"terminal"}}"#),
        "Should emit PaneFocused for tiled pane 1 on new tab. Got: {:?}",
        jsons
    );
}

#[test]
fn tab_update_before_pane_update_emits_pane_focus_change() {
    // When TabUpdate arrives before PaneUpdate, the tab change should
    // trigger pane focus recomputation using stored pane state.
    let mut stream = EventStream::new();
    stream.subscribe("pipe-1".to_string(), SubscribeMode::Compact);

    // Initial state: tab 0 active, floating pane 10 focused on tab 0,
    // tiled pane 1 focused on tab 1
    let tabs = vec![
        make_tab(100, 0, "tab0", true),
        make_tab(101, 1, "tab1", false),
    ];
    stream.on_tab_update(&tabs);

    let panes = vec![
        make_pane(0, true, false), // tiled pane on tab 0
        PaneInfo {
            id: 10,
            is_focused: true,
            is_floating: true,
            is_suppressed: false,
            is_plugin: false,
            tab_position: 0,
            title: String::new(),
            terminal_command: None,
            plugin_url: None,
        },
        PaneInfo {
            id: 1,
            is_focused: true,
            is_floating: false,
            is_suppressed: false,
            is_plugin: false,
            tab_position: 1,
            title: String::new(),
            terminal_command: None,
            plugin_url: None,
        },
    ];
    stream.on_pane_update(&panes, 0);

    // Now TabUpdate arrives FIRST (before any new PaneUpdate), switching to tab 1
    let tabs = vec![
        make_tab(100, 0, "tab0", false),
        make_tab(101, 1, "tab1", true),
    ];
    let output = stream.on_tab_update(&tabs);

    let jsons: Vec<&str> = output.iter().map(|(_, json)| json.as_str()).collect();
    assert!(
        jsons.contains(&r#"{"PaneUnfocused":{"pane_id":10,"pane_type":"terminal"}}"#),
        "TabUpdate should trigger PaneUnfocused for floating pane 10. Got: {:?}",
        jsons
    );
    assert!(
        jsons.contains(&r#"{"PaneFocused":{"pane_id":1,"pane_type":"terminal"}}"#),
        "TabUpdate should trigger PaneFocused for tiled pane 1 on new tab. Got: {:?}",
        jsons
    );
}

#[test]
fn pane_update_before_tab_update_emits_pane_focus_on_tab_update() {
    // When PaneUpdate arrives before TabUpdate with stale active tab,
    // the focus change should be emitted when TabUpdate arrives.
    let mut stream = EventStream::new();
    stream.subscribe("pipe-1".to_string(), SubscribeMode::Compact);

    // Initial state: tab 0 active, floating pane 10 focused
    let tabs = vec![
        make_tab(100, 0, "tab0", true),
        make_tab(101, 1, "tab1", false),
    ];
    stream.on_tab_update(&tabs);

    let panes = vec![
        make_pane(0, true, false),
        PaneInfo {
            id: 10,
            is_focused: true,
            is_floating: true,
            is_suppressed: false,
            is_plugin: false,
            tab_position: 0,
            title: String::new(),
            terminal_command: None,
            plugin_url: None,
        },
    ];
    stream.on_pane_update(&panes, 0);

    // PaneUpdate arrives FIRST with new pane on tab 1, but active_tab still 0
    // (TabUpdate hasn't arrived yet, so caller passes old active_tab)
    let panes = vec![
        make_pane(0, true, false),
        PaneInfo {
            id: 10,
            is_focused: true,
            is_floating: true,
            is_suppressed: false,
            is_plugin: false,
            tab_position: 0,
            title: String::new(),
            terminal_command: None,
            plugin_url: None,
        },
        PaneInfo {
            id: 1,
            is_focused: true,
            is_floating: false,
            is_suppressed: false,
            is_plugin: false,
            tab_position: 1,
            title: String::new(),
            terminal_command: None,
            plugin_url: None,
        },
    ];
    let pane_output = stream.on_pane_update(&panes, 0);

    // PaneUpdate with stale active_tab should NOT emit focus change
    // (floating pane 10 is still "focused" on tab 0)
    let pane_jsons: Vec<&str> = pane_output.iter().map(|(_, json)| json.as_str()).collect();
    assert!(
        !pane_jsons
            .iter()
            .any(|j| j.contains("PaneUnfocused") || j.contains("PaneFocused")),
        "PaneUpdate with stale active_tab should not emit focus events. Got: {:?}",
        pane_jsons
    );

    // NOW TabUpdate arrives, switching to tab 1
    let tabs = vec![
        make_tab(100, 0, "tab0", false),
        make_tab(101, 1, "tab1", true),
    ];
    let tab_output = stream.on_tab_update(&tabs);

    let tab_jsons: Vec<&str> = tab_output.iter().map(|(_, json)| json.as_str()).collect();
    assert!(
        tab_jsons.contains(&r#"{"PaneUnfocused":{"pane_id":10,"pane_type":"terminal"}}"#),
        "TabUpdate should trigger PaneUnfocused for floating pane 10. Got: {:?}",
        tab_jsons
    );
    assert!(
        tab_jsons.contains(&r#"{"PaneFocused":{"pane_id":1,"pane_type":"terminal"}}"#),
        "TabUpdate should trigger PaneFocused for pane 1 on new tab. Got: {:?}",
        tab_jsons
    );
}

#[test]
fn prune_mixed_active_and_stale() {
    let mut stream = EventStream::new();
    stream.subscribe("active".to_string(), SubscribeMode::Compact);
    stream.subscribe("stale".to_string(), SubscribeMode::Compact);
    // Only "active" sends heartbeats
    for _ in 0..100 {
        stream.record_heartbeat("active");
    }
    let pruned = stream.prune_stale_subscribers(50);
    assert_eq!(pruned, vec!["stale"]);
    assert!(stream.has_subscribers());
}

#[test]
fn initialized_subscriber_receives_only_matching_events() {
    let mut stream = EventStream::new();
    stream.subscribe_pending("pipe-1".to_string(), SubscribeMode::Compact);
    let spec = SubscribeSpec {
        full: None,
        events: Some(vec![EventKind::PaneFocused]),
        pane_ids: Some(vec!["terminal_42".parse().unwrap()]),
        tab_ids: None,
    };
    stream.initialize_subscriber("pipe-1", &spec).unwrap();
    assert!(stream.is_active("pipe-1"));
    assert!(!stream.is_pending("pipe-1"));

    let panes = vec![make_pane(42, true, false), make_pane(5, false, false)];
    let output = stream.on_pane_update(&panes, 0);
    assert_eq!(
        output,
        vec![("pipe-1".to_string(), r#"{"PaneFocused":{"pane_id":42,"pane_type":"terminal"}}"#.to_string())]
    );
}

#[test]
fn initialize_with_full_spec_enriches_events() {
    let mut stream = EventStream::new();
    stream.subscribe_pending("pipe-1".to_string(), SubscribeMode::Compact);
    let spec = SubscribeSpec { full: Some(true), events: Some(vec![EventKind::PaneFocused]), pane_ids: None, tab_ids: None };
    stream.initialize_subscriber("pipe-1", &spec).unwrap();

    let panes = vec![make_detailed_pane(42, true, "shell", "/bin/zsh")];
    let output = stream.on_pane_update(&panes, 0);
    assert_eq!(output.len(), 1);
    assert_eq!(
        output[0].1,
        r#"{"PaneFocused":{"is_floating":false,"is_suppressed":false,"pane_id":42,"pane_type":"terminal","terminal_command":"/bin/zsh","title":"shell"}}"#
    );
}

#[test]
fn initialize_errors_name_the_pipe() {
    let mut stream = EventStream::new();
    let spec = SubscribeSpec::default();
    match stream.initialize_subscriber("missing", &spec) {
        Err(err) => assert_eq!(err.message(), "subscriber not found: missing"),
        Ok(()) => panic!("expected an error"),
    }
    stream.subscribe("pipe-1".to_string(), SubscribeMode::Compact);
    match stream.initialize_subscriber("pipe-1", &spec) {
        Err(err) => assert_eq!(err.message(), "subscriber already active: pipe-1"),
        Ok(()) => panic!("expected an error"),
    }
    let invalid = InitError::InvalidJson { message: "oops".to_string() };
    assert_eq!(invalid.message(), "invalid init json: oops");
}

#[test]
fn independent_filters_per_subscriber() {
    let mut stream = EventStream::new();
    stream.subscribe_pending("pane-sub".to_string(), SubscribeMode::Compact);
    stream.subscribe_pending("tab-sub".to_string(), SubscribeMode::Compact);
    let panes_only = SubscribeSpec { full: None, events: Some(vec![EventKind::PaneFocused]), pane_ids: None, tab_ids: None };
    let tabs_only = SubscribeSpec { full: None, events: Some(vec![EventKind::TabFocused]), pane_ids: None, tab_ids: None };
    stream.initialize_subscriber("pane-sub", &panes_only).unwrap();
    stream.initialize_subscriber("tab-sub", &tabs_only).unwrap();

    let pane_output = stream.on_pane_update(&[make_pane(42, true, false)], 0);
    assert!(pane_output.iter().all(|(pipe, _)| pipe == "pane-sub"));
    assert_eq!(pane_output.len(), 1);

    let tab_output = stream.on_tab_update(&[make_tab(100, 0, "main", true)]);
    assert_eq!(
        tab_output,
        vec![("tab-sub".to_string(), r#"{"TabFocused":{"stable_id":100,"position":0,"name":"main"}}"#.to_string())]
    );
}

#[test]
fn typed_pane_ids_parse_and_reject() {
    assert_eq!("terminal_7".parse::<TypedPaneId>(), Ok(TypedPaneId::Terminal(7)));
    assert_eq!("plugin_0".parse::<TypedPaneId>(), Ok(TypedPaneId::Plugin(0)));
    assert_eq!("pane7".parse::<TypedPaneId>(), Err("invalid typed pane id: pane7".to_string()));
    assert_eq!("terminal_x".parse::<TypedPaneId>(), Err("invalid typed pane numeric id: terminal_x".to_string()));
    assert_eq!("window_3".parse::<TypedPaneId>(), Err("invalid pane type prefix: window".to_string()));
}

#[test]
fn tab_names_are_json_escaped() {
    let event = Event::TabCreated { stable_id: 1, position: 0, name: "a\"b\\c".to_string() };
    assert_eq!(event.to_json(), r#"{"TabCreated":{"stable_id":1,"position":0,"name":"a\"b\\c"}}"#);
}

#[test]
fn full_json_without_pane_sorts_keys() {
    let event = Event::TabMoved { stable_id: 3, old_position: 1, new_position: 2, name: "t".to_string() };
    assert_eq!(event.to_full_json(&[], &[]), r#"{"TabMoved":{"name":"t","new_position":2,"old_position":1,"stable_id":3}}"#);
    let event = Event::PaneClosed { pane_id: 9, pane_type: PaneType::Plugin };
    assert_eq!(event.to_full_json(&[], &[]), r#"{"PaneClosed":{"pane_id":9,"pane_type":"plugin"}}"#);
}

#[test]
fn repeated_tab_update_is_quiet() {
    let mut stream = EventStream::new();
    stream.subscribe("pipe-1".to_string(), SubscribeMode::Compact);
    let tabs = vec![make_tab(100, 0, "a", false), make_tab(101, 1, "b", true)];
    assert!(!stream.on_tab_update(&tabs).is_empty());
    assert!(stream.on_tab_update(&tabs).is_empty());
}

#[test]
fn pending_subscriber_gets_nothing_while_active_one_does() {
    let mut stream = EventStream::new();
    stream.subscribe_pending("waiting".to_string(), SubscribeMode::Compact);
    stream.subscribe("ready".to_string(), SubscribeMode::Compact);
    let output = stream.on_pane_update(&[make_pane(1, true, false)], 0);
    assert!(!output.is_empty());
    assert!(output.iter().all(|(pipe, _)| pipe == "ready"));
}

#[test]
fn heartbeat_protects_from_pruning() {
    let mut stream = EventStream::new();
    stream.subscribe("a".to_string(), SubscribeMode::Compact);
    for _ in 0..10 {
        stream.record_heartbeat("other");
    }
    stream.record_heartbeat("a");
    assert!(stream.prune_stale_subscribers(0).is_empty());
    assert!(stream.is_active("a"));
}

#[test]
fn control_characters_in_names_are_json_escaped() {
    let event = Event::TabCreated {
        stable_id: 2,
        position: 1,
        name: "x\n\t\r\u{8}\u{c}\u{1}\u{1f}é\u{7f}".to_string(),
    };
    assert_eq!(
        event.to_json(),
        "{\"TabCreated\":{\"stable_id\":2,\"position\":1,\"name\":\"x\\n\\t\\r\\b\\f\\u0001\\u001fé\u{7f}\"}}"
    );
}
