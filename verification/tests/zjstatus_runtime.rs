use zellij_tools::events::{PaneInfo, TypedPaneId};
use zellij_tools::pane_statuses::{PaneStatusItem, PaneStatusSnapshot, PaneStatuses, TabRef};
use zellij_tools::scratchpad::{ScratchpadDisplayState, ScratchpadStatusItem, ScratchpadStatusSnapshot};
use zellij_tools::tree::PaneNode;
use zellij_tools::zjstatus::{
    parse_zjstatus_config_kdl, render_pane_status, zjstatus_payload, zjstatus_tab_payload, OutputConfig, OutputKey,
    ZjstatusConfig, ZjstatusConfigLayers,
};
use zellij_tools::zjstatus_runtime::{
    update_zjstatus_plugin_panes, DueTasks, Duration, PublishedKey, Publisher, Scheduler,
};

type Tabs = Vec<(usize, Vec<ScratchpadStatusItem>)>;

fn config(input: &str) -> ZjstatusConfig {
    let mut layers = ZjstatusConfigLayers::default();
    layers.push(parse_zjstatus_config_kdl(input).unwrap());
    layers.into_config().unwrap().unwrap()
}

fn output<'a>(config: &'a ZjstatusConfig, key: &OutputKey) -> &'a OutputConfig {
    &config.outputs.iter().find(|(k, _)| k == key).unwrap().1
}

fn item(id: usize, state: ScratchpadDisplayState) -> ScratchpadStatusItem {
    ScratchpadStatusItem {
        name: "term".into(),
        title: "term".into(),
        state,
        pane_id: Some(7),
        tab_id: Some(id),
        tab_position: Some(0),
        is_focused: false,
        is_mru: false,
    }
}

fn node(id: u32, is_plugin: bool, plugin_url: Option<&str>) -> PaneNode {
    PaneNode {
        id,
        is_plugin,
        is_focused: false,
        is_fullscreen: false,
        is_floating: false,
        is_suppressed: false,
        title: String::new(),
        exited: false,
        exit_status: None,
        is_held: false,
        pane_x: 0,
        pane_content_x: 0,
        pane_y: 0,
        pane_content_y: 0,
        pane_rows: 0,
        pane_content_rows: 0,
        pane_columns: 0,
        pane_content_columns: 0,
        cursor_coordinates_in_pane: None,
        terminal_command: None,
        plugin_url: plugin_url.map(|u| u.to_string()),
        is_selectable: true,
    }
}

fn receiver(id: u32) -> PaneNode {
    node(id, true, Some("file:/plugins/zjstatus.wasm"))
}

fn set_tab(manifest: &mut Vec<(usize, Vec<PaneNode>)>, position: usize, panes: Vec<PaneNode>) {
    match manifest.iter_mut().find(|(p, _)| *p == position) {
        Some(entry) => entry.1 = panes,
        None => manifest.push((position, panes)),
    }
}

fn terminal(id: u32, tab_position: usize) -> PaneInfo {
    PaneInfo {
        id,
        is_focused: false,
        is_floating: false,
        is_suppressed: false,
        is_plugin: false,
        tab_position,
        title: String::new(),
        terminal_command: None,
        plugin_url: None,
    }
}

fn pane_statuses() -> PaneStatusSnapshot {
    PaneStatusSnapshot {
        current_tab_id: Some(42),
        tabs: vec![
            (
                42,
                vec![
                    PaneStatusItem {
                        pane_id: TypedPaneId::Terminal(7),
                        title: "build".into(),
                        status: "building".into(),
                        is_focused: true,
                    },
                    PaneStatusItem {
                        pane_id: TypedPaneId::Plugin(8),
                        title: "tests".into(),
                        status: "testing".into(),
                        is_focused: false,
                    },
                ],
            ),
            (57, vec![]),
        ],
    }
}

fn ms(value: u64) -> Duration {
    Duration::from_millis(value)
}

#[test]
fn independent_periodic_timer_matrix() {
    for poll in [None, Some(100)] {
        for replay in [None, Some(200)] {
            let mut scheduler = Scheduler::default();
            scheduler.configure(ms(0), poll, replay);
            assert_eq!(scheduler.arm(ms(0)), poll.or(replay).map(ms));
            assert_eq!(scheduler.arm(ms(0)), None);
            assert_eq!(scheduler.take_due(ms(99)), DueTasks::default());
            assert_eq!(scheduler.arm(ms(99)), None);
            assert_eq!(scheduler.take_due(ms(100)).config_poll, poll.is_some());
            scheduler.arm(ms(100));
            assert_eq!(
                scheduler.take_due(ms(200)),
                DueTasks {
                    config_poll: poll.is_some(),
                    full_replay: replay.is_some(),
                    delayed_replay: false
                }
            );
            assert_eq!(scheduler.take_due(ms(200)), DueTasks::default());
        }
    }
}

#[test]
fn delayed_replay_supersedes_timer_and_stale_wakes_do_not_multiply_chains() {
    let mut scheduler = Scheduler::default();
    scheduler.configure(ms(0), Some(1000), Some(2000));
    assert_eq!(scheduler.arm(ms(0)), Some(ms(1000)));
    scheduler.delay_replay(ms(0), ms(250));
    assert_eq!(scheduler.arm(ms(0)), Some(ms(250)));
    for now in [10, 20, 100] {
        scheduler.delay_replay(ms(now), ms(250));
        scheduler.configure(ms(now), Some(1000), Some(2000));
        assert_eq!(scheduler.arm(ms(now)), None);
    }
    assert_eq!(
        scheduler.take_due(ms(250)),
        DueTasks {
            delayed_replay: true,
            ..Default::default()
        }
    );
    assert_eq!(scheduler.arm(ms(250)), Some(ms(750)));
    assert!(scheduler.take_due(ms(1000)).config_poll);
    assert_eq!(scheduler.arm(ms(1000)), Some(ms(1000)));
    // Both the first timeout and its replacement may wake at 1000.
    assert_eq!(scheduler.take_due(ms(1000)), DueTasks::default());
    assert_eq!(scheduler.arm(ms(1000)), None);
    scheduler.delay_replay(ms(1750), ms(250));
    assert_eq!(scheduler.arm(ms(1750)), None);
    assert_eq!(
        scheduler.take_due(ms(2000)),
        DueTasks {
            config_poll: true,
            full_replay: true,
            delayed_replay: true
        }
    );
}

#[test]
fn reconfiguration_disable_reenable_and_late_wakes() {
    let mut scheduler = Scheduler::default();
    scheduler.configure(ms(0), Some(100), Some(200));
    assert_eq!(scheduler.arm(ms(0)), Some(ms(100)));
    scheduler.configure(ms(10), Some(300), None);
    scheduler.delay_replay(ms(10), ms(20));
    assert_eq!(scheduler.arm(ms(10)), None);
    assert_eq!(scheduler.take_due(ms(100)), DueTasks::default());
    assert_eq!(scheduler.arm(ms(100)), Some(ms(210)));
    scheduler.configure(ms(110), Some(50), Some(20));
    assert_eq!(scheduler.arm(ms(110)), Some(ms(20)));
    assert!(scheduler.take_due(ms(130)).full_replay);
    assert_eq!(scheduler.arm(ms(130)), Some(ms(20)));
    assert_eq!(
        scheduler.take_due(ms(1000)),
        DueTasks {
            config_poll: true,
            full_replay: true,
            delayed_replay: false
        }
    );
    assert_eq!(scheduler.arm(ms(1000)), Some(ms(20)));
    scheduler.delay_replay(ms(1000), ms(1));
    scheduler.configure(ms(1000), None, None);
    assert_eq!(scheduler.arm(ms(1000)), None);
    assert_eq!(scheduler.take_due(ms(1020)), DueTasks::default());
    assert_eq!(scheduler.arm(ms(1020)), None);
}

#[test]
fn zero_intervals_large_intervals_and_overdue_arming() {
    let mut scheduler = Scheduler::default();
    scheduler.configure(ms(0), Some(0), Some(0));
    scheduler.delay_replay(ms(0), Duration::zero());
    assert_eq!(scheduler.arm(ms(0)), None);
    scheduler.configure(ms(0), None, Some(u64::from(u32::MAX)));
    assert_eq!(scheduler.arm(ms(0)), Some(ms(u64::from(u32::MAX))));
    scheduler.delay_replay(ms(0), ms(1));
    assert_eq!(scheduler.arm(ms(2)), Some(Duration::zero()));
    assert!(scheduler.take_due(ms(2)).delayed_replay);
    assert_eq!(scheduler.arm(ms(2)), Some(ms(u64::from(u32::MAX) - 2)));
    scheduler.configure(Duration::max(), Some(1), Some(1));
    assert_eq!(scheduler.take_due(Duration::max()), DueTasks::default());
}

#[test]
fn durations_add_and_subtract_within_range() {
    assert_eq!(ms(1).checked_add(ms(2)), Some(ms(3)));
    assert_eq!(Duration::max().checked_add(ms(1)), None);
    assert_eq!(ms(5).saturating_sub(ms(7)), Duration::zero());
    assert_eq!(ms(7).saturating_sub(ms(5)), ms(2));
    assert_eq!(ms(3).as_nanos(), 3_000_000);
    assert_eq!(Duration::from_nanos(5), Some(Duration::from_nanos(5).unwrap()));
    assert!(Duration::from_nanos(u128::MAX).is_none());
}

#[test]
fn new_publisher_has_nothing_retired() {
    assert!(!Publisher::new().has_retired());
    let scheduler = Scheduler::new();
    let mut scheduler = scheduler;
    assert_eq!(scheduler.arm(ms(0)), None);
    assert_eq!(scheduler.take_due(ms(0)), DueTasks::default());
}

#[test]
fn pane_status_and_scratchpad_outputs_coexist_and_replay_for_new_receivers() {
    let config = config(
        "pipe \"scratch\" { format \"global\"; }\n\
         pipe \"status\" { source \"pane-status\"; }\n\
         tab_pipe \"scratch\" { item_format \"{state}\"; }\n\
         tab_pipe \"status\" { source \"pane-status\"; }",
    );
    let snapshot = ScratchpadStatusSnapshot::default();
    let tabs: Tabs = vec![
        (42, vec![item(42, ScratchpadDisplayState::Visible)]),
        (57, vec![]),
        (99, vec![]),
    ];
    let mut statuses = pane_statuses();
    // Status snapshots do not define the live tab set.
    let copy = statuses.tabs[0].1.clone();
    statuses.tabs.push((123, copy));
    let global = render_pane_status(output(&config, &OutputKey::Global("status".into())), &statuses, None);
    let tab = render_pane_status(output(&config, &OutputKey::Tab("status".into())), &statuses, Some(42));
    assert!(global.contains("building") && global.contains("testing"));
    assert!(tab.contains("building") && tab.contains("testing"));
    let expected: Vec<String> = vec![
        "zjstatus::pipe::pipe_scratch::global".into(),
        zjstatus_payload("status", &global),
        "zjstatus::tab_pipe::42::scratch::visible".into(),
        zjstatus_tab_payload(42, "status", &tab),
        "zjstatus::tab_pipe::57::scratch::".into(),
        "zjstatus::tab_pipe::57::status::".into(),
        "zjstatus::tab_pipe::99::scratch::".into(),
        "zjstatus::tab_pipe::99::status::".into(),
    ];
    let mut publisher = Publisher::default();
    assert_eq!(publisher.commands(Some(&config), &snapshot, &tabs, &statuses, false), expected);
    assert!(publisher.commands(Some(&config), &snapshot, &tabs, &statuses, false).is_empty());
    let mut receivers: Vec<(usize, u32)> = Vec::new();
    let mut manifest: Vec<(usize, Vec<PaneNode>)> = vec![(0, vec![receiver(1)])];
    for position in [0usize, 1] {
        set_tab(&mut manifest, position, vec![receiver(position as u32 + 1)]);
        let changed = update_zjstatus_plugin_panes(&mut receivers, &manifest);
        assert!(changed);
        assert_eq!(publisher.commands(Some(&config), &snapshot, &tabs, &statuses, changed), expected);
    }
}

#[test]
fn active_tab_switches_clear_global_status_even_without_active_tab() {
    let config = config("pipe \"status\" { source \"pane-status\"; }");
    let snapshot = ScratchpadStatusSnapshot::default();
    let tabs: Tabs = vec![(42, vec![]), (57, vec![])];
    let mut statuses = pane_statuses();
    let mut publisher = Publisher::default();
    let initial = publisher.commands(Some(&config), &snapshot, &tabs, &statuses, false);
    assert_eq!(initial.len(), 1);
    assert!(initial[0].contains("building"));
    for active in [Some(57), None] {
        statuses.current_tab_id = active;
        assert_eq!(
            publisher.commands(Some(&config), &snapshot, &tabs, &statuses, false),
            ["zjstatus::pipe::pipe_status::"]
        );
        assert!(publisher.commands(Some(&config), &snapshot, &tabs, &statuses, false).is_empty());
        assert_eq!(
            publisher.commands(Some(&config), &snapshot, &tabs, &statuses, true),
            ["zjstatus::pipe::pipe_status::"]
        );
        statuses.current_tab_id = Some(42);
        assert_eq!(publisher.commands(Some(&config), &snapshot, &tabs, &statuses, false), initial);
    }
}

#[test]
fn moving_and_clearing_pane_status_updates_old_and_new_native_tabs() {
    let config = config("tab_pipe \"status\" { source \"pane-status\"; }");
    let snapshot = ScratchpadStatusSnapshot::default();
    let tabs: Tabs = vec![(42, vec![]), (57, vec![])];
    let tab_info = [
        TabRef { tab_id: 42, position: 0, active: true },
        TabRef { tab_id: 57, position: 1, active: false },
    ];
    let mut manifest = vec![terminal(7, 0)];
    let mut statuses = PaneStatuses::default();
    statuses.set(&["terminal_7", "building"], None, &manifest).unwrap();
    let mut publisher = Publisher::default();
    publisher.commands(Some(&config), &snapshot, &tabs, &statuses.snapshot(&manifest, &tab_info), false);
    manifest[0].tab_position = 1;
    statuses.reconcile(&manifest);
    let moved = statuses.snapshot(&manifest, &tab_info);
    let rendered = render_pane_status(output(&config, &OutputKey::Tab("status".into())), &moved, Some(57));
    assert!(rendered.contains("building"));
    assert_eq!(
        publisher.commands(Some(&config), &snapshot, &tabs, &moved, false),
        ["zjstatus::tab_pipe::42::status::".to_string(), zjstatus_tab_payload(57, "status", &rendered)]
    );
    statuses.set(&["terminal_7", ""], None, &manifest).unwrap();
    assert_eq!(
        publisher.commands(Some(&config), &snapshot, &tabs, &statuses.snapshot(&manifest, &tab_info), false),
        ["zjstatus::tab_pipe::57::status::"]
    );
}

#[test]
fn pane_status_global_removal_disable_and_rename_retire_with_lifetime_replay() {
    let first_config = config("pipe \"old\" { source \"pane-status\"; }");
    let snapshot = ScratchpadStatusSnapshot::default();
    let statuses = pane_statuses();
    let tabs: Tabs = vec![(42, vec![])];
    let no_tabs: Tabs = Vec::new();
    for replacement in [
        None,
        Some(config("pipe \"old\" { source \"pane-status\"; enabled false; }")),
        Some(config("pipe \"new\" { source \"pane-status\"; }")),
    ] {
        for force in [false, true] {
            let mut publisher = Publisher::default();
            let initial = publisher.commands(Some(&first_config), &snapshot, &tabs, &statuses, false);
            let removed = publisher.commands(replacement.as_ref(), &snapshot, &tabs, &statuses, force);
            assert_eq!(removed.iter().filter(|command| *command == "zjstatus::pipe::pipe_old::").count(), 1);
            assert!(publisher.has_retired());
            assert!(publisher.commands(replacement.as_ref(), &snapshot, &tabs, &statuses, false).is_empty());
            assert_eq!(publisher.commands(replacement.as_ref(), &snapshot, &tabs, &statuses, true), removed);
            // Removing all configuration and closing every tab cannot prune global clears.
            publisher.commands(None, &snapshot, &no_tabs, &PaneStatusSnapshot::default(), false);
            let replay = publisher.commands(None, &snapshot, &no_tabs, &PaneStatusSnapshot::default(), true);
            assert!(replay.contains(&"zjstatus::pipe::pipe_old::".into()));
            assert_eq!(replay.len(), publisher.retired_keys().len());
            let reactivated = publisher.commands(Some(&first_config), &snapshot, &tabs, &statuses, true);
            assert!(reactivated.contains(&initial[0]));
            assert!(!reactivated.contains(&"zjstatus::pipe::pipe_old::".into()));
        }
    }
}

#[test]
fn source_switch_to_empty_scratchpad_clears_once_and_replays_until_replaced() {
    let status_config = config("pipe \"badge\" { source \"pane-status\"; }");
    let scratch_config = config("pipe \"badge\" { item_format \"{name}\"; }");
    let statuses = pane_statuses();
    let tabs: Tabs = vec![(42, vec![])];
    for force in [false, true] {
        let mut snapshot = ScratchpadStatusSnapshot::default();
        let mut publisher = Publisher::default();
        publisher.commands(Some(&status_config), &snapshot, &tabs, &statuses, false);
        assert_eq!(
            publisher.commands(Some(&scratch_config), &snapshot, &tabs, &statuses, force),
            ["zjstatus::pipe::pipe_badge::"]
        );
        assert!(publisher.commands(Some(&scratch_config), &snapshot, &tabs, &statuses, false).is_empty());
        assert_eq!(
            publisher.commands(Some(&scratch_config), &snapshot, &tabs, &statuses, true),
            ["zjstatus::pipe::pipe_badge::"]
        );
        snapshot.current_items.push(item(42, ScratchpadDisplayState::Visible));
        assert_eq!(
            publisher.commands(Some(&scratch_config), &snapshot, &tabs, &statuses, true),
            ["zjstatus::pipe::pipe_badge::term"]
        );
        assert!(!publisher.has_retired());
        assert!(publisher.commands(None, &snapshot, &tabs, &statuses, true).is_empty());
    }
}

#[test]
fn source_switch_to_nonempty_scratchpad_never_emits_a_clear() {
    let status_config = config("pipe \"badge\" { source \"pane-status\"; }");
    let scratch_config = config("pipe \"badge\" { item_format \"{name}\"; }");
    let statuses = pane_statuses();
    let tabs: Tabs = vec![(42, vec![])];
    let mut snapshot = ScratchpadStatusSnapshot {
        current_items: vec![item(42, ScratchpadDisplayState::Visible)],
        ..Default::default()
    };
    for force in [false, true] {
        let mut publisher = Publisher::default();
        publisher.commands(Some(&status_config), &snapshot, &tabs, &statuses, false);
        assert_eq!(
            publisher.commands(Some(&scratch_config), &snapshot, &tabs, &statuses, force),
            ["zjstatus::pipe::pipe_badge::term"]
        );
        assert!(!publisher.has_retired());
        assert!(publisher.commands(None, &snapshot, &tabs, &statuses, true).is_empty());
    }
    // Switching back must restore pane-status empty publication and removal policy.
    let mut publisher = Publisher::default();
    publisher.commands(Some(&scratch_config), &snapshot, &tabs, &statuses, false);
    snapshot.current_items.clear();
    assert_eq!(
        publisher.commands(Some(&status_config), &snapshot, &tabs, &PaneStatusSnapshot::default(), false),
        ["zjstatus::pipe::pipe_badge::"]
    );
    assert_eq!(
        publisher.commands(None, &snapshot, &tabs, &statuses, false),
        ["zjstatus::pipe::pipe_badge::"]
    );
    assert!(publisher.has_retired());
}

#[test]
fn receiver_discovery_replays_unchanged_values_and_keeps_delayed_fallback() {
    let config = config(
        "pipe \"badge\" { format \"global\"; }\n\
         tab_pipe \"badge\" { item_format \"{state}\"; }",
    );
    let snapshot = ScratchpadStatusSnapshot::default();
    let tabs: Tabs = vec![
        (42, vec![item(42, ScratchpadDisplayState::Visible)]),
        (57, vec![item(57, ScratchpadDisplayState::Hidden)]),
    ];
    let expected = [
        "zjstatus::pipe::pipe_badge::global",
        "zjstatus::tab_pipe::42::badge::visible",
        "zjstatus::tab_pipe::57::badge::hidden",
    ];
    let mut publisher = Publisher::default();
    let mut scheduler = Scheduler::default();
    scheduler.configure(ms(0), None, Some(2000));
    let mut receivers: Vec<(usize, u32)> = Vec::new();
    let mut manifest: Vec<(usize, Vec<PaneNode>)> = Vec::new();

    for (now, position, id) in [(0u64, 0usize, 7u32), (300, 1, 8)] {
        set_tab(&mut manifest, position, vec![receiver(id)]);
        let changed = update_zjstatus_plugin_panes(&mut receivers, &manifest);
        assert!(changed);
        assert_eq!(
            publisher.commands(Some(&config), &snapshot, &tabs, &PaneStatusSnapshot::default(), changed),
            expected
        );
        if changed {
            scheduler.delay_replay(ms(now), ms(250));
        }
        assert_eq!(scheduler.arm(ms(now)), Some(ms(250)));

        // Ordinary pane changes do not rediscover the existing receivers.
        manifest.iter_mut().find(|(p, _)| *p == position).unwrap().1.push(node(99, false, None));
        let changed = update_zjstatus_plugin_panes(&mut receivers, &manifest);
        assert!(!changed);
        assert!(publisher
            .commands(Some(&config), &snapshot, &tabs, &PaneStatusSnapshot::default(), changed)
            .is_empty());
        assert_eq!(scheduler.take_due(ms(now + 249)), DueTasks::default());
        assert_eq!(
            scheduler.take_due(ms(now + 250)),
            DueTasks { delayed_replay: true, ..Default::default() }
        );
        assert_eq!(scheduler.take_due(ms(now + 250)), DueTasks::default());
    }
    assert!(scheduler.take_due(ms(2000)).full_replay);
}

#[test]
fn receiver_discovery_preserves_empty_retired_and_closed_tab_semantics() {
    let first_config = config(
        "pipe \"badge\" { item_format \"{name}\"; }\n\
         tab_pipe \"badge\" { item_format \"{state}\"; }\n\
         tab_pipe \"old\" { format \"old\"; }",
    );
    let replacement = config(
        "pipe \"badge\" { item_format \"{name}\"; }\n\
         tab_pipe \"badge\" { item_format \"{state}\"; }",
    );
    let mut snapshot = ScratchpadStatusSnapshot {
        current_items: vec![item(42, ScratchpadDisplayState::Visible)],
        ..Default::default()
    };
    let mut tabs: Tabs = vec![(42, snapshot.current_items.clone()), (57, vec![])];
    let mut publisher = Publisher::default();
    let mut receivers: Vec<(usize, u32)> = Vec::new();
    let mut manifest: Vec<(usize, Vec<PaneNode>)> = vec![(0, vec![receiver(7)])];
    let changed = update_zjstatus_plugin_panes(&mut receivers, &manifest);
    publisher.commands(Some(&first_config), &snapshot, &tabs, &PaneStatusSnapshot::default(), changed);
    publisher.commands(Some(&replacement), &snapshot, &tabs, &PaneStatusSnapshot::default(), false);
    assert!(publisher.has_retired());

    snapshot.current_items.clear();
    tabs[0].1 = vec![];
    tabs.retain(|(id, _)| *id != 57);
    set_tab(&mut manifest, 1, vec![receiver(8)]);
    let changed = update_zjstatus_plugin_panes(&mut receivers, &manifest);
    assert!(changed);
    assert_eq!(
        publisher.commands(Some(&replacement), &snapshot, &tabs, &PaneStatusSnapshot::default(), changed),
        ["zjstatus::tab_pipe::42::old::", "zjstatus::tab_pipe::42::badge::"]
    );
    // Skipping empty global output retains its last submission for diffing.
    snapshot.current_items.push(item(42, ScratchpadDisplayState::Visible));
    let changed = update_zjstatus_plugin_panes(&mut receivers, &manifest);
    assert!(!changed);
    assert!(publisher
        .commands(Some(&replacement), &snapshot, &tabs, &PaneStatusSnapshot::default(), changed)
        .is_empty());
    assert!(!publisher
        .published_keys()
        .iter()
        .chain(publisher.retired_keys().iter())
        .any(|key| matches!(key, PublishedKey::Tab(57, _))));
}

#[test]
fn first_delta_and_forced_replay_include_each_kind_and_live_tab() {
    let config = config(
        "pipe \"badge\" { format \"global\"; }\n\
         tab_pipe \"badge\" { item_format \"{state}\"; }\n\
         tab_pipe \"count\" { format \"{tab_live_count}\"; }",
    );
    let tabs: Tabs = vec![
        (42, vec![item(42, ScratchpadDisplayState::Visible)]),
        (57, vec![item(57, ScratchpadDisplayState::Hidden)]),
        (99, vec![]),
    ];
    let mut publisher = Publisher::default();
    let snapshot = ScratchpadStatusSnapshot::default();
    let expected = vec![
        "zjstatus::pipe::pipe_badge::global",
        "zjstatus::tab_pipe::42::badge::visible",
        "zjstatus::tab_pipe::42::count::1",
        "zjstatus::tab_pipe::57::badge::hidden",
        "zjstatus::tab_pipe::57::count::1",
        "zjstatus::tab_pipe::99::badge::",
        "zjstatus::tab_pipe::99::count::0",
    ];
    assert_eq!(
        publisher.commands(Some(&config), &snapshot, &tabs, &PaneStatusSnapshot::default(), false),
        expected
    );
    assert!(publisher
        .commands(Some(&config), &snapshot, &tabs, &PaneStatusSnapshot::default(), false)
        .is_empty());
    assert_eq!(
        publisher.commands(Some(&config), &snapshot, &tabs, &PaneStatusSnapshot::default(), true),
        expected
    );
}

#[test]
fn empty_transition_and_protocol_encoding() {
    let output_config = config("tab_pipe \"badge\" { item_format \"a::b\\n{state}\\r\"; item_closed_format \"\"; }");
    let mut tabs: Tabs = vec![(42, vec![item(42, ScratchpadDisplayState::Visible)])];
    let snapshot = ScratchpadStatusSnapshot::default();
    let mut publisher = Publisher::default();
    assert_eq!(
        publisher.commands(Some(&output_config), &snapshot, &tabs, &PaneStatusSnapshot::default(), false),
        ["zjstatus::tab_pipe::42::badge::a::b visible "]
    );
    tabs[0].1[0].state = ScratchpadDisplayState::Closed;
    assert_eq!(
        publisher.commands(Some(&output_config), &snapshot, &tabs, &PaneStatusSnapshot::default(), false),
        ["zjstatus::tab_pipe::42::badge::"]
    );
    assert!(!publisher.has_retired());
    let spaces = config("tab_pipe \"badge\" { format \"  \"; }");
    assert_eq!(
        publisher.commands(Some(&spaces), &snapshot, &tabs, &PaneStatusSnapshot::default(), false),
        ["zjstatus::tab_pipe::42::badge::  "]
    );
}

#[test]
fn removal_disable_rename_retire_and_reactivation() {
    for replacement in [
        None,
        Some(config("tab_pipe \"old\" { enabled false; }")),
        Some(config("tab_pipe \"new\" { format \"new\"; }")),
    ] {
        let first_config = config("tab_pipe \"old\" { format \"old\"; }");
        let snapshot = ScratchpadStatusSnapshot::default();
        let tabs: Tabs = vec![(42, vec![])];
        let mut publisher = Publisher::default();
        publisher.commands(Some(&first_config), &snapshot, &tabs, &PaneStatusSnapshot::default(), false);
        let removed = publisher.commands(replacement.as_ref(), &snapshot, &tabs, &PaneStatusSnapshot::default(), false);
        assert_eq!(removed[0], "zjstatus::tab_pipe::42::old::");
        assert!(publisher.has_retired());
        assert!(publisher
            .commands(replacement.as_ref(), &snapshot, &tabs, &PaneStatusSnapshot::default(), false)
            .is_empty());
        let replay = publisher.commands(replacement.as_ref(), &snapshot, &tabs, &PaneStatusSnapshot::default(), true);
        assert_eq!(replay[0], "zjstatus::tab_pipe::42::old::");
        let reactivated = publisher.commands(Some(&first_config), &snapshot, &tabs, &PaneStatusSnapshot::default(), true);
        assert!(reactivated.contains(&"zjstatus::tab_pipe::42::old::old".into()));
        assert!(!reactivated.contains(&"zjstatus::tab_pipe::42::old::".into()));
        assert!(!publisher.retired_keys().contains(&PublishedKey::Tab(42, "old".into())));
    }
}

#[test]
fn closed_tabs_prune_active_and_retired_keys_without_clears() {
    let config = config("tab_pipe \"badge\" { format \"x\"; }");
    let snapshot = ScratchpadStatusSnapshot::default();
    let no_tabs: Tabs = Vec::new();
    for retire in [false, true] {
        let mut publisher = Publisher::default();
        let tabs: Tabs = vec![(42, vec![])];
        publisher.commands(Some(&config), &snapshot, &tabs, &PaneStatusSnapshot::default(), false);
        if retire {
            publisher.commands(None, &snapshot, &tabs, &PaneStatusSnapshot::default(), false);
        }
        assert!(publisher.commands(None, &snapshot, &no_tabs, &PaneStatusSnapshot::default(), true).is_empty());
        assert!(publisher.published_keys().is_empty());
        assert!(!publisher.has_retired());
        assert!(publisher.commands(None, &snapshot, &tabs, &PaneStatusSnapshot::default(), true).is_empty());
        assert_eq!(
            publisher.commands(Some(&config), &snapshot, &tabs, &PaneStatusSnapshot::default(), false).len(),
            1
        );
    }
}

#[test]
fn global_empty_skip_preserves_cache_and_removal_does_not_clear() {
    let config = config("pipe \"badge\" { item_format \"{name}\"; }");
    let mut snapshot = ScratchpadStatusSnapshot::default();
    let tabs: Tabs = Vec::new();
    let mut publisher = Publisher::default();
    assert!(publisher.commands(Some(&config), &snapshot, &tabs, &PaneStatusSnapshot::default(), true).is_empty());
    snapshot.current_items.push(item(42, ScratchpadDisplayState::Visible));
    assert_eq!(
        publisher.commands(Some(&config), &snapshot, &tabs, &PaneStatusSnapshot::default(), false),
        ["zjstatus::pipe::pipe_badge::term"]
    );
    snapshot.current_items.clear();
    assert!(publisher.commands(Some(&config), &snapshot, &tabs, &PaneStatusSnapshot::default(), true).is_empty());
    snapshot.current_items.push(item(42, ScratchpadDisplayState::Visible));
    assert!(publisher.commands(Some(&config), &snapshot, &tabs, &PaneStatusSnapshot::default(), false).is_empty());
    assert_eq!(
        publisher.commands(Some(&config), &snapshot, &tabs, &PaneStatusSnapshot::default(), true).len(),
        1
    );
    assert!(publisher.commands(None, &snapshot, &tabs, &PaneStatusSnapshot::default(), true).is_empty());
    assert!(!publisher.has_retired());
    assert_eq!(
        publisher.commands(Some(&config), &snapshot, &tabs, &PaneStatusSnapshot::default(), false).len(),
        1
    );
}

#[test]
fn tab_first_or_pane_first_converges_and_positions_do_not_change_keys() {
    let config = config("tab_pipe \"badge\" { item_format \"{state}\"; }");
    let snapshot = ScratchpadStatusSnapshot::default();
    let no_tabs: Tabs = Vec::new();
    for tab_first in [false, true] {
        let mut publisher = Publisher::default();
        // Publication only starts after the first tab snapshot.
        if tab_first {
            let first: Tabs = vec![(42, vec![])];
            assert_eq!(
                publisher.commands(Some(&config), &snapshot, &first, &PaneStatusSnapshot::default(), false),
                ["zjstatus::tab_pipe::42::badge::"]
            );
        }
        let mut tabs: Tabs = vec![(42, vec![item(42, ScratchpadDisplayState::Visible)])];
        assert_eq!(
            publisher.commands(Some(&config), &snapshot, &tabs, &PaneStatusSnapshot::default(), false),
            ["zjstatus::tab_pipe::42::badge::visible"]
        );
        tabs[0].1[0].tab_position = Some(5);
        assert!(publisher.commands(Some(&config), &snapshot, &tabs, &PaneStatusSnapshot::default(), false).is_empty());
        assert!(publisher.commands(Some(&config), &snapshot, &no_tabs, &PaneStatusSnapshot::default(), true).is_empty());
    }
}

#[test]
fn retired_clears_keep_replay_alive_without_active_outputs() {
    let config = config("tab_pipe \"badge\" {}");
    let snapshot = ScratchpadStatusSnapshot::default();
    let tabs: Tabs = vec![(42, vec![])];
    let no_tabs: Tabs = Vec::new();
    let mut publisher = Publisher::default();
    publisher.commands(Some(&config), &snapshot, &tabs, &PaneStatusSnapshot::default(), false);
    publisher.commands(None, &snapshot, &tabs, &PaneStatusSnapshot::default(), false);
    let mut scheduler = Scheduler::default();
    scheduler.configure(ms(0), None, publisher.has_retired().then_some(u64::from(config.refresh_ms)));
    assert_eq!(scheduler.arm(ms(0)), Some(ms(2000)));
    assert!(scheduler.take_due(ms(2000)).full_replay);
    assert_eq!(
        publisher.commands(None, &snapshot, &tabs, &PaneStatusSnapshot::default(), true),
        ["zjstatus::tab_pipe::42::badge::"]
    );
    publisher.commands(None, &snapshot, &no_tabs, &PaneStatusSnapshot::default(), false);
    scheduler.configure(ms(2000), None, publisher.has_retired().then_some(u64::from(config.refresh_ms)));
    assert_eq!(scheduler.arm(ms(2000)), None);
}
