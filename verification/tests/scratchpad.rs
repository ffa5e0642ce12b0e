use std::collections::{HashMap, HashSet};
use std::path::PathBuf;

use zellij_tools::message::ParseError;
use zellij_tools::scratchpad::config::{
    parse_external_scratchpads, resolve_axis, AxisOrigin, Origin, ScratchpadConfig, SizeValue,
};
use zellij_tools::scratchpad::registry::{
    is_stale, registry_file_path, OpenDecision, RegistryRecordState, ScratchpadRegistry,
};
use zellij_tools::scratchpad::{
    is_valid_scratchpad_name, parse_scratchpad_action, parse_scratchpads_kdl, state_file_path, ScratchpadAction,
};

const OWNER: u32 = 11;
const TIMEOUT_MS: u64 = 2_000;

fn live_tabs(tabs: &[usize]) -> HashSet<usize> {
    tabs.iter().copied().collect()
}

fn live_panes(panes: &[(u32, usize)]) -> HashMap<u32, usize> {
    panes.iter().copied().collect()
}

fn args<'a>(strs: &[&'a str]) -> Vec<&'a str> {
    strs.to_vec()
}

#[test]
fn valid_name_alphanumeric() {
    assert!(is_valid_scratchpad_name("terminal1"));
}

#[test]
fn valid_name_with_underscore() {
    assert!(is_valid_scratchpad_name("my_scratchpad"));
}

#[test]
fn valid_name_with_hyphen() {
    assert!(is_valid_scratchpad_name("my-scratchpad"));
}

#[test]
fn invalid_name_empty() {
    assert!(!is_valid_scratchpad_name(""));
}

#[test]
fn invalid_name_with_space() {
    assert!(!is_valid_scratchpad_name("my pad"));
}

#[test]
fn invalid_name_with_special_chars() {
    assert!(!is_valid_scratchpad_name("my@pad"));
}

#[test]
fn parse_toggle_no_name() {
    let action = parse_scratchpad_action(&args(&["toggle"])).unwrap();
    assert!(matches!(action, ScratchpadAction::Toggle { name: None }));
}

#[test]
fn parse_toggle_with_name() {
    let action = parse_scratchpad_action(&args(&["toggle", "mypad"])).unwrap();
    assert!(matches!(
        action,
        ScratchpadAction::Toggle { name: Some(n) } if n == "mypad"
    ));
}

#[test]
fn parse_show() {
    let action = parse_scratchpad_action(&args(&["show", "mypad"])).unwrap();
    assert!(matches!(
        action,
        ScratchpadAction::Show { name } if name == "mypad"
    ));
}

#[test]
fn parse_show_missing_name() {
    let result = parse_scratchpad_action(&args(&["show"]));
    assert!(matches!(result, Err(ParseError::InvalidArgs(_))));
}

#[test]
fn parse_hide() {
    let action = parse_scratchpad_action(&args(&["hide", "mypad"])).unwrap();
    assert!(matches!(
        action,
        ScratchpadAction::Hide { name } if name == "mypad"
    ));
}

#[test]
fn parse_close() {
    let action = parse_scratchpad_action(&args(&["close", "mypad"])).unwrap();
    assert!(matches!(
        action,
        ScratchpadAction::Close { name } if name == "mypad"
    ));
}

#[test]
fn parse_invalid_name() {
    let result = parse_scratchpad_action(&args(&["show", "my pad"]));
    assert!(matches!(result, Err(ParseError::InvalidScratchpadName(_))));
}

#[test]
fn parse_unknown_action() {
    let result = parse_scratchpad_action(&args(&["unknown"]));
    assert!(matches!(result, Err(ParseError::InvalidArgs(_))));
}

#[test]
fn parse_kdl_reads_command_title_cwd_and_origin() {
    let configs = parse_scratchpads_kdl(
        r#"term { command "nu" "-l"; title "My Terminal"; cwd "/work"; origin "bottom" "right"; width "80"; }"#,
    )
    .unwrap();
    let term = configs.get("term").unwrap();
    assert_eq!(term.command, vec!["nu".to_string(), "-l".to_string()]);
    assert_eq!(term.title.as_deref(), Some("My Terminal"));
    assert_eq!(term.cwd.as_deref(), Some("/work"));
    assert_eq!(term.width.as_deref(), Some("80"));
    assert_eq!(term.origin, Origin { vertical: AxisOrigin::End, horizontal: AxisOrigin::End });
}

#[test]
fn parse_kdl_rejects_invalid_origin_and_defaults_to_center() {
    assert!(parse_scratchpads_kdl(r#"term { command "nu"; origin "middle"; }"#).is_err());
    let configs = parse_scratchpads_kdl(r#"term { command "nu"; }"#).unwrap();
    assert_eq!(configs.get("term").unwrap().origin, Origin { vertical: AxisOrigin::Center, horizontal: AxisOrigin::Center });
}

#[test]
fn size_values_parse_fixed_and_percent() {
    assert_eq!(SizeValue::parse("80"), Some(SizeValue::Fixed(80)));
    assert_eq!(SizeValue::parse("50%"), Some(SizeValue::Percent(50)));
    assert_eq!(SizeValue::parse("abc"), None);
    assert_eq!(SizeValue::parse("%"), None);
}

#[test]
fn axis_positions_follow_origin() {
    assert_eq!(resolve_axis(AxisOrigin::Start, 10, Some(80), 200), 10);
    assert_eq!(resolve_axis(AxisOrigin::Center, 0, Some(80), 200), 60);
    assert_eq!(resolve_axis(AxisOrigin::Center, 5, Some(80), 200), 65);
    assert_eq!(resolve_axis(AxisOrigin::End, 0, Some(10), 50), 40);
    assert_eq!(resolve_axis(AxisOrigin::End, 5, Some(10), 50), 35);
    assert_eq!(resolve_axis(AxisOrigin::End, 100, Some(10), 50), 0);
    assert_eq!(resolve_axis(AxisOrigin::Center, 500, Some(10), 50), 520);
    assert_eq!(resolve_axis(AxisOrigin::Center, 150, Some(80), 200), 210);
    assert_eq!(resolve_axis(AxisOrigin::Center, usize::MAX, Some(10), 50), usize::MAX);
}

#[test]
fn placing_with_top_left_origin_passes_texts_through() {
    let config = ScratchpadConfig {
        command: vec!["nu".into()],
        x: Some("10".into()),
        y: Some("20%".into()),
        width: Some("80".into()),
        height: Some("50%".into()),
        origin: Origin { vertical: AxisOrigin::Start, horizontal: AxisOrigin::Start },
        title: None,
        cwd: None,
    };
    let placed = config.place(Some(80), Some(25), 10, 10, 200, 50);
    assert_eq!(placed.x.as_deref(), Some("10"));
    assert_eq!(placed.y.as_deref(), Some("20%"));
    assert_eq!(placed.width.as_deref(), Some("80"));
    assert_eq!(placed.height.as_deref(), Some("50%"));
}

#[test]
fn placing_centered_computes_positions() {
    let config = ScratchpadConfig {
        command: vec!["nu".into()],
        x: None,
        y: None,
        width: Some("80".into()),
        height: Some("24".into()),
        origin: Origin { vertical: AxisOrigin::Center, horizontal: AxisOrigin::Center },
        title: None,
        cwd: None,
    };
    let placed = config.place(Some(80), Some(24), 0, 0, 200, 50);
    assert_eq!(placed.x.as_deref(), Some("60"));
    assert_eq!(placed.y.as_deref(), Some("13"));
    assert_eq!(placed.width.as_deref(), Some("80"));
}

#[test]
fn state_file_path_uses_pid() {
    let path = state_file_path(12345);
    assert_eq!(PathBuf::from(path), PathBuf::from("/tmp/zellij-tools-12345-state.json"));
}

#[test]
fn registry_path_uses_pid() {
    assert_eq!(registry_file_path(7), "/cache/scratchpad-registry-7.json");
}

#[test]
fn staleness_is_inclusive_and_saturating() {
    assert!(is_stale(100, 2_100, TIMEOUT_MS));
    assert!(!is_stale(100, 2_099, TIMEOUT_MS));
    assert!(!is_stale(5_000, 100, TIMEOUT_MS));
}

#[test]
fn missing_key_creates_pending() {
    let mut registry = ScratchpadRegistry::default();

    let decision = registry.begin_open("term", 7, OWNER, 100, TIMEOUT_MS);

    assert_eq!(decision, OpenDecision::Open);
    assert_eq!(
        registry.record("term", 7).map(|record| &record.state),
        Some(&RegistryRecordState::Pending { owner_plugin_id: OWNER })
    );
}

#[test]
fn own_pending_becomes_present() {
    let mut registry = ScratchpadRegistry::default();
    registry.begin_open("term", 7, OWNER, 100, TIMEOUT_MS);

    assert!(registry.finish_open("term", 7, OWNER, 42, 150));

    assert_eq!(
        registry.record("term", 7).map(|record| &record.state),
        Some(&RegistryRecordState::Present { pane_id: 42 })
    );
}

#[test]
fn stale_pending_is_removed() {
    let mut registry = ScratchpadRegistry::default();
    registry.begin_open("term", 7, OWNER, 100, TIMEOUT_MS);

    registry.reconcile(&live_tabs(&[7]), &live_panes(&[]), 2_100, TIMEOUT_MS);

    assert!(registry.record("term", 7).is_none());
}

#[test]
fn fresh_pending_prevents_duplicate_open() {
    let mut registry = ScratchpadRegistry::default();
    registry.begin_open("term", 7, OWNER, 100, TIMEOUT_MS);

    let decision = registry.begin_open("term", 7, 99, 150, TIMEOUT_MS);

    assert_eq!(decision, OpenDecision::Pending);
    assert_eq!(registry.entries.len(), 1);
}

#[test]
fn present_resolves_to_existing_pane() {
    let mut registry = ScratchpadRegistry::default();
    registry.begin_open("term", 7, OWNER, 100, TIMEOUT_MS);
    registry.finish_open("term", 7, OWNER, 42, 150);

    let decision = registry.begin_open("term", 7, 99, 200, TIMEOUT_MS);

    assert_eq!(decision, OpenDecision::UseExisting { pane_id: 42 });
}

#[test]
fn missing_pane_is_reconciled_out() {
    let mut registry = ScratchpadRegistry::default();
    registry.begin_open("term", 7, OWNER, 100, TIMEOUT_MS);
    registry.finish_open("term", 7, OWNER, 42, 150);

    registry.reconcile(&live_tabs(&[7]), &live_panes(&[]), 200, TIMEOUT_MS);

    assert!(registry.record("term", 7).is_none());
}

#[test]
fn missing_tab_is_reconciled_out() {
    let mut registry = ScratchpadRegistry::default();
    registry.begin_open("term", 7, OWNER, 100, TIMEOUT_MS);
    registry.finish_open("term", 7, OWNER, 42, 150);

    registry.reconcile(&live_tabs(&[8]), &live_panes(&[(42, 7)]), 200, TIMEOUT_MS);

    assert!(registry.record("term", 7).is_none());
}

#[test]
fn tab_local_identity_keeps_same_name_separate() {
    let mut registry = ScratchpadRegistry::default();

    let first = registry.begin_open("term", 7, OWNER, 100, TIMEOUT_MS);
    let second = registry.begin_open("term", 8, OWNER, 100, TIMEOUT_MS);

    assert_eq!(first, OpenDecision::Open);
    assert_eq!(second, OpenDecision::Open);
    assert!(registry.record("term", 7).is_some());
    assert!(registry.record("term", 8).is_some());
}

#[test]
fn cancel_undoes_own_pending_open() {
    let mut registry = ScratchpadRegistry::default();
    registry.begin_open("term", 7, OWNER, 100, TIMEOUT_MS);
    assert!(!registry.cancel_open("term", 7, 99));
    assert!(registry.cancel_open("term", 7, OWNER));
    assert!(registry.record("term", 7).is_none());
}

#[test]
fn present_record_survives_reconcile_with_live_pane() {
    let mut registry = ScratchpadRegistry::default();
    registry.begin_open("term", 7, OWNER, 100, TIMEOUT_MS);
    registry.finish_open("term", 7, OWNER, 42, 150);
    registry.reconcile(&live_tabs(&[7]), &live_panes(&[(42, 7)]), 5_000, TIMEOUT_MS);
    registry.reconcile(&live_tabs(&[7]), &live_panes(&[(42, 7)]), 5_000, TIMEOUT_MS);
    assert_eq!(
        registry.record("term", 7).map(|record| &record.state),
        Some(&RegistryRecordState::Present { pane_id: 42 })
    );
}

// parse_scratchpads_kdl tests
#[test]
fn parse_kdl_single_scratchpad() {
    let input = r#"term { command "nu"; }"#;
    let configs = parse_scratchpads_kdl(input).unwrap();
    assert_eq!(configs.len(), 1);
    assert_eq!(configs.get("term").unwrap().command, vec!["nu"]);
}

#[test]
fn parse_kdl_multi_arg_command() {
    let input = r#"helper { command "direnv" "exec" "." "helper-bun"; }"#;
    let configs = parse_scratchpads_kdl(input).unwrap();
    assert_eq!(
        configs.get("helper").unwrap().command,
        vec!["direnv", "exec", ".", "helper-bun"]
    );
}

#[test]
fn parse_kdl_multiple_scratchpads() {
    let input = r#"
        term { command "nu"; }
        htop { command "htop"; }
    "#;
    let configs = parse_scratchpads_kdl(input).unwrap();
    assert_eq!(configs.len(), 2);
}

#[test]
fn parse_kdl_error_on_missing_command() {
    let input = r#"term { }"#;
    assert!(parse_scratchpads_kdl(input).is_err());
}

#[test]
fn parse_kdl_error_on_invalid_name() {
    let input = r#"my pad { command "nu"; }"#;
    assert!(parse_scratchpads_kdl(input).is_err());
}

#[test]
fn parse_kdl_width_and_height_fixed() {
    let input = r#"
        term {
            command "sh" "-c" "echo hello"
            width "60"
            height "10"
        }
    "#;
    let configs = parse_scratchpads_kdl(input).unwrap();
    assert_eq!(configs.get("term").unwrap().width.as_deref(), Some("60"));
    assert_eq!(configs.get("term").unwrap().height.as_deref(), Some("10"));
}

#[test]
fn parse_kdl_width_and_height_percent() {
    let input = r#"
        term {
            command "nu"
            width "80%"
            height "50%"
        }
    "#;
    let configs = parse_scratchpads_kdl(input).unwrap();
    assert_eq!(configs.get("term").unwrap().width.as_deref(), Some("80%"));
    assert_eq!(configs.get("term").unwrap().height.as_deref(), Some("50%"));
}

#[test]
fn parse_kdl_x_and_y() {
    let input = r#"
        term {
            command "nu"
            x "5"
            y "10%"
        }
    "#;
    let configs = parse_scratchpads_kdl(input).unwrap();
    assert_eq!(configs.get("term").unwrap().x.as_deref(), Some("5"));
    assert_eq!(configs.get("term").unwrap().y.as_deref(), Some("10%"));
}

#[test]
fn parse_kdl_all_coordinates() {
    let input = r#"
        term {
            command "nu"
            x "1"
            y "10%"
            width "200"
            height "50%"
        }
    "#;
    let configs = parse_scratchpads_kdl(input).unwrap();
    assert_eq!(configs.get("term").unwrap().x.as_deref(), Some("1"));
    assert_eq!(configs.get("term").unwrap().y.as_deref(), Some("10%"));
    assert_eq!(configs.get("term").unwrap().width.as_deref(), Some("200"));
    assert_eq!(configs.get("term").unwrap().height.as_deref(), Some("50%"));
}

#[test]
fn parse_kdl_width_only() {
    let input = r#"term { command "nu"; width "80"; }"#;
    let configs = parse_scratchpads_kdl(input).unwrap();
    assert_eq!(configs.get("term").unwrap().width.as_deref(), Some("80"));
    assert_eq!(configs.get("term").unwrap().height, None);
}

#[test]
fn parse_kdl_no_dimensions() {
    let input = r#"term { command "nu"; }"#;
    let configs = parse_scratchpads_kdl(input).unwrap();
    assert_eq!(configs.get("term").unwrap().x, None);
    assert_eq!(configs.get("term").unwrap().y, None);
    assert_eq!(configs.get("term").unwrap().width, None);
    assert_eq!(configs.get("term").unwrap().height, None);
    assert_eq!(configs.get("term").unwrap().origin, Origin::default());
}

// origin parsing tests

#[test]
fn parse_kdl_origin_center() {
    let input = r#"term { command "nu"; origin "center"; }"#;
    let configs = parse_scratchpads_kdl(input).unwrap();
    assert_eq!(
        configs.get("term").unwrap().origin,
        Origin {
            vertical: AxisOrigin::Center,
            horizontal: AxisOrigin::Center,
        }
    );
}

#[test]
fn parse_kdl_origin_top() {
    let input = r#"term { command "nu"; origin "top"; }"#;
    let configs = parse_scratchpads_kdl(input).unwrap();
    assert_eq!(
        configs.get("term").unwrap().origin,
        Origin {
            vertical: AxisOrigin::Start,
            horizontal: AxisOrigin::Start,
        }
    );
}

#[test]
fn parse_kdl_origin_bottom() {
    let input = r#"term { command "nu"; origin "bottom"; }"#;
    let configs = parse_scratchpads_kdl(input).unwrap();
    assert_eq!(
        configs.get("term").unwrap().origin,
        Origin {
            vertical: AxisOrigin::End,
            horizontal: AxisOrigin::Start,
        }
    );
}

#[test]
fn parse_kdl_origin_right() {
    let input = r#"term { command "nu"; origin "right"; }"#;
    let configs = parse_scratchpads_kdl(input).unwrap();
    assert_eq!(
        configs.get("term").unwrap().origin,
        Origin {
            vertical: AxisOrigin::Start,
            horizontal: AxisOrigin::End,
        }
    );
}

#[test]
fn parse_kdl_origin_two_args() {
    let input = r#"term { command "nu"; origin "bottom" "center"; }"#;
    let configs = parse_scratchpads_kdl(input).unwrap();
    assert_eq!(
        configs.get("term").unwrap().origin,
        Origin {
            vertical: AxisOrigin::End,
            horizontal: AxisOrigin::Center,
        }
    );
}

#[test]
fn parse_kdl_origin_top_right() {
    let input = r#"term { command "nu"; origin "top" "right"; }"#;
    let configs = parse_scratchpads_kdl(input).unwrap();
    assert_eq!(
        configs.get("term").unwrap().origin,
        Origin {
            vertical: AxisOrigin::Start,
            horizontal: AxisOrigin::End,
        }
    );
}

#[test]
fn parse_kdl_origin_invalid() {
    let input = r#"term { command "nu"; origin "middle"; }"#;
    assert!(parse_scratchpads_kdl(input).is_err());
}

#[test]
fn parse_kdl_origin_invalid_vertical_in_two_args() {
    let input = r#"term { command "nu"; origin "left" "right"; }"#;
    assert!(parse_scratchpads_kdl(input).is_err());
}

#[test]
fn parse_kdl_origin_too_many_args() {
    let input = r#"term { command "nu"; origin "top" "left" "extra"; }"#;
    assert!(parse_scratchpads_kdl(input).is_err());
}

#[test]
fn parse_kdl_no_origin_defaults_to_center() {
    let input = r#"term { command "nu"; }"#;
    let configs = parse_scratchpads_kdl(input).unwrap();
    assert_eq!(configs.get("term").unwrap().origin, Origin::default());
    assert_eq!(configs.get("term").unwrap().origin.vertical, AxisOrigin::Center);
    assert_eq!(configs.get("term").unwrap().origin.horizontal, AxisOrigin::Center);
}

// title and cwd parsing tests

#[test]
fn parse_kdl_title() {
    let input = r#"term { command "nu"; title "My Terminal"; }"#;
    let configs = parse_scratchpads_kdl(input).unwrap();
    assert_eq!(configs.get("term").unwrap().title.as_deref(), Some("My Terminal"));
}

#[test]
fn parse_kdl_cwd() {
    let input = r#"term { command "nu"; cwd "/home/user/projects"; }"#;
    let configs = parse_scratchpads_kdl(input).unwrap();
    assert_eq!(configs.get("term").unwrap().cwd.as_deref(), Some("/home/user/projects"));
}

#[test]
fn parse_kdl_title_and_cwd() {
    let input = r#"
        term {
            command "nu"
            title "Dev Shell"
            cwd "/tmp"
        }
    "#;
    let configs = parse_scratchpads_kdl(input).unwrap();
    assert_eq!(configs.get("term").unwrap().title.as_deref(), Some("Dev Shell"));
    assert_eq!(configs.get("term").unwrap().cwd.as_deref(), Some("/tmp"));
}

#[test]
fn parse_kdl_no_title_or_cwd() {
    let input = r#"term { command "nu"; }"#;
    let configs = parse_scratchpads_kdl(input).unwrap();
    assert_eq!(configs.get("term").unwrap().title, None);
    assert_eq!(configs.get("term").unwrap().cwd, None);
}

#[test]
fn parse_kdl_all_options() {
    let input = r#"
        term {
            command "nu"
            x "5"
            y "10"
            width "80"
            height "24"
            origin "top" "left"
            title "Full Config"
            cwd "/home/user"
        }
    "#;
    let configs = parse_scratchpads_kdl(input).unwrap();
    let c = configs.get("term").unwrap();
    assert_eq!(c.command, vec!["nu"]);
    assert_eq!(c.x.as_deref(), Some("5"));
    assert_eq!(c.y.as_deref(), Some("10"));
    assert_eq!(c.width.as_deref(), Some("80"));
    assert_eq!(c.height.as_deref(), Some("24"));
    assert_eq!(c.title.as_deref(), Some("Full Config"));
    assert_eq!(c.cwd.as_deref(), Some("/home/user"));
}

fn registry_pane(id: u32, is_plugin: bool) -> zellij_tools::tree::PaneNode {
    zellij_tools::tree::PaneNode {
        id,
        is_plugin,
        is_focused: false,
        is_fullscreen: false,
        is_floating: true,
        is_suppressed: false,
        title: String::new(),
        exited: false,
        exit_status: None,
        is_held: false,
        pane_x: 0,
        pane_content_x: 0,
        pane_y: 0,
        pane_content_y: 0,
        pane_rows: 0,
        pane_content_rows: 0,
        pane_columns: 0,
        pane_content_columns: 0,
        cursor_coordinates_in_pane: None,
        terminal_command: None,
        plugin_url: None,
        is_selectable: true,
    }
}

#[test]
fn live_registry_state_maps_terminal_panes_to_native_tabs() {
    let tabs = vec![(10, 0), (42, 1)];
    let manifest = vec![
        (0, vec![registry_pane(1, false), registry_pane(2, true)]),
        (1, vec![registry_pane(3, false)]),
        (5, vec![registry_pane(4, false)]),
    ];
    let (live_tabs, live_panes) =
        zellij_tools::scratchpad::registry::live_registry_state(&tabs, &manifest);
    assert_eq!(live_tabs.len(), 2);
    assert!(live_tabs.contains(&10) && live_tabs.contains(&42));
    assert_eq!(live_panes.len(), 2);
    assert_eq!(live_panes.get(&1), Some(&10));
    assert_eq!(live_panes.get(&3), Some(&42));
    assert_eq!(live_panes.get(&2), None);
    assert_eq!(live_panes.get(&4), None);
}

#[test]
fn external_config_reads_its_scratchpads_block() {
    let configs = parse_external_scratchpads(
        "zjstatus {\n    refresh_ms 2000\n}\nscratchpads {\n    term { command \"zsh\"; }\n    btop { command \"btop\"; }\n}\n",
    )
    .unwrap();
    assert_eq!(configs.len(), 2);
    assert_eq!(configs.get("term").unwrap().command, vec!["zsh".to_string()]);
    assert_eq!(parse_external_scratchpads("other {\n}\n").unwrap().len(), 0);
    assert_eq!(parse_external_scratchpads("scratchpads").unwrap().len(), 0);
    match parse_external_scratchpads("scratchpads {") {
        Err(e) => assert!(e.starts_with("KDL parse error: ")),
        Ok(_) => panic!("expected a parse error"),
    }
}

/// The fixed size or offset a config text names, as the placement takes it.
fn fixed_extent(text: &Option<String>) -> Option<usize> {
    match text.as_deref().and_then(SizeValue::parse) {
        Some(SizeValue::Fixed(v)) => Some(v),
        _ => None,
    }
}

fn place_fixed(config: &ScratchpadConfig, cols: usize, rows: usize) -> zellij_tools::scratchpad::config::ResolvedCoordinates {
    config.place(
        fixed_extent(&config.width),
        fixed_extent(&config.height),
        fixed_extent(&config.x).unwrap_or(0),
        fixed_extent(&config.y).unwrap_or(0),
        cols,
        rows,
    )
}

#[test]
fn resolve_center_fixed_size() {
    let config = ScratchpadConfig {
        command: vec!["nu".into()],
        x: None,
        y: None,
        width: Some("80".into()),
        height: Some("24".into()),
        origin: Origin { vertical: AxisOrigin::Center, horizontal: AxisOrigin::Center },
        title: None,
        cwd: None,
    };
    let resolved = place_fixed(&config, 200, 50);
    assert_eq!(resolved.x.as_deref(), Some("60"));
    assert_eq!(resolved.y.as_deref(), Some("13"));
}

#[test]
fn resolve_bottom_right() {
    let config = ScratchpadConfig {
        command: vec!["nu".into()],
        x: None,
        y: None,
        width: Some("80".into()),
        height: Some("10".into()),
        origin: Origin { vertical: AxisOrigin::End, horizontal: AxisOrigin::End },
        title: None,
        cwd: None,
    };
    let resolved = place_fixed(&config, 200, 50);
    assert_eq!(resolved.x.as_deref(), Some("120"));
    assert_eq!(resolved.y.as_deref(), Some("40"));
}

#[test]
fn resolve_bottom_with_offset() {
    let config = ScratchpadConfig {
        command: vec!["nu".into()],
        x: None,
        y: Some("5".into()),
        width: None,
        height: Some("10".into()),
        origin: Origin { vertical: AxisOrigin::End, horizontal: AxisOrigin::Start },
        title: None,
        cwd: None,
    };
    let resolved = place_fixed(&config, 200, 50);
    assert_eq!(resolved.y.as_deref(), Some("35"));
}

#[test]
fn resolve_center_with_offset() {
    let config = ScratchpadConfig {
        command: vec!["nu".into()],
        x: Some("5".into()),
        y: None,
        width: Some("80".into()),
        height: None,
        origin: Origin { vertical: AxisOrigin::Center, horizontal: AxisOrigin::Center },
        title: None,
        cwd: None,
    };
    let resolved = place_fixed(&config, 200, 50);
    assert_eq!(resolved.x.as_deref(), Some("65"));
}

#[test]
fn centered_offset_shifts_past_the_viewport() {
    let config = ScratchpadConfig {
        command: vec!["nu".into()],
        x: Some("150".into()),
        y: None,
        width: Some("80".into()),
        height: None,
        origin: Origin { vertical: AxisOrigin::Start, horizontal: AxisOrigin::Center },
        title: None,
        cwd: None,
    };
    let resolved = place_fixed(&config, 200, 50);
    assert_eq!(resolved.x.as_deref(), Some("210"));
}

#[test]
fn resolve_start_origin_passes_through() {
    let config = ScratchpadConfig {
        command: vec!["nu".into()],
        x: Some("10".into()),
        y: Some("20%".into()),
        width: Some("80".into()),
        height: Some("50%".into()),
        origin: Origin { vertical: AxisOrigin::Start, horizontal: AxisOrigin::Start },
        title: None,
        cwd: None,
    };
    let resolved = place_fixed(&config, 200, 50);
    assert_eq!(resolved.x.as_deref(), Some("10"));
    assert_eq!(resolved.y.as_deref(), Some("20%"));
    assert_eq!(resolved.width.as_deref(), Some("80"));
    assert_eq!(resolved.height.as_deref(), Some("50%"));
}
