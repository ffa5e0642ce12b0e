use zellij_tools::client::{
    focus_pane_message, focus_tab_message, scratchpad_list_message, scratchpad_message,
    subscribe_message, unsubscribe_message, ScratchpadRequest,
};
use zellij_tools::events::TypedPaneId;
use zellij_tools::focus::FocusTabTarget;
use zellij_tools::message::ParseError;
use zellij_tools::request::{
    context_tab, focus_tab_index, is_heartbeat, orphaned_tab_ids, parse_request,
    parse_watch_interval, prune_due, PluginRequest,
};
use zellij_tools::scratchpad::ScratchpadAction;
use zellij_tools::stream::SubscribeMode;

fn invalid_args(r: Result<PluginRequest, ParseError>) -> String {
    match r {
        Err(ParseError::InvalidArgs(m)) => m,
        _ => panic!("expected invalid arguments"),
    }
}

#[test]
fn focus_pane_accepts_typed_and_bare_ids() {
    assert!(matches!(
        parse_request("zellij-tools::focus-pane::terminal_3", None),
        Ok(PluginRequest::FocusPane(TypedPaneId::Terminal(3)))
    ));
    assert!(matches!(
        parse_request("zellij-tools::focus-pane::plugin_7", None),
        Ok(PluginRequest::FocusPane(TypedPaneId::Plugin(7)))
    ));
    assert!(matches!(
        parse_request("zellij-tools::focus-pane::12", None),
        Ok(PluginRequest::FocusPane(TypedPaneId::Terminal(12)))
    ));
}

#[test]
fn focus_pane_errors() {
    assert_eq!(
        invalid_args(parse_request("zellij-tools::focus-pane", None)),
        "focus-pane requires 1 argument, got 0"
    );
    assert_eq!(
        invalid_args(parse_request("zellij-tools::focus-pane::terminal_x", None)),
        "Invalid pane ID: invalid digit found in string"
    );
    assert_eq!(
        invalid_args(parse_request("zellij-tools::focus-pane::plugin_", None)),
        "Invalid pane ID: cannot parse integer from empty string"
    );
}

#[test]
fn focus_tab_targets() {
    assert!(matches!(
        parse_request("zellij-tools::focus-tab::id::42", None),
        Ok(PluginRequest::FocusTab(FocusTabTarget::TabId(42)))
    ));
    assert!(matches!(
        parse_request("zellij-tools::focus-tab::2", None),
        Ok(PluginRequest::FocusTab(FocusTabTarget::Position(2)))
    ));
}

#[test]
fn scratchpad_list_reads_options_from_cli_pipes() {
    match parse_request(
        "zellij-tools::scratchpad::list::full::tab=7::term::htop",
        Some("pipe-1"),
    ) {
        Ok(PluginRequest::ScratchpadList { pipe, query }) => {
            assert_eq!(pipe, "pipe-1");
            assert!(query.full);
            assert_eq!(query.tab_id, Some(7));
            assert_eq!(query.names, vec!["term".to_string(), "htop".to_string()]);
        }
        _ => panic!("expected a list request"),
    }
    match parse_request("zellij-tools::scratchpad::list::tab=7::tab=x", Some("p")) {
        Ok(PluginRequest::ScratchpadList { query, .. }) => {
            assert_eq!(query.tab_id, None);
            assert!(!query.full);
            assert!(query.names.is_empty());
        }
        _ => panic!("expected a list request"),
    }
    assert_eq!(
        invalid_args(parse_request("zellij-tools::scratchpad::list", None)),
        "scratchpad list only works from CLI pipes"
    );
}

#[test]
fn scratchpad_actions_route_to_the_manager() {
    match parse_request("zellij-tools::scratchpad::toggle::term", None) {
        Ok(PluginRequest::Scratchpad(ScratchpadAction::Toggle { name })) => {
            assert_eq!(name.as_deref(), Some("term"))
        }
        _ => panic!("expected a toggle"),
    }
    assert!(matches!(
        parse_request("zellij-tools::scratchpad::show::bad name", None),
        Err(ParseError::InvalidScratchpadName(_))
    ));
}

#[test]
fn subscriptions_and_tree_need_cli_pipes() {
    match parse_request("zellij-tools::subscribe::full", Some("p1")) {
        Ok(PluginRequest::Subscribe { pipe, mode }) => {
            assert_eq!(pipe, "p1");
            assert_eq!(mode, SubscribeMode::Full);
        }
        _ => panic!("expected a subscription"),
    }
    match parse_request("zellij-tools::subscribe", Some("p1")) {
        Ok(PluginRequest::Subscribe { mode, .. }) => assert_eq!(mode, SubscribeMode::Compact),
        _ => panic!("expected a subscription"),
    }
    assert_eq!(
        invalid_args(parse_request("zellij-tools::subscribe", None)),
        "subscribe only works from CLI pipes"
    );
    assert!(matches!(
        parse_request("zellij-tools::tree", Some("p2")),
        Ok(PluginRequest::Tree { .. })
    ));
    assert_eq!(
        invalid_args(parse_request("zellij-tools::tree", None)),
        "tree only works from CLI pipes"
    );
    match parse_request("zellij-tools::unsubscribe::p1", None) {
        Ok(PluginRequest::Unsubscribe(p)) => assert_eq!(p, "p1"),
        _ => panic!("expected an unsubscribe"),
    }
    assert_eq!(
        invalid_args(parse_request("zellij-tools::unsubscribe", None)),
        "unsubscribe requires pipe_id argument"
    );
}

#[test]
fn unknown_and_foreign_messages() {
    assert!(matches!(
        parse_request("zellij-tools::dance", None),
        Err(ParseError::UnknownEvent(e)) if e == "dance"
    ));
    assert!(matches!(
        parse_request("zjstatus::pipe::x", None),
        Err(ParseError::WrongPlugin)
    ));
    assert!(matches!(
        parse_request(r#"{"events":["PaneFocused"]}"#, Some("p")),
        Err(ParseError::InvalidFormat)
    ));
}

#[test]
fn heartbeats_and_pruning() {
    assert!(is_heartbeat(""));
    assert!(is_heartbeat(" \n\t"));
    assert!(!is_heartbeat(" x "));
    assert!(prune_due(40));
    assert!(!prune_due(41));
}

#[test]
fn focus_tab_index_resolves_ids() {
    let tabs = vec![(10, 0), (42, 3)];
    assert_eq!(focus_tab_index(FocusTabTarget::Position(5), &tabs).ok(), Some(5));
    assert_eq!(focus_tab_index(FocusTabTarget::TabId(42), &tabs).ok(), Some(3));
    match focus_tab_index(FocusTabTarget::TabId(9), &tabs) {
        Err(ParseError::InvalidArgs(m)) => assert_eq!(m, "No tab found for tab ID 9"),
        _ => panic!("expected an error"),
    }
}

#[test]
fn context_tab_prefers_the_target() {
    let tabs = vec![(10, 0), (42, 3)];
    assert_eq!(context_tab(Some(42), 0, &tabs), (Some(42), 3));
    assert_eq!(context_tab(None, 3, &tabs), (Some(42), 3));
    assert_eq!(context_tab(None, 5, &tabs), (None, 5));
    assert_eq!(context_tab(Some(99), 1, &tabs), (Some(99), 1));
}

#[test]
fn orphaned_tabs_are_those_missing_from_the_manifest() {
    let tabs = vec![(10, 0), (42, 3), (7, 1)];
    assert_eq!(orphaned_tab_ids(&tabs, &[0, 1]), vec![42]);
    assert!(orphaned_tab_ids(&tabs, &[0, 1, 3]).is_empty());
}

#[test]
fn watch_interval_option() {
    assert_eq!(parse_watch_interval(None), Some(2000));
    assert_eq!(parse_watch_interval(Some("false")), None);
    assert_eq!(parse_watch_interval(Some("0")), None);
    assert_eq!(parse_watch_interval(Some("500")), Some(500));
    assert_eq!(parse_watch_interval(Some("soon")), Some(2000));
}

#[test]
fn client_messages_parse_back_to_their_requests() {
    assert!(matches!(
        parse_request(&focus_pane_message(12, true), None),
        Ok(PluginRequest::FocusPane(TypedPaneId::Plugin(12)))
    ));
    assert!(matches!(
        parse_request(&focus_tab_message(42, true), None),
        Ok(PluginRequest::FocusTab(FocusTabTarget::TabId(42)))
    ));
    assert!(matches!(
        parse_request(&focus_tab_message(3, false), None),
        Ok(PluginRequest::FocusTab(FocusTabTarget::Position(3)))
    ));
    match parse_request(
        &scratchpad_message(&ScratchpadRequest::Close { name: "term".to_string() }),
        None,
    ) {
        Ok(PluginRequest::Scratchpad(ScratchpadAction::Close { name })) => assert_eq!(name, "term"),
        _ => panic!("expected a close"),
    }
    match parse_request(
        &scratchpad_list_message(&["term".to_string(), "htop".to_string()], Some(7), true),
        Some("p"),
    ) {
        Ok(PluginRequest::ScratchpadList { query, .. }) => {
            assert!(query.full);
            assert_eq!(query.tab_id, Some(7));
            assert_eq!(query.names, vec!["term".to_string(), "htop".to_string()]);
        }
        _ => panic!("expected a list request"),
    }
    match parse_request(&scratchpad_list_message(&["full".to_string()], None, false), Some("p")) {
        Ok(PluginRequest::ScratchpadList { query, .. }) => {
            assert!(query.full);
            assert!(query.names.is_empty());
        }
        _ => panic!("expected a list request"),
    }
    assert!(matches!(
        parse_request(&subscribe_message(true), Some("p")),
        Ok(PluginRequest::Subscribe { mode: SubscribeMode::Full, .. })
    ));
    match parse_request(&unsubscribe_message("zellij-tools-events-1"), None) {
        Ok(PluginRequest::Unsubscribe(p)) => assert_eq!(p, "zellij-tools-events-1"),
        _ => panic!("expected an unsubscribe"),
    }
}
