use zellij_tools::client::{
    build_subscribe_init_json, focus_pane_message, focus_tab_message, handshake_step,
    resolve_plugin, scratchpad_list_message, scratchpad_message, subscribe_message,
    unsubscribe_message, ClientAction, HandshakePhase, PipeEvent, ScratchpadRequest,
};
use zellij_tools::events::EventKind;

#[test]
fn subscribe_init_json_contains_requested_filters() {
    let json = build_subscribe_init_json(
        true,
        &[EventKind::PaneFocused, EventKind::TabMoved],
        &[2],
        &[2],
        &[7, 9],
    );

    let value: serde_json::Value = serde_json::from_str(&json).unwrap();
    assert_eq!(value["full"], true);
    assert_eq!(
        value["events"],
        serde_json::Value::from(vec!["PaneFocused", "TabMoved"])
    );
    assert_eq!(
        value["pane_ids"],
        serde_json::Value::from(vec!["terminal_2", "plugin_2"])
    );
    assert_eq!(value["tab_ids"], serde_json::Value::from(vec![7, 9]));
}

#[test]
fn subscribe_init_json_omits_empty_filter_fields() {
    let json = build_subscribe_init_json(false, &[], &[], &[], &[]);
    let value: serde_json::Value = serde_json::from_str(&json).unwrap();

    assert_eq!(value["full"], false);
    assert!(value.get("events").is_none());
    assert!(value.get("pane_ids").is_none());
    assert!(value.get("tab_ids").is_none());
}

#[test]
fn subscribe_init_json_exact_text() {
    let json = build_subscribe_init_json(
        true,
        &[EventKind::PaneFocused, EventKind::TabMoved],
        &[2],
        &[2],
        &[7, 9],
    );
    assert_eq!(
        json,
        r#"{"full":true,"events":["PaneFocused","TabMoved"],"pane_ids":["terminal_2","plugin_2"],"tab_ids":[7,9]}"#
    );
    assert_eq!(
        build_subscribe_init_json(false, &[], &[], &[5], &[]),
        r#"{"full":false,"pane_ids":["plugin_5"]}"#
    );
}

#[test]
fn resolve_plugin_prefers_cli_then_env_then_default() {
    assert_eq!(
        resolve_plugin(Some("file:/a.wasm".to_string()), Some("env".to_string())),
        "file:/a.wasm"
    );
    assert_eq!(resolve_plugin(None, Some("env".to_string())), "env");
    assert_eq!(resolve_plugin(None, None), "zellij-tools");
}

#[test]
fn focus_messages_name_the_target() {
    assert_eq!(focus_pane_message(2, false), "zellij-tools::focus-pane::terminal_2");
    assert_eq!(focus_pane_message(17, true), "zellij-tools::focus-pane::plugin_17");
    assert_eq!(focus_tab_message(3, false), "zellij-tools::focus-tab::position::3");
    assert_eq!(focus_tab_message(42, true), "zellij-tools::focus-tab::id::42");
}

#[test]
fn scratchpad_messages_name_the_action() {
    assert_eq!(
        scratchpad_message(&ScratchpadRequest::Toggle { name: Some("term".to_string()) }),
        "zellij-tools::scratchpad::toggle::term"
    );
    assert_eq!(
        scratchpad_message(&ScratchpadRequest::Toggle { name: None }),
        "zellij-tools::scratchpad::toggle"
    );
    assert_eq!(
        scratchpad_message(&ScratchpadRequest::Show { name: "htop".to_string() }),
        "zellij-tools::scratchpad::show::htop"
    );
    assert_eq!(
        scratchpad_message(&ScratchpadRequest::Hide { name: "htop".to_string() }),
        "zellij-tools::scratchpad::hide::htop"
    );
    assert_eq!(
        scratchpad_message(&ScratchpadRequest::Close { name: "term".to_string() }),
        "zellij-tools::scratchpad::close::term"
    );
}

#[test]
fn scratchpad_list_message_orders_options() {
    assert_eq!(
        scratchpad_list_message(&[], None, false),
        "zellij-tools::scratchpad::list"
    );
    assert_eq!(
        scratchpad_list_message(
            &["term".to_string(), "htop".to_string()],
            Some(7),
            true
        ),
        "zellij-tools::scratchpad::list::full::tab=7::term::htop"
    );
}

#[test]
fn subscription_messages() {
    assert_eq!(subscribe_message(true), "zellij-tools::subscribe::full");
    assert_eq!(subscribe_message(false), "zellij-tools::subscribe");
    assert_eq!(
        unsubscribe_message("zellij-tools-events-1"),
        "zellij-tools::unsubscribe::zellij-tools-events-1"
    );
}

#[test]
fn handshake_sends_init_after_ack_and_streams_after_init_ack() {
    let init = r#"{"full":false}"#;
    let (phase, actions) = handshake_step(
        HandshakePhase::AwaitingAck,
        &PipeEvent::Line(r#"{"Ack":{}}"#.to_string()),
        init,
    );
    assert_eq!(phase, HandshakePhase::AwaitingInitAck);
    assert_eq!(actions, vec![ClientAction::Send(init.to_string())]);

    let (phase, actions) = handshake_step(
        phase,
        &PipeEvent::Line(r#"{"InitAck":{}}"#.to_string()),
        init,
    );
    assert_eq!(phase, HandshakePhase::Streaming);
    assert_eq!(actions, vec![ClientAction::StartHeartbeat]);

    let line = r#"{"PaneFocused":{"pane_id":1,"pane_type":"terminal"}}"#;
    let (phase, actions) = handshake_step(phase, &PipeEvent::Line(line.to_string()), init);
    assert_eq!(phase, HandshakePhase::Streaming);
    assert_eq!(actions, vec![ClientAction::Print(line.to_string())]);

    let (phase, actions) =
        handshake_step(phase, &PipeEvent::Line(r#"{"Ack":{}}"#.to_string()), init);
    assert_eq!(phase, HandshakePhase::Streaming);
    assert!(actions.is_empty());

    let (phase, actions) = handshake_step(phase, &PipeEvent::Disconnected, init);
    assert_eq!(phase, HandshakePhase::Closed);
    assert_eq!(actions, vec![ClientAction::Finish]);
}

#[test]
fn handshake_without_ack_prints_first_line() {
    let line = r#"{"TabFocused":{"stable_id":1}}"#;
    let (phase, actions) = handshake_step(
        HandshakePhase::AwaitingAck,
        &PipeEvent::Line(line.to_string()),
        "{}",
    );
    assert_eq!(phase, HandshakePhase::Streaming);
    assert_eq!(
        actions,
        vec![ClientAction::Print(line.to_string()), ClientAction::StartHeartbeat]
    );
}

#[test]
fn handshake_failures_end_the_session() {
    let (phase, actions) = handshake_step(HandshakePhase::AwaitingAck, &PipeEvent::Timeout, "{}");
    assert_eq!(phase, HandshakePhase::Closed);
    assert_eq!(
        actions,
        vec![ClientAction::Fail {
            message: "error: timed out waiting for plugin to respond (5s)\nhint: is the zellij-tools plugin loaded?"
                .to_string(),
            kill: true,
        }]
    );

    let (_, actions) =
        handshake_step(HandshakePhase::AwaitingAck, &PipeEvent::Disconnected, "{}");
    assert_eq!(
        actions,
        vec![ClientAction::Fail {
            message: "error: plugin connection closed before responding".to_string(),
            kill: false,
        }]
    );

    let rejected = r#"{"InitError":{"message":"bad spec"}}"#;
    let (phase, actions) = handshake_step(
        HandshakePhase::AwaitingInitAck,
        &PipeEvent::Line(rejected.to_string()),
        "{}",
    );
    assert_eq!(phase, HandshakePhase::Closed);
    assert_eq!(
        actions,
        vec![ClientAction::Fail {
            message: format!("error: subscribe init rejected: {}", rejected),
            kill: true,
        }]
    );

    let (_, actions) = handshake_step(
        HandshakePhase::AwaitingInitAck,
        &PipeEvent::Line("hello".to_string()),
        "{}",
    );
    assert_eq!(
        actions,
        vec![ClientAction::Fail {
            message: "error: unexpected init response from plugin: hello".to_string(),
            kill: true,
        }]
    );

    let (_, actions) =
        handshake_step(HandshakePhase::AwaitingInitAck, &PipeEvent::Timeout, "{}");
    assert_eq!(
        actions,
        vec![ClientAction::Fail {
            message: "error: timed out waiting for subscribe init ack (5s)".to_string(),
            kill: true,
        }]
    );

    let (phase, actions) =
        handshake_step(HandshakePhase::Closed, &PipeEvent::Line("x".to_string()), "{}");
    assert_eq!(phase, HandshakePhase::Closed);
    assert!(actions.is_empty());
}
