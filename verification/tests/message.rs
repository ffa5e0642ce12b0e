use zellij_tools::focus::{parse_focus_tab_target, FocusTabTarget};
use zellij_tools::message::{parse_message, ParseError};

#[test]
fn parse_message_with_no_args() {
    let msg = parse_message("zellij-tools::focus-pane").unwrap();
    assert_eq!(msg.event, "focus-pane");
    assert!(msg.args.is_empty());
}

#[test]
fn parse_message_with_one_arg() {
    let msg = parse_message("zellij-tools::scratchpad::toggle").unwrap();
    assert_eq!(msg.event, "scratchpad");
    assert_eq!(msg.args, vec!["toggle"]);
}

#[test]
fn parse_message_with_multiple_args() {
    let msg = parse_message("zellij-tools::scratchpad::register::mypad::123").unwrap();
    assert_eq!(msg.event, "scratchpad");
    assert_eq!(msg.args, vec!["register", "mypad", "123"]);
}

#[test]
fn parse_message_wrong_plugin() {
    let result = parse_message("other-plugin::event");
    assert!(matches!(result, Err(ParseError::WrongPlugin)));
}

#[test]
fn parse_message_invalid_format_no_event() {
    let result = parse_message("zellij-tools");
    assert!(matches!(result, Err(ParseError::InvalidFormat)));
}

#[test]
fn parse_message_invalid_format_empty() {
    let result = parse_message("");
    assert!(matches!(result, Err(ParseError::InvalidFormat)));
}

#[test]
fn parse_subscribe() {
    let msg = parse_message("zellij-tools::subscribe").unwrap();
    assert_eq!(msg.event, "subscribe");
    assert!(msg.args.is_empty());
}

#[test]
fn parse_unsubscribe() {
    let msg = parse_message("zellij-tools::unsubscribe::pipe-123").unwrap();
    assert_eq!(msg.event, "unsubscribe");
    assert_eq!(msg.args, vec!["pipe-123"]);
}

#[test]
fn parse_error_messages() {
    assert_eq!(ParseError::InvalidFormat.to_message(), "Message format should be 'plugin::event::args...'");
    assert_eq!(ParseError::WrongPlugin.to_message(), "Message not intended for zellij-tools");
    assert_eq!(ParseError::UnknownEvent("x".to_string()).to_message(), "Unknown event: x");
    assert_eq!(ParseError::InvalidArgs("bad".to_string()).to_message(), "Invalid arguments: bad");
}

#[test]
fn parse_focus_tab_position_short_form() {
    let target = parse_focus_tab_target(&["3"]).expect("should parse");
    match target {
        FocusTabTarget::Position(tab) => assert_eq!(tab, 3),
        FocusTabTarget::TabId(_) => panic!("expected position target"),
    }
}

#[test]
fn parse_focus_tab_position_long_form() {
    let target = parse_focus_tab_target(&["position", "3"]).expect("should parse");
    match target {
        FocusTabTarget::Position(tab) => assert_eq!(tab, 3),
        FocusTabTarget::TabId(_) => panic!("expected position target"),
    }
}

#[test]
fn parse_focus_tab_id_form() {
    let target = parse_focus_tab_target(&["id", "42"]).expect("should parse");
    match target {
        FocusTabTarget::TabId(tab) => assert_eq!(tab, 42),
        FocusTabTarget::Position(_) => panic!("expected tab ID target"),
    }
}

#[test]
fn parse_focus_tab_rejects_bad_number() {
    assert!(parse_focus_tab_target(&["abc"]).is_err());
    assert!(parse_focus_tab_target(&[]).is_err());
}
