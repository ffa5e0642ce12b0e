use zellij_tools::events::{PaneInfo, TypedPaneId};
use zellij_tools::pane_status::{escape_text, render_status};
use zellij_tools::pane_statuses::{PaneStatusItem, PaneStatusSnapshot, PaneStatuses, TabRef};

fn pane(id: u32, is_plugin: bool) -> PaneInfo {
    PaneInfo {
        id,
        is_focused: false,
        is_floating: false,
        is_suppressed: false,
        is_plugin,
        tab_position: 0,
        title: format!("pane {id}"),
        terminal_command: None,
        plugin_url: None,
    }
}

fn tab(tab_id: usize, position: usize, active: bool) -> TabRef {
    TabRef { tab_id, position, active }
}

fn manifest() -> Vec<PaneInfo> {
    vec![pane(2, false), pane(2, true)]
}

fn items<'a>(snapshot: &'a PaneStatusSnapshot, id: usize) -> &'a Vec<PaneStatusItem> {
    &snapshot.tabs.iter().find(|(tab_id, _)| *tab_id == id).unwrap().1
}

#[test]
fn plain_text_neutralizes_markup_and_opening_braces() {
    let text = "#[fg=red]#{name} {command_bad} ##[ #[unterminated";
    let expected = "# [fg=red]#{ name} { command_bad} ## [ # [unterminated";
    assert_eq!(render_status(text, false).unwrap(), expected);
    assert_eq!(escape_text(text), expected);
    assert_eq!(escape_text(""), "");
    assert_eq!(render_status("", true).unwrap(), "");
    assert_eq!(render_status("", false).unwrap(), "");
}

#[test]
fn click_tokens_stay_neutralized_across_styles_and_substitutions() {
    let text =
        "#[fg=red,bold]{command_action}#[]{#[italic]pipe_status}#[bg=blue,underscore]{tabs}";
    assert_eq!(
        render_status(text, true).unwrap(),
        "#[]#[fg=red,bold]{ command_action}#[]{ #[italic]pipe_status}#[bg=blue,underscore]{ tabs}#[]"
    );
    for formatted in [false, true] {
        for token in ["{command_action}", "{pipe_status}", "{tabs}"] {
            for split in 1..token.len() {
                let left = render_status(&token[..split], formatted).unwrap();
                let right = render_status(&token[split..], formatted).unwrap();
                // Model the visible text after isolation resets are rendered.
                let visible = format!("{left}{right}").replace("#[]", "");
                assert_eq!(visible, token.replace('{', "{ "));
                assert!(!visible.contains(token));
                assert!(!format!("{}{right}", escape_text(&token[..split]))
                    .replace("#[]", "")
                    .contains(token));
            }
        }
    }
    assert!(render_status("{tabs}#[fg={red}]x", true).is_err());
}

#[test]
fn accepts_only_exact_supported_styles_and_colors() {
    for name in [
        "black", "red", "green", "yellow", "blue", "magenta", "cyan", "white",
    ] {
        for color in [name.to_string(), format!("bright_{name}")] {
            for field in ["fg", "bg"] {
                let text = format!("#[{field}={color},bold,italic,underscore]text");
                assert_eq!(render_status(&text, true).unwrap(), format!("#[]{text}#[]"));
            }
        }
    }
    for color in 0..=255 {
        assert!(render_status(&format!("#[fg={color}]x"), true).is_ok());
    }
    for text in [
        "#[]",
        "#[bold]x",
        "#[italic]x",
        "#[underscore]x",
        "#[fg=#aAbB09,bg=#000000]x",
        "before#[fg=red]middle#[]after",
        "text {name} :: \u{1f680}",
        "text#",
        "text]",
    ] {
        assert_eq!(
            render_status(text, true).unwrap(),
            format!("#[]{}#[]", text.replace('{', "{ "))
        );
    }
}

#[test]
fn rejects_malformed_markup_directives_and_colors() {
    for text in [
        "#[",
        "#[fg=red",
        "ok#[bold]x#[",
        "#[fg=red#[bold]]x",
        "#[[bold]]x",
        "#[,]x",
        "#[bold,]x",
        "#[,bold]x",
        "#[bold,,italic]x",
        "#[ ]x",
        "#[bold=true]x",
        "#[underline]x",
        "#[blink]x",
        "#[hidden]x",
        "#[reverse]x",
        "#[dim]x",
        "#[strikethrough]x",
        "#[us=red]x",
        "#[fg=red, italic]x",
        "#[FG=red]x",
        "#[fg=]x",
        "#[fg=Red]x",
        "#[fg=bright_bright_red]x",
        "#[fg=gray]x",
        "#[fg=default]x",
        "#[fg=$alias]x",
        "#[fg=colour2]x",
        "#[fg=256]x",
        "#[fg=-1]x",
        "#[fg=+1]x",
        "#[fg=1.0]x",
        "#[fg=0xff]x",
        "#[fg=999999999999999999999]x",
        "#[fg=\u{ff11}]x",
        "#[fg= 2]x",
        "#[fg=#123]x",
        "#[fg=#1234567]x",
        "#[fg=#gg0000]x",
        "#[bg=#]x",
        "#[fg=#a\u{e9}000]x",
        "#[fg=#\u{ff10}\u{ff10}]x",
        "#[fg=red=blue]x",
    ] {
        assert!(render_status(text, true).is_err(), "accepted {text:?}");
    }
}

#[test]
fn rejects_controls_and_sanitizes_titles() {
    let characters = (0..=0x1f)
        .chain(0x7f..=0x9f)
        .chain([0xad, 0x61c, 0x180e, 0xfeff, 0xfff9, 0xfffa, 0xfffb, 0xe0001])
        .chain(0x200b..=0x200f)
        .chain(0x2028..=0x202e)
        .chain(0x2060..=0x206f)
        .chain(0xe0020..=0xe007f);
    for code in characters {
        let character = char::from_u32(code).unwrap();
        let text = format!("left{character}right");
        for formatted in [false, true] {
            assert!(
                render_status(&text, formatted).is_err(),
                "accepted U+{code:04X}"
            );
        }
        assert_eq!(escape_text(&text), "left right");
    }
    assert_eq!(escape_text("#\n[fg=red]\r\u{1b}[31m"), "# [fg=red]  [31m");
    let unicode = "caf\u{e9} \u{65e5}\u{672c} \u{1f680}";
    assert_eq!(escape_text(unicode), unicode);
    assert_eq!(render_status(unicode, false).unwrap(), unicode);
}

#[test]
fn limits_input_bytes_and_complete_markers() {
    for formatted in [false, true] {
        assert!(render_status(&"a".repeat(4096), formatted).is_ok());
        assert!(render_status(&"a".repeat(4097), formatted).is_err());
        assert!(render_status(&"\u{e9}".repeat(2048), formatted).is_ok());
        assert!(render_status(&"\u{e9}".repeat(2049), formatted).is_err());
    }
    assert!(render_status(&"#[]".repeat(64), true).is_ok());
    assert!(render_status(&"#[]".repeat(65), true).is_err());
    assert!(render_status(&"#[bold]".repeat(64), true).is_ok());
    assert!(render_status(&"#[bold]".repeat(65), true).is_err());
    assert!(render_status(&format!("{}#[", "#[]".repeat(63)), true).is_err());
    assert!(render_status(&"#[".repeat(65), false).is_ok());
}

#[test]
fn defaults_and_empty_tabs() {
    let default = PaneStatusSnapshot::default();
    assert_eq!(default.current_tab_id, None);
    assert!(default.tabs.is_empty());
    let statuses = PaneStatuses::default();
    let snapshot = statuses.snapshot(&manifest(), &[tab(42, 0, true), tab(9, 1, false)]);
    assert_eq!(snapshot.current_tab_id, Some(42));
    assert_eq!(snapshot.tabs.iter().map(|(id, _)| *id).collect::<Vec<_>>(), [9, 42]);
    assert!(snapshot.tabs.iter().all(|(_, items)| items.is_empty()));
    assert_eq!(statuses.snapshot(&manifest(), &[]).current_tab_id, None);
}

#[test]
fn validates_argument_count_and_preserves_message_separators() {
    let mut statuses = PaneStatuses::default();
    for args in [vec![], vec!["terminal_2"], vec!["terminal_2", "a", "b"]] {
        assert!(statuses.set(&args, None, &manifest()).is_err());
    }
    // Integration must split the pane/message boundary only, not the text.
    let args: Vec<_> = "terminal_2::build::step::done::".splitn(2, "::").collect();
    statuses.set(&args, None, &manifest()).unwrap();
    assert_eq!(statuses.status(TypedPaneId::Terminal(2)).unwrap(), "build::step::done::");
}

#[test]
fn strict_typed_ids_and_unknown_panes() {
    let mut statuses = PaneStatuses::default();
    for id in [
        "2",
        "terminal",
        "terminal_",
        "plugin_",
        "terminal_+2",
        "terminal_-2",
        "terminal_2junk",
        "terminal_2_extra",
        "terminal_2::x",
        "terminal_2 ",
        " terminal_2",
        "Terminal_2",
        "plugin_2junk",
        "terminal_\u{ff12}",
        "terminal_4294967296",
        "terminal_999",
        "plugin_999",
    ] {
        for message in ["status", ""] {
            assert!(statuses.set(&[id, message], None, &manifest()).is_err(), "{id:?}");
        }
    }
    assert_eq!(statuses.len(), 0);
    statuses.set(&["terminal_2", "terminal"], None, &manifest()).unwrap();
    statuses.set(&["plugin_2", "plugin"], None, &manifest()).unwrap();
    assert_eq!(statuses.len(), 2);
    assert_eq!(statuses.status(TypedPaneId::Terminal(2)).unwrap(), "terminal");
    assert_eq!(statuses.status(TypedPaneId::Plugin(2)).unwrap(), "plugin");
    assert!(statuses.set(&["terminal_2", "x"], None, &[]).is_err());
}

#[test]
fn replace_clear_and_errors_are_atomic() {
    let mut statuses = PaneStatuses::default();
    statuses.set(&["terminal_2", "first"], None, &manifest()).unwrap();
    statuses.set(&["terminal_2", "second"], Some("plain"), &manifest()).unwrap();
    for format in ["", "ansi", "Plain", "ZJSTATUS"] {
        for text in ["replacement", ""] {
            assert!(statuses.set(&["terminal_2", text], Some(format), &manifest()).is_err());
        }
    }
    for (text, format) in [("#[bad]x", Some("zjstatus")), ("bad\n", None)] {
        assert!(statuses.set(&["terminal_2", text], format, &manifest()).is_err());
        assert_eq!(statuses.status(TypedPaneId::Terminal(2)).unwrap(), "second");
    }
    for format in [None, Some("plain"), Some("zjstatus")] {
        statuses.set(&["terminal_2", "value"], format, &manifest()).unwrap();
        statuses.set(&["terminal_2", ""], format, &manifest()).unwrap();
        statuses.set(&["terminal_2", ""], format, &manifest()).unwrap();
        assert_eq!(statuses.len(), 0);
    }
}

#[test]
fn statuses_and_snapshot_titles_neutralize_click_tokens() {
    for (text, expected) in [
        ("{command_action}", "{ command_action}"),
        ("{pipe_status}", "{ pipe_status}"),
        ("{tabs}", "{ tabs}"),
        ("{", "{ "),
        ("{{tabs}{pipe_status}}", "{ { tabs}{ pipe_status}}"),
        ("{ tabs}", "{  tabs}"),
        ("}", "}"),
    ] {
        for format in [None, Some("plain"), Some("zjstatus")] {
            let mut manifest = manifest();
            manifest[0].title = text.into();
            let mut statuses = PaneStatuses::default();
            statuses.set(&["terminal_2", text], format, &manifest).unwrap();
            let snapshot = statuses.snapshot(&manifest, &[tab(42, 0, true)]);
            let item = &items(&snapshot, 42)[0];
            assert_eq!(item.title, expected);
            assert_eq!(
                item.status,
                if format == Some("zjstatus") { format!("#[]{expected}#[]") } else { expected.into() }
            );
        }
    }
}

#[test]
fn snapshot_tracks_moves_focus_titles_tab_reordering_and_closure() {
    let mut manifest = manifest();
    let mut statuses = PaneStatuses::default();
    statuses.set(&["terminal_2", "#[fg=red]working"], Some("zjstatus"), &manifest).unwrap();
    statuses.set(&["plugin_2", "plugin"], None, &manifest).unwrap();
    let moved = &mut manifest[0];
    moved.is_focused = true;
    moved.is_suppressed = true;
    moved.is_floating = true;
    moved.title = "new\n#[bold]title".into();
    moved.tab_position = 1;
    statuses.reconcile(&manifest);
    let tabs = [tab(42, 0, false), tab(9, 1, true), tab(77, 2, false)];
    let snapshot = statuses.snapshot(&manifest, &tabs);
    assert_eq!(snapshot.current_tab_id, Some(9));
    assert_eq!(items(&snapshot, 42)[0].pane_id, TypedPaneId::Plugin(2));
    assert!(!items(&snapshot, 42)[0].is_focused);
    let item = &items(&snapshot, 9)[0];
    assert_eq!(item.pane_id, TypedPaneId::Terminal(2));
    assert_eq!(item.title, "new # [bold]title");
    assert_eq!(item.status, "#[]#[fg=red]working#[]");
    assert!(item.is_focused);
    assert!(items(&snapshot, 77).is_empty());

    let mut reordered = manifest.clone();
    for pane in reordered.iter_mut() {
        pane.tab_position = 1 - pane.tab_position;
    }
    let tabs = [tab(9, 0, false), tab(42, 1, true)];
    let snapshot = statuses.snapshot(&reordered, &tabs);
    assert_eq!(snapshot.current_tab_id, Some(42));
    assert_eq!(items(&snapshot, 9)[0].pane_id, TypedPaneId::Terminal(2));
    assert_eq!(items(&snapshot, 42)[0].pane_id, TypedPaneId::Plugin(2));

    let mut plugin = pane(2, true);
    plugin.tab_position = 1;
    let closed = vec![plugin];
    statuses.reconcile(&closed);
    assert_eq!(statuses.len(), 1);
    assert!(items(&statuses.snapshot(&closed, &tabs), 9).is_empty());
    // Reused numeric IDs must not inherit a closed pane's status.
    assert!(items(&statuses.snapshot(&reordered, &tabs), 9).is_empty());
    statuses.reconcile(&[]);
    assert_eq!(statuses.len(), 0);
}

#[test]
fn snapshots_do_not_prune_on_missing_metadata() {
    let mut statuses = PaneStatuses::default();
    statuses.set(&["terminal_2", "retained"], None, &manifest()).unwrap();
    assert!(statuses.snapshot(&manifest(), &[]).tabs.is_empty());
    let tabs = [tab(42, 0, false)];
    assert!(items(&statuses.snapshot(&[], &tabs), 42).is_empty());
    assert_eq!(items(&statuses.snapshot(&manifest(), &tabs), 42)[0].status, "retained");
}

#[test]
fn deterministic_numeric_order_with_terminals_before_plugins() {
    let mut manifest: Vec<PaneInfo> = vec![pane(10, true), pane(10, false), pane(2, true), pane(2, false), pane(1, false)];
    for pane in manifest.iter_mut() {
        pane.tab_position = 4;
    }
    let mut statuses = PaneStatuses::default();
    for id in ["plugin_10", "terminal_10", "plugin_2", "terminal_2"] {
        statuses.set(&[id, "x"], None, &manifest).unwrap();
    }
    for _ in 0..5 {
        let snapshot = statuses.snapshot(&manifest, &[tab(99, 4, true)]);
        let ids: Vec<_> = items(&snapshot, 99).iter().map(|item| item.pane_id).collect();
        assert_eq!(
            ids,
            [TypedPaneId::Terminal(2), TypedPaneId::Terminal(10), TypedPaneId::Plugin(2), TypedPaneId::Plugin(10)]
        );
        manifest.rotate_left(1);
    }
}
