use zellij_tools::scratchpad::{ScratchpadDisplayState, ScratchpadStatusItem, ScratchpadStatusSnapshot};
use zellij_tools::events::PaneInfo;
use zellij_tools::pane_statuses::{PaneStatusSnapshot, PaneStatuses, TabRef};
use zellij_tools::zjstatus::pane_template::{pane_substitute, Values};
use zellij_tools::zjstatus::{
    parse_zjstatus_config_kdl, render, render_item, render_pane_status, OutputSource, should_publish_empty, zjstatus_payload, zjstatus_tab_payload,
    OutputConfig, OutputKey, Scope, ZjstatusConfig, ZjstatusConfigLayers,
};

const DEFAULT_FORMAT: &str = "{current_items}";
const DEFAULT_ITEM_FORMAT: &str = "{icon} {name}";

fn integration(input: &str) -> ZjstatusConfig {
    let mut layers = ZjstatusConfigLayers::default();
    layers.push(parse_zjstatus_config_kdl(input).unwrap());
    layers.into_config().unwrap().unwrap()
}

fn config(input: &str) -> OutputConfig {
    integration(input).outputs.into_iter().next().unwrap().1
}

fn output<'a>(config: &'a ZjstatusConfig, key: &OutputKey) -> &'a OutputConfig {
    &config.outputs.iter().find(|(k, _)| k == key).unwrap().1
}

fn item(name: &str, state: ScratchpadDisplayState) -> ScratchpadStatusItem {
    ScratchpadStatusItem {
        name: name.to_string(),
        title: name.to_string(),
        state,
        pane_id: Some(7),
        tab_id: Some(11),
        tab_position: Some(2),
        is_focused: false,
        is_mru: false,
    }
}

#[test]
fn renders_counts_and_items() {
    let config = config(
        r##"
        pipe "scratchpads" {
        format "{current_items} ({current_visible_count}/{current_configured_count})"
        current_item_visible_format "#[fg=green]{name}:{pane_id}"
        current_item_hidden_format "#[fg=gray]{name}"
        current_item_closed_format ""
        }
        "##,
    );
    let snapshot = ScratchpadStatusSnapshot {
        current_items: vec![
            item("term", ScratchpadDisplayState::Visible),
            item("notes", ScratchpadDisplayState::Hidden),
            item("btop", ScratchpadDisplayState::Closed),
        ],
        global_count_items: Vec::new(),
        global_items: Vec::new(),
    };

    let rendered = render(&config, &snapshot, None);

    assert_eq!(rendered, "#[fg=green]term:7 #[fg=gray]notes (1/3)");
}

#[test]
fn filters_include_and_exclude_before_counts() {
    let config = config(
        r#"
        pipe "scratchpads" {
        format "{current_configured_count}:{current_rendered_count}:{current_items}"
        include "term" "notes"
        exclude "notes"
        }
        "#,
    );
    let snapshot = ScratchpadStatusSnapshot {
        current_items: vec![
            item("term", ScratchpadDisplayState::Visible),
            item("notes", ScratchpadDisplayState::Visible),
            item("btop", ScratchpadDisplayState::Visible),
        ],
        global_count_items: Vec::new(),
        global_items: Vec::new(),
    };

    assert_eq!(render(&config, &snapshot, None), "1:1:● term");
}

#[test]
fn empty_rendered_items_are_filtered_out() {
    let config = config(
        r#"
        pipe "scratchpads" {
        format "{current_rendered_count}:{current_items}"
        current_item_visible_format "{name}"
        current_item_closed_format ""
        item_separator "|"
        }
        "#,
    );
    let snapshot = ScratchpadStatusSnapshot {
        current_items: vec![
            item("term", ScratchpadDisplayState::Visible),
            item("notes", ScratchpadDisplayState::Closed),
        ],
        global_count_items: Vec::new(),
        global_items: Vec::new(),
    };

    assert_eq!(render(&config, &snapshot, None), "1:term");
}

#[test]
fn current_focused_format_overrides_state_format() {
    let config = config(
        r#"
        pipe "scratchpads" {
        format "{current_items}"
        current_item_focused_format "[{title}]"
        current_item_mru_format "MRU:{title}"
        current_item_visible_format "{title}"
        }
        "#,
    );
    let mut focused = item("term", ScratchpadDisplayState::Visible);
    focused.is_focused = true;
    focused.is_mru = true;
    let snapshot = ScratchpadStatusSnapshot {
        current_items: vec![focused, item("notes", ScratchpadDisplayState::Visible)],
        global_count_items: Vec::new(),
        global_items: Vec::new(),
    };

    assert_eq!(render(&config, &snapshot, None), "[term] notes");
}

#[test]
fn current_mru_format_overrides_states_but_not_global_items() {
    let mut config = config(
        r#"
        pipe "scratchpads" {
        format "{current_rendered_count}:{current_items}|{global_items}"
        item_format "{name}"
        current_item_mru_format "MRU:{name}"
        current_item_visible_format "visible"
        current_item_hidden_format "hidden"
        current_item_closed_format ""
        }
        "#,
    );

    for state in [
        ScratchpadDisplayState::Visible,
        ScratchpadDisplayState::Hidden,
        ScratchpadDisplayState::Closed,
    ] {
        let mut mru = item("term", state);
        mru.is_mru = true;
        let mut snapshot = ScratchpadStatusSnapshot {
            current_items: vec![mru.clone()],
            global_items: vec![mru.clone()],
            global_count_items: vec![mru],
        };
        assert_eq!(render(&config, &snapshot, None), "1:MRU:term|term");
        snapshot.current_items[0].is_focused = true;
        assert_eq!(render(&config, &snapshot, None), "1:MRU:term|term");
    }

    let mut mru = item("term", ScratchpadDisplayState::Hidden);
    mru.is_mru = true;
    let snapshot = ScratchpadStatusSnapshot {
        current_items: vec![mru],
        ..Default::default()
    };
    config.current_item_mru_format = Some(String::new());
    assert_eq!(render(&config, &snapshot, None), "0:|");
    config.current_item_mru_format = None;
    assert_eq!(render(&config, &snapshot, None), "1:hidden|");
}

#[test]
fn global_counts_use_instances_not_aggregate_items() {
    let config = config(
        r#"
        pipe "scratchpads" {
        format "{global_items}:{global_live_count}:{global_visible_count}:{global_rendered_count}"
        global_item_visible_format "{name}"
        global_item_closed_format ""
        item_separator "|"
        }
        "#,
    );
    let mut second_term = item("term", ScratchpadDisplayState::Visible);
    second_term.pane_id = Some(8);
    second_term.tab_id = Some(12);
    second_term.tab_position = Some(3);
    let snapshot = ScratchpadStatusSnapshot {
        current_items: Vec::new(),
        global_items: vec![item("term", ScratchpadDisplayState::Visible)],
        global_count_items: vec![
            item("term", ScratchpadDisplayState::Visible),
            second_term,
            item("notes", ScratchpadDisplayState::Closed),
        ],
    };

    assert_eq!(render(&config, &snapshot, None), "term:2:2:2");
}

#[test]
fn other_counts_are_global_minus_current() {
    let config = config(
        r#"
        pipe "scratchpads" {
        format "{other_configured_count}:{other_rendered_count}:{other_live_count}:{other_visible_count}:{other_hidden_count}:{other_closed_count}"
        current_item_visible_format "{name}"
        current_item_hidden_format "{name}"
        current_item_closed_format ""
        global_item_visible_format "{name}"
        global_item_hidden_format "{name}"
        global_item_closed_format ""
        }
        "#,
    );
    let snapshot = ScratchpadStatusSnapshot {
        current_items: vec![
            item("term", ScratchpadDisplayState::Visible),
            item("notes", ScratchpadDisplayState::Closed),
        ],
        global_items: vec![
            item("term", ScratchpadDisplayState::Visible),
            item("notes", ScratchpadDisplayState::Hidden),
        ],
        global_count_items: vec![
            item("term", ScratchpadDisplayState::Visible),
            item("term", ScratchpadDisplayState::Visible),
            item("notes", ScratchpadDisplayState::Hidden),
        ],
    };

    assert_eq!(render(&config, &snapshot, None), "1:2:2:1:1:0");
}

#[test]
fn text_values_cannot_inject_protocol_or_formatting() {
    let config = config(
        r#"
        pipe "scratchpads" {
        item_format "{name} {title}"
        }
        "#,
    );
    let snapshot = ScratchpadStatusSnapshot {
        current_items: vec![ScratchpadStatusItem {
            name: "bad::name".to_string(),
            title: "#[fg=red]oops\nnext".to_string(),
            state: ScratchpadDisplayState::Visible,
            pane_id: None,
            tab_id: None,
            tab_position: None,
            is_focused: false,
            is_mru: false,
        }],
        global_count_items: Vec::new(),
        global_items: Vec::new(),
    };

    assert_eq!(
        render(&config, &snapshot, None),
        "bad: :name # [fg=red]oops next"
    );
}

#[test]
fn payload_uses_zjstatus_pipe_protocol() {
    assert_eq!(
        zjstatus_payload("scratchpads", "hello"),
        "zjstatus::pipe::pipe_scratchpads::hello"
    );
}

#[test]
fn empty_publish_requires_non_empty_empty_format() {
    let default_empty = config(r#"pipe "scratchpads" {}"#);
    let explicit_empty = config(
        r##"
        pipe "scratchpads" {
        empty_format "#[fg=gray]none"
        }
        "##,
    );

    assert!(!should_publish_empty(&default_empty));
    assert!(should_publish_empty(&explicit_empty));
}

#[test]
fn tab_scopes_are_explicit_and_global_counts_still_count_instances() {
    let global = config(
        r#"pipe "x" { format "{global_items}:{global_live_count}"; item_format "{name}"; }"#,
    );
    let config = config(
        r#"tab_pipe "x" {
        format "{tab_items}|{tab_configured_count}/{tab_rendered_count}/{tab_live_count}/{tab_visible_count}/{tab_hidden_count}/{tab_closed_count}|{tab_focused_name}:{tab_focused_title}|{global_items}:{global_live_count}"
        item_format "{name}:{state}:{pane_id}:{tab_id}:{tab_position}:{is_focused}"
        global_item_format "{name}"
    }"#,
    );
    let mut snapshot = ScratchpadStatusSnapshot {
        current_items: vec![item("current", ScratchpadDisplayState::Visible)],
        global_items: vec![item("term", ScratchpadDisplayState::Visible)],
        global_count_items: vec![item("term", ScratchpadDisplayState::Visible); 2],
    };
    for (state, counts, pane, focused) in [
        (ScratchpadDisplayState::Visible, "1/1/1/1/0/0", "7", true),
        (ScratchpadDisplayState::Hidden, "1/1/1/0/1/0", "7", false),
        (ScratchpadDisplayState::Closed, "1/1/0/0/0/1", "", false),
    ] {
        let mut local = item("term", state);
        local.title = "Terminal".into();
        local.is_focused = focused;
        if state == ScratchpadDisplayState::Closed {
            local.pane_id = None;
        }
        let items = [local];
        let expected = format!(
            "term:{}:{pane}:11:2:{focused}|{counts}|{}|term:2",
            state.as_str(),
            if focused { "term:Terminal" } else { ":" }
        );
        assert_eq!(render(&config, &snapshot, Some(&items)), expected);
        snapshot.current_items.clear();
        assert_eq!(render(&config, &snapshot, Some(&items)), expected);
    }
    assert_eq!(render(&config, &snapshot, None), "|0/0/0/0/0/0|:|term:2");
    assert_eq!(
        render(
            &global,
            &snapshot,
            Some(&[item("tab", ScratchpadDisplayState::Hidden)])
        ),
        "term:2"
    );
}

#[test]
fn tab_filtering_counts_and_separators_use_rendered_items_only() {
    let config = config(
        r#"tab_pipe "x" {
        format "{tab_items}|{tab_configured_count}/{tab_rendered_count}/{tab_live_count}/{tab_closed_count}"
        include "z" "closed" "a" "skip"
        exclude "skip"
        item_format "{name}"
        item_closed_format ""
        item_separator "wrong"
        tab_item_separator ","
    }"#,
    );
    let items = [
        item("z", ScratchpadDisplayState::Hidden),
        item("closed", ScratchpadDisplayState::Closed),
        item("a", ScratchpadDisplayState::Visible),
        item("skip", ScratchpadDisplayState::Visible),
        item("not_included", ScratchpadDisplayState::Visible),
    ];
    assert_eq!(
        render(&config, &ScratchpadStatusSnapshot::default(), Some(&items)),
        "a,z|3/2/2/1"
    );
}

#[test]
fn tab_format_precedence_includes_meaningful_empty_overrides() {
    let config = config(
        r#"tab_pipe "x" {
        item_format "generic"
        tab_item_format "scoped"
        item_visible_format "generic state"
        item_hidden_format "generic state"
        item_closed_format "generic state"
        tab_item_visible_format "scoped state"
        tab_item_hidden_format "scoped state"
        tab_item_closed_format "scoped state"
        tab_item_mru_format "mru"
        tab_item_focused_format "focus"
    }"#,
    );
    for state in [
        ScratchpadDisplayState::Visible,
        ScratchpadDisplayState::Hidden,
        ScratchpadDisplayState::Closed,
    ] {
        let mut config = config.clone();
        let mut item = item("term", state);
        item.is_focused = true;
        item.is_mru = true;
        assert_eq!(render_item(&config, Scope::Tab, &item), "focus");
        config.tab_item_focused_format = Some(String::new());
        assert_eq!(render_item(&config, Scope::Tab, &item), "");
        config.tab_item_focused_format = None;
        assert_eq!(render_item(&config, Scope::Tab, &item), "mru");
        config.tab_item_mru_format = Some(String::new());
        assert_eq!(render_item(&config, Scope::Tab, &item), "");
        config.tab_item_mru_format = None;
        assert_eq!(render_item(&config, Scope::Tab, &item), "scoped state");
        config.tab_item_visible_format = None;
        config.tab_item_hidden_format = None;
        config.tab_item_closed_format = None;
        assert_eq!(render_item(&config, Scope::Tab, &item), "generic state");
        config.item_visible_format = None;
        config.item_hidden_format = None;
        config.item_closed_format = None;
        assert_eq!(render_item(&config, Scope::Tab, &item), "scoped");
        config.tab_item_format = None;
        assert_eq!(render_item(&config, Scope::Tab, &item), "generic");
    }
}

#[test]
fn substitutions_are_nonrecursive_and_protocol_encoding_is_destination_specific() {
    for kind in ["pipe", "tab_pipe"] {
        let scope = if kind == "pipe" { "current" } else { "tab" };
        let config = config(&format!(
            r##"{kind} "x" {{
            format "#[bold]{{{scope}_items}}|{{{scope}_focused_name}}|{{{scope}_focused_title}}|{{global_live_count}}|{{unknown}}"
            item_format "{{name}}/{{title}}/{{state}}"
        }}"##
        ));
        let mut item = item(
            "{title}::{global_live_count}",
            ScratchpadDisplayState::Hidden,
        );
        item.title = "#[fg=red]{state}\r\nnext".into();
        item.is_focused = true;
        let snapshot = ScratchpadStatusSnapshot {
            current_items: vec![item.clone()],
            ..Default::default()
        };
        let rendered = render(&config, &snapshot, Some(&[item]));
        let separator = if kind == "pipe" { ": :" } else { "::" };
        assert_eq!(rendered, format!("#[bold]\\{{title\\}}{separator}\\{{global_live_count\\}}/# [fg=red]\\{{state\\}}  next/hidden|\\{{title\\}}{separator}\\{{global_live_count\\}}|# [fg=red]\\{{state\\}}  next|0|{{unknown}}"));
    }
    let config = config(r#"tab_pipe "x" { item_format "{global_live_count}"; }"#);
    assert_eq!(
        render(
            &config,
            &ScratchpadStatusSnapshot::default(),
            Some(&[item("term", ScratchpadDisplayState::Visible)])
        ),
        "{global_live_count}"
    );
    assert_eq!(
        zjstatus_tab_payload(42, "x", "a::b\r\nc"),
        "zjstatus::tab_pipe::42::x::a::b  c"
    );
    assert_eq!(
        zjstatus_tab_payload(0, "x", ""),
        "zjstatus::tab_pipe::0::x::"
    );
    assert_eq!(
        zjstatus_tab_payload(42, "x", " "),
        "zjstatus::tab_pipe::42::x:: "
    );
}

#[test]
fn empty_fallback_and_count_only_outputs_have_no_implicit_hiding() {
    let snapshot = ScratchpadStatusSnapshot::default();
    for kind in ["pipe", "tab_pipe"] {
        let scope = if kind == "pipe" { "current" } else { "tab" };
        for (body, expected) in [
            (String::new(), ""),
            ("empty_format \"fallback\";".into(), "fallback"),
            ("format \"\"; empty_format \"\";".into(), ""),
            ("format \" \"; empty_format \"fallback\";".into(), " "),
            (
                format!("format \"{{{scope}_live_count}}\"; empty_format \"fallback\";"),
                "0",
            ),
        ] {
            let config = config(&format!("{kind} \"x\" {{ {body} }}"));
            assert_eq!(render(&config, &snapshot, Some(&[])), expected);
        }
    }
}

#[test]
fn parses_minimal_config() {
    let config = integration(r#"pipe "scratchpads" {}"#);

    assert_eq!(config.refresh_ms, 2000);
    assert_eq!(
        output(&config, &OutputKey::Global("scratchpads".into())).format,
        DEFAULT_FORMAT
    );
}

#[test]
fn overlays_external_options_without_resetting_inline() {
    let mut layers = ZjstatusConfigLayers::default();
    layers.push(parse_zjstatus_config_kdl(r#"pipe "scratchpads" {}"#).unwrap());
    layers.push(
        parse_zjstatus_config_kdl(r#"pipe "scratchpads" { format "{global_items}"; }"#)
            .unwrap(),
    );

    let config = layers.into_config().unwrap().unwrap();

    assert_eq!(config.outputs.len(), 1);
    assert_eq!(
        output(&config, &OutputKey::Global("scratchpads".into())).format,
        "{global_items}"
    );
}

#[test]
fn rejects_invalid_pipe_name() {
    assert!(parse_zjstatus_config_kdl(r#"pipe "bad::name" {}"#).is_err());
}

#[test]
fn icons_remain_fixed() {
    let config = config(
        r#"
        pipe "scratchpads" {
        item_format "{icon}"
        }
        "#,
    );
    let snapshot = ScratchpadStatusSnapshot {
        current_items: vec![item("term", ScratchpadDisplayState::Visible)],
        global_count_items: Vec::new(),
        global_items: Vec::new(),
    };

    assert_eq!(render(&config, &snapshot, None), "●");
    assert!(
        parse_zjstatus_config_kdl(r#"pipe "scratchpads" { icons { visible "V"; }; }"#).is_err()
    );
}

#[test]
fn multiple_outputs_have_independent_defaults_and_deterministic_keys() {
    let config = integration(
        r#"
        tab_pipe "scratchpads" {}
        pipe "Z-9" { item_format "custom"; }
        pipe "scratchpads" {}
        tab_pipe "count_2" { format "{tab_live_count}"; }
    "#,
    );
    assert_eq!(
        config.outputs.iter().map(|(k, _)| k.clone()).collect::<Vec<_>>(),
        vec![
            OutputKey::Global("Z-9".into()),
            OutputKey::Global("scratchpads".into()),
            OutputKey::Tab("count_2".into()),
            OutputKey::Tab("scratchpads".into()),
        ]
    );
    let global = &output(&config, &OutputKey::Global("scratchpads".into()));
    let tab = &output(&config, &OutputKey::Tab("scratchpads".into()));
    assert_eq!(global.format, "{current_items}");
    assert_eq!(tab.format, "{tab_items}");
    assert_eq!(tab.item_format, DEFAULT_ITEM_FORMAT);
    assert_eq!(global.item_format, DEFAULT_ITEM_FORMAT);
    assert!(config.outputs.iter().all(|(_, output)| output.enabled));
    assert!(ZjstatusConfigLayers::default()
        .into_config()
        .unwrap()
        .is_none());
    let mut layers = ZjstatusConfigLayers::default();
    layers.push(parse_zjstatus_config_kdl("refresh_ms 17").unwrap());
    assert!(layers.into_config().unwrap().is_none());
}

#[test]
fn rejects_unsupported_known_scopes() {
    for suffix in [
        "items",
        "configured_count",
        "rendered_count",
        "live_count",
        "visible_count",
        "hidden_count",
        "closed_count",
        "focused_name",
        "focused_title",
    ] {
        for (kind, scope) in [
            ("pipe", "tab"),
            ("tab_pipe", "current"),
            ("tab_pipe", "other"),
        ] {
            let input = format!("{kind} \"x\" {{ format \"{{{scope}_{suffix}}}\"; }}");
            let error = parse_zjstatus_config_kdl(&input).unwrap_err();
            assert!(error.contains("unsupported scope"), "{error}");
        }
    }
    for (kind, scope) in [("pipe", "tab"), ("tab_pipe", "current")] {
        for suffix in [
            "format",
            "focused_format",
            "mru_format",
            "visible_format",
            "hidden_format",
            "closed_format",
            "separator",
        ] {
            let input = format!("{kind} \"x\" {{ {scope}_item_{suffix} \"\"; }}");
            assert!(parse_zjstatus_config_kdl(&input).is_err(), "{input}");
        }
    }
}

fn pane_snapshot(rows: &[(usize, &str, &str, bool, &str)], formatted: bool) -> PaneStatusSnapshot {
    let mut manifest: Vec<PaneInfo> = Vec::new();
    for &(position, id, title, is_focused, _) in rows {
        let (number, is_plugin) = match id.strip_prefix("terminal_") {
            Some(n) => (n.parse().unwrap(), false),
            None => (id.strip_prefix("plugin_").unwrap().parse().unwrap(), true),
        };
        manifest.push(PaneInfo {
            id: number,
            is_focused,
            is_floating: false,
            is_suppressed: false,
            is_plugin,
            tab_position: position,
            title: title.into(),
            terminal_command: None,
            plugin_url: None,
        });
    }
    let tabs: Vec<TabRef> = (0..3)
        .map(|position| TabRef { tab_id: 42 + position, position, active: position == 0 })
        .collect();
    let mut statuses = PaneStatuses::default();
    for &(_, id, _, _, text) in rows {
        statuses
            .set(&[id, text], Some(if formatted { "zjstatus" } else { "plain" }), &manifest)
            .unwrap();
    }
    statuses.snapshot(&manifest, &tabs)
}

// Match the receiver's split-on-marker, then first-closing-bracket parser.
// Each marker specifies a fresh style, not a delta on the previous marker.
fn pane_fragments(output: &str) -> Vec<(&str, &str)> {
    output
        .split("#[")
        .filter(|part| !part.is_empty())
        .map(|part| part.split_once(']').unwrap_or(("", part)))
        .collect()
}

fn pane_visible(output: &str) -> String {
    pane_fragments(output).into_iter().map(|(_, text)| text).collect()
}

fn assert_pane_style(output: &str, token: &str, expected: &str) {
    let chars: Vec<_> = pane_fragments(output)
        .into_iter()
        .flat_map(|(style, text)| text.chars().map(move |ch| (style, ch)))
        .collect();
    let visible: String = chars.iter().map(|(_, ch)| ch).collect();
    let start = visible.find(token).unwrap_or_else(|| panic!("missing {token:?} in {output:?}"));
    let start = visible[..start].chars().count();
    assert!(
        chars[start..start + token.chars().count()].iter().all(|(style, _)| *style == expected),
        "wrong style for {token:?}, expected {expected:?}: {output:?}"
    );
}

#[test]
fn pane_source_defaults_and_invalid_source_options() {
    for (kind, scope) in [("pipe", "current"), ("tab_pipe", "tab")] {
        for (source, expected, item_format) in [
            ("", OutputSource::Scratchpad, DEFAULT_ITEM_FORMAT),
            ("source \"scratchpad\";", OutputSource::Scratchpad, DEFAULT_ITEM_FORMAT),
            ("source \"pane-status\";", OutputSource::PaneStatus, "{status}"),
        ] {
            let output = config(&format!("{kind} \"x\" {{ {source} }}"));
            assert_eq!(output.source, expected);
            assert_eq!(output.item_format, item_format);
            assert_eq!(output.format, format!("{{{scope}_items}}"));
            assert_eq!(output.item_separator, " ");
            assert_eq!(output.empty_format, "");
            assert!(output.enabled);
        }
        for source in [
            "source;",
            "source 1;",
            "source true;",
            "source null;",
            "source \"unknown\";",
            "source \"pane-status\" \"scratchpad\";",
            "source \"pane-status\"; source \"pane-status\";",
        ] {
            let error = parse_zjstatus_config_kdl(&format!("{kind} \"x\" {{ {source} }}")).unwrap_err();
            assert!(error.contains("source"), "{error}");
        }
    }
}

#[test]
fn pane_source_layer_changes_finalize_defaults_but_keep_explicit_formats() {
    for kind in ["pipe", "tab_pipe"] {
        for (initial, external, expected, default_item) in [
            ("scratchpad", "pane-status", OutputSource::PaneStatus, "{status}"),
            ("pane-status", "scratchpad", OutputSource::Scratchpad, DEFAULT_ITEM_FORMAT),
        ] {
            for explicit in ["", "format \"explicit\"; item_format \"custom\";"] {
                let mut layers = ZjstatusConfigLayers::default();
                for body in [
                    format!("source {initial:?}; {explicit}"),
                    format!("source {external:?};"),
                    "enabled false;".into(),
                ] {
                    layers.push(parse_zjstatus_config_kdl(&format!("{kind} \"x\" {{ {body} }}")).unwrap());
                }
                let output = layers.into_config().unwrap().unwrap().outputs.into_iter().next().unwrap().1;
                assert_eq!(output.source, expected);
                assert!(!output.enabled);
                assert_eq!(output.item_format, if explicit.is_empty() { default_item } else { "custom" });
                assert_eq!(
                    output.format,
                    if !explicit.is_empty() {
                        "explicit"
                    } else if kind == "pipe" {
                        "{current_items}"
                    } else {
                        "{tab_items}"
                    }
                );
            }
        }
    }
}

#[test]
fn pane_source_rejects_scratchpad_options_only_after_layering() {
    for (kind, scope) in [("pipe", "current"), ("tab_pipe", "tab")] {
        let options = [
            "item_visible_format",
            "item_hidden_format",
            "item_closed_format",
            "global_item_format",
            "global_item_visible_format",
            "global_item_hidden_format",
            "global_item_closed_format",
            "global_item_separator",
        ];
        for option in options
            .into_iter()
            .map(String::from)
            .chain(["mru", "visible", "hidden", "closed"].map(|state| format!("{scope}_item_{state}_format")))
        {
            let mut layers = ZjstatusConfigLayers::default();
            layers.push(
                parse_zjstatus_config_kdl(&format!("{kind} \"x\" {{ source \"pane-status\"; {option} \"\"; }}"))
                    .unwrap(),
            );
            let error = layers.clone().into_config().unwrap_err();
            assert!(error.contains(&option) && error.contains("scratchpad"), "{error}");
            layers.push(parse_zjstatus_config_kdl(&format!("{kind} \"x\" {{ source \"scratchpad\"; }}")).unwrap());
            assert!(layers.clone().into_config().is_ok());
            layers.push(parse_zjstatus_config_kdl(&format!("{kind} \"x\" {{ source \"pane-status\"; }}")).unwrap());
            assert!(layers.into_config().is_err());
        }
    }
}

#[test]
fn pane_scopes_filters_and_snapshot_order_are_preserved() {
    let snapshot = pane_snapshot(
        &[
            (0, "plugin_10", "", false, "p10"),
            (0, "terminal_10", "", false, "t10"),
            (0, "plugin_2", "", false, "p2"),
            (0, "terminal_2", "", true, "t2"),
            (1, "terminal_7", "", true, "other"),
        ],
        false,
    );
    for (kind, scope) in [("pipe", "current"), ("tab_pipe", "tab")] {
        let mut output = config(&format!(
            r#"{kind} "x" {{ source "pane-status";
            format "{{{scope}_rendered_count}}:{{{scope}_items}}";
            item_format "{{pane_id}}/{{tab_id}}/{{is_focused}}"; item_separator "|"; }}"#
        ));
        assert_eq!(
            pane_visible(&render_pane_status(&output, &snapshot, Some(42))),
            "4:terminal_2/42/true|terminal_10/42/false|plugin_2/42/false|plugin_10/42/false"
        );
        for (selected, exclude, expected) in [
            (vec!["plugin_10", "terminal_2", "plugin_2"], vec!["plugin_2"], "2:terminal_2/42/true|plugin_10/42/false"),
            (vec!["2", "terminal_02", "terminal_*"], vec![], ""),
            (vec![], vec!["terminal_2", "terminal_10"], "2:plugin_2/42/false|plugin_10/42/false"),
        ] {
            output.selected = selected.into_iter().map(String::from).collect();
            output.exclude = exclude.into_iter().map(String::from).collect();
            assert_eq!(pane_visible(&render_pane_status(&output, &snapshot, Some(42))), expected);
        }
    }
    let tab = config(r#"tab_pipe "x" { source "pane-status"; }"#);
    let global = config(r#"pipe "x" { source "pane-status"; }"#);
    assert_eq!(pane_visible(&render_pane_status(&tab, &snapshot, Some(43))), "other");
    for id in [None, Some(44), Some(999)] {
        assert_eq!(render_pane_status(&tab, &snapshot, id), "");
        assert_eq!(pane_visible(&render_pane_status(&global, &snapshot, id)), "t2 t10 p2 p10");
    }
    let mut no_active = snapshot;
    no_active.current_tab_id = None;
    assert_eq!(render_pane_status(&global, &no_active, Some(43)), "");
    assert_eq!(pane_visible(&render_pane_status(&tab, &no_active, Some(43))), "other");
}

#[test]
fn pane_focused_precedence_and_counts_skip_hidden_items() {
    let snapshot = pane_snapshot(&[(0, "terminal_2", "", true, "focused"), (0, "plugin_2", "", false, "unfocused")], false);
    for (kind, scope) in [("pipe", "current"), ("tab_pipe", "tab")] {
        for (overrides, expected) in [
            (String::new(), "2:base|base"),
            (format!("{scope}_item_format \"scoped\";"), "2:scoped|scoped"),
            (format!("{scope}_item_format \"scoped\"; {scope}_item_focused_format \"focus\";"), "2:focus|scoped"),
            (format!("{scope}_item_format \"scoped\"; {scope}_item_focused_format \"\";"), "1:scoped"),
            (format!("{scope}_item_format \"\"; {scope}_item_focused_format \"focus\";"), "1:focus"),
        ] {
            let output = config(&format!(
                r#"{kind} "x" {{ source "pane-status";
                format "{{{scope}_rendered_count}}:{{{scope}_items}}"; item_format "base";
                item_separator "wrong"; {scope}_item_separator "|"; {overrides} }}"#
            ));
            assert_eq!(pane_visible(&render_pane_status(&output, &snapshot, Some(42))), expected);
        }
    }
}

#[test]
fn pane_empty_title_and_style_only_status_hide_prefixes_and_counts() {
    for (kind, scope) in [("pipe", "current"), ("tab_pipe", "tab")] {
        for (item_format, status) in [("{title}", "present"), ("{status}", "#[fg=red]#[bold]#[]")] {
            let snapshot = pane_snapshot(&[(0, "terminal_2", "", false, status)], true);
            for format in [
                format!("prefix{{{scope}_items}}/{{{scope}_rendered_count}}"),
                format!("{{{scope}_rendered_count}}"),
            ] {
                let mut output = config(&format!(
                    r#"{kind} "x" {{ source "pane-status";
                    item_format "{item_format}"; format "{format}"; }}"#
                ));
                assert_eq!(render_pane_status(&output, &snapshot, Some(42)), "");
                output.empty_format = format!("none {{{scope}_rendered_count}}]");
                assert_eq!(pane_visible(&render_pane_status(&output, &snapshot, Some(42))), output.empty_format);
            }
        }
        let snapshot = pane_snapshot(&[(0, "terminal_2", "", false, "#[bold]"), (0, "plugin_2", "", false, "visible")], true);
        let output = config(&format!(
            r#"{kind} "x" {{ source "pane-status"; format "{{{scope}_rendered_count}}:{{{scope}_items}}"; }}"#
        ));
        assert_eq!(pane_visible(&render_pane_status(&output, &snapshot, Some(42))), "1:visible");
    }
}

#[test]
fn pane_items_inherit_each_output_style_and_restore_trusted_suffixes() {
    for (kind, scope) in [("pipe", "current"), ("tab_pipe", "tab")] {
        for (item_style, expected_item_style) in [("", "fg=green,bold"), ("#[bg=blue]", "bg=blue"), ("#[]", "")] {
            let snapshot = pane_snapshot(&[(0, "terminal_2", "TITLE", false, "plain#[fg=red]ALERT")], true);
            let output = config(&format!(
                r##"{kind} "x" {{ source "pane-status";
                format "#[fg=green,bold]LEFT{{{scope}_items}}RIGHT#[fg=cyan]SECOND{{{scope}_items}}END";
                item_format "{item_style}BEFORE{{title}}#[italic]MIDDLE{{status}}AFTER"; }}"##
            ));
            let rendered = render_pane_status(&output, &snapshot, Some(42));
            assert_eq!(
                pane_visible(&rendered),
                "LEFTBEFORETITLEMIDDLEplainALERTAFTERRIGHTSECONDBEFORETITLEMIDDLEplainALERTAFTEREND"
            );
            let (first, second) = rendered.split_once("SECOND").unwrap();
            for (part, base) in [
                (first, expected_item_style),
                (second, if item_style.is_empty() { "fg=cyan" } else { expected_item_style }),
            ] {
                for token in ["BEFORE", "TITLE"] {
                    assert_pane_style(part, token, base);
                }
                for token in ["MIDDLE", "AFTER"] {
                    assert_pane_style(part, token, "italic");
                }
                assert_pane_style(part, "plain", "");
                assert_pane_style(part, "ALERT", "fg=red");
            }
            assert_pane_style(&rendered, "LEFT", "fg=green,bold");
            assert_pane_style(&rendered, "RIGHT", "fg=green,bold");
            assert_pane_style(&rendered, "SECOND", "fg=cyan");
            assert_pane_style(&rendered, "END", "fg=cyan");
        }
    }
}

#[test]
fn pane_safe_values_are_nonrecursive_preserve_brackets_and_neutralize_click_tokens() {
    let chars = |s: &str| -> Vec<char> { s.chars().collect() };
    let table = vec![(chars("{title}"), chars("{status}"))];
    let raw: String = pane_substitute(&chars("{title}"), &chars("#[]"), &Values::Table(&table)).into_iter().collect();
    assert_eq!(pane_visible(&raw), "{status}");
    let snapshot = pane_snapshot(
        &[(0, "terminal_2", "#[fg=red]{status}{command_bad}]", false, "{title}::{current_items}]")],
        false,
    );
    for (kind, scope, separator) in [("pipe", "current", ": :"), ("tab_pipe", "tab", "::")] {
        let output = config(&format!(
            r##"{kind} "x" {{ source "pane-status";
            format "]{{{scope}_items}}]{{unknown}}"; item_format "#[fg=green]{{title}}/{{status}}]"; }}"##
        ));
        let rendered = render_pane_status(&output, &snapshot, Some(42));
        assert_eq!(
            pane_visible(&rendered),
            format!("]# [fg=red]{{ status}}{{ command_bad}}]/{{ title}}{separator}{{ current_items}}]]]{{unknown}}")
        );
        assert_pane_style(&rendered, "# [fg=red]{ status}{ command_bad}]", "fg=green");
        assert_pane_style(&rendered, "{ title}", "fg=green");
        assert!(!rendered.contains("{command_bad}"));
    }
}

#[test]
fn pane_substitution_boundaries_cannot_create_style_markers() {
    let snapshot = pane_snapshot(&[(0, "terminal_2", "#", false, "[fg=red]TEXT]")], false);
    for (kind, scope) in [("pipe", "current"), ("tab_pipe", "tab")] {
        let output = config(&format!(
            r##"{kind} "x" {{ source "pane-status";
            format "#[fg=green]{{{scope}_items}}"; item_format "{{title}}{{status}}"; }}"##
        ));
        let rendered = render_pane_status(&output, &snapshot, Some(42));
        assert_eq!(pane_visible(&rendered), "#[fg=red]TEXT]");
        assert!(!rendered.contains("#[fg=red]"));
        assert_pane_style(&rendered, "#[fg=red]TEXT]", "fg=green");
    }
}

#[test]
fn overlays_mru_format_without_resetting_other_options() {
    let mut layers = ZjstatusConfigLayers::default();
    layers.push(parse_zjstatus_config_kdl("pipe \"scratchpads\" { current_item_mru_format \"inline\"; }").unwrap());
    layers.push(parse_zjstatus_config_kdl("pipe \"scratchpads\" { format \"{current_items}\"; }").unwrap());
    let so_far = layers.clone().into_config().unwrap().unwrap();
    assert_eq!(
        output(&so_far, &OutputKey::Global("scratchpads".into())).current_item_mru_format.as_deref(),
        Some("inline")
    );
    layers.push(parse_zjstatus_config_kdl("pipe \"scratchpads\" { current_item_mru_format \"external\"; }").unwrap());
    let config = layers.into_config().unwrap().unwrap();
    assert_eq!(
        output(&config, &OutputKey::Global("scratchpads".into())).current_item_mru_format.as_deref(),
        Some("external")
    );
    assert_eq!(config.outputs.len(), 1);
}

#[test]
fn layers_merge_by_identity_preserving_empty_values_and_disabled_entries() {
    let key = OutputKey::Tab("scratchpads".into());
    let mut layers = ZjstatusConfigLayers::default();
    layers.push(
        parse_zjstatus_config_kdl(
            r#"
        refresh_ms 100
        pipe "scratchpads" { item_format "global"; }
        tab_pipe "scratchpads" {
            format "inline"
            empty_format "fallback"
            include "term"
            exclude "notes"
            tab_item_format "{name}"
            tab_item_focused_format "focus"
            tab_item_mru_format "mru"
            tab_item_visible_format "visible"
            tab_item_hidden_format "hidden"
            tab_item_closed_format "closed"
            tab_item_separator "|"
        }
    "#,
        )
        .unwrap(),
    );
    layers.push(
        parse_zjstatus_config_kdl(
            r#"
        refresh_ms 300
        tab_pipe "scratchpads" {
            enabled false
            format ""
            empty_format ""
            include
            exclude
            tab_item_focused_format ""
            tab_item_hidden_format ""
            tab_item_separator ""
        }
    "#,
        )
        .unwrap(),
    );
    let merged = layers.clone().into_config().unwrap().unwrap();
    assert_eq!(merged.refresh_ms, 300);
    assert_eq!(merged.outputs.len(), 2);
    let out = output(&merged, &key);
    assert!(!out.enabled);
    assert_eq!(out.format, "");
    assert_eq!(out.empty_format, "");
    assert!(out.selected.is_empty());
    assert!(out.exclude.is_empty());
    assert_eq!(out.tab_item_format.as_deref(), Some("{name}"));
    assert_eq!(out.tab_item_focused_format.as_deref(), Some(""));
    assert_eq!(out.tab_item_mru_format.as_deref(), Some("mru"));
    assert_eq!(out.tab_item_visible_format.as_deref(), Some("visible"));
    assert_eq!(out.tab_item_hidden_format.as_deref(), Some(""));
    assert_eq!(out.tab_item_closed_format.as_deref(), Some("closed"));
    assert_eq!(out.tab_item_separator.as_deref(), Some(""));
    layers.push(parse_zjstatus_config_kdl(r#"
        tab_pipe "scratchpads" { enabled true; include "notes" "git"; }
    "#).unwrap());
    let merged = layers.into_config().unwrap().unwrap();
    assert!(output(&merged, &key).enabled);
    assert_eq!(output(&merged, &key).selected, ["notes", "git"]);
    assert_eq!(output(&merged, &key).format, "");
    assert_eq!(output(&merged, &OutputKey::Global("scratchpads".into())).item_format, "global");
}

#[test]
fn rejects_legacy_duplicates_and_invalid_structure_or_types() {
    for input in [
        r#"pipe "scratchpads""#,
        r#"format "{current_items}""#,
        "pipe \"old\"\ntab_pipe \"new\" {}",
        "pipe \"same\" {}\npipe \"same\" {}",
        "tab_pipe \"same\" {}\ntab_pipe \"same\" {}",
        "refresh_ms 1\nrefresh_ms 2",
        "refresh_ms 1 {}",
        "unknown {}",
        "pipe {}",
        "pipe 1 {}",
        r#"pipe "one" "two" {}"#,
        r#"pipe name="one" {}"#,
        r#"(kind)pipe "one" {}"#,
        r#"pipe (kind)"one" {}"#,
        r#"pipe "one" { enabled "false"; }"#,
        r#"pipe "one" { enabled true false; }"#,
        r#"pipe "one" { enabled; }"#,
        r#"pipe "one" { format; }"#,
        r#"pipe "one" { format 1; }"#,
        r#"pipe "one" { format "a" "b"; }"#,
        r#"pipe "one" { format value="a"; }"#,
        r#"pipe "one" { format (kind)"a"; }"#,
        r#"pipe "one" { format "a" {}; }"#,
        r#"pipe "one" { format "a"; format "b"; }"#,
        r#"pipe "one" { include "a" 2; }"#,
        r#"pipe "one" { exclude false; }"#,
        r#"pipe "one" { typo "value"; }"#,
        r#"pipe "one" { refresh_ms 10; }"#,
    ] {
        assert!(parse_zjstatus_config_kdl(input).is_err(), "accepted {input}");
    }
    for name in ["", "Upper", "has-hyphen", "has space", "bad::name", "é"] {
        assert!(parse_zjstatus_config_kdl(&format!("tab_pipe {name:?} {{}}")).is_err(), "accepted {name}");
    }
    for value in ["0", "-1", "4294967296", "1.5", "true", "null", "\"2000\"", "", "1 2"] {
        let error = parse_zjstatus_config_kdl(&format!("refresh_ms {value}")).unwrap_err();
        assert!(error.contains("refresh_ms"), "{error}");
    }
    for value in [1, u32::MAX] {
        let config = integration(&format!("refresh_ms {value}\ntab_pipe \"x\" {{}}"));
        assert_eq!(config.refresh_ms, value);
    }
}
