//! The command-line client: the pipe messages it sends to the plugin, the
//! subscribe init payload, and the subscribe handshake as a state machine that
//! the caller drives with the lines it reads from the pipe.

use vstd::prelude::*;
use crate::events::{kind_name, EventKind};
use crate::text::{chars_of, decimal, find, find_chars, push_chars, push_decimal, push_str, string_of};

verus! {

/// The plugin reference used when neither the command line nor the
/// environment names one.
pub open spec fn default_plugin() -> Seq<char> {
    "zellij-tools"@
}

/// Seconds the client waits for each handshake reply.
pub const CONNECT_TIMEOUT_SECS: u64 = 5;

/// The plugin to talk to: the command-line value, else the environment's,
/// else the default.
pub fn resolve_plugin(cli_override: Option<String>, env_value: Option<String>) -> (r: String)
    ensures
        r@ == match cli_override {
            Some(p) => p@,
            None => match env_value {
                Some(p) => p@,
                None => default_plugin(),
            },
        },
{
    match cli_override {
        Some(p) => p,
        None => match env_value {
            Some(p) => p,
            None => "zellij-tools".to_string(),
        },
    }
}

/// `terminal_N` or `plugin_N`.
pub open spec fn typed_pane_text(pane_id: u32, plugin: bool) -> Seq<char> {
    (if plugin { "plugin_"@ } else { "terminal_"@ }) + decimal(pane_id as nat)
}

fn push_typed_pane(out: &mut Vec<char>, pane_id: u32, plugin: bool)
    ensures
        final(out)@ == old(out)@ + typed_pane_text(pane_id, plugin),
{
    if plugin {
        push_str(out, "plugin_");
    } else {
        push_str(out, "terminal_");
    }
    push_decimal(out, pane_id as u64);
}

/// The message that focuses a pane: `zellij-tools::focus-pane::<typed id>`.
pub fn focus_pane_message(pane_id: u32, plugin: bool) -> (s: String)
    ensures
        s@ == "zellij-tools::focus-pane::"@ + typed_pane_text(pane_id, plugin),
{
    let mut out: Vec<char> = Vec::new();
    push_str(&mut out, "zellij-tools::focus-pane::");
    push_typed_pane(&mut out, pane_id, plugin);
    string_of(&out)
}

/// The message that focuses a tab, by stable ID or by 1-based position.
pub fn focus_tab_message(tab: usize, by_id: bool) -> (s: String)
    ensures
        s@ == "zellij-tools::focus-tab::"@ + (if by_id { "id::"@ } else { "position::"@ })
            + decimal(tab as nat),
{
    let mut out: Vec<char> = Vec::new();
    push_str(&mut out, "zellij-tools::focus-tab::");
    if by_id {
        push_str(&mut out, "id::");
    } else {
        push_str(&mut out, "position::");
    }
    push_decimal(&mut out, tab as u64);
    string_of(&out)
}

/// A scratchpad request that the client sends as a single message.
#[derive(Debug, Clone, PartialEq, Eq)]
pub enum ScratchpadRequest {
    /// Toggle the named scratchpad, or the last-focused one.
    Toggle { name: Option<String> },
    Show { name: String },
    Hide { name: String },
    Close { name: String },
}

/// The text of a scratchpad request message.
pub open spec fn scratchpad_request_text(r: ScratchpadRequest) -> Seq<char> {
    match r {
        ScratchpadRequest::Toggle { name: Some(n) } => "zellij-tools::scratchpad::toggle::"@ + n@,
        ScratchpadRequest::Toggle { name: None } => "zellij-tools::scratchpad::toggle"@,
        ScratchpadRequest::Show { name } => "zellij-tools::scratchpad::show::"@ + name@,
        ScratchpadRequest::Hide { name } => "zellij-tools::scratchpad::hide::"@ + name@,
        ScratchpadRequest::Close { name } => "zellij-tools::scratchpad::close::"@ + name@,
    }
}

/// The message for a scratchpad request.
pub fn scratchpad_message(request: &ScratchpadRequest) -> (s: String)
    ensures
        s@ == scratchpad_request_text(*request),
{
    let mut out: Vec<char> = Vec::new();
    match request {
        ScratchpadRequest::Toggle { name: Some(n) } => {
            push_str(&mut out, "zellij-tools::scratchpad::toggle::");
            push_str(&mut out, n.as_str());
        },
        ScratchpadRequest::Toggle { name: None } => {
            push_str(&mut out, "zellij-tools::scratchpad::toggle");
        },
        ScratchpadRequest::Show { name } => {
            push_str(&mut out, "zellij-tools::scratchpad::show::");
            push_str(&mut out, name.as_str());
        },
        ScratchpadRequest::Hide { name } => {
            push_str(&mut out, "zellij-tools::scratchpad::hide::");
            push_str(&mut out, name.as_str());
        },
        ScratchpadRequest::Close { name } => {
            push_str(&mut out, "zellij-tools::scratchpad::close::");
            push_str(&mut out, name.as_str());
        },
    }
    string_of(&out)
}

/// `::n1::n2...` for the given names, in order.
pub open spec fn names_suffix(names: Seq<String>) -> Seq<char>
    decreases names.len(),
{
    if names.len() == 0 {
        Seq::empty()
    } else {
        names_suffix(names.drop_last()) + "::"@ + names.last()@
    }
}

/// The text of a scratchpad list request:
/// `zellij-tools::scratchpad::list[::full][::tab=<id>][::<name>...]`.
pub open spec fn scratchpad_list_text(names: Seq<String>, tab_id: Option<usize>, full: bool) -> Seq<char> {
    "zellij-tools::scratchpad::list"@
        + (if full { "::full"@ } else { Seq::empty() })
        + match tab_id {
            Some(id) => "::tab="@ + decimal(id as nat),
            None => Seq::empty(),
        }
        + names_suffix(names)
}

/// The message that asks for the scratchpad list.
pub fn scratchpad_list_message(names: &[String], tab_id: Option<usize>, full: bool) -> (s: String)
    ensures
        s@ == scratchpad_list_text(names@, tab_id, full),
{
    let mut out: Vec<char> = Vec::new();
    push_str(&mut out, "zellij-tools::scratchpad::list");
    if full {
        push_str(&mut out, "::full");
    }
    match tab_id {
        Some(id) => {
            push_str(&mut out, "::tab=");
            push_decimal(&mut out, id as u64);
        },
        None => {},
    }
    let ghost head = out@;
    let mut i: usize = 0;
    while i < names.len()
        invariant
            i <= names@.len(),
            out@ == head + names_suffix(names@.take(i as int)),
        decreases names.len() - i,
    {
        assert(names@.take(i + 1).drop_last() == names@.take(i as int));
        push_str(&mut out, "::");
        push_str(&mut out, names[i].as_str());
        i = i + 1;
    }
    assert(names@.take(names@.len() as int) == names@);
    string_of(&out)
}

/// The message that opens an event subscription.
pub fn subscribe_message(full: bool) -> (s: String)
    ensures
        s@ == if full { "zellij-tools::subscribe::full"@ } else { "zellij-tools::subscribe"@ },
{
    if full {
        "zellij-tools::subscribe::full".to_string()
    } else {
        "zellij-tools::subscribe".to_string()
    }
}

/// The message that ends the subscription on the named pipe.
pub fn unsubscribe_message(pipe_name: &str) -> (s: String)
    ensures
        s@ == "zellij-tools::unsubscribe::"@ + pipe_name@,
{
    let mut out: Vec<char> = Vec::new();
    push_str(&mut out, "zellij-tools::unsubscribe::");
    push_str(&mut out, pipe_name);
    string_of(&out)
}

/// Comma-separated items, each already rendered.
pub open spec fn list_text(items: Seq<Seq<char>>) -> Seq<char>
    decreases items.len(),
{
    if items.len() == 0 {
        Seq::empty()
    } else if items.len() == 1 {
        items[0]
    } else {
        list_text(items.drop_last()) + ","@ + items.last()
    }
}

/// A JSON string for a text without quotes, backslashes or control characters.
pub open spec fn quoted(t: Seq<char>) -> Seq<char> {
    "\""@ + t + "\""@
}

/// The requested event kinds, as JSON strings.
pub open spec fn event_items(events: Seq<EventKind>) -> Seq<Seq<char>> {
    events.map(|_i: int, k: EventKind| quoted(kind_name(k)))
}

/// The typed pane IDs, terminal panes first, as JSON strings.
pub open spec fn pane_items(pane_ids: Seq<u32>, plugin_pane_ids: Seq<u32>) -> Seq<Seq<char>> {
    pane_ids.map(|_i: int, id: u32| quoted(typed_pane_text(id, false)))
        + plugin_pane_ids.map(|_i: int, id: u32| quoted(typed_pane_text(id, true)))
}

/// The tab IDs, as JSON numbers.
pub open spec fn tab_items(tab_ids: Seq<usize>) -> Seq<Seq<char>> {
    tab_ids.map(|_i: int, id: usize| decimal(id as nat))
}

/// `,"key":[items]`, or nothing for no items.
pub open spec fn array_field(key: Seq<char>, items: Seq<Seq<char>>) -> Seq<char> {
    if items.len() == 0 {
        Seq::empty()
    } else {
        ","@ + quoted(key) + ":["@ + list_text(items) + "]"@
    }
}

/// The subscribe init payload: `full`, then each filter that is not empty,
/// in the order `events`, `pane_ids`, `tab_ids`.
pub open spec fn subscribe_init_text(
    full: bool,
    events: Seq<EventKind>,
    pane_ids: Seq<u32>,
    plugin_pane_ids: Seq<u32>,
    tab_ids: Seq<usize>,
) -> Seq<char> {
    "{\"full\":"@ + (if full { "true"@ } else { "false"@ })
        + array_field("events"@, event_items(events))
        + array_field("pane_ids"@, pane_items(pane_ids, plugin_pane_ids))
        + array_field("tab_ids"@, tab_items(tab_ids))
        + "}"@
}

proof fn lemma_list_step(items: Seq<Seq<char>>, i: int)
    requires
        0 <= i < items.len(),
    ensures
        list_text(items.take(i + 1)) == list_text(items.take(i))
            + (if i == 0 { Seq::<char>::empty() } else { ","@ }) + items[i],
{
    assert(items.take(i + 1).drop_last() == items.take(i));
    if i == 0 {
        assert(list_text(items.take(0)) == Seq::<char>::empty());
    }
}

fn push_event_items(out: &mut Vec<char>, events: &[EventKind])
    ensures
        final(out)@ == old(out)@ + list_text(event_items(events@)),
{
    let ghost head = out@;
    let ghost items = event_items(events@);
    let mut i: usize = 0;
    while i < events.len()
        invariant
            i <= events@.len(),
            items == event_items(events@),
            out@ == head + list_text(items.take(i as int)),
        decreases events.len() - i,
    {
        proof {
            lemma_list_step(items, i as int);
            reveal_strlit("\"");
            reveal_strlit(",");
        }
        let ghost before = out@;
        if i > 0 {
            out.push(',');
        }
        let ghost mid = out@;
        assert(mid == before + (if i == 0 { Seq::<char>::empty() } else { ","@ }));
        out.push('"');
        push_str(out, events[i].as_str());
        out.push('"');
        assert(items[i as int] == quoted(kind_name(events@[i as int])));
        assert(out@ == mid + items[i as int]);
        assert(out@ == head + list_text(items.take(i as int))
            + (if i == 0 { Seq::<char>::empty() } else { ","@ }) + items[i as int]);
        i = i + 1;
    }
    assert(items.take(events@.len() as int) == items);
}

fn push_pane_items(out: &mut Vec<char>, pane_ids: &[u32], plugin_pane_ids: &[u32])
    ensures
        final(out)@ == old(out)@ + list_text(pane_items(pane_ids@, plugin_pane_ids@)),
{
    let ghost head = out@;
    let ghost items = pane_items(pane_ids@, plugin_pane_ids@);
    let n = pane_ids.len();
    let mut i: usize = 0;
    while i < n
        invariant
            n == pane_ids@.len(),
            i <= n,
            items == pane_items(pane_ids@, plugin_pane_ids@),
            out@ == head + list_text(items.take(i as int)),
        decreases n - i,
    {
        proof {
            lemma_list_step(items, i as int);
            reveal_strlit("\"");
            reveal_strlit(",");
        }
        let ghost before = out@;
        if i > 0 {
            out.push(',');
        }
        let ghost mid = out@;
        assert(mid == before + (if i == 0 { Seq::<char>::empty() } else { ","@ }));
        out.push('"');
        push_typed_pane(out, pane_ids[i], false);
        out.push('"');
        assert(items[i as int] == quoted(typed_pane_text(pane_ids@[i as int], false)));
        assert(out@ == mid + items[i as int]);
        assert(out@ == head + list_text(items.take(i as int))
            + (if i == 0 { Seq::<char>::empty() } else { ","@ }) + items[i as int]);
        i = i + 1;
    }
    let mut j: usize = 0;
    while j < plugin_pane_ids.len()
        invariant
            n == pane_ids@.len(),
            j <= plugin_pane_ids@.len(),
            items == pane_items(pane_ids@, plugin_pane_ids@),
            items.len() == n + plugin_pane_ids@.len(),
            out@ == head + list_text(items.take(n + j)),
        decreases plugin_pane_ids.len() - j,
    {
        proof {
            lemma_list_step(items, n + j);
            reveal_strlit("\"");
            reveal_strlit(",");
        }
        let ghost before = out@;
        if n > 0 || j > 0 {
            out.push(',');
        }
        let ghost mid = out@;
        assert(mid == before + (if n + j == 0 { Seq::<char>::empty() } else { ","@ }));
        out.push('"');
        push_typed_pane(out, plugin_pane_ids[j], true);
        out.push('"');
        assert(items[n + j] == quoted(typed_pane_text(plugin_pane_ids@[j as int], true)));
        assert(out@ == mid + items[n + j]);
        assert(out@ == head + list_text(items.take(n + j))
            + (if n + j == 0 { Seq::<char>::empty() } else { ","@ }) + items[n + j]);
        j = j + 1;
    }
    assert(items.take(items.len() as int) == items);
}

fn push_tab_items(out: &mut Vec<char>, tab_ids: &[usize])
    ensures
        final(out)@ == old(out)@ + list_text(tab_items(tab_ids@)),
{
    let ghost head = out@;
    let ghost items = tab_items(tab_ids@);
    let mut i: usize = 0;
    while i < tab_ids.len()
        invariant
            i <= tab_ids@.len(),
            items == tab_items(tab_ids@),
            out@ == head + list_text(items.take(i as int)),
        decreases tab_ids.len() - i,
    {
        proof {
            lemma_list_step(items, i as int);
            reveal_strlit(",");
        }
        let ghost before = out@;
        if i > 0 {
            out.push(',');
        }
        let ghost mid = out@;
        assert(mid == before + (if i == 0 { Seq::<char>::empty() } else { ","@ }));
        push_decimal(out, tab_ids[i] as u64);
        assert(items[i as int] == decimal(tab_ids@[i as int] as nat));
        assert(out@ == mid + items[i as int]);
        assert(out@ == head + list_text(items.take(i as int))
            + (if i == 0 { Seq::<char>::empty() } else { ","@ }) + items[i as int]);
        i = i + 1;
    }
    assert(items.take(tab_ids@.len() as int) == items);
}

/// The JSON line the client sends after the plugin's `Ack`: the output mode
/// and the filters, with empty filters left out.
pub fn build_subscribe_init_json(
    full: bool,
    events: &[EventKind],
    pane_ids: &[u32],
    plugin_pane_ids: &[u32],
    tab_ids: &[usize],
) -> (s: String)
    ensures
        s@ == subscribe_init_text(full, events@, pane_ids@, plugin_pane_ids@, tab_ids@),
{
    let mut out: Vec<char> = Vec::new();
    push_str(&mut out, "{\"full\":");
    if full {
        push_str(&mut out, "true");
    } else {
        push_str(&mut out, "false");
    }
    let ghost a = out@;
    if events.len() > 0 {
        push_str(&mut out, ",\"events\":[");
        push_event_items(&mut out, events);
        push_str(&mut out, "]");
        proof { reveal_strlit(",\"events\":["); reveal_strlit("events"); reveal_strlit("\""); reveal_strlit(":["); reveal_strlit(","); }
    }
    assert(out@ == a + array_field("events"@, event_items(events@)));
    let ghost b = out@;
    if pane_ids.len() > 0 || plugin_pane_ids.len() > 0 {
        push_str(&mut out, ",\"pane_ids\":[");
        push_pane_items(&mut out, pane_ids, plugin_pane_ids);
        push_str(&mut out, "]");
        proof { reveal_strlit(",\"pane_ids\":["); reveal_strlit("pane_ids"); reveal_strlit("\""); reveal_strlit(":["); reveal_strlit(","); }
    }
    assert(out@ == b + array_field("pane_ids"@, pane_items(pane_ids@, plugin_pane_ids@)));
    let ghost c = out@;
    if tab_ids.len() > 0 {
        push_str(&mut out, ",\"tab_ids\":[");
        push_tab_items(&mut out, tab_ids);
        push_str(&mut out, "]");
        proof { reveal_strlit(",\"tab_ids\":["); reveal_strlit("tab_ids"); reveal_strlit("\""); reveal_strlit(":["); reveal_strlit(","); }
    }
    assert(out@ == c + array_field("tab_ids"@, tab_items(tab_ids@)));
    push_str(&mut out, "}");
    string_of(&out)
}

/// Where the subscribe handshake stands.
#[derive(Debug, Clone, Copy, PartialEq, Eq, Structural)]
pub enum HandshakePhase {
    /// Waiting for the plugin's `Ack` to the subscribe message.
    AwaitingAck,
    /// The init payload was sent; waiting for `InitAck` or `InitError`.
    AwaitingInitAck,
    /// Events are flowing.
    Streaming,
    /// The session is over.
    Closed,
}

/// What the client observed on the pipe.
#[derive(Debug, Clone, PartialEq, Eq)]
pub enum PipeEvent {
    /// A non-empty line from the plugin.
    Line(String),
    /// No line came within the connect timeout.
    Timeout,
    /// The pipe closed.
    Disconnected,
}

/// What the client does next.
#[derive(Debug, Clone, PartialEq, Eq)]
pub enum ClientAction {
    /// Write this line to the plugin.
    Send(String),
    /// Print this line on standard output.
    Print(String),
    /// Start sending heartbeats.
    StartHeartbeat,
    /// Report this error and exit with status 1, killing the pipe process
    /// first when `kill` is set.
    Fail { message: String, kill: bool },
    /// Wait for the pipe process and exit successfully.
    Finish,
}

/// A pipe event with its line as plain text.
pub enum PipeEventView {
    Line(Seq<char>),
    Timeout,
    Disconnected,
}

/// An action with its texts as plain text.
pub enum ActionView {
    Send(Seq<char>),
    Print(Seq<char>),
    StartHeartbeat,
    Fail { message: Seq<char>, kill: bool },
    Finish,
}

impl View for PipeEvent {
    type V = PipeEventView;

    open spec fn view(&self) -> PipeEventView {
        match self {
            PipeEvent::Line(l) => PipeEventView::Line(l@),
            PipeEvent::Timeout => PipeEventView::Timeout,
            PipeEvent::Disconnected => PipeEventView::Disconnected,
        }
    }
}

impl View for ClientAction {
    type V = ActionView;

    open spec fn view(&self) -> ActionView {
        match self {
            ClientAction::Send(l) => ActionView::Send(l@),
            ClientAction::Print(l) => ActionView::Print(l@),
            ClientAction::StartHeartbeat => ActionView::StartHeartbeat,
            ClientAction::Fail { message, kill } => ActionView::Fail { message: message@, kill: *kill },
            ClientAction::Finish => ActionView::Finish,
        }
    }
}

pub open spec fn contains(s: Seq<char>, p: Seq<char>) -> bool {
    find(s, p).is_some()
}

/// `(<n>s)` for the connect timeout.
pub open spec fn timeout_text() -> Seq<char> {
    "("@ + decimal(CONNECT_TIMEOUT_SECS as nat) + "s)"@
}

/// The next phase and the actions for one pipe event. The init payload is
/// what the client sends once the plugin acknowledges the subscription.
pub open spec fn handshake_spec(phase: HandshakePhase, init: Seq<char>, event: PipeEventView)
    -> (HandshakePhase, Seq<ActionView>)
{
    match phase {
        HandshakePhase::AwaitingAck => match event {
            PipeEventView::Line(l) => if contains(l, "\"Ack\""@) {
                (HandshakePhase::AwaitingInitAck, seq![ActionView::Send(init)])
            } else {
                (HandshakePhase::Streaming, seq![ActionView::Print(l), ActionView::StartHeartbeat])
            },
            PipeEventView::Timeout => (HandshakePhase::Closed, seq![ActionView::Fail {
                message: "error: timed out waiting for plugin to respond "@ + timeout_text()
                    + "\nhint: is the zellij-tools plugin loaded?"@,
                kill: true,
            }]),
            PipeEventView::Disconnected => (HandshakePhase::Closed, seq![ActionView::Fail {
                message: "error: plugin connection closed before responding"@,
                kill: false,
            }]),
        },
        HandshakePhase::AwaitingInitAck => match event {
            PipeEventView::Line(l) => if contains(l, "\"InitAck\""@) {
                (HandshakePhase::Streaming, seq![ActionView::StartHeartbeat])
            } else if contains(l, "\"InitError\""@) {
                (HandshakePhase::Closed, seq![ActionView::Fail {
                    message: "error: subscribe init rejected: "@ + l,
                    kill: true,
                }])
            } else {
                (HandshakePhase::Closed, seq![ActionView::Fail {
                    message: "error: unexpected init response from plugin: "@ + l,
                    kill: true,
                }])
            },
            PipeEventView::Timeout => (HandshakePhase::Closed, seq![ActionView::Fail {
                message: "error: timed out waiting for subscribe init ack "@ + timeout_text(),
                kill: true,
            }]),
            PipeEventView::Disconnected => (HandshakePhase::Closed, seq![ActionView::Fail {
                message: "error: plugin connection closed during subscribe init"@,
                kill: false,
            }]),
        },
        HandshakePhase::Streaming => match event {
            PipeEventView::Line(l) => if contains(l, "\"Ack\""@) {
                (HandshakePhase::Streaming, Seq::empty())
            } else {
                (HandshakePhase::Streaming, seq![ActionView::Print(l)])
            },
            PipeEventView::Timeout => (HandshakePhase::Streaming, Seq::empty()),
            PipeEventView::Disconnected => (HandshakePhase::Closed, seq![ActionView::Finish]),
        },
        HandshakePhase::Closed => (HandshakePhase::Closed, Seq::empty()),
    }
}

pub open spec fn actions_view(v: Seq<ClientAction>) -> Seq<ActionView> {
    v.map_values(|a: ClientAction| a@)
}

fn str_contains(s: &str, p: &str) -> (b: bool)
    ensures
        b == contains(s@, p@),
{
    let cs = chars_of(s);
    let ps = chars_of(p);
    find_chars(&cs, &ps).is_some()
}

fn text_with(prefix: &str, rest: &str) -> (s: String)
    ensures
        s@ == prefix@ + rest@,
{
    let mut out: Vec<char> = Vec::new();
    push_str(&mut out, prefix);
    push_str(&mut out, rest);
    string_of(&out)
}

fn push_timeout(out: &mut Vec<char>)
    ensures
        final(out)@ == old(out)@ + timeout_text(),
{
    push_str(out, "(");
    push_decimal(out, CONNECT_TIMEOUT_SECS);
    push_str(out, "s)");
}

/// One step of the subscribe session: the phase it moves to and what the
/// client does, for the event it observed in `phase`.
pub fn handshake_step(phase: HandshakePhase, event: &PipeEvent, init_json: &str)
    -> (r: (HandshakePhase, Vec<ClientAction>))
    ensures
        (r.0, actions_view(r.1@)) == handshake_spec(phase, init_json@, event@),
{
    let mut actions: Vec<ClientAction> = Vec::new();
    let next = match phase {
        HandshakePhase::AwaitingAck => match event {
            PipeEvent::Line(l) => if str_contains(l.as_str(), "\"Ack\"") {
                actions.push(ClientAction::Send(init_json.to_string()));
                HandshakePhase::AwaitingInitAck
            } else {
                actions.push(ClientAction::Print(l.clone()));
                actions.push(ClientAction::StartHeartbeat);
                HandshakePhase::Streaming
            },
            PipeEvent::Timeout => {
                let mut out: Vec<char> = Vec::new();
                push_str(&mut out, "error: timed out waiting for plugin to respond ");
                push_timeout(&mut out);
                push_str(&mut out, "\nhint: is the zellij-tools plugin loaded?");
                actions.push(ClientAction::Fail { message: string_of(&out), kill: true });
                HandshakePhase::Closed
            },
            PipeEvent::Disconnected => {
                actions.push(ClientAction::Fail {
                    message: "error: plugin connection closed before responding".to_string(),
                    kill: false,
                });
                HandshakePhase::Closed
            },
        },
        HandshakePhase::AwaitingInitAck => match event {
            PipeEvent::Line(l) => if str_contains(l.as_str(), "\"InitAck\"") {
                actions.push(ClientAction::StartHeartbeat);
                HandshakePhase::Streaming
            } else if str_contains(l.as_str(), "\"InitError\"") {
                actions.push(ClientAction::Fail {
                    message: text_with("error: subscribe init rejected: ", l.as_str()),
                    kill: true,
                });
                HandshakePhase::Closed
            } else {
                actions.push(ClientAction::Fail {
                    message: text_with("error: unexpected init response from plugin: ", l.as_str()),
                    kill: true,
                });
                HandshakePhase::Closed
            },
            PipeEvent::Timeout => {
                let mut out: Vec<char> = Vec::new();
                push_str(&mut out, "error: timed out waiting for subscribe init ack ");
                push_timeout(&mut out);
                actions.push(ClientAction::Fail { message: string_of(&out), kill: true });
                HandshakePhase::Closed
            },
            PipeEvent::Disconnected => {
                actions.push(ClientAction::Fail {
                    message: "error: plugin connection closed during subscribe init".to_string(),
                    kill: false,
                });
                HandshakePhase::Closed
            },
        },
        HandshakePhase::Streaming => match event {
            PipeEvent::Line(l) => {
                if !str_contains(l.as_str(), "\"Ack\"") {
                    actions.push(ClientAction::Print(l.clone()));
                }
                HandshakePhase::Streaming
            },
            PipeEvent::Timeout => HandshakePhase::Streaming,
            PipeEvent::Disconnected => {
                actions.push(ClientAction::Finish);
                HandshakePhase::Closed
            },
        },
        HandshakePhase::Closed => HandshakePhase::Closed,
    };
    proof {
        assert(actions_view(actions@) == handshake_spec(phase, init_json@, event@).1);
    }
    (next, actions)
}

} // verus!
