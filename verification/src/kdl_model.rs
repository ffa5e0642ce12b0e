//! The parts of a KDL document that the configuration readers look at, as
//! plain values, and the call into the `kdl` crate that produces them.

use vstd::prelude::*;
use crate::text::{chars_of, str_equals};

verus! {

/// The value of a KDL entry, reduced to what the readers distinguish.
pub enum Scalar {
    /// A string or raw string.
    Text(String),
    /// A binary, octal, decimal or hexadecimal integer.
    Integer(i64),
    Boolean(bool),
    /// A float or `null`.
    Other,
}

/// A positional argument or a property of a node.
pub struct Entry {
    /// Whether the entry is a property (`key=value`).
    pub named: bool,
    /// Whether the entry carries a type annotation.
    pub typed: bool,
    pub value: Scalar,
}

/// A KDL node with its entries and optional child block.
pub struct Node {
    pub name: String,
    /// Whether the node carries a type annotation.
    pub typed: bool,
    pub entries: Vec<Entry>,
    pub children: Option<Vec<Node>>,
}

/// What the `kdl` crate parses from a text: the top-level nodes, or the
/// rendered parse error.
pub uninterp spec fn kdl_parse_result(text: Seq<char>) -> Result<Vec<Node>, Seq<char>>;

#[verifier::external_type_specification]
#[verifier::external_body]
pub struct ExKdlNode(kdl::KdlNode);

#[verifier::external_type_specification]
#[verifier::external_body]
pub struct ExKdlEntry(kdl::KdlEntry);

/// Parses `text` with `kdl::KdlDocument::from_str` and converts the document
/// into plain values. The contract only names the result; what the `kdl`
/// crate accepts and how it renders errors is not stated.
#[verifier::external_body]
pub(crate) fn parse_kdl(text: &str) -> (r: Result<Vec<Node>, String>)
    ensures
        match r {
            Ok(nodes) => kdl_parse_result(text@) == Ok::<Vec<Node>, Seq<char>>(nodes),
            Err(e) => kdl_parse_result(text@) == Err::<Vec<Node>, Seq<char>>(e@),
        },
{
    match text.parse::<kdl::KdlDocument>() {
        Ok(doc) => Ok(convert_nodes(doc.nodes())),
        Err(err) => Err(err.to_string()),
    }
}

/// Converts `kdl` nodes into plain values, one for one.
#[verifier::external_body]
fn convert_nodes(nodes: &[kdl::KdlNode]) -> Vec<Node> {
    nodes.iter().map(convert_node).collect()
}

/// Converts one `kdl` node into plain values.
#[verifier::external_body]
fn convert_node(node: &kdl::KdlNode) -> Node {
    Node {
        name: node.name().value().to_string(),
        typed: node.ty().is_some(),
        entries: node.entries().iter().map(convert_entry).collect(),
        children: node.children().map(|doc| convert_nodes(doc.nodes())),
    }
}

/// Converts one `kdl` entry into plain values.
#[verifier::external_body]
fn convert_entry(entry: &kdl::KdlEntry) -> Entry {
    let value = match entry.value() {
        kdl::KdlValue::String(s) | kdl::KdlValue::RawString(s) => Scalar::Text(s.clone()),
        kdl::KdlValue::Base2(i) | kdl::KdlValue::Base8(i) => Scalar::Integer(*i),
        kdl::KdlValue::Base10(i) | kdl::KdlValue::Base16(i) => Scalar::Integer(*i),
        kdl::KdlValue::Bool(b) => Scalar::Boolean(*b),
        _ => Scalar::Other,
    };
    Entry { named: entry.name().is_some(), typed: entry.ty().is_some(), value }
}

/// The first node named `name`, as `KdlDocument::get` finds it.
pub open spec fn get_node(nodes: Seq<Node>, name: Seq<char>) -> Option<Node>
    decreases nodes.len(),
{
    if nodes.len() == 0 {
        None
    } else if nodes[0].name@ == name {
        Some(nodes[0])
    } else {
        get_node(nodes.drop_first(), name)
    }
}

/// The text of an entry, if it is a string (`KdlValue::as_string`).
pub open spec fn entry_text(e: Entry) -> Option<Seq<char>> {
    match e.value {
        Scalar::Text(s) => Some(s@),
        _ => None,
    }
}

/// The text of the first entry of the first child named `key`, if it is a string.
pub open spec fn string_child(children: Option<Seq<Node>>, key: Seq<char>) -> Option<Seq<char>> {
    match children {
        None => None,
        Some(nodes) => match get_node(nodes, key) {
            None => None,
            Some(n) => if n.entries@.len() == 0 { None } else { entry_text(n.entries@[0]) },
        },
    }
}

/// The string entries of a node, in order, skipping entries of other kinds.
pub open spec fn string_entries(entries: Seq<Entry>) -> Seq<Seq<char>>
    decreases entries.len(),
{
    if entries.len() == 0 {
        Seq::empty()
    } else {
        let rest = string_entries(entries.drop_first());
        match entry_text(entries[0]) {
            Some(s) => seq![s] + rest,
            None => rest,
        }
    }
}

/// The view of optional child nodes.
pub open spec fn children_view(c: &Option<Vec<Node>>) -> Option<Seq<Node>> {
    match c {
        Some(v) => Some(v@),
        None => None,
    }
}

/// Find the index of the first node named `name`.
pub fn find_node(nodes: &Vec<Node>, name: &str) -> (r: Option<usize>)
    ensures
        match r {
            Some(i) => i < nodes@.len() && get_node(nodes@, name@) == Some(nodes@[i as int]),
            None => get_node(nodes@, name@).is_none(),
        },
{
    let mut i: usize = 0;
    assert(nodes@.subrange(0, nodes@.len() as int) == nodes@);
    while i < nodes.len()
        invariant
            i <= nodes@.len(),
            get_node(nodes@, name@) == get_node(nodes@.subrange(i as int, nodes@.len() as int), name@),
        decreases nodes.len() - i,
    {
        let ghost rest = nodes@.subrange(i as int, nodes@.len() as int);
        assert(rest[0] == nodes@[i as int]);
        assert(rest.drop_first() == nodes@.subrange(i + 1, nodes@.len() as int));
        if str_equals(nodes[i].name.as_str(), name) {
            return Some(i);
        }
        i = i + 1;
    }
    None
}

/// Copy of the text of an entry, if it is a string.
pub fn entry_string(e: &Entry) -> (r: Option<String>)
    ensures
        match r {
            Some(s) => entry_text(*e) == Some(s@),
            None => entry_text(*e).is_none(),
        },
{
    match &e.value {
        Scalar::Text(s) => Some(s.clone()),
        _ => None,
    }
}

/// The text of the first entry of the first child named `key`, if it is a string.
pub fn parse_string_child(children: &Option<Vec<Node>>, key: &str) -> (r: Option<String>)
    ensures
        match r {
            Some(s) => string_child(children_view(children), key@) == Some(s@),
            None => string_child(children_view(children), key@).is_none(),
        },
{
    match children {
        None => None,
        Some(nodes) => match find_node(nodes, key) {
            None => None,
            Some(i) => {
                if nodes[i].entries.len() == 0 {
                    None
                } else {
                    entry_string(&nodes[i].entries[0])
                }
            },
        },
    }
}

/// The string entries of a node, in order.
pub fn collect_string_entries(entries: &Vec<Entry>) -> (r: Vec<String>)
    ensures
        r@.len() == string_entries(entries@).len(),
        forall|k: int| 0 <= k < r@.len() ==> #[trigger] r@[k]@ == string_entries(entries@)[k],
{
    let mut r: Vec<String> = Vec::new();
    let mut i: usize = entries.len();
    let mut out: Vec<String> = Vec::new();
    // Walk backwards so each step prepends, matching the recursive definition.
    let ghost mut acc: Seq<Seq<char>> = Seq::empty();
    while i > 0
        invariant
            i <= entries@.len(),
            acc == string_entries(entries@.subrange(i as int, entries@.len() as int)),
            out@.len() == acc.len(),
            forall|k: int| 0 <= k < out@.len() ==> #[trigger] out@[k]@ == acc[acc.len() - 1 - k],
        decreases i,
    {
        i = i - 1;
        let ghost sub = entries@.subrange(i as int, entries@.len() as int);
        assert(sub.drop_first() == entries@.subrange(i + 1, entries@.len() as int));
        assert(sub[0] == entries@[i as int]);
        match entry_string(&entries[i]) {
            Some(s) => {
                proof { acc = seq![s@] + acc; }
                out.push(s);
            },
            None => {},
        }
    }
    assert(entries@.subrange(0, entries@.len() as int) == entries@);
    let mut j: usize = out.len();
    while j > 0
        invariant
            j <= out@.len(),
            out@.len() == acc.len(),
            forall|k: int| 0 <= k < out@.len() ==> #[trigger] out@[k]@ == acc[acc.len() - 1 - k],
            r@.len() == out@.len() - j,
            forall|k: int| 0 <= k < r@.len() ==> #[trigger] r@[k]@ == acc[k],
        decreases j,
    {
        j = j - 1;
        r.push(out[j].clone());
    }
    r
}

} // verus!
