//! Documents and configuration trees.
//!
//! A JSON, YAML or TOML document is read into a [`DocValue`] by its format's reader, and a
//! [`DocValue`] is what its writer prints. This module turns document values into
//! configuration trees and back: a table becomes an object of key-value nodes in table
//! order, a list an array, and every scalar a value node holding its text.
use std::collections::HashMap;
use vstd::prelude::*;
use crate::config::{ASTNode, ConfigAST, ConfigFormat, ConfigMetadata, NodeModel, NodeType, lemma_node_models, node_models};
use crate::config::manager::ParseError;
use crate::config::parser::{entry_node, new_entry, new_value, value_node};
use crate::text::str_equal;

verus! {

/// A value of a document.
#[derive(Debug)]
pub enum DocValue {
    /// The null value
    Null,
    /// A boolean
    Bool(bool),
    /// A number or a date, by its text; also any scalar text a tree is written out with,
    /// which the writer tells numbers from strings in
    Scalar(String),
    /// A string
    Text(String),
    /// A list of values
    List(Vec<DocValue>),
    /// A table of keyed values, in order
    Table(Vec<DocEntry>),
}

/// A keyed value of a table.
#[derive(Debug)]
pub struct DocEntry {
    /// The key
    pub key: String,
    /// The value
    pub value: DocValue,
}

/// The mathematical content of a [`DocValue`].
pub enum DocModel {
    Null,
    Bool(bool),
    Scalar(Seq<char>),
    Text(Seq<char>),
    List(Seq<DocModel>),
    Table(Seq<(Seq<char>, DocModel)>),
}

impl DocValue {
    /// The model of this value and, recursively, of what it holds.
    pub open spec fn model(self) -> DocModel
        decreases self,
    {
        match self {
            DocValue::Null => DocModel::Null,
            DocValue::Bool(b) => DocModel::Bool(b),
            DocValue::Scalar(s) => DocModel::Scalar(s@),
            DocValue::Text(s) => DocModel::Text(s@),
            DocValue::List(items) => DocModel::List(doc_models(items@)),
            DocValue::Table(entries) => DocModel::Table(entry_models(entries@)),
        }
    }
}

/// The models of a sequence of values.
pub open spec fn doc_models(s: Seq<DocValue>) -> Seq<DocModel>
    decreases s,
{
    if s.len() == 0 {
        Seq::empty()
    } else {
        doc_models(s.drop_last()).push(s.last().model())
    }
}

/// The models of a sequence of table entries.
pub open spec fn entry_models(s: Seq<DocEntry>) -> Seq<(Seq<char>, DocModel)>
    decreases s,
{
    if s.len() == 0 {
        Seq::empty()
    } else {
        entry_models(s.drop_last()).push((s.last().key@, s.last().value.model()))
    }
}

impl View for DocValue {
    type V = DocModel;

    open spec fn view(&self) -> DocModel {
        self.model()
    }
}

/// The models of a sequence of values line up with the values.
pub proof fn lemma_doc_models(s: Seq<DocValue>)
    ensures
        doc_models(s).len() == s.len(),
        forall|i: int| 0 <= i < s.len() ==> #[trigger] doc_models(s)[i] == s[i].model(),
    decreases s.len(),
{
    if s.len() > 0 {
        lemma_doc_models(s.drop_last());
    }
}

/// The models of a sequence of entries line up with the entries.
pub proof fn lemma_entry_models(s: Seq<DocEntry>)
    ensures
        entry_models(s).len() == s.len(),
        forall|i: int| 0 <= i < s.len() ==> #[trigger] entry_models(s)[i] == (s[i].key@, s[i].value.model()),
    decreases s.len(),
{
    if s.len() > 0 {
        lemma_entry_models(s.drop_last());
    }
}

/// The text of a boolean.
pub open spec fn bool_text(b: bool) -> Seq<char> {
    if b {
        "true"@
    } else {
        "false"@
    }
}

/// An array node holding the children.
pub open spec fn array_node(children: Seq<NodeModel>) -> NodeModel {
    NodeModel { node_type: NodeType::Array, value: None, children, metadata: Map::empty() }
}

/// An object node holding the children.
pub open spec fn object_node(children: Seq<NodeModel>) -> NodeModel {
    NodeModel { node_type: NodeType::Object, value: None, children, metadata: Map::empty() }
}

/// The configuration tree of a document value: null as the value `null`, a boolean as
/// `true` or `false`, any other scalar or string as its text, a list as an array of its items' trees
/// and a table as an object of key-value nodes, one per entry, in order.
pub open spec fn doc_node(d: DocModel) -> NodeModel
    decreases d,
{
    match d {
        DocModel::Null => value_node("null"@),
        DocModel::Bool(b) => value_node(bool_text(b)),
        DocModel::Scalar(s) => value_node(s),
        DocModel::Text(s) => value_node(s),
        DocModel::List(items) => array_node(doc_nodes(items)),
        DocModel::Table(entries) => object_node(table_nodes(entries)),
    }
}

/// The trees of the items, in order.
pub open spec fn doc_nodes(s: Seq<DocModel>) -> Seq<NodeModel>
    decreases s,
{
    if s.len() == 0 {
        Seq::empty()
    } else {
        doc_nodes(s.drop_last()).push(doc_node(s.last()))
    }
}

/// The key-value nodes of the entries, in order.
pub open spec fn table_nodes(s: Seq<(Seq<char>, DocModel)>) -> Seq<NodeModel>
    decreases s,
{
    if s.len() == 0 {
        Seq::empty()
    } else {
        table_nodes(s.drop_last()).push(entry_node(s.last().0, doc_node(s.last().1)))
    }
}

proof fn lemma_doc_nodes(s: Seq<DocModel>)
    ensures
        doc_nodes(s).len() == s.len(),
        forall|i: int| 0 <= i < s.len() ==> #[trigger] doc_nodes(s)[i] == doc_node(s[i]),
    decreases s.len(),
{
    if s.len() > 0 {
        lemma_doc_nodes(s.drop_last());
    }
}

proof fn lemma_table_nodes(s: Seq<(Seq<char>, DocModel)>)
    ensures
        table_nodes(s).len() == s.len(),
        forall|i: int| 0 <= i < s.len() ==> #[trigger] table_nodes(s)[i] == entry_node(s[i].0, doc_node(s[i].1)),
    decreases s.len(),
{
    if s.len() > 0 {
        lemma_table_nodes(s.drop_last());
    }
}

/// The configuration tree of a document value.
pub fn doc_to_node(d: &DocValue) -> (n: ASTNode)
    ensures
        n@ == doc_node(d@),
    decreases d,
{
    match d {
        DocValue::Null => new_value("null"),
        DocValue::Bool(b) => if *b {
            new_value("true")
        } else {
            new_value("false")
        },
        DocValue::Scalar(s) => new_value(s.as_str()),
        DocValue::Text(s) => new_value(s.as_str()),
        DocValue::List(items) => {
            let mut children: Vec<ASTNode> = Vec::new();
            let mut i: usize = 0;
            proof {
                lemma_doc_models(items@);
                lemma_doc_nodes(doc_models(items@));
            }
            while i < items.len()
                invariant
                    *d == DocValue::List(*items),
                    i <= items@.len(),
                    children@.len() == i,
                    forall|k: int| 0 <= k < i ==> #[trigger] children@[k]@ == doc_node(items@[k]@),
                decreases items@.len() - i,
            {
                proof {
                    assert(decreases_to!(*d => (*d)->List_0));
                    assert(decreases_to!(*items => items@));
                    assert(decreases_to!(items@ => items@[i as int]));
                }
                let c = doc_to_node(&items[i]);
                children.push(c);
                i = i + 1;
            }
            proof {
                lemma_node_models(children@);
                let dm = doc_models(items@);
                assert forall|k: int| 0 <= k < dm.len() implies #[trigger] node_models(children@)[k]
                    == doc_nodes(dm)[k] by {
                    assert(dm[k] == items@[k]@);
                    assert(node_models(children@)[k] == children@[k]@);
                }
                assert(node_models(children@) =~= doc_nodes(dm));
            }
            ASTNode { node_type: NodeType::Array, value: None, children, metadata: HashMap::new() }
        },
        DocValue::Table(entries) => {
            let mut children: Vec<ASTNode> = Vec::new();
            let mut i: usize = 0;
            proof {
                lemma_entry_models(entries@);
                lemma_table_nodes(entry_models(entries@));
            }
            while i < entries.len()
                invariant
                    *d == DocValue::Table(*entries),
                    i <= entries@.len(),
                    children@.len() == i,
                    forall|k: int|
                        0 <= k < i ==> #[trigger] children@[k]@ == entry_node(
                            entries@[k].key@,
                            doc_node(entries@[k].value@),
                        ),
                decreases entries@.len() - i,
            {
                proof {
                    assert(decreases_to!(*d => (*d)->Table_0));
                    assert(decreases_to!(*entries => entries@));
                    assert(decreases_to!(entries@ => entries@[i as int]));
                    assert(decreases_to!(entries@[i as int] => entries@[i as int].value));
                }
                let v = doc_to_node(&entries[i].value);
                let c = new_entry(entries[i].key.as_str(), v);
                children.push(c);
                i = i + 1;
            }
            proof {
                lemma_node_models(children@);
                let em = entry_models(entries@);
                assert forall|k: int| 0 <= k < em.len() implies #[trigger] node_models(children@)[k]
                    == table_nodes(em)[k] by {
                    assert(em[k] == (entries@[k].key@, entries@[k].value@));
                    assert(node_models(children@)[k] == children@[k]@);
                }
                assert(node_models(children@) =~= table_nodes(em));
            }
            ASTNode { node_type: NodeType::Object, value: None, children, metadata: HashMap::new() }
        },
    }
}

/// The writer a configuration tree is turned into a document value for.
#[derive(Debug, Clone, Copy, PartialEq, Eq, Structural)]
pub enum DocStyle {
    /// JSON
    Json,
    /// YAML
    Yaml,
    /// TOML
    Toml,
}

/// The document value of a value node's text: `null` as null (but in TOML, which has
/// none), `true` and `false` as booleans, any other text as a scalar; a value node without
/// text is null, or the empty scalar in TOML.
pub open spec fn value_doc(v: Option<Seq<char>>, style: DocStyle) -> DocModel {
    match v {
        None => if style == DocStyle::Toml {
            DocModel::Scalar(Seq::empty())
        } else {
            DocModel::Null
        },
        Some(t) => if t == "null"@ && style != DocStyle::Toml {
            DocModel::Null
        } else if t == "true"@ {
            DocModel::Bool(true)
        } else if t == "false"@ {
            DocModel::Bool(false)
        } else {
            DocModel::Scalar(t)
        },
    }
}

/// An object's child is written as a table entry: it has a key with text and a value (and,
/// but for TOML, is a key-value node).
pub open spec fn keeps_entry(kv: NodeModel, style: DocStyle) -> bool {
    &&& style == DocStyle::Toml || kv.node_type == NodeType::KeyValue
    &&& kv.children.len() == 2
    &&& kv.children[0].value is Some
}

/// The document value of a configuration tree: an object as a table of its written entries
/// in order, an array as a list, a value node by [`value_doc`]; any other node is, in JSON,
/// the value of its first child (null when it has none), in YAML null, and in TOML the
/// empty scalar.
pub open spec fn node_doc(n: NodeModel, style: DocStyle) -> DocModel
    decreases n,
{
    match n.node_type {
        NodeType::Object => DocModel::Table(table_docs(n.children, style)),
        NodeType::Array => DocModel::List(node_docs(n.children, style)),
        NodeType::Value => value_doc(n.value, style),
        _ => match style {
            DocStyle::Json => if n.children.len() > 0 {
                node_doc(n.children[0], style)
            } else {
                DocModel::Null
            },
            DocStyle::Yaml => DocModel::Null,
            DocStyle::Toml => DocModel::Scalar(Seq::empty()),
        },
    }
}

/// The document values of the nodes, in order.
pub open spec fn node_docs(s: Seq<NodeModel>, style: DocStyle) -> Seq<DocModel>
    decreases s,
{
    if s.len() == 0 {
        Seq::empty()
    } else {
        node_docs(s.drop_last(), style).push(node_doc(s.last(), style))
    }
}

/// The table entries of an object's children: each written child's key with its value's
/// document value, in order.
pub open spec fn table_docs(s: Seq<NodeModel>, style: DocStyle) -> Seq<(Seq<char>, DocModel)>
    decreases s,
{
    if s.len() == 0 {
        Seq::empty()
    } else {
        let prev = table_docs(s.drop_last(), style);
        let kv = s.last();
        if keeps_entry(kv, style) {
            prev.push((kv.children[0].value->0, node_doc(kv.children[1], style)))
        } else {
            prev
        }
    }
}

proof fn lemma_node_docs(s: Seq<NodeModel>, style: DocStyle)
    ensures
        node_docs(s, style).len() == s.len(),
        forall|i: int| 0 <= i < s.len() ==> #[trigger] node_docs(s, style)[i] == node_doc(s[i], style),
    decreases s.len(),
{
    if s.len() > 0 {
        lemma_node_docs(s.drop_last(), style);
    }
}

/// The document value of a value node.
fn value_to_doc(v: &Option<String>, style: DocStyle) -> (d: DocValue)
    ensures
        d@ == value_doc(crate::config::opt_chars(*v), style),
{
    match v {
        None => if style == DocStyle::Toml {
            DocValue::Scalar(String::new())
        } else {
            DocValue::Null
        },
        Some(t) => if str_equal(t.as_str(), "null") && style != DocStyle::Toml {
            DocValue::Null
        } else if str_equal(t.as_str(), "true") {
            DocValue::Bool(true)
        } else if str_equal(t.as_str(), "false") {
            DocValue::Bool(false)
        } else {
            DocValue::Scalar(t.clone())
        },
    }
}

/// The document value of a configuration tree, for the writer of the style.
pub fn node_to_doc(n: &ASTNode, style: DocStyle) -> (d: DocValue)
    ensures
        d@ == node_doc(n@, style),
    decreases n,
{
    proof {
        lemma_node_models(n.children@);
    }
    match n.node_type {
        NodeType::Object => {
            let ghost cs = n@.children;
            let mut out: Vec<DocEntry> = Vec::new();
            let mut i: usize = 0;
            while i < n.children.len()
                invariant
                    n.node_type == NodeType::Object,
                    i <= n.children@.len(),
                    cs == n@.children,
                    cs.len() == n.children@.len(),
                    forall|k: int| 0 <= k < cs.len() ==> #[trigger] cs[k] == n.children@[k]@,
                    entry_models(out@) == table_docs(cs.take(i as int), style),
                decreases n.children@.len() - i,
            {
                let kv = &n.children[i];
                assert(cs.take(i + 1).drop_last() =~= cs.take(i as int));
                assert(cs.take(i + 1).last() == kv@);
                proof {
                    lemma_node_models(kv.children@);
                }
                let keep = (style == DocStyle::Toml || kv.node_type == NodeType::KeyValue) && kv.children.len() == 2
                    && kv.children[0].value.is_some();
                if keep {
                    let key = match &kv.children[0].value {
                        Some(k) => k.clone(),
                        None => String::new(),
                    };
                    proof {
                        assert(decreases_to!(*n => n.children));
                        assert(decreases_to!(n.children => n.children@));
                        assert(decreases_to!(n.children@ => n.children@[i as int]));
                        assert(decreases_to!(n.children@[i as int] => n.children@[i as int].children));
                        assert(decreases_to!(n.children@[i as int].children => n.children@[i as int].children@));
                        assert(decreases_to!(n.children@[i as int].children@ => n.children@[i as int].children@[1]));
                    }
                    let value = node_to_doc(&kv.children[1], style);
                    let ghost before = entry_models(out@);
                    let ghost prev_out = out@;
                    out.push(DocEntry { key, value });
                    proof {
                        assert(out@.drop_last() =~= prev_out);
                        assert(entry_models(out@) =~= before.push((kv@.children[0].value->0, node_doc(kv@.children[1], style))));
                    }
                }
                i = i + 1;
            }
            assert(cs.take(n.children@.len() as int) =~= cs);
            DocValue::Table(out)
        },
        NodeType::Array => {
            let mut out: Vec<DocValue> = Vec::new();
            let mut i: usize = 0;
            while i < n.children.len()
                invariant
                    n.node_type == NodeType::Array,
                    i <= n.children@.len(),
                    out@.len() == i,
                    forall|k: int| 0 <= k < i ==> #[trigger] out@[k]@ == node_doc(n.children@[k]@, style),
                decreases n.children@.len() - i,
            {
                proof {
                    assert(decreases_to!(*n => n.children));
                    assert(decreases_to!(n.children => n.children@));
                    assert(decreases_to!(n.children@ => n.children@[i as int]));
                }
                let d = node_to_doc(&n.children[i], style);
                out.push(d);
                i = i + 1;
            }
            proof {
                lemma_doc_models(out@);
                lemma_node_docs(n@.children, style);
                assert forall|k: int| 0 <= k < out@.len() implies #[trigger] doc_models(out@)[k] == node_docs(
                    n@.children,
                    style,
                )[k] by {
                    assert(n@.children == node_models(n.children@));
                    assert(n@.children[k] == n.children@[k]@);
                    assert(doc_models(out@)[k] == out@[k]@);
                    assert(out@[k]@ == node_doc(n.children@[k]@, style));
                }
                assert(doc_models(out@) =~= node_docs(n@.children, style));
            }
            DocValue::List(out)
        },
        NodeType::Value => value_to_doc(&n.value, style),
        _ => match style {
            DocStyle::Json => if n.children.len() > 0 {
                proof {
                    assert(decreases_to!(*n => n.children));
                    assert(decreases_to!(n.children => n.children@));
                    assert(decreases_to!(n.children@ => n.children@[0]));
                }
                node_to_doc(&n.children[0], style)
            } else {
                DocValue::Null
            },
            DocStyle::Yaml => DocValue::Null,
            DocStyle::Toml => DocValue::Scalar(String::new()),
        },
    }
}

/// The document holds nothing that a writer of the style would read back as something
/// else: no scalar whose text is `true` or `false`, or `null` outside TOML, and no null in
/// TOML.
pub open spec fn plain_doc(d: DocModel, style: DocStyle) -> bool
    decreases d,
{
    match d {
        DocModel::Null => style != DocStyle::Toml,
        DocModel::Bool(_) => true,
        DocModel::Scalar(t) => t != "true"@ && t != "false"@ && (t != "null"@ || style == DocStyle::Toml),
        DocModel::Text(t) => t != "true"@ && t != "false"@ && (t != "null"@ || style == DocStyle::Toml),
        DocModel::List(items) => plain_docs(items, style),
        DocModel::Table(entries) => plain_entries(entries, style),
    }
}

/// Every item is plain.
pub open spec fn plain_docs(s: Seq<DocModel>, style: DocStyle) -> bool
    decreases s,
{
    s.len() == 0 || (plain_docs(s.drop_last(), style) && plain_doc(s.last(), style))
}

/// Every entry's value is plain.
pub open spec fn plain_entries(s: Seq<(Seq<char>, DocModel)>, style: DocStyle) -> bool
    decreases s,
{
    s.len() == 0 || (plain_entries(s.drop_last(), style) && plain_doc(s.last().1, style))
}

/// The document as a writer is given it back from its tree: every string as scalar text,
/// which the writer tells numbers from strings in.
pub open spec fn as_written(d: DocModel) -> DocModel
    decreases d,
{
    match d {
        DocModel::Text(t) => DocModel::Scalar(t),
        DocModel::List(items) => DocModel::List(as_written_items(items)),
        DocModel::Table(entries) => DocModel::Table(as_written_entries(entries)),
        _ => d,
    }
}

/// Every item as written.
pub open spec fn as_written_items(s: Seq<DocModel>) -> Seq<DocModel>
    decreases s,
{
    if s.len() == 0 {
        Seq::empty()
    } else {
        as_written_items(s.drop_last()).push(as_written(s.last()))
    }
}

/// Every entry's value as written.
pub open spec fn as_written_entries(s: Seq<(Seq<char>, DocModel)>) -> Seq<(Seq<char>, DocModel)>
    decreases s,
{
    if s.len() == 0 {
        Seq::empty()
    } else {
        as_written_entries(s.drop_last()).push((s.last().0, as_written(s.last().1)))
    }
}

/// Writing out the configuration tree of a document gives the document back, in every
/// style, with strings as scalar text, unless it holds text that the writer reads as null or
/// a boolean (or, in TOML, a null, which TOML cannot hold).
pub proof fn law_tree_round_trip(d: DocModel, style: DocStyle)
    requires
        plain_doc(d, style),
    ensures
        node_doc(doc_node(d), style) == as_written(d),
    decreases d,
{
    match d {
        DocModel::List(items) => {
            lemma_items_round_trip(items, style);
        },
        DocModel::Table(entries) => {
            lemma_entries_round_trip(entries, style);
        },
        _ => {
            reveal_strlit("null");
            reveal_strlit("true");
            reveal_strlit("false");
            assert("true"@ != "null"@ && "false"@ != "null"@ && "false"@ != "true"@) by {
                assert("true"@[0] != "null"@[0]);
                assert("false"@.len() != "null"@.len());
            }
        },
    }
}

proof fn lemma_items_round_trip(s: Seq<DocModel>, style: DocStyle)
    requires
        plain_docs(s, style),
    ensures
        node_docs(doc_nodes(s), style) == as_written_items(s),
    decreases s,
{
    if s.len() > 0 {
        lemma_items_round_trip(s.drop_last(), style);
        law_tree_round_trip(s.last(), style);
        let n = doc_nodes(s);
        assert(n.drop_last() =~= doc_nodes(s.drop_last()));
        assert(node_docs(n, style) =~= as_written_items(s));
    }
}

proof fn lemma_entries_round_trip(s: Seq<(Seq<char>, DocModel)>, style: DocStyle)
    requires
        plain_entries(s, style),
    ensures
        table_docs(table_nodes(s), style) == as_written_entries(s),
    decreases s,
{
    if s.len() > 0 {
        lemma_entries_round_trip(s.drop_last(), style);
        law_tree_round_trip(s.last().1, style);
        let n = table_nodes(s);
        assert(n.drop_last() =~= table_nodes(s.drop_last()));
        assert(keeps_entry(n.last(), style));
        assert(table_docs(n, style) =~= as_written_entries(s));
    }
}

/// A YAML value from `serde_yaml`, read only to turn it into a document value.
#[verifier::external_type_specification]
#[verifier::external_body]
pub struct ExYamlValue(serde_yaml::Value);

/// A TOML value from `toml`, read only to turn it into a document value.
#[verifier::external_type_specification]
#[verifier::external_body]
pub struct ExTomlValue(toml::Value);

/// The document `serde_json::from_str` reads from the text, as a document value: null,
/// booleans, numbers by their text, strings as text, arrays as lists and objects as tables
/// with their keys in sorted order (as `serde_json`'s map keeps them), a repeated key holding
/// its last value. `None` when the text is not JSON.
pub uninterp spec fn json_document(text: Seq<char>) -> Option<DocModel>;

/// The document `serde_yaml::from_str` reads from the text, as a document value: null,
/// booleans, numbers by their text, strings as text, sequences as lists and mappings as
/// tables in mapping order (a key that is not a string by its debug text, a tagged value as
/// a scalar of its debug text). `None` when the text is not YAML.
pub uninterp spec fn yaml_document(text: Seq<char>) -> Option<DocModel>;

/// The document `toml::from_str` reads from the text, as a document value: booleans, strings
/// as text, integers and dates by their text, floats by Rust's text for the number (`1` for
/// `1.0`, `NaN` for `nan`), arrays as lists and tables in key order. `None` when the text is
/// not TOML.
pub uninterp spec fn toml_document(text: Seq<char>) -> Option<DocModel>;

/// A `serde_json::Value` as a document value, variant by variant.
#[verifier::external_body]
fn json_value_doc(v: &serde_json::Value) -> DocValue {
    match v {
        serde_json::Value::Null => DocValue::Null,
        serde_json::Value::Bool(b) => DocValue::Bool(*b),
        serde_json::Value::Number(n) => DocValue::Scalar(n.to_string()),
        serde_json::Value::String(t) => DocValue::Text(t.clone()),
        serde_json::Value::Array(a) => DocValue::List(a.iter().map(json_value_doc).collect()),
        serde_json::Value::Object(m) => DocValue::Table(
            m.iter().map(|(k, x)| DocEntry { key: k.clone(), value: json_value_doc(x) }).collect(),
        ),
    }
}

/// A `serde_yaml::Value` as a document value, variant by variant.
#[verifier::external_body]
fn yaml_value_doc(v: &serde_yaml::Value) -> DocValue {
    match v {
        serde_yaml::Value::Null => DocValue::Null,
        serde_yaml::Value::Bool(b) => DocValue::Bool(*b),
        serde_yaml::Value::Number(n) => DocValue::Scalar(n.to_string()),
        serde_yaml::Value::String(t) => DocValue::Text(t.clone()),
        serde_yaml::Value::Sequence(a) => DocValue::List(a.iter().map(yaml_value_doc).collect()),
        serde_yaml::Value::Mapping(m) => DocValue::Table(
            m.iter().map(|(k, x)| DocEntry { key: k.as_str().map_or_else(|| format!("{k:?}"), String::from), value: yaml_value_doc(x) }).collect(),
        ),
        serde_yaml::Value::Tagged(_) => DocValue::Scalar(format!("{v:?}")),
    }
}

/// A `toml::Value` as a document value, variant by variant.
#[verifier::external_body]
fn toml_value_doc(v: &toml::Value) -> DocValue {
    match v {
        toml::Value::Boolean(b) => DocValue::Bool(*b),
        toml::Value::String(t) => DocValue::Text(t.clone()),
        toml::Value::Array(a) => DocValue::List(a.iter().map(toml_value_doc).collect()),
        toml::Value::Table(m) => DocValue::Table(
            m.iter().map(|(k, x)| DocEntry { key: k.clone(), value: toml_value_doc(x) }).collect(),
        ),
        toml::Value::Integer(i) => DocValue::Scalar(i.to_string()),
        toml::Value::Float(x) => DocValue::Scalar(x.to_string()),
        toml::Value::Datetime(d) => DocValue::Scalar(d.to_string()),
    }
}

/// `serde_json::from_str::<serde_json::Value>` on the text, the value turned into a document
/// value. Claimed: the document is the named one of the text, and an error comes exactly when
/// the name gives none; the error's message is `serde_json`'s and is not stated.
#[verifier::external_body]
pub(crate) fn read_json_document(text: &str) -> (r: Result<DocValue, String>)
    ensures
        match r {
            Ok(d) => json_document(text@) == Some(d@),
            Err(_) => json_document(text@) is None,
        },
{
    match serde_json::from_str::<serde_json::Value>(text) {
        Ok(v) => Ok(json_value_doc(&v)),
        Err(e) => Err(e.to_string()),
    }
}

/// `serde_yaml::from_str::<serde_yaml::Value>` on the text, the value turned into a document
/// value. Claimed: the document is the named one of the text, and an error comes exactly when
/// the name gives none; the error's message is `serde_yaml`'s and is not stated.
#[verifier::external_body]
pub(crate) fn read_yaml_document(text: &str) -> (r: Result<DocValue, String>)
    ensures
        match r {
            Ok(d) => yaml_document(text@) == Some(d@),
            Err(_) => yaml_document(text@) is None,
        },
{
    match serde_yaml::from_str::<serde_yaml::Value>(text) {
        Ok(v) => Ok(yaml_value_doc(&v)),
        Err(e) => Err(e.to_string()),
    }
}

/// `toml::from_str::<toml::Value>` on the text, the value turned into a document value.
/// Claimed: the document is the named one of the text, and an error comes exactly when the
/// name gives none; the error's message is `toml`'s and is not stated.
#[verifier::external_body]
pub(crate) fn read_toml_document(text: &str) -> (r: Result<DocValue, String>)
    ensures
        match r {
            Ok(d) => toml_document(text@) == Some(d@),
            Err(_) => toml_document(text@) is None,
        },
{
    match toml::from_str::<toml::Value>(text) {
        Ok(v) => Ok(toml_value_doc(&v)),
        Err(e) => Err(e.to_string()),
    }
}

/// The configuration tree of a JSON text; invalid JSON is an error.
pub fn parse_json_tree(content: &str) -> (r: Result<ASTNode, ParseError>)
    ensures
        match json_document(content@) {
            Some(d) => r matches Ok(n) && n@ == doc_node(d),
            None => r matches Err(ParseError::InvalidJson(_)),
        },
{
    match read_json_document(content) {
        Ok(d) => Ok(doc_to_node(&d)),
        Err(e) => Err(ParseError::InvalidJson(e)),
    }
}

/// The configuration tree of a YAML text; invalid YAML is an error.
pub fn parse_yaml_tree(content: &str) -> (r: Result<ASTNode, ParseError>)
    ensures
        match yaml_document(content@) {
            Some(d) => r matches Ok(n) && n@ == doc_node(d),
            None => r matches Err(ParseError::InvalidYaml(_)),
        },
{
    match read_yaml_document(content) {
        Ok(d) => Ok(doc_to_node(&d)),
        Err(e) => Err(ParseError::InvalidYaml(e)),
    }
}

/// The configuration tree of a TOML text; invalid TOML is an error.
pub fn parse_toml_tree(content: &str) -> (r: Result<ASTNode, ParseError>)
    ensures
        match toml_document(content@) {
            Some(d) => r matches Ok(n) && n@ == doc_node(d),
            None => r matches Err(ParseError::InvalidToml(_)),
        },
{
    match read_toml_document(content) {
        Ok(d) => Ok(doc_to_node(&d)),
        Err(e) => Err(ParseError::InvalidToml(e)),
    }
}

/// The tree a document of the format reads as: YAML, TOML and JSON by their readers; INI
/// and other formats as one value holding the whole text.
pub open spec fn document_tree(format: ConfigFormat, content: Seq<char>) -> Option<NodeModel> {
    match format {
        ConfigFormat::Json => match json_document(content) {
            Some(d) => Some(doc_node(d)),
            None => None,
        },
        ConfigFormat::Yaml => match yaml_document(content) {
            Some(d) => Some(doc_node(d)),
            None => None,
        },
        ConfigFormat::Toml => match toml_document(content) {
            Some(d) => Some(doc_node(d)),
            None => None,
        },
        _ => Some(value_node(content)),
    }
}

/// Reads a whole document of the format into a tree; the error names the format that failed.
pub fn read_document(format: &ConfigFormat, content: &str) -> (r: Result<ASTNode, ParseError>)
    ensures
        match document_tree(*format, content@) {
            Some(n) => r matches Ok(t) && t@ == n,
            None => match *format {
                ConfigFormat::Json => r matches Err(ParseError::InvalidJson(_)),
                ConfigFormat::Yaml => r matches Err(ParseError::InvalidYaml(_)),
                _ => r matches Err(ParseError::InvalidToml(_)),
            },
        },
{
    match format {
        ConfigFormat::Json => parse_json_tree(content),
        ConfigFormat::Yaml => parse_yaml_tree(content),
        ConfigFormat::Toml => parse_toml_tree(content),
        _ => Ok(new_value(content)),
    }
}

/// Parses a configuration text: YAML as YAML, any other format as JSON; the configuration
/// carries the format it was read as, no file path, no modification time and no backups.
pub fn parse_config(format: &ConfigFormat, content: &str) -> (r: Result<ConfigAST, ParseError>)
    ensures
        match *format {
            ConfigFormat::Yaml => match yaml_document(content@) {
                Some(d) => r matches Ok(a) && a.root@ == doc_node(d) && a.format == ConfigFormat::Yaml
                    && a.metadata.format == ConfigFormat::Yaml,
                None => r matches Err(ParseError::InvalidYaml(_)),
            },
            _ => match json_document(content@) {
                Some(d) => r matches Ok(a) && a.root@ == doc_node(d) && a.format == ConfigFormat::Json
                    && a.metadata.format == ConfigFormat::Json,
                None => r matches Err(ParseError::InvalidJson(_)),
            },
        },
        r matches Ok(a) ==> a.metadata.file_path@.len() == 0 && a.metadata.last_modified is None
            && a.metadata.backup_count == 0,
{
    let (root, f) = match format {
        ConfigFormat::Yaml => (parse_yaml_tree(content), ConfigFormat::Yaml),
        _ => (parse_json_tree(content), ConfigFormat::Json),
    };
    match root {
        Ok(root) => {
            let g = match f {
                ConfigFormat::Yaml => ConfigFormat::Yaml,
                _ => ConfigFormat::Json,
            };
            Ok(
                ConfigAST {
                    format: f,
                    root,
                    metadata: ConfigMetadata { format: g, file_path: String::new(), last_modified: None, backup_count: 0 },
                },
            )
        },
        Err(e) => Err(e),
    }
}

/// The value of the first entry of the entries under the key, from position `i` on.
pub open spec fn first_entry(es: Seq<(Seq<char>, DocModel)>, key: Seq<char>, i: int) -> Option<DocModel>
    decreases es.len() - i,
{
    if i < 0 || i >= es.len() {
        None
    } else if es[i].0 == key {
        Some(es[i].1)
    } else {
        first_entry(es, key, i + 1)
    }
}

/// The string a table holds under the key, as `Value::get` and `Value::as_str` give it:
/// none when the document is not a table, has no such key or holds no string there.
pub open spec fn doc_text_field(d: DocModel, key: Seq<char>) -> Option<Seq<char>> {
    match d {
        DocModel::Table(es) => match first_entry(es, key, 0) {
            Some(DocModel::Text(t)) => Some(t),
            _ => None,
        },
        _ => None,
    }
}

/// The string a table holds under the key, if any.
pub fn text_field(d: &DocValue, key: &str) -> (r: Option<String>)
    ensures
        crate::config::opt_chars(r) == doc_text_field(d@, key@),
{
    match d {
        DocValue::Table(entries) => {
            let ghost em = entry_models(entries@);
            proof {
                lemma_entry_models(entries@);
            }
            let mut i: usize = 0;
            while i < entries.len()
                invariant
                    i <= entries@.len(),
                    em == entry_models(entries@),
                    em.len() == entries@.len(),
                    forall|t: int| 0 <= t < entries@.len() ==> #[trigger] em[t] == (entries@[t].key@, entries@[t].value@),
                    first_entry(em, key@, 0) == first_entry(em, key@, i as int),
                d@ == DocModel::Table(em),
                decreases entries@.len() - i,
            {
                assert(em[i as int] == (entries@[i as int].key@, entries@[i as int].value@));
                if str_equal(entries[i].key.as_str(), key) {
                    return match &entries[i].value {
                        DocValue::Text(t) => Some(t.clone()),
                        _ => None,
                    };
                }
                i = i + 1;
            }
            None
        },
        _ => None,
    }
}

} // verus!
