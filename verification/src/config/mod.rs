//! Configuration trees and structural operations on them.
pub mod backup;
pub mod conflict_resolution;
pub mod diff;
pub mod document;
pub mod manager;
pub mod parser;

use std::collections::HashMap;
use vstd::prelude::*;

verus! {

/// Configuration format types.
#[derive(Debug, Clone, PartialEq, Eq)]
pub enum ConfigFormat {
    /// JSON configuration
    Json,
    /// YAML configuration
    Yaml,
    /// TOML configuration
    Toml,
    /// INI configuration
    Ini,
    /// Any other format, by name
    Custom(String),
}

/// The mathematical content of a [`ConfigFormat`].
pub enum FormatModel {
    Json,
    Yaml,
    Toml,
    Ini,
    Custom(Seq<char>),
}

impl View for ConfigFormat {
    type V = FormatModel;

    open spec fn view(&self) -> FormatModel {
        match self {
            ConfigFormat::Json => FormatModel::Json,
            ConfigFormat::Yaml => FormatModel::Yaml,
            ConfigFormat::Toml => FormatModel::Toml,
            ConfigFormat::Ini => FormatModel::Ini,
            ConfigFormat::Custom(s) => FormatModel::Custom(s@),
        }
    }
}

/// Configuration metadata.
#[derive(Debug, Clone)]
pub struct ConfigMetadata {
    /// Configuration format
    pub format: ConfigFormat,
    /// Path to the configuration file
    pub file_path: String,
    /// Last modification time, in seconds since the Unix epoch (UTC)
    pub last_modified: Option<i64>,
    /// Number of available backups
    pub backup_count: u32,
}

/// Configuration AST representation.
#[derive(Debug)]
pub struct ConfigAST {
    /// Configuration format
    pub format: ConfigFormat,
    /// Root of the configuration AST
    pub root: ASTNode,
    /// Associated metadata
    pub metadata: ConfigMetadata,
}

/// Types of AST nodes.
#[derive(Debug, Clone, Copy, PartialEq, Eq, Structural)]
pub enum NodeType {
    /// Root of the AST
    Root,
    /// Object/dictionary node
    Object,
    /// Array/list node
    Array,
    /// Key-value pair node
    KeyValue,
    /// Key node
    Key,
    /// Value node
    Value,
    /// Comment node
    Comment,
    /// Whitespace node
    Whitespace,
}

/// AST node for configuration representation.
#[derive(Debug)]
pub struct ASTNode {
    /// Node type
    pub node_type: NodeType,
    /// Optional node value
    pub value: Option<String>,
    /// Child nodes
    pub children: Vec<ASTNode>,
    /// Additional metadata
    pub metadata: HashMap<String, String>,
}

/// The mathematical content of an [`ASTNode`].
pub struct NodeModel {
    pub node_type: NodeType,
    pub value: Option<Seq<char>>,
    pub children: Seq<NodeModel>,
    pub metadata: Map<String, String>,
}

/// The characters of an optional string.
pub open spec fn opt_chars(s: Option<String>) -> Option<Seq<char>> {
    match s {
        Some(t) => Some(t@),
        None => None,
    }
}

impl ASTNode {
    /// The model of this node and, recursively, of its children.
    pub open spec fn model(self) -> NodeModel
        decreases self,
    {
        NodeModel {
            node_type: self.node_type,
            value: opt_chars(self.value),
            children: node_models(self.children@),
            metadata: self.metadata@,
        }
    }
}

/// The models of a sequence of nodes.
pub open spec fn node_models(s: Seq<ASTNode>) -> Seq<NodeModel>
    decreases s,
{
    if s.len() == 0 {
        Seq::empty()
    } else {
        node_models(s.drop_last()).push(s.last().model())
    }
}

impl View for ASTNode {
    type V = NodeModel;

    open spec fn view(&self) -> NodeModel {
        self.model()
    }
}

/// The models of a sequence of nodes line up with the nodes.
pub proof fn lemma_node_models(s: Seq<ASTNode>)
    ensures
        node_models(s).len() == s.len(),
        forall|i: int| 0 <= i < s.len() ==> #[trigger] node_models(s)[i] == s[i].model(),
    decreases s.len(),
{
    if s.len() > 0 {
        lemma_node_models(s.drop_last());
    }
}

/// A copy of an optional string.
pub fn copy_opt_string(s: &Option<String>) -> (r: Option<String>)
    ensures
        opt_chars(r) == opt_chars(*s),
{
    match s {
        Some(t) => Some(t.clone()),
        None => None,
    }
}

impl ASTNode {
    /// A deep copy of this node.
    pub fn copy(&self) -> (r: ASTNode)
        ensures
            r@ == self@,
        decreases self,
    {
        let mut children: Vec<ASTNode> = Vec::new();
        let n = self.children.len();
        let mut i: usize = 0;
        proof {
            lemma_node_models(self.children@);
        }
        while i < n
            invariant
                n == self.children@.len(),
                i <= n,
                children@.len() == i,
                forall|k: int| 0 <= k < i ==> #[trigger] children@[k].model() == self.children@[k].model(),
            decreases n - i,
        {
            let c = self.children[i].copy();
            children.push(c);
            i = i + 1;
        }
        proof {
            lemma_node_models(children@);
            lemma_node_models(self.children@);
            assert(node_models(children@) =~= node_models(self.children@));
        }
        ASTNode {
            node_type: self.node_type,
            value: copy_opt_string(&self.value),
            children,
            metadata: self.metadata.clone(),
        }
    }
}

} // verus!
