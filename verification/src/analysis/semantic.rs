//! The parts of semantic configuration analysis that need no numeric scoring: the rule
//! graph, the decision tree's nodes and the pattern checks behind its recommendations.
use vstd::prelude::*;
use crate::analysis::{ConfigAction, ConfigEntry, ConfigScope};
use crate::linters::strings_model;

verus! {

/// Relationship types between ontology concepts.
#[derive(Debug, Clone, Copy, PartialEq, Eq, Structural)]
pub enum RelationshipType {
    /// Source is a subtype of target
    IsA,
    /// Source is a component of target
    PartOf,
    /// Source depends on target
    DependsOn,
    /// Source conflicts with target
    ConflictsWith,
    /// Source is similar to target
    SimilarTo,
    /// Source is related to target (generic)
    RelatedTo,
}

/// Rule node in the rule graph.
#[derive(Debug)]
pub struct RuleNode {
    /// Rule identifier
    pub rule_id: String,
    /// Action applied to the rule
    pub action: ConfigAction,
    /// Scope of the rule
    pub scope: ConfigScope,
    /// Attached semantic concepts
    pub semantic_concepts: Vec<String>,
}

/// The mathematical content of a [`RuleNode`].
pub struct RuleNodeModel {
    pub rule_id: Seq<char>,
    pub action: ConfigAction,
    pub scope: ConfigScope,
    pub semantic_concepts: Seq<Seq<char>>,
}

impl View for RuleNode {
    type V = RuleNodeModel;

    open spec fn view(&self) -> RuleNodeModel {
        RuleNodeModel {
            rule_id: self.rule_id@,
            action: self.action,
            scope: self.scope,
            semantic_concepts: strings_model(self.semantic_concepts@),
        }
    }
}

/// The position of the node for rule `id`.
pub open spec fn node_index(s: Seq<RuleNodeModel>, id: Seq<char>) -> Option<int> {
    if exists|i: int| 0 <= i < s.len() && (#[trigger] s[i]).rule_id == id {
        Some(choose|i: int| 0 <= i < s.len() && (#[trigger] s[i]).rule_id == id)
    } else {
        None
    }
}

/// No rule has two nodes.
pub open spec fn distinct_rules(s: Seq<RuleNodeModel>) -> bool {
    forall|i: int, j: int|
        0 <= i < s.len() && 0 <= j < s.len() && i != j ==> (#[trigger] s[i]).rule_id != (#[trigger] s[j]).rule_id
}

/// The graph with a node for the rule, with no concepts, in place of any node the rule had.
pub open spec fn with_rule(g: Seq<RuleNodeModel>, rule: ConfigEntry) -> Seq<RuleNodeModel> {
    let n = RuleNodeModel {
        rule_id: rule.rule_id@,
        action: rule.action,
        scope: rule.scope,
        semantic_concepts: Seq::empty(),
    };
    match node_index(g, rule.rule_id@) {
        Some(i) => g.update(i, n),
        None => g.push(n),
    }
}

/// The graph with the concept attached to the rule's node, unchanged when the rule has no
/// node.
pub open spec fn with_concept(g: Seq<RuleNodeModel>, id: Seq<char>, c: Seq<char>) -> Seq<RuleNodeModel> {
    match node_index(g, id) {
        Some(i) => g.update(i, RuleNodeModel { semantic_concepts: g[i].semantic_concepts.push(c), ..g[i] }),
        None => g,
    }
}

/// The graph after adding a node for each rule in turn.
pub open spec fn with_rules(g: Seq<RuleNodeModel>, rules: Seq<ConfigEntry>) -> Seq<RuleNodeModel>
    decreases rules.len(),
{
    if rules.len() == 0 {
        g
    } else {
        with_rule(with_rules(g, rules.drop_last()), rules.last())
    }
}

/// The graph after attaching each concept in turn to the rule's node.
pub open spec fn with_concepts(g: Seq<RuleNodeModel>, id: Seq<char>, cs: Seq<Seq<char>>) -> Seq<
    RuleNodeModel,
>
    decreases cs.len(),
{
    if cs.len() == 0 {
        g
    } else {
        with_concept(with_concepts(g, id, cs.drop_last()), id, cs.last())
    }
}

/// Graph of rules, one node per rule identifier.
pub struct RuleGraph {
    nodes: Vec<RuleNode>,
}

impl View for RuleGraph {
    type V = Seq<RuleNodeModel>;

    closed spec fn view(&self) -> Seq<RuleNodeModel> {
        self.nodes@.map_values(|n: RuleNode| n@)
    }
}

impl RuleGraph {
    #[verifier::type_invariant]
    spec fn well_formed(self) -> bool {
        distinct_rules(self.nodes@.map_values(|n: RuleNode| n@))
    }

    /// An empty graph.
    pub fn new() -> (g: Self)
        ensures
            g@ == Seq::<RuleNodeModel>::empty(),
    {
        let g = RuleGraph { nodes: Vec::new() };
        assert(g@ =~= Seq::<RuleNodeModel>::empty());
        g
    }

    /// The number of nodes.
    pub fn node_count(&self) -> (n: usize)
        ensures
            n == self@.len(),
    {
        self.nodes.len()
    }

    fn find(&self, rule_id: &str) -> (r: Option<usize>)
        ensures
            match r {
                Some(i) => node_index(self@, rule_id@) == Some(i as int) && i < self@.len(),
                None => node_index(self@, rule_id@) is None,
            },
    {
        proof {
            use_type_invariant(self);
        }
        let ghost s = self@;
        let mut i: usize = 0;
        while i < self.nodes.len()
            invariant
                i <= self.nodes@.len(),
                s == self.nodes@.map_values(|n: RuleNode| n@),
                distinct_rules(s),
                forall|j: int| 0 <= j < i ==> (#[trigger] s[j]).rule_id != rule_id@,
            decreases self.nodes@.len() - i,
        {
            if crate::text::str_equal(self.nodes[i].rule_id.as_str(), rule_id) {
                assert(s[i as int].rule_id == rule_id@);
                let ghost c = choose|j: int| 0 <= j < s.len() && (#[trigger] s[j]).rule_id == rule_id@;
                assert(c == i);
                return Some(i);
            }
            i = i + 1;
        }
        None
    }

    /// The node of the rule.
    pub fn get_node(&self, rule_id: &str) -> (r: Option<&RuleNode>)
        ensures
            match r {
                Some(n) => node_index(self@, rule_id@) matches Some(i) && n@ == self@[i],
                None => node_index(self@, rule_id@) is None,
            },
    {
        match self.find(rule_id) {
            Some(i) => Some(&self.nodes[i]),
            None => None,
        }
    }

    /// Adds a node for the rule, with no concepts, in place of any node the rule had.
    pub fn add_rule(&mut self, rule: &ConfigEntry)
        ensures
            final(self)@ == with_rule(old(self)@, *rule),
    {
        proof {
            use_type_invariant(&*self);
        }
        let ghost s = self@;
        let node = RuleNode {
            rule_id: rule.rule_id.clone(),
            action: rule.action,
            scope: rule.scope,
            semantic_concepts: Vec::new(),
        };
        assert(strings_model(node.semantic_concepts@) =~= Seq::<Seq<char>>::empty());
        let ghost nm = node@;
        let idx = self.find(rule.rule_id.as_str());
        let mut v: Vec<RuleNode> = Vec::new();
        std::mem::swap(&mut v, &mut self.nodes);
        match idx {
            Some(i) => {
                v.set(i, node);
                assert(v@.map_values(|n: RuleNode| n@) =~= s.update(i as int, nm));
                assert(distinct_rules(v@.map_values(|n: RuleNode| n@))) by {
                    let t = v@.map_values(|n: RuleNode| n@);
                    assert forall|x: int, y: int|
                        0 <= x < t.len() && 0 <= y < t.len() && x != y implies (#[trigger] t[x]).rule_id
                        != (#[trigger] t[y]).rule_id by {
                        if x != i && y != i {
                            assert(s[x].rule_id != s[y].rule_id);
                        } else if x == i {
                            assert(s[i as int].rule_id != s[y].rule_id);
                        } else {
                            assert(s[x].rule_id != s[i as int].rule_id);
                        }
                    }
                }
            },
            None => {
                v.push(node);
                assert(v@.map_values(|n: RuleNode| n@) =~= s.push(nm));
                assert(distinct_rules(v@.map_values(|n: RuleNode| n@))) by {
                    let t = v@.map_values(|n: RuleNode| n@);
                    assert forall|x: int, y: int|
                        0 <= x < t.len() && 0 <= y < t.len() && x != y implies (#[trigger] t[x]).rule_id
                        != (#[trigger] t[y]).rule_id by {
                        if x < s.len() && y < s.len() {
                            assert(s[x].rule_id != s[y].rule_id);
                        } else if x < s.len() {
                            assert(t[x] == s[x]);
                        } else {
                            assert(t[y] == s[y]);
                        }
                    }
                }
            },
        }
        self.nodes = v;
    }

    /// Attaches a concept to the rule's node; a rule without a node is left alone.
    pub fn add_semantic_relationship(&mut self, rule_id: &str, concept: &str)
        ensures
            final(self)@ == with_concept(old(self)@, rule_id@, concept@),
    {
        proof {
            use_type_invariant(&*self);
        }
        let ghost s = self@;
        match self.find(rule_id) {
            Some(i) => {
                let mut v: Vec<RuleNode> = Vec::new();
                std::mem::swap(&mut v, &mut self.nodes);
                let old_node = v.remove(i);
                let ghost om = old_node@;
                let mut concepts = old_node.semantic_concepts;
                concepts.push(String::from_str(concept));
                let node = RuleNode {
                    rule_id: old_node.rule_id,
                    action: old_node.action,
                    scope: old_node.scope,
                    semantic_concepts: concepts,
                };
                assert(node@.semantic_concepts =~= om.semantic_concepts.push(concept@));
                let ghost nm = node@;
                v.insert(i, node);
                assert(v@.map_values(|n: RuleNode| n@) =~= s.update(i as int, nm));
                assert(distinct_rules(v@.map_values(|n: RuleNode| n@))) by {
                    let t = v@.map_values(|n: RuleNode| n@);
                    assert forall|x: int, y: int|
                        0 <= x < t.len() && 0 <= y < t.len() && x != y implies (#[trigger] t[x]).rule_id
                        != (#[trigger] t[y]).rule_id by {
                        assert(s[x].rule_id != s[y].rule_id);
                    }
                }
                self.nodes = v;
            },
            None => {},
        }
    }
}

/// Clustering algorithm types.
#[derive(Debug, Clone, Copy, PartialEq, Eq, Structural)]
pub enum ClusteringAlgorithm {
    /// K-Means clustering
    KMeans,
    /// Hierarchical agglomerative clustering
    Hierarchical,
    /// Density-based spatial clustering
    DBSCAN,
    /// Spectral clustering
    Spectral,
}

/// Clustering engine for rule grouping.
#[derive(Debug, Clone, Copy)]
pub struct ClusteringEngine {
    clustering_algorithm: ClusteringAlgorithm,
}

impl ClusteringEngine {
    /// An engine that clusters with k-means.
    pub fn new() -> (e: Self)
        ensures
            e.algorithm_spec() == ClusteringAlgorithm::KMeans,
    {
        ClusteringEngine { clustering_algorithm: ClusteringAlgorithm::KMeans }
    }

    /// The clustering algorithm.
    pub closed spec fn algorithm_spec(&self) -> ClusteringAlgorithm {
        self.clustering_algorithm
    }

    /// The clustering algorithm.
    pub fn algorithm(&self) -> (a: ClusteringAlgorithm)
        ensures
            a == self.algorithm_spec(),
    {
        self.clustering_algorithm
    }
}

/// Kinds of decision tree node.
#[derive(Debug, Clone, Copy, PartialEq, Eq, Structural)]
pub enum NodeType {
    /// Decision node with a condition and children
    Decision,
    /// Leaf node with an outcome
    Leaf,
}

/// Decision tree node.
#[derive(Debug)]
pub struct DecisionNode {
    /// Node type
    pub node_type: NodeType,
    /// Condition text for decision nodes
    pub condition: Option<String>,
    /// Child nodes
    pub children: Vec<DecisionNode>,
    /// Outcome label for leaf nodes
    pub outcome: Option<String>,
}

impl DecisionNode {
    /// A leaf with the outcome.
    pub fn new_leaf(outcome: String) -> (n: Self)
        ensures
            n.node_type == NodeType::Leaf,
            n.condition is None,
            n.children@.len() == 0,
            n.outcome == Some(outcome),
    {
        DecisionNode { node_type: NodeType::Leaf, condition: None, children: Vec::new(), outcome: Some(outcome) }
    }

    /// A decision on the condition, with no children yet.
    pub fn new_decision(condition: String) -> (n: Self)
        ensures
            n.node_type == NodeType::Decision,
            n.condition == Some(condition),
            n.children@.len() == 0,
            n.outcome is None,
    {
        DecisionNode {
            node_type: NodeType::Decision,
            condition: Some(condition),
            children: Vec::new(),
            outcome: None,
        }
    }
}

/// Decision tree for configuration analysis.
#[derive(Debug)]
pub struct DecisionTree {
    tree: DecisionNode,
}

/// How many rules take the action.
pub open spec fn action_count(rules: Seq<ConfigEntry>, a: ConfigAction) -> nat
    decreases rules.len(),
{
    if rules.len() == 0 {
        0
    } else {
        action_count(rules.drop_last(), a) + if rules.last().action == a {
            1nat
        } else {
            0nat
        }
    }
}

proof fn lemma_action_count_bound(rules: Seq<ConfigEntry>, a: ConfigAction)
    ensures
        action_count(rules, a) <= rules.len(),
    decreases rules.len(),
{
    if rules.len() > 0 {
        lemma_action_count_bound(rules.drop_last(), a);
    }
}

impl DecisionTree {
    /// A tree that is a single leaf, `default`.
    pub fn new() -> (t: Self)
        ensures
            t.root().node_type == NodeType::Leaf,
            t.root().outcome matches Some(o) && o@ == "default"@,
    {
        DecisionTree { tree: DecisionNode::new_leaf(String::from_str("default")) }
    }

    /// The root of the tree.
    pub closed spec fn root(&self) -> DecisionNode {
        self.tree
    }

    /// How many rules take the action.
    pub fn count_actions(&self, rules: &[ConfigEntry], action: ConfigAction) -> (n: usize)
        ensures
            n == action_count(rules@, action),
    {
        let mut n: usize = 0;
        let mut k: usize = 0;
        while k < rules.len()
            invariant
                k <= rules@.len(),
                n == action_count(rules@.take(k as int), action),
            decreases rules@.len() - k,
        {
            assert(rules@.take(k + 1).drop_last() =~= rules@.take(k as int));
            proof {
                lemma_action_count_bound(rules@.take(k as int), action);
            }
            if rules[k].action == action {
                n = n + 1;
            }
            k = k + 1;
        }
        assert(rules@.take(rules@.len() as int) =~= rules@);
        n
    }

    /// Whether the rules call for the advice to prefer more specific actions than disabling:
    /// more than five of them disable their rule.
    pub fn recommends_specific_actions(&self, rules: &[ConfigEntry]) -> (b: bool)
        ensures
            b == (action_count(rules@, ConfigAction::Disable) > 5),
    {
        self.count_actions(rules, ConfigAction::Disable) > 5
    }
}

} // verus!
