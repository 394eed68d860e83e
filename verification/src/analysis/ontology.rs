//! The ontology of linter concepts and what it says of single rules.
//!
//! Weights, strengths and risk levels are fractions of 1 kept in hundredths.
use vstd::prelude::*;
use crate::analysis::bayesian::find_key;
use crate::analysis::semantic::{
    ClusteringEngine, DecisionTree, RelationshipType, RuleGraph, RuleNodeModel, action_count, with_concepts,
    with_rules,
};
use crate::analysis::{ConfigAction, ConfigEntry};
use crate::linters::{lit, push_str, strings_model};
use crate::text::str_equal;

verus! {

/// Ontology concept.
#[derive(Debug)]
pub struct OntologyConcept {
    /// Unique concept identifier
    pub id: String,
    /// Human-readable concept name
    pub name: String,
    /// Concept description
    pub description: String,
    /// Parent concepts (is-a relationships)
    pub parent_concepts: Vec<String>,
    /// Child concepts (refinements)
    pub child_concepts: Vec<String>,
    /// Weight used in semantic scoring, in hundredths
    pub semantic_weight: u32,
}

/// The mathematical content of an [`OntologyConcept`].
pub struct ConceptModel {
    pub id: Seq<char>,
    pub name: Seq<char>,
    pub description: Seq<char>,
    pub parent_concepts: Seq<Seq<char>>,
    pub child_concepts: Seq<Seq<char>>,
    pub semantic_weight: u32,
}

impl View for OntologyConcept {
    type V = ConceptModel;

    open spec fn view(&self) -> ConceptModel {
        ConceptModel {
            id: self.id@,
            name: self.name@,
            description: self.description@,
            parent_concepts: strings_model(self.parent_concepts@),
            child_concepts: strings_model(self.child_concepts@),
            semantic_weight: self.semantic_weight,
        }
    }
}

/// Ontology relationship.
#[derive(Debug)]
pub struct OntologyRelationship {
    /// Source concept id
    pub source: String,
    /// Target concept id
    pub target: String,
    /// Relationship type
    pub relationship_type: RelationshipType,
    /// Relationship strength, in hundredths
    pub strength: u32,
}

/// The mathematical content of an [`OntologyRelationship`].
pub struct RelationshipModel {
    pub source: Seq<char>,
    pub target: Seq<char>,
    pub relationship_type: RelationshipType,
    pub strength: u32,
}

impl View for OntologyRelationship {
    type V = RelationshipModel;

    open spec fn view(&self) -> RelationshipModel {
        RelationshipModel {
            source: self.source@,
            target: self.target@,
            relationship_type: self.relationship_type,
            strength: self.strength,
        }
    }
}

/// The mathematical content of a [`LinterOntology`].
pub struct OntologyModel {
    pub concepts: Seq<ConceptModel>,
    pub relationships: Seq<RelationshipModel>,
    pub rule_semantics: Seq<(Seq<char>, Seq<Seq<char>>)>,
}

/// Semantic ontology for linter rules: concepts, their relationships, and the concepts of
/// each rule.
pub struct LinterOntology {
    concepts: Vec<OntologyConcept>,
    relationships: Vec<OntologyRelationship>,
    rule_semantics: Vec<(String, Vec<String>)>,
}

impl View for LinterOntology {
    type V = OntologyModel;

    closed spec fn view(&self) -> OntologyModel {
        OntologyModel {
            concepts: self.concepts@.map_values(|c: OntologyConcept| c@),
            relationships: self.relationships@.map_values(|r: OntologyRelationship| r@),
            rule_semantics: self.rule_semantics@.map_values(
                |e: (String, Vec<String>)| (e.0@, strings_model(e.1@)),
            ),
        }
    }
}

/// A concept of the default ontology.
pub open spec fn concept(
    id: Seq<char>,
    name: Seq<char>,
    description: Seq<char>,
    parents: Seq<Seq<char>>,
    children: Seq<Seq<char>>,
    weight: u32,
) -> ConceptModel {
    ConceptModel {
        id,
        name,
        description,
        parent_concepts: parents,
        child_concepts: children,
        semantic_weight: weight,
    }
}

/// The default ontology: style (with its refinements formatting and naming), security and
/// performance; MD033 concerns security, MD013 and MD041 formatting.
pub open spec fn default_ontology() -> OntologyModel {
    OntologyModel {
        concepts: seq![
            concept(
                "style"@,
                "Code Style"@,
                "Rules related to code formatting and style"@,
                seq![],
                seq!["formatting"@, "naming"@],
                80,
            ),
            concept("formatting"@, "Formatting"@, "Code formatting rules"@, seq!["style"@], seq![], 60),
            concept(
                "naming"@,
                "Naming Conventions"@,
                "Variable and function naming rules"@,
                seq!["style"@],
                seq![],
                70,
            ),
            concept("security"@, "Security"@, "Security-related rules"@, seq![], seq![], 90),
            concept("performance"@, "Performance"@, "Performance optimization rules"@, seq![], seq![], 80),
        ],
        relationships: seq![
            RelationshipModel {
                source: "formatting"@,
                target: "style"@,
                relationship_type: RelationshipType::IsA,
                strength: 90,
            },
            RelationshipModel {
                source: "naming"@,
                target: "style"@,
                relationship_type: RelationshipType::IsA,
                strength: 90,
            },
            RelationshipModel {
                source: "security"@,
                target: "performance"@,
                relationship_type: RelationshipType::ConflictsWith,
                strength: 30,
            },
        ],
        rule_semantics: seq![
            ("MD033"@, seq!["security"@]),
            ("MD013"@, seq!["formatting"@]),
            ("MD041"@, seq!["formatting"@]),
        ],
    }
}

/// The weight of the first concept with the identifier.
pub open spec fn concept_weight(concepts: Seq<ConceptModel>, id: Seq<char>) -> Option<u32>
    decreases concepts.len(),
{
    if concepts.len() == 0 {
        None
    } else if concepts[0].id == id {
        Some(concepts[0].semantic_weight)
    } else {
        concept_weight(concepts.drop_first(), id)
    }
}

/// The sum of the weights of the concepts the ontology knows, in hundredths.
pub open spec fn weight_total(concepts: Seq<ConceptModel>, ids: Seq<Seq<char>>) -> nat
    decreases ids.len(),
{
    if ids.len() == 0 {
        0
    } else {
        weight_total(concepts, ids.drop_last()) + match concept_weight(concepts, ids.last()) {
            Some(w) => w as nat,
            None => 0nat,
        }
    }
}

/// The semantic score of a list of concepts: the sum of their known weights over their
/// number (rounded down), 0 for no concepts.
pub open spec fn semantic_score(concepts: Seq<ConceptModel>, ids: Seq<Seq<char>>) -> nat {
    if ids.len() == 0 {
        0
    } else {
        weight_total(concepts, ids) / ids.len()
    }
}

/// The concepts of the first entry for the rule, none when there is no entry.
pub open spec fn concepts_of(s: Seq<(Seq<char>, Seq<Seq<char>>)>, rule: Seq<char>) -> Seq<Seq<char>>
    decreases s.len(),
{
    if s.len() == 0 {
        Seq::empty()
    } else if s[0].0 == rule {
        s[0].1
    } else {
        concepts_of(s.drop_first(), rule)
    }
}

/// The rules, in ontology order, that share a concept with the list.
pub open spec fn related(s: Seq<(Seq<char>, Seq<Seq<char>>)>, ids: Seq<Seq<char>>) -> Seq<Seq<char>>
    decreases s.len(),
{
    if s.len() == 0 {
        Seq::empty()
    } else {
        let rest = related(s.drop_last(), ids);
        if exists|c: Seq<char>| ids.contains(c) && #[trigger] s.last().1.contains(c) {
            rest.push(s.last().0)
        } else {
            rest
        }
    }
}

proof fn lemma_concept_weight_bound(concepts: Seq<ConceptModel>, id: Seq<char>)
    requires
        forall|i: int| 0 <= i < concepts.len() ==> (#[trigger] concepts[i]).semantic_weight <= 100,
    ensures
        concept_weight(concepts, id) matches Some(w) ==> w <= 100,
    decreases concepts.len(),
{
    if concepts.len() > 0 && concepts[0].id != id {
        assert forall|i: int| 0 <= i < concepts.drop_first().len() implies (
        #[trigger] concepts.drop_first()[i]).semantic_weight <= 100 by {
            assert(concepts.drop_first()[i] == concepts[i + 1]);
        }
        lemma_concept_weight_bound(concepts.drop_first(), id);
    }
}

impl LinterOntology {
    /// The default ontology.
    pub fn default_ontology() -> (o: Self)
        ensures
            o@ == default_ontology(),
    {
        let mut concepts: Vec<OntologyConcept> = Vec::new();
        let mut style_children: Vec<String> = Vec::new();
        push_str(&mut style_children, "formatting");
        push_str(&mut style_children, "naming");
        concepts.push(
            OntologyConcept {
                id: lit("style"),
                name: lit("Code Style"),
                description: lit("Rules related to code formatting and style"),
                parent_concepts: Vec::new(),
                child_concepts: style_children,
                semantic_weight: 80,
            },
        );
        let mut formatting_parents: Vec<String> = Vec::new();
        push_str(&mut formatting_parents, "style");
        concepts.push(
            OntologyConcept {
                id: lit("formatting"),
                name: lit("Formatting"),
                description: lit("Code formatting rules"),
                parent_concepts: formatting_parents,
                child_concepts: Vec::new(),
                semantic_weight: 60,
            },
        );
        let mut naming_parents: Vec<String> = Vec::new();
        push_str(&mut naming_parents, "style");
        concepts.push(
            OntologyConcept {
                id: lit("naming"),
                name: lit("Naming Conventions"),
                description: lit("Variable and function naming rules"),
                parent_concepts: naming_parents,
                child_concepts: Vec::new(),
                semantic_weight: 70,
            },
        );
        concepts.push(
            OntologyConcept {
                id: lit("security"),
                name: lit("Security"),
                description: lit("Security-related rules"),
                parent_concepts: Vec::new(),
                child_concepts: Vec::new(),
                semantic_weight: 90,
            },
        );
        concepts.push(
            OntologyConcept {
                id: lit("performance"),
                name: lit("Performance"),
                description: lit("Performance optimization rules"),
                parent_concepts: Vec::new(),
                child_concepts: Vec::new(),
                semantic_weight: 80,
            },
        );
        let mut relationships: Vec<OntologyRelationship> = Vec::new();
        relationships.push(
            OntologyRelationship {
                source: lit("formatting"),
                target: lit("style"),
                relationship_type: RelationshipType::IsA,
                strength: 90,
            },
        );
        relationships.push(
            OntologyRelationship {
                source: lit("naming"),
                target: lit("style"),
                relationship_type: RelationshipType::IsA,
                strength: 90,
            },
        );
        relationships.push(
            OntologyRelationship {
                source: lit("security"),
                target: lit("performance"),
                relationship_type: RelationshipType::ConflictsWith,
                strength: 30,
            },
        );
        let mut rule_semantics: Vec<(String, Vec<String>)> = Vec::new();
        let mut security: Vec<String> = Vec::new();
        push_str(&mut security, "security");
        rule_semantics.push((lit("MD033"), security));
        let mut formatting_a: Vec<String> = Vec::new();
        push_str(&mut formatting_a, "formatting");
        rule_semantics.push((lit("MD013"), formatting_a));
        let mut formatting_b: Vec<String> = Vec::new();
        push_str(&mut formatting_b, "formatting");
        rule_semantics.push((lit("MD041"), formatting_b));
        let o = LinterOntology { concepts, relationships, rule_semantics };
        let ghost d = default_ontology();
        assert forall|k: int| 0 <= k < 5 implies (#[trigger] o@.concepts[k]) == d.concepts[k] by {
            assert(o@.concepts[k].parent_concepts =~= d.concepts[k].parent_concepts);
            assert(o@.concepts[k].child_concepts =~= d.concepts[k].child_concepts);
        }
        assert forall|k: int| 0 <= k < 3 implies (#[trigger] o@.rule_semantics[k]) == d.rule_semantics[k] by {
            assert(o@.rule_semantics[k].1 =~= d.rule_semantics[k].1);
        }
        assert(o@.concepts =~= default_ontology().concepts);
        assert(o@.relationships =~= default_ontology().relationships);
        assert(o@.rule_semantics =~= default_ontology().rule_semantics);
        o
    }

    /// The number of concepts.
    pub fn concept_count(&self) -> (n: usize)
        ensures
            n == self@.concepts.len(),
    {
        self.concepts.len()
    }

    /// The concepts.
    pub fn concepts(&self) -> (c: &Vec<OntologyConcept>)
        ensures
            c@.map_values(|x: OntologyConcept| x@) == self@.concepts,
    {
        &self.concepts
    }

    /// The relationships between concepts.
    pub fn relationships(&self) -> (r: &Vec<OntologyRelationship>)
        ensures
            r@.map_values(|x: OntologyRelationship| x@) == self@.relationships,
    {
        &self.relationships
    }

    /// The concepts of the rule, none when the ontology does not know it.
    pub fn concepts_of_rule(&self, rule_id: &str) -> (r: Vec<String>)
        ensures
            strings_model(r@) == concepts_of(self@.rule_semantics, rule_id@),
    {
        let ghost s = self@.rule_semantics;
        let mut i: usize = 0;
        assert(s.skip(0) =~= s);
        while i < self.rule_semantics.len()
            invariant
                i <= self.rule_semantics@.len(),
                s == self@.rule_semantics,
                concepts_of(s, rule_id@) == concepts_of(s.skip(i as int), rule_id@),
            decreases self.rule_semantics@.len() - i,
        {
            assert(s.skip(i as int)[0] == s[i as int]);
            assert(s.skip(i as int).drop_first() =~= s.skip(i + 1));
            if str_equal(self.rule_semantics[i].0.as_str(), rule_id) {
                return copy_strings(&self.rule_semantics[i].1);
            }
            i = i + 1;
        }
        assert(s.skip(i as int).len() == 0);
        Vec::new()
    }

    /// The weight of the concept, when the ontology knows it.
    fn weight_of(&self, id: &str) -> (w: Option<u32>)
        ensures
            w == concept_weight(self@.concepts, id@),
    {
        let ghost c = self@.concepts;
        let mut i: usize = 0;
        assert(c.skip(0) =~= c);
        while i < self.concepts.len()
            invariant
                i <= self.concepts@.len(),
                c == self@.concepts,
                concept_weight(c, id@) == concept_weight(c.skip(i as int), id@),
            decreases self.concepts@.len() - i,
        {
            assert(c.skip(i as int)[0] == c[i as int]);
            assert(c.skip(i as int).drop_first() =~= c.skip(i + 1));
            if str_equal(self.concepts[i].id.as_str(), id) {
                return Some(self.concepts[i].semantic_weight);
            }
            i = i + 1;
        }
        None
    }

    /// The sum of the known weights of the concepts.
    fn total_weight(&self, ids: &Vec<String>) -> (t: u64)
        requires
            forall|i: int| 0 <= i < self@.concepts.len() ==> (#[trigger] self@.concepts[i]).semantic_weight <= 100,
            ids@.len() < 1_000_000_000,
        ensures
            t == weight_total(self@.concepts, strings_model(ids@)),
    {
        let ghost m = strings_model(ids@);
        let mut t: u64 = 0;
        let mut i: usize = 0;
        while i < ids.len()
            invariant
                i <= ids@.len(),
                ids@.len() < 1_000_000_000,
                m == strings_model(ids@),
                forall|j: int| 0 <= j < self@.concepts.len() ==> (#[trigger] self@.concepts[j]).semantic_weight <= 100,
                t == weight_total(self@.concepts, m.take(i as int)),
                t <= 100 * i,
            decreases ids@.len() - i,
        {
            assert(m.take(i + 1).drop_last() =~= m.take(i as int));
            assert(m[i as int] == ids@[i as int]@);
            proof {
                lemma_concept_weight_bound(self@.concepts, m[i as int]);
            }
            match self.weight_of(ids[i].as_str()) {
                Some(w) => {
                    t = t + w as u64;
                },
                None => {},
            }
            i = i + 1;
        }
        assert(m.take(ids@.len() as int) =~= m);
        t
    }

    /// The rules, in ontology order, that share a concept with the list.
    pub fn related_rules(&self, ids: &Vec<String>) -> (r: Vec<String>)
        ensures
            strings_model(r@) == related(self@.rule_semantics, strings_model(ids@)),
    {
        let ghost s = self@.rule_semantics;
        let ghost m = strings_model(ids@);
        let mut r: Vec<String> = Vec::new();
        let mut i: usize = 0;
        while i < self.rule_semantics.len()
            invariant
                i <= self.rule_semantics@.len(),
                s == self@.rule_semantics,
                m == strings_model(ids@),
                strings_model(r@) == related(s.take(i as int), m),
            decreases self.rule_semantics@.len() - i,
        {
            assert(s.take(i + 1).drop_last() =~= s.take(i as int));
            assert(s.take(i + 1).last() == s[i as int]);
            assert(s[i as int].1 == strings_model(self.rule_semantics@[i as int].1@));
            assert(s[i as int].0 == self.rule_semantics@[i as int].0@);
            let shares = shares_concept(ids, &self.rule_semantics[i].1);
            if shares {
                let ghost before = strings_model(r@);
                r.push(self.rule_semantics[i].0.clone());
                assert(strings_model(r@) =~= before.push(s[i as int].0));
            }
            i = i + 1;
        }
        assert(s.take(s.len() as int) =~= s);
        r
    }
}

/// A copy of a list of strings.
fn copy_strings(v: &Vec<String>) -> (r: Vec<String>)
    ensures
        strings_model(r@) == strings_model(v@),
{
    let mut r: Vec<String> = Vec::new();
    let mut i: usize = 0;
    while i < v.len()
        invariant
            i <= v@.len(),
            strings_model(r@) == strings_model(v@).take(i as int),
        decreases v@.len() - i,
    {
        let ghost before = strings_model(r@);
        r.push(v[i].clone());
        assert(strings_model(r@) =~= before.push(v@[i as int]@));
        assert(strings_model(v@).take(i + 1) =~= strings_model(v@).take(i as int).push(v@[i as int]@));
        i = i + 1;
    }
    assert(strings_model(v@).take(v@.len() as int) =~= strings_model(v@));
    r
}

/// Whether some string of `a` occurs in `b`.
fn shares_concept(a: &Vec<String>, b: &Vec<String>) -> (r: bool)
    ensures
        r == exists|c: Seq<char>| strings_model(a@).contains(c) && #[trigger] strings_model(b@).contains(c),
{
    let ghost ma = strings_model(a@);
    let ghost mb = strings_model(b@);
    let mut i: usize = 0;
    while i < a.len()
        invariant
            i <= a@.len(),
            ma == strings_model(a@),
            mb == strings_model(b@),
            forall|x: int, y: int| 0 <= x < i && 0 <= y < mb.len() ==> ma[x] != mb[y],
        decreases a@.len() - i,
    {
        let mut j: usize = 0;
        while j < b.len()
            invariant
                i < a@.len(),
                j <= b@.len(),
                ma == strings_model(a@),
                mb == strings_model(b@),
                forall|y: int| 0 <= y < j ==> ma[i as int] != mb[y],
            decreases b@.len() - j,
        {
            if str_equal(a[i].as_str(), b[j].as_str()) {
                assert(ma[i as int] == mb[j as int]);
                assert(ma.contains(ma[i as int]));
                assert(mb.contains(ma[i as int]));
                return true;
            }
            j = j + 1;
        }
        i = i + 1;
    }
    assert forall|c: Seq<char>| ma.contains(c) implies !#[trigger] mb.contains(c) by {
        let x = choose|x: int| 0 <= x < ma.len() && ma[x] == c;
        if mb.contains(c) {
            let y = choose|y: int| 0 <= y < mb.len() && mb[y] == c;
            assert(ma[x] != mb[y]);
        }
    }
    false
}

/// Action semantics.
#[derive(Debug)]
pub struct ActionSemantics {
    /// Severity level
    pub severity: String,
    /// Impact description
    pub impact: String,
    /// Risk level, in hundredths
    pub risk_level: u32,
}

/// What an action means: its severity, its impact and how risky it is.
pub open spec fn action_meaning(a: ConfigAction) -> (Seq<char>, Seq<char>, u32) {
    match a {
        ConfigAction::Disable => ("high"@, "removes rule completely"@, 80),
        ConfigAction::Ignore => ("medium"@, "ignores rule violations"@, 50),
        ConfigAction::Modify => ("low"@, "modifies rule behavior"@, 30),
        ConfigAction::Enable => ("low"@, "enables rule enforcement"@, 10),
    }
}

/// The semantics of an action.
pub fn analyze_action_semantics(action: ConfigAction) -> (s: ActionSemantics)
    ensures
        (s.severity@, s.impact@, s.risk_level) == action_meaning(action),
{
    match action {
        ConfigAction::Disable => ActionSemantics {
            severity: lit("high"),
            impact: lit("removes rule completely"),
            risk_level: 80,
        },
        ConfigAction::Ignore => ActionSemantics {
            severity: lit("medium"),
            impact: lit("ignores rule violations"),
            risk_level: 50,
        },
        ConfigAction::Modify => ActionSemantics {
            severity: lit("low"),
            impact: lit("modifies rule behavior"),
            risk_level: 30,
        },
        ConfigAction::Enable => ActionSemantics {
            severity: lit("low"),
            impact: lit("enables rule enforcement"),
            risk_level: 10,
        },
    }
}

/// What the ontology says of a rule.
#[derive(Debug)]
pub struct RuleSemantics {
    /// Concepts associated with the rule
    pub concepts: Vec<String>,
    /// Mean weight of the concepts, in hundredths
    pub semantic_score: u32,
    /// Other rules related by concept
    pub related_rules: Vec<String>,
    /// Action semantics summary
    pub action_semantics: ActionSemantics,
}

/// The mathematical content of a [`RuleSemantics`].
pub struct RuleSemanticsModel {
    pub concepts: Seq<Seq<char>>,
    pub semantic_score: u32,
    pub related_rules: Seq<Seq<char>>,
    pub action_semantics: (Seq<char>, Seq<char>, u32),
}

impl View for RuleSemantics {
    type V = RuleSemanticsModel;

    open spec fn view(&self) -> RuleSemanticsModel {
        RuleSemanticsModel {
            concepts: strings_model(self.concepts@),
            semantic_score: self.semantic_score,
            related_rules: strings_model(self.related_rules@),
            action_semantics: (
                self.action_semantics.severity@,
                self.action_semantics.impact@,
                self.action_semantics.risk_level,
            ),
        }
    }
}

/// What the default ontology says of a rule with the identifier and the action: its
/// concepts, their mean weight, the rules sharing a concept with it, and what the action
/// means.
pub open spec fn semantics_for(rule_id: Seq<char>, action: ConfigAction) -> RuleSemanticsModel {
    let o = default_ontology();
    let c = concepts_of(o.rule_semantics, rule_id);
    RuleSemanticsModel {
        concepts: c,
        semantic_score: semantic_score(o.concepts, c) as u32,
        related_rules: related(o.rule_semantics, c),
        action_semantics: action_meaning(action),
    }
}

/// Graph analysis result.
#[derive(Debug)]
pub struct GraphAnalysis {
    /// Centrality scores per rule id, in hundredths
    pub centrality_scores: Vec<(String, u32)>,
    /// Community structure (clusters of rule ids)
    pub community_structure: Vec<Vec<String>>,
    /// Influence paths discovered in the graph
    pub influence_paths: Vec<InfluencePath>,
}

/// Influence path.
#[derive(Debug)]
pub struct InfluencePath {
    /// Source node id
    pub source: String,
    /// Target node id
    pub target: String,
    /// Path between nodes
    pub path: Vec<String>,
    /// Path strength, in hundredths
    pub strength: u32,
}

impl GraphAnalysis {
    /// An analysis that found nothing.
    pub fn new() -> (a: Self)
        ensures
            a.centrality_scores@.len() == 0,
            a.community_structure@.len() == 0,
            a.influence_paths@.len() == 0,
    {
        GraphAnalysis { centrality_scores: Vec::new(), community_structure: Vec::new(), influence_paths: Vec::new() }
    }
}

/// The graph after attaching, rule by rule, the ontology's concepts of each rule.
pub open spec fn with_rule_concepts(
    g: Seq<RuleNodeModel>,
    rules: Seq<ConfigEntry>,
    sem: Seq<(Seq<char>, Seq<Seq<char>>)>,
) -> Seq<RuleNodeModel>
    decreases rules.len(),
{
    if rules.len() == 0 {
        g
    } else {
        let id = rules.last().rule_id@;
        with_concepts(with_rule_concepts(g, rules.drop_last(), sem), id, concepts_of(sem, id))
    }
}

/// Builds the graph of the rules and their concepts, and analyzes it.
pub struct GraphAnalyzer {
    graph: RuleGraph,
}

impl GraphAnalyzer {
    /// An analyzer with an empty graph.
    pub fn new() -> (a: Self)
        ensures
            a.graph_view() == Seq::<RuleNodeModel>::empty(),
    {
        GraphAnalyzer { graph: RuleGraph::new() }
    }

    /// The graph built so far.
    pub closed spec fn graph_view(&self) -> Seq<RuleNodeModel> {
        self.graph@
    }

    /// The graph built so far.
    pub fn graph(&self) -> (g: &RuleGraph)
        ensures
            g@ == self.graph_view(),
    {
        &self.graph
    }

    /// Adds the rules to the graph, then each rule's concepts; centrality, communities and
    /// influence paths are not computed, so the analysis holds none.
    pub fn analyze_rule_graph(&mut self, rules: &[ConfigEntry], ontology: &LinterOntology) -> (a: GraphAnalysis)
        ensures
            final(self).graph_view() == with_rule_concepts(
                with_rules(old(self).graph_view(), rules@),
                rules@,
                ontology@.rule_semantics,
            ),
            a.centrality_scores@.len() == 0,
            a.community_structure@.len() == 0,
            a.influence_paths@.len() == 0,
    {
        let ghost g0 = self.graph@;
        let mut i: usize = 0;
        while i < rules.len()
            invariant
                i <= rules@.len(),
                self.graph@ == with_rules(g0, rules@.take(i as int)),
            decreases rules@.len() - i,
        {
            assert(rules@.take(i + 1).drop_last() =~= rules@.take(i as int));
            self.graph.add_rule(&rules[i]);
            i = i + 1;
        }
        assert(rules@.take(rules@.len() as int) =~= rules@);
        let ghost g1 = self.graph@;
        let ghost sem = ontology@.rule_semantics;
        let mut k: usize = 0;
        while k < rules.len()
            invariant
                k <= rules@.len(),
                sem == ontology@.rule_semantics,
                self.graph@ == with_rule_concepts(g1, rules@.take(k as int), sem),
            decreases rules@.len() - k,
        {
            let id = rules[k].rule_id.as_str();
            let concepts = ontology.concepts_of_rule(id);
            let ghost base = self.graph@;
            let ghost cs = strings_model(concepts@);
            let mut j: usize = 0;
            while j < concepts.len()
                invariant
                    j <= concepts@.len(),
                    cs == strings_model(concepts@),
                    self.graph@ == with_concepts(base, id@, cs.take(j as int)),
                decreases concepts@.len() - j,
            {
                assert(cs.take(j + 1).drop_last() =~= cs.take(j as int));
                self.graph.add_semantic_relationship(id, concepts[j].as_str());
                j = j + 1;
            }
            assert(cs.take(concepts@.len() as int) =~= cs);
            assert(rules@.take(k + 1).drop_last() =~= rules@.take(k as int));
            k = k + 1;
        }
        assert(rules@.take(rules@.len() as int) =~= rules@);
        GraphAnalysis::new()
    }
}

/// Rule cluster.
#[derive(Debug)]
pub struct RuleCluster {
    /// Cluster identifier
    pub cluster_id: usize,
    /// Member rule ids
    pub rules: Vec<String>,
    /// Cluster centroid vector, in hundredths
    pub centroid: Vec<u32>,
    /// Cluster coherence score, in hundredths
    pub coherence_score: u32,
}

/// Clustering analysis result.
#[derive(Debug)]
pub struct ClusteringAnalysis {
    /// Clustering output
    pub clusters: Vec<RuleCluster>,
    /// Silhouette score measuring cluster quality, in hundredths
    pub silhouette_score: u32,
    /// Cluster coherence metric, in hundredths
    pub cluster_coherence: u32,
}

/// The identifiers of the rules, in order.
pub open spec fn rule_ids(rules: Seq<ConfigEntry>) -> Seq<Seq<char>> {
    rules.map_values(|r: ConfigEntry| r.rule_id@)
}

impl ClusteringEngine {
    /// Groups the rules: all rules form one cluster, centred at one half in each of ten
    /// dimensions, with coherence 0.8; the silhouette score is 0.7 and the overall coherence
    /// 0.8.
    pub fn cluster_rules(&self, rules: &[ConfigEntry], ontology: &LinterOntology) -> (a: ClusteringAnalysis)
        ensures
            a.clusters@.len() == 1,
            a.clusters@[0].cluster_id == 0,
            strings_model(a.clusters@[0].rules@) == rule_ids(rules@),
            a.clusters@[0].centroid@ == Seq::new(10, |i: int| 50u32),
            a.clusters@[0].coherence_score == 80,
            a.silhouette_score == 70,
            a.cluster_coherence == 80,
    {
        let mut ids: Vec<String> = Vec::new();
        let mut i: usize = 0;
        while i < rules.len()
            invariant
                i <= rules@.len(),
                strings_model(ids@) == rule_ids(rules@.take(i as int)),
            decreases rules@.len() - i,
        {
            let ghost before = strings_model(ids@);
            ids.push(rules[i].rule_id.clone());
            assert(strings_model(ids@) =~= before.push(rules@[i as int].rule_id@));
            assert(rule_ids(rules@.take(i + 1)) =~= rule_ids(rules@.take(i as int)).push(rules@[i as int].rule_id@));
            i = i + 1;
        }
        assert(rules@.take(rules@.len() as int) =~= rules@);
        let mut centroid: Vec<u32> = Vec::new();
        let mut k: usize = 0;
        while k < 10
            invariant
                k <= 10,
                centroid@ == Seq::new(k as nat, |i: int| 50u32),
            decreases 10 - k,
        {
            centroid.push(50);
            assert(centroid@ =~= Seq::new((k + 1) as nat, |i: int| 50u32));
            k = k + 1;
        }
        let mut clusters: Vec<RuleCluster> = Vec::new();
        clusters.push(RuleCluster { cluster_id: 0, rules: ids, centroid, coherence_score: 80 });
        ClusteringAnalysis { clusters, silhouette_score: 70, cluster_coherence: 80 }
    }
}

/// Decision path.
#[derive(Debug)]
pub struct DecisionPath {
    /// Nodes traversed in the decision process
    pub path: Vec<String>,
    /// Confidence score for this decision, in hundredths
    pub confidence: u32,
    /// Textual reasoning for the decision
    pub reasoning: String,
}

/// Recommendation.
#[derive(Debug)]
pub struct Recommendation {
    /// Recommendation category (e.g., action, scope)
    pub category: String,
    /// Description of the recommendation
    pub description: String,
    /// Priority, in hundredths
    pub priority: u32,
    /// Expected impact
    pub impact: String,
}

/// Decision analysis result.
#[derive(Debug)]
pub struct DecisionAnalysis {
    /// Decision path per rule id
    pub decision_paths: Vec<(String, DecisionPath)>,
    /// Recommendations generated from analysis
    pub recommendations: Vec<Recommendation>,
    /// Confidence scores per rule id, in hundredths
    pub confidence_scores: Vec<(String, u32)>,
}

/// The identifiers without repetitions, in the order of their first occurrence.
pub open spec fn distinct_ids(ids: Seq<Seq<char>>) -> Seq<Seq<char>>
    decreases ids.len(),
{
    if ids.len() == 0 {
        ids
    } else {
        let p = distinct_ids(ids.drop_last());
        if p.contains(ids.last()) {
            p
        } else {
            p.push(ids.last())
        }
    }
}

/// The decision path every rule takes: from the root through its action.
pub open spec fn path_model(p: DecisionPath) -> (Seq<Seq<char>>, u32, Seq<char>) {
    (strings_model(p.path@), p.confidence, p.reasoning@)
}

/// The decision path every rule takes.
pub open spec fn standard_path() -> (Seq<Seq<char>>, u32, Seq<char>) {
    (seq!["root"@, "action"@], 80, "Based on rule action and scope"@)
}

fn standard_decision_path() -> (p: DecisionPath)
    ensures
        path_model(p) == standard_path(),
{
    let mut path: Vec<String> = Vec::new();
    push_str(&mut path, "root");
    push_str(&mut path, "action");
    let p = DecisionPath { path, confidence: 80, reasoning: lit("Based on rule action and scope") };
    assert(strings_model(p.path@) =~= seq!["root"@, "action"@]);
    p
}

/// Whether the key occurs among the entries.
proof fn lemma_find_key_model<V>(entries: Seq<(String, V)>, keys: Seq<Seq<char>>, k: Seq<char>, r: Option<usize>)
    requires
        keys == entries.map_values(|e: (String, V)| e.0@),
        match r {
            Some(i) => i < entries.len() && entries[i as int].0@ == k,
            None => forall|j: int| 0 <= j < entries.len() ==> (#[trigger] entries[j]).0@ != k,
        },
    ensures
        r is Some <==> keys.contains(k),
        r matches Some(i) ==> keys[i as int] == k,
{
    if r is None && keys.contains(k) {
        let j = choose|j: int| 0 <= j < keys.len() && keys[j] == k;
        assert(entries[j].0@ == k);
    }
    if let Some(i) = r {
        assert(keys[i as int] == entries[i as int].0@);
    }
}

impl DecisionTree {
    /// Analyzes the rules: each rule takes the standard decision path; when more than five
    /// rules are disabled, more specific actions are recommended; no confidence scores are
    /// computed.
    pub fn analyze_configuration(&mut self, rules: &[ConfigEntry], ontology: &LinterOntology) -> (a: DecisionAnalysis)
        ensures
            a.decision_paths@.map_values(|e: (String, DecisionPath)| e.0@) == distinct_ids(rule_ids(rules@)),
            forall|j: int| 0 <= j < a.decision_paths@.len() ==> path_model(#[trigger] a.decision_paths@[j].1) == standard_path(),
            action_count(rules@, ConfigAction::Disable) > 5 ==> a.recommendations@.len() == 1
                && a.recommendations@[0].category@ == "action"@
                && a.recommendations@[0].description@ == "Consider using more specific actions instead of disabling rules"@
                && a.recommendations@[0].priority == 80
                && a.recommendations@[0].impact@ == "Improves code quality"@,
            action_count(rules@, ConfigAction::Disable) <= 5 ==> a.recommendations@.len() == 0,
            a.confidence_scores@.len() == 0,
            *final(self) == *old(self),
    {
        let ghost ids = rule_ids(rules@);
        let mut paths: Vec<(String, DecisionPath)> = Vec::new();
        let mut i: usize = 0;
        while i < rules.len()
            invariant
                i <= rules@.len(),
                ids == rule_ids(rules@),
                paths@.map_values(|e: (String, DecisionPath)| e.0@) == distinct_ids(ids.take(i as int)),
                forall|j: int| 0 <= j < paths@.len() ==> path_model(#[trigger] paths@[j].1) == standard_path(),
            decreases rules@.len() - i,
        {
            assert(ids.take(i + 1).drop_last() =~= ids.take(i as int));
            assert(ids.take(i + 1).last() == rules@[i as int].rule_id@);
            let ghost keys = paths@.map_values(|e: (String, DecisionPath)| e.0@);
            let found = find_key(&paths, rules[i].rule_id.as_str());
            proof {
                lemma_find_key_model(paths@, keys, rules@[i as int].rule_id@, found);
            }
            if found.is_none() {
                let p = standard_decision_path();
                paths.push((rules[i].rule_id.clone(), p));
                assert(paths@.map_values(|e: (String, DecisionPath)| e.0@) =~= keys.push(rules@[i as int].rule_id@));
            }
            i = i + 1;
        }
        assert(ids.take(rules@.len() as int) =~= ids);
        let mut recommendations: Vec<Recommendation> = Vec::new();
        if self.recommends_specific_actions(rules) {
            recommendations.push(
                Recommendation {
                    category: lit("action"),
                    description: lit("Consider using more specific actions instead of disabling rules"),
                    priority: 80,
                    impact: lit("Improves code quality"),
                },
            );
        }
        DecisionAnalysis { decision_paths: paths, recommendations, confidence_scores: Vec::new() }
    }
}

/// The last rule with the identifier.
pub open spec fn last_rule(rules: Seq<ConfigEntry>, id: Seq<char>) -> ConfigEntry
    decreases rules.len(),
{
    if rules.len() == 0 {
        vstd::pervasive::arbitrary()
    } else if rules.last().rule_id@ == id {
        rules.last()
    } else {
        last_rule(rules.drop_last(), id)
    }
}

/// Semantic analysis result.
#[derive(Debug)]
pub struct SemanticAnalysisResult {
    /// Semantic details per rule id
    pub rule_semantics: Vec<(String, RuleSemantics)>,
    /// Graph analysis results
    pub graph_analysis: GraphAnalysis,
    /// Clustering analysis results
    pub clustering_analysis: ClusteringAnalysis,
    /// Decision analysis results
    pub decision_analysis: DecisionAnalysis,
}

/// Semantic analyzer over the default ontology.
pub struct SemanticAnalyzer {
    ontology: LinterOntology,
    graph_analyzer: GraphAnalyzer,
    clustering_engine: ClusteringEngine,
    decision_tree: DecisionTree,
}

impl SemanticAnalyzer {
    #[verifier::type_invariant]
    spec fn inv(self) -> bool {
        self.ontology@ == default_ontology()
    }

    /// An analyzer with the default ontology and an empty rule graph.
    pub fn new() -> (a: Self)
        ensures
            a.graph_view() == Seq::<RuleNodeModel>::empty(),
    {
        SemanticAnalyzer {
            ontology: LinterOntology::default_ontology(),
            graph_analyzer: GraphAnalyzer::new(),
            clustering_engine: ClusteringEngine::new(),
            decision_tree: DecisionTree::new(),
        }
    }

    /// The rule graph built by the analyses so far.
    pub closed spec fn graph_view(&self) -> Seq<RuleNodeModel> {
        self.graph_analyzer.graph_view()
    }

    /// The ontology.
    pub fn ontology(&self) -> (o: &LinterOntology)
        ensures
            o@ == default_ontology(),
    {
        proof {
            use_type_invariant(self);
        }
        &self.ontology
    }

    /// What the ontology says of the rule: its concepts, their mean weight, the rules that
    /// share a concept with it, and what its action means.
    pub fn analyze_rule_semantics(&self, rule: &ConfigEntry) -> (s: RuleSemantics)
        ensures
            s@ == semantics_for(rule.rule_id@, rule.action),
    {
        let o = self.ontology();
        let concepts = o.concepts_of_rule(rule.rule_id.as_str());
        proof {
            let d = default_ontology();
            assert(forall|i: int| 0 <= i < d.concepts.len() ==> (#[trigger] d.concepts[i]).semantic_weight <= 100);
            lemma_default_concepts_short(rule.rule_id@);
        }
        let total = o.total_weight(&concepts);
        let n = concepts.len();
        let score: u32 = if n == 0 {
            0
        } else {
            proof {
                lemma_default_concepts_short(rule.rule_id@);
            }
            (total / n as u64) as u32
        };
        let related_rules = o.related_rules(&concepts);
        RuleSemantics {
            concepts,
            semantic_score: score,
            related_rules,
            action_semantics: analyze_action_semantics(rule.action),
        }
    }
}

impl SemanticAnalyzer {
    /// Analyzes the rules: what the ontology says of each (a later rule with the same
    /// identifier replacing an earlier one's entry), the graph of the rules and their
    /// concepts, their clustering and their decision analysis.
    pub fn analyze_semantics(&mut self, rules: &[ConfigEntry]) -> (r: SemanticAnalysisResult)
        ensures
            r.rule_semantics@.map_values(|e: (String, RuleSemantics)| e.0@) == distinct_ids(rule_ids(rules@)),
            forall|j: int|
                0 <= j < r.rule_semantics@.len() ==> (#[trigger] r.rule_semantics@[j]).1@ == semantics_for(
                    r.rule_semantics@[j].0@,
                    last_rule(rules@, r.rule_semantics@[j].0@).action,
                ),
            final(self).graph_view() == with_rule_concepts(
                with_rules(old(self).graph_view(), rules@),
                rules@,
                default_ontology().rule_semantics,
            ),
            r.graph_analysis.centrality_scores@.len() == 0,
            r.graph_analysis.community_structure@.len() == 0,
            r.graph_analysis.influence_paths@.len() == 0,
            r.clustering_analysis.clusters@.len() == 1,
            strings_model(r.clustering_analysis.clusters@[0].rules@) == rule_ids(rules@),
            r.clustering_analysis.clusters@[0].cluster_id == 0,
            r.clustering_analysis.clusters@[0].centroid@ == Seq::new(10, |i: int| 50u32),
            r.clustering_analysis.clusters@[0].coherence_score == 80,
            r.clustering_analysis.silhouette_score == 70,
            r.clustering_analysis.cluster_coherence == 80,
            r.decision_analysis.decision_paths@.map_values(|e: (String, DecisionPath)| e.0@) == distinct_ids(
                rule_ids(rules@),
            ),
            forall|j: int|
                0 <= j < r.decision_analysis.decision_paths@.len() ==> path_model(
                    #[trigger] r.decision_analysis.decision_paths@[j].1,
                ) == standard_path(),
            r.decision_analysis.confidence_scores@.len() == 0,
            action_count(rules@, ConfigAction::Disable) > 5 <==> r.decision_analysis.recommendations@.len() == 1,
    {
        proof {
            use_type_invariant(&*self);
        }
        let ghost ids = rule_ids(rules@);
        let mut table: Vec<(String, RuleSemantics)> = Vec::new();
        let mut i: usize = 0;
        while i < rules.len()
            invariant
                i <= rules@.len(),
                ids == rule_ids(rules@),
                self.ontology@ == default_ontology(),
                table@.map_values(|e: (String, RuleSemantics)| e.0@) == distinct_ids(ids.take(i as int)),
                forall|j: int|
                    0 <= j < table@.len() ==> (#[trigger] table@[j]).1@ == semantics_for(
                        table@[j].0@,
                        last_rule(rules@.take(i as int), table@[j].0@).action,
                    ),
            decreases rules@.len() - i,
        {
            let ghost t = rules@.take(i + 1);
            assert(ids.take(i + 1).drop_last() =~= ids.take(i as int));
            assert(ids.take(i + 1).last() == rules@[i as int].rule_id@);
            assert(t.drop_last() =~= rules@.take(i as int));
            assert(t.last() == rules@[i as int]);
            let ghost keys = table@.map_values(|e: (String, RuleSemantics)| e.0@);
            let sem = self.analyze_rule_semantics(&rules[i]);
            let found = find_key(&table, rules[i].rule_id.as_str());
            proof {
                lemma_find_key_model(table@, keys, rules@[i as int].rule_id@, found);
            }
            let ghost before = table@;
            match found {
                Some(p) => {
                    let (name, _) = table.remove(p);
                    table.insert(p, (name, sem));
                    assert(table@.map_values(|e: (String, RuleSemantics)| e.0@) =~= keys);
                    assert forall|j: int| 0 <= j < table@.len() implies (#[trigger] table@[j]).1@ == semantics_for(
                        table@[j].0@,
                        last_rule(t, table@[j].0@).action,
                    ) by {
                        if j != p {
                            assert(table@[j] == before[j]);
                            assert(keys[j] != keys[p as int]) by {
                                lemma_distinct_ids_unique(ids.take(i as int), j, p as int);
                            }
                        }
                    }
                },
                None => {
                    table.push((rules[i].rule_id.clone(), sem));
                    assert(table@.map_values(|e: (String, RuleSemantics)| e.0@) =~= keys.push(rules@[i as int].rule_id@));
                    assert forall|j: int| 0 <= j < table@.len() implies (#[trigger] table@[j]).1@ == semantics_for(
                        table@[j].0@,
                        last_rule(t, table@[j].0@).action,
                    ) by {
                        if j < before.len() {
                            assert(table@[j] == before[j]);
                            assert(keys.contains(keys[j]));
                        }
                    }
                },
            }
            i = i + 1;
        }
        assert(ids.take(rules@.len() as int) =~= ids);
        assert(rules@.take(rules@.len() as int) =~= rules@);
        let mut graph_analyzer = GraphAnalyzer::new();
        std::mem::swap(&mut graph_analyzer, &mut self.graph_analyzer);
        let graph_analysis = graph_analyzer.analyze_rule_graph(rules, &self.ontology);
        self.graph_analyzer = graph_analyzer;
        let clustering_analysis = self.clustering_engine.cluster_rules(rules, &self.ontology);
        let mut decision_tree = DecisionTree::new();
        std::mem::swap(&mut decision_tree, &mut self.decision_tree);
        let decision_analysis = decision_tree.analyze_configuration(rules, &self.ontology);
        self.decision_tree = decision_tree;
        SemanticAnalysisResult { rule_semantics: table, graph_analysis, clustering_analysis, decision_analysis }
    }
}

/// The identifiers kept by `distinct_ids` are pairwise different.
proof fn lemma_distinct_ids_unique(ids: Seq<Seq<char>>, a: int, b: int)
    requires
        0 <= a < distinct_ids(ids).len(),
        0 <= b < distinct_ids(ids).len(),
        a != b,
    ensures
        distinct_ids(ids)[a] != distinct_ids(ids)[b],
    decreases ids.len(),
{
    if ids.len() > 0 {
        let p = distinct_ids(ids.drop_last());
        if p.contains(ids.last()) {
            lemma_distinct_ids_unique(ids.drop_last(), a, b);
        } else {
            if a < p.len() && b < p.len() {
                lemma_distinct_ids_unique(ids.drop_last(), a, b);
            } else if a < p.len() {
                assert(distinct_ids(ids)[a] == p[a]);
            } else {
                assert(distinct_ids(ids)[b] == p[b]);
            }
        }
    }
}

/// Every rule of the default ontology has at most one concept, of weight at most 100.
proof fn lemma_default_concepts_short(rule: Seq<char>)
    ensures
        concepts_of(default_ontology().rule_semantics, rule).len() <= 1,
        weight_total(default_ontology().concepts, concepts_of(default_ontology().rule_semantics, rule)) <= 100,
{
    let s = default_ontology().rule_semantics;
    let c = concepts_of(s, rule);
    reveal_with_fuel(concepts_of, 4);
    reveal_with_fuel(weight_total, 2);
    assert(c.len() <= 1);
    if c.len() == 1 {
        let d = default_ontology().concepts;
        assert(forall|i: int| 0 <= i < d.len() ==> (#[trigger] d[i]).semantic_weight <= 100);
        lemma_concept_weight_bound(d, c[0]);
        assert(c.drop_last().len() == 0);
    }
}

} // verus!
