//! The state of the richer interactive front end and what it computes for display; the
//! terminal, progress bars and prompts belong to the front end itself.
use std::collections::HashMap;
use vstd::prelude::*;
use crate::analysis::ontology::{
    DecisionPath, RuleSemantics, SemanticAnalysisResult, SemanticAnalyzer, default_ontology, distinct_ids, last_rule,
    path_model, rule_ids, semantics_for, standard_path, with_rule_concepts,
};
use crate::analysis::semantic::{RuleNodeModel, action_count, with_rules};
use crate::analysis::{ConfigAction, ConfigEntry, ConfigScope, RuleMatch};
use crate::linters::strings_model;
use crate::config::conflict_resolution::{ConflictModel, ConflictResolver, ConflictType, ResolverModel, default_strategy};
use crate::text::chars_to_string;

verus! {

/// `n` copies of the character.
pub open spec fn repeat_char(c: char, n: nat) -> Seq<char> {
    Seq::new(n, |i: int| c)
}

/// The confidence bar for a confidence in basis points: one full block per tenth, then
/// light blocks up to ten, in brackets.
pub open spec fn confidence_bar_text(confidence: u32) -> Seq<char> {
    let filled = (confidence / 1000) as nat;
    seq!['['] + repeat_char('█', filled) + repeat_char('░', (10 - filled) as nat) + seq![']']
}

/// The identifiers of the rules of the matches, in order.
pub open spec fn match_ids(matches: Seq<RuleMatch>) -> Seq<Seq<char>> {
    matches.map_values(|m: RuleMatch| m.rule_id@)
}

/// The suggested action of the last match for the rule.
pub open spec fn last_action(matches: Seq<RuleMatch>, id: Seq<char>) -> ConfigAction
    decreases matches.len(),
{
    if matches.len() == 0 {
        ConfigAction::Disable
    } else if matches.last().rule_id@ == id {
        matches.last().suggested_action
    } else {
        last_action(matches.drop_last(), id)
    }
}

/// Entries made one for one from matches end with the same action for each rule.
proof fn lemma_last_action(entries: Seq<ConfigEntry>, matches: Seq<RuleMatch>, id: Seq<char>)
    requires
        entries.len() == matches.len(),
        forall|j: int|
            #![trigger entries[j]]
            0 <= j < entries.len() ==> entries[j].rule_id@ == matches[j].rule_id@ && entries[j].action
                == matches[j].suggested_action,
        match_ids(matches).contains(id),
    ensures
        last_rule(entries, id).action == last_action(matches, id),
    decreases entries.len(),
{
    let n = entries.len() as int;
    assert(entries[n - 1].rule_id@ == matches[n - 1].rule_id@);
    if matches.last().rule_id@ != id {
        let j = choose|j: int| 0 <= j < match_ids(matches).len() && match_ids(matches)[j] == id;
        assert(j != n - 1);
        assert(match_ids(matches.drop_last())[j] == id);
        assert forall|k: int| #![trigger entries.drop_last()[k]]
            0 <= k < entries.drop_last().len() implies entries.drop_last()[k].rule_id@
            == matches.drop_last()[k].rule_id@ && entries.drop_last()[k].action
            == matches.drop_last()[k].suggested_action by {
            assert(entries.drop_last()[k] == entries[k]);
            assert(matches.drop_last()[k] == matches[k]);
        }
        lemma_last_action(entries.drop_last(), matches.drop_last(), id);
    }
}

/// The entries the matches are analysed as: each match's rule and suggested action,
/// project-wide. Their metadata plays no part in the analysis and is left unspecified.
pub open spec fn match_entries(matches: Seq<RuleMatch>) -> Seq<ConfigEntry> {
    Seq::new(
        matches.len(),
        |j: int|
            ConfigEntry {
                rule_id: matches[j].rule_id,
                action: matches[j].suggested_action,
                scope: ConfigScope::Global,
                metadata: vstd::pervasive::arbitrary(),
            },
    )
}

/// Entries that agree on rule, action and scope build the same graph and hold as many
/// rules of each action.
proof fn lemma_same_entries(
    a: Seq<ConfigEntry>,
    b: Seq<ConfigEntry>,
    g: Seq<RuleNodeModel>,
    sem: Seq<(Seq<char>, Seq<Seq<char>>)>,
    act: ConfigAction,
)
    requires
        a.len() == b.len(),
        forall|j: int|
            #![trigger a[j], b[j]]
            0 <= j < a.len() ==> a[j].rule_id@ == b[j].rule_id@ && a[j].action == b[j].action && a[j].scope
                == b[j].scope,
    ensures
        with_rules(g, a) == with_rules(g, b),
        with_rule_concepts(g, a, sem) == with_rule_concepts(g, b, sem),
        action_count(a, act) == action_count(b, act),
    decreases a.len(),
{
    if a.len() > 0 {
        let n = a.len() - 1;
        assert(a[n].rule_id@ == b[n].rule_id@ && a[n].action == b[n].action && a[n].scope == b[n].scope);
        assert forall|j: int| #![trigger a.drop_last()[j], b.drop_last()[j]]
            0 <= j < a.drop_last().len() implies a.drop_last()[j].rule_id@ == b.drop_last()[j].rule_id@
            && a.drop_last()[j].action == b.drop_last()[j].action && a.drop_last()[j].scope
            == b.drop_last()[j].scope by {
            assert(a.drop_last()[j] == a[j] && b.drop_last()[j] == b[j]);
            assert(a[j].rule_id@ == b[j].rule_id@);
        }
        lemma_same_entries(a.drop_last(), b.drop_last(), g, sem, act);
    }
}

/// The front end with progress displays, semantic insights and confirmations.
pub struct EnhancedCliRunner {
    semantic_analyzer: SemanticAnalyzer,
    conflict_resolver: ConflictResolver,
    interactive_mode: bool,
    color_enabled: bool,
}

impl EnhancedCliRunner {
    /// A runner that asks before applying and prints in colour.
    pub fn new() -> (r: Self)
        ensures
            r.interactive_spec(),
            r.color_spec(),
            r.resolver_spec().strategies == Map::new(|t: ConflictType| true, |t: ConflictType| default_strategy(t)),
            r.resolver_spec().history == Seq::<ConflictModel>::empty(),
            r.analysis_graph() == Seq::<RuleNodeModel>::empty(),
    {
        EnhancedCliRunner {
            semantic_analyzer: SemanticAnalyzer::new(),
            conflict_resolver: ConflictResolver::new(),
            interactive_mode: true,
            color_enabled: true,
        }
    }

    /// Whether the runner asks before applying rules.
    pub closed spec fn interactive_spec(&self) -> bool {
        self.interactive_mode
    }

    /// Whether the runner prints in colour.
    pub closed spec fn color_spec(&self) -> bool {
        self.color_enabled
    }

    /// The state of its conflict resolver.
    pub closed spec fn resolver_spec(&self) -> ResolverModel {
        self.conflict_resolver@
    }

    /// The rule graph its semantic analyses have built so far.
    pub closed spec fn analysis_graph(&self) -> Seq<RuleNodeModel> {
        self.semantic_analyzer.graph_view()
    }

    /// Whether the runner asks before applying rules.
    pub fn interactive_mode(&self) -> (b: bool)
        ensures
            b == self.interactive_spec(),
    {
        self.interactive_mode
    }

    /// Whether the runner prints in colour.
    pub fn color_enabled(&self) -> (b: bool)
        ensures
            b == self.color_spec(),
    {
        self.color_enabled
    }

    /// The conflict resolver.
    pub fn conflict_resolver(&self) -> (r: &ConflictResolver)
        ensures
            r@ == self.resolver_spec(),
    {
        &self.conflict_resolver
    }

    /// Prepares the display: the runner asks before applying rules.
    pub fn setup_display(&mut self)
        ensures
            final(self).interactive_spec(),
            final(self).color_spec() == old(self).color_spec(),
    {
        self.interactive_mode = true;
    }

    /// The bar drawn for a confidence in basis points.
    pub fn create_confidence_bar(&self, confidence: u32) -> (r: String)
        requires
            confidence <= 10000,
        ensures
            r@ == confidence_bar_text(confidence),
    {
        let filled = confidence / 1000;
        let mut v: Vec<char> = Vec::new();
        v.push('[');
        let mut i: u32 = 0;
        while i < 10
            invariant
                i <= 10,
                filled <= 10,
                filled == confidence / 1000,
                v@ == seq!['['] + repeat_char('█', if i <= filled { i as nat } else { filled as nat })
                    + repeat_char('░', if i <= filled { 0nat } else { (i - filled) as nat }),
            decreases 10 - i,
        {
            let ghost before = v@;
            if i < filled {
                v.push('█');
                assert(v@ =~= seq!['['] + repeat_char('█', (i + 1) as nat) + repeat_char('░', 0nat));
            } else {
                v.push('░');
                assert(v@ =~= seq!['['] + repeat_char('█', filled as nat) + repeat_char(
                    '░',
                    (i + 1 - filled) as nat,
                ));
            }
            i = i + 1;
        }
        v.push(']');
        assert(v@ =~= confidence_bar_text(confidence));
        chars_to_string(&v)
    }

    /// Runs the semantic analysis of the matches, each taken as an entry for its rule and
    /// suggested action, project-wide.
    pub fn analyze_matches(&mut self, matches: &[RuleMatch]) -> (r: SemanticAnalysisResult)
        ensures
            r.rule_semantics@.map_values(|e: (String, RuleSemantics)| e.0@) == distinct_ids(match_ids(matches@)),
            forall|j: int|
                0 <= j < r.rule_semantics@.len() ==> (#[trigger] r.rule_semantics@[j]).1@ == semantics_for(
                    r.rule_semantics@[j].0@,
                    last_action(matches@, r.rule_semantics@[j].0@),
                ),
            final(self).analysis_graph() == with_rule_concepts(
                with_rules(old(self).analysis_graph(), match_entries(matches@)),
                match_entries(matches@),
                default_ontology().rule_semantics,
            ),
            r.graph_analysis.centrality_scores@.len() == 0,
            r.graph_analysis.community_structure@.len() == 0,
            r.graph_analysis.influence_paths@.len() == 0,
            r.clustering_analysis.clusters@.len() == 1,
            strings_model(r.clustering_analysis.clusters@[0].rules@) == match_ids(matches@),
            r.clustering_analysis.clusters@[0].cluster_id == 0,
            r.clustering_analysis.clusters@[0].centroid@ == Seq::new(10, |i: int| 50u32),
            r.clustering_analysis.clusters@[0].coherence_score == 80,
            r.clustering_analysis.silhouette_score == 70,
            r.clustering_analysis.cluster_coherence == 80,
            r.decision_analysis.decision_paths@.map_values(|e: (String, DecisionPath)| e.0@) == distinct_ids(
                match_ids(matches@),
            ),
            forall|j: int|
                0 <= j < r.decision_analysis.decision_paths@.len() ==> path_model(
                    #[trigger] r.decision_analysis.decision_paths@[j].1,
                ) == standard_path(),
            r.decision_analysis.confidence_scores@.len() == 0,
            action_count(match_entries(matches@), ConfigAction::Disable) > 5
                <==> r.decision_analysis.recommendations@.len() == 1,
            final(self).interactive_spec() == old(self).interactive_spec(),
            final(self).color_spec() == old(self).color_spec(),
    {
        let mut entries: Vec<ConfigEntry> = Vec::new();
        let mut i: usize = 0;
        while i < matches.len()
            invariant
                i <= matches@.len(),
                entries@.len() == i,
                forall|j: int|
                    #![trigger entries@[j]]
                    0 <= j < i ==> entries@[j].rule_id@ == matches@[j].rule_id@ && entries@[j].action
                        == matches@[j].suggested_action && entries@[j].scope == ConfigScope::Global,
            decreases matches@.len() - i,
        {
            entries.push(
                ConfigEntry {
                    rule_id: String::from_str(matches[i].rule_id.as_str()),
                    action: matches[i].suggested_action,
                    scope: ConfigScope::Global,
                    metadata: HashMap::new(),
                },
            );
            i = i + 1;
        }
        assert(rule_ids(entries@) =~= matches@.map_values(|m: RuleMatch| m.rule_id@));
        let mut analyzer = SemanticAnalyzer::new();
        std::mem::swap(&mut analyzer, &mut self.semantic_analyzer);
        let slice = entries.as_slice();
        let r = analyzer.analyze_semantics(slice);
        self.semantic_analyzer = analyzer;
        proof {
            assert(slice@ == entries@);
            let me = match_entries(matches@);
            assert forall|j: int| #![trigger entries@[j], me[j]]
                0 <= j < entries@.len() implies entries@[j].rule_id@ == me[j].rule_id@ && entries@[j].action
                == me[j].action && entries@[j].scope == me[j].scope by {}
            lemma_same_entries(
                entries@,
                me,
                with_rules(old(self).analysis_graph(), entries@),
                default_ontology().rule_semantics,
                ConfigAction::Disable,
            );
            lemma_same_entries(
                entries@,
                me,
                old(self).analysis_graph(),
                default_ontology().rule_semantics,
                ConfigAction::Disable,
            );
            assert forall|j: int| 0 <= j < r.rule_semantics@.len() implies (#[trigger] r.rule_semantics@[j]).1@
                == semantics_for(r.rule_semantics@[j].0@, last_action(matches@, r.rule_semantics@[j].0@)) by {
                let k = r.rule_semantics@[j].0@;
                let keys = r.rule_semantics@.map_values(|e: (String, RuleSemantics)| e.0@);
                assert(keys[j] == k);
                lemma_distinct_ids_subset(match_ids(matches@), j);
                lemma_last_action(entries@, matches@, k);
            }
        }
        r
    }
}

/// Every identifier `distinct_ids` keeps comes from the list.
proof fn lemma_distinct_ids_subset(ids: Seq<Seq<char>>, j: int)
    requires
        0 <= j < distinct_ids(ids).len(),
    ensures
        ids.contains(distinct_ids(ids)[j]),
    decreases ids.len(),
{
    if ids.len() > 0 {
        let p = distinct_ids(ids.drop_last());
        if j < p.len() {
            lemma_distinct_ids_subset(ids.drop_last(), j);
            let k = choose|k: int| 0 <= k < ids.drop_last().len() && ids.drop_last()[k] == p[j];
            assert(ids[k] == p[j]);
        } else {
            assert(ids[ids.len() - 1] == ids.last());
        }
    }
}

} // verus!
