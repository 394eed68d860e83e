//! Detection and resolution of conflicts between configuration rules.
//!
//! Rules are grouped by identifier in the order in which each identifier first occurs, and
//! every check reports its conflicts in that order.
use vstd::prelude::*;
use crate::analysis::{ConfigAction, ConfigEntry, ConfigScope};
use crate::config::ConfigAST;
use crate::linters::strings_model;

verus! {

/// Kinds of conflict between rules.
#[derive(Debug, Clone, Copy, PartialEq, Eq, Hash, Structural)]
pub enum ConflictType {
    /// Multiple rules with same ID but different actions
    ConflictingActions,
    /// Rules that override each other
    OverlappingRules,
    /// Inconsistent scopes for same rule
    ScopeConflict,
    /// Circular dependencies
    CircularDependency,
    /// Redundant rules
    RedundantRules,
}

/// Conflict severity levels, from least to most severe.
#[derive(Debug, Clone, Copy, PartialEq, Eq, PartialOrd, Ord, Hash, Structural)]
pub enum ConflictSeverity {
    /// Informational
    Info,
    /// Warning level
    Warning,
    /// Error level
    Error,
    /// Critical level
    Critical,
}

/// Conflict resolution strategies.
#[derive(Debug, Clone)]
pub enum ConflictResolution {
    /// Keep the most specific rule
    KeepMostSpecific,
    /// Keep the most recent rule
    KeepMostRecent,
    /// Merge conflicting rules
    MergeRules,
    /// Remove conflicting rules
    RemoveConflicting,
    /// Ask user for resolution
    UserDecision,
    /// Custom resolution
    Custom(String),
}

/// The mathematical content of a [`ConflictResolution`].
pub enum ResolutionModel {
    KeepMostSpecific,
    KeepMostRecent,
    MergeRules,
    RemoveConflicting,
    UserDecision,
    Custom(Seq<char>),
}

impl View for ConflictResolution {
    type V = ResolutionModel;

    open spec fn view(&self) -> ResolutionModel {
        match self {
            ConflictResolution::KeepMostSpecific => ResolutionModel::KeepMostSpecific,
            ConflictResolution::KeepMostRecent => ResolutionModel::KeepMostRecent,
            ConflictResolution::MergeRules => ResolutionModel::MergeRules,
            ConflictResolution::RemoveConflicting => ResolutionModel::RemoveConflicting,
            ConflictResolution::UserDecision => ResolutionModel::UserDecision,
            ConflictResolution::Custom(s) => ResolutionModel::Custom(s@),
        }
    }
}

impl ConflictResolution {
    /// A copy of this strategy.
    pub fn copy(&self) -> (r: ConflictResolution)
        ensures
            r@ == self@,
    {
        match self {
            ConflictResolution::KeepMostSpecific => ConflictResolution::KeepMostSpecific,
            ConflictResolution::KeepMostRecent => ConflictResolution::KeepMostRecent,
            ConflictResolution::MergeRules => ConflictResolution::MergeRules,
            ConflictResolution::RemoveConflicting => ConflictResolution::RemoveConflicting,
            ConflictResolution::UserDecision => ConflictResolution::UserDecision,
            ConflictResolution::Custom(s) => ConflictResolution::Custom(s.clone()),
        }
    }
}

/// A conflict found between rules.
#[derive(Debug)]
pub struct Conflict {
    /// Type of conflict encountered
    pub conflict_type: ConflictType,
    /// Involved rule identifiers
    pub rule_ids: Vec<String>,
    /// Conflict severity level
    pub severity: ConflictSeverity,
    /// Human-readable description of the conflict
    pub description: String,
    /// Suggested way to resolve the conflict
    pub suggested_resolution: ConflictResolution,
}

/// The mathematical content of a [`Conflict`].
pub struct ConflictModel {
    pub conflict_type: ConflictType,
    pub rule_ids: Seq<Seq<char>>,
    pub severity: ConflictSeverity,
    pub description: Seq<char>,
    pub suggested_resolution: ResolutionModel,
}

impl View for Conflict {
    type V = ConflictModel;

    open spec fn view(&self) -> ConflictModel {
        ConflictModel {
            conflict_type: self.conflict_type,
            rule_ids: strings_model(self.rule_ids@),
            severity: self.severity,
            description: self.description@,
            suggested_resolution: self.suggested_resolution@,
        }
    }
}

/// The models of a sequence of conflicts.
pub open spec fn conflicts_model(s: Seq<Conflict>) -> Seq<ConflictModel> {
    s.map_values(|c: Conflict| c@)
}

/// A copy of a list of strings.
pub fn copy_strings(v: &Vec<String>) -> (r: Vec<String>)
    ensures
        strings_model(r@) == strings_model(v@),
{
    let mut r: Vec<String> = Vec::new();
    let mut i: usize = 0;
    while i < v.len()
        invariant
            i <= v@.len(),
            strings_model(r@) == strings_model(v@).take(i as int),
        decreases v@.len() - i,
    {
        r.push(v[i].clone());
        assert(strings_model(v@).take(i + 1) =~= strings_model(v@).take(i as int).push(v@[i as int]@));
        assert(strings_model(r@) =~= strings_model(v@).take(i + 1));
        i = i + 1;
    }
    assert(strings_model(v@).take(v@.len() as int) =~= strings_model(v@));
    r
}

impl Conflict {
    /// A copy of this conflict.
    pub fn copy(&self) -> (r: Conflict)
        ensures
            r@ == self@,
    {
        Conflict {
            conflict_type: self.conflict_type,
            rule_ids: copy_strings(&self.rule_ids),
            severity: self.severity,
            description: self.description.clone(),
            suggested_resolution: self.suggested_resolution.copy(),
        }
    }
}

/// Copies of the conflicts, in order.
pub fn copy_conflicts(v: &[Conflict]) -> (r: Vec<Conflict>)
    ensures
        conflicts_model(r@) == conflicts_model(v@),
{
    let mut r: Vec<Conflict> = Vec::new();
    let mut i: usize = 0;
    while i < v.len()
        invariant
            i <= v@.len(),
            conflicts_model(r@) == conflicts_model(v@).take(i as int),
        decreases v@.len() - i,
    {
        r.push(v[i].copy());
        assert(conflicts_model(v@).take(i + 1) =~= conflicts_model(v@).take(i as int).push(
            v@[i as int]@,
        ));
        assert(conflicts_model(r@) =~= conflicts_model(v@).take(i + 1));
        i = i + 1;
    }
    assert(conflicts_model(v@).take(v@.len() as int) =~= conflicts_model(v@));
    r
}

/// The strategy a new resolver uses for each kind of conflict.
pub open spec fn default_strategy(t: ConflictType) -> ResolutionModel {
    match t {
        ConflictType::ConflictingActions => ResolutionModel::KeepMostSpecific,
        ConflictType::OverlappingRules => ResolutionModel::MergeRules,
        ConflictType::ScopeConflict => ResolutionModel::KeepMostSpecific,
        ConflictType::CircularDependency => ResolutionModel::RemoveConflicting,
        ConflictType::RedundantRules => ResolutionModel::RemoveConflicting,
    }
}

/// The position of a conflict kind in the strategy table.
pub open spec fn type_slot(t: ConflictType) -> int {
    match t {
        ConflictType::ConflictingActions => 0,
        ConflictType::OverlappingRules => 1,
        ConflictType::ScopeConflict => 2,
        ConflictType::CircularDependency => 3,
        ConflictType::RedundantRules => 4,
    }
}

fn slot_of(t: ConflictType) -> (i: usize)
    ensures
        i == type_slot(t),
{
    match t {
        ConflictType::ConflictingActions => 0,
        ConflictType::OverlappingRules => 1,
        ConflictType::ScopeConflict => 2,
        ConflictType::CircularDependency => 3,
        ConflictType::RedundantRules => 4,
    }
}

/// The state of a resolver: its strategy for every kind of conflict, and every conflict it
/// has found so far.
pub struct ResolverModel {
    pub strategies: Map<ConflictType, ResolutionModel>,
    pub history: Seq<ConflictModel>,
}

/// Finds conflicts between rules and resolves them by strategy.
pub struct ConflictResolver {
    resolution_strategies: Vec<ConflictResolution>,
    conflict_history: Vec<Conflict>,
}

impl View for ConflictResolver {
    type V = ResolverModel;

    closed spec fn view(&self) -> ResolverModel {
        ResolverModel {
            strategies: Map::new(
                |t: ConflictType| true,
                |t: ConflictType| self.resolution_strategies@[type_slot(t)]@,
            ),
            history: conflicts_model(self.conflict_history@),
        }
    }
}

impl ConflictResolver {
    #[verifier::type_invariant]
    spec fn well_formed(self) -> bool {
        self.resolution_strategies@.len() == 5
    }

    /// A resolver with the default strategies and an empty history.
    pub fn new() -> (r: Self)
        ensures
            r@.strategies == Map::new(|t: ConflictType| true, |t: ConflictType| default_strategy(t)),
            r@.history == Seq::<ConflictModel>::empty(),
    {
        let mut s: Vec<ConflictResolution> = Vec::new();
        s.push(ConflictResolution::KeepMostSpecific);
        s.push(ConflictResolution::MergeRules);
        s.push(ConflictResolution::KeepMostSpecific);
        s.push(ConflictResolution::RemoveConflicting);
        s.push(ConflictResolution::RemoveConflicting);
        let r = ConflictResolver { resolution_strategies: s, conflict_history: Vec::new() };
        assert(r@.strategies =~= Map::new(
            |t: ConflictType| true,
            |t: ConflictType| default_strategy(t),
        ));
        assert(r@.history =~= Seq::<ConflictModel>::empty());
        r
    }

    /// The number of kinds of conflict with a strategy: every kind has one.
    pub fn strategy_count(&self) -> (n: usize)
        ensures
            n == 5,
    {
        proof {
            use_type_invariant(self);
        }
        self.resolution_strategies.len()
    }

    /// The strategy used for a kind of conflict.
    pub fn resolution_strategy(&self, conflict_type: ConflictType) -> (r: ConflictResolution)
        ensures
            r@ == self@.strategies[conflict_type],
    {
        proof {
            use_type_invariant(self);
        }
        self.resolution_strategies[slot_of(conflict_type)].copy()
    }

    /// The conflicts found so far.
    pub fn get_conflict_history(&self) -> (h: &[Conflict])
        ensures
            conflicts_model(h@) == self@.history,
    {
        self.conflict_history.as_slice()
    }

    /// Forgets the conflicts found so far.
    pub fn clear_conflict_history(&mut self)
        ensures
            final(self)@.strategies == old(self)@.strategies,
            final(self)@.history == Seq::<ConflictModel>::empty(),
    {
        proof {
            use_type_invariant(&*self);
        }
        self.conflict_history = Vec::new();
        assert(self@.history =~= Seq::<ConflictModel>::empty());
    }

    /// Sets the strategy for a kind of conflict.
    pub fn set_resolution_strategy(
        &mut self,
        conflict_type: ConflictType,
        strategy: ConflictResolution,
    )
        ensures
            final(self)@.strategies == old(self)@.strategies.insert(conflict_type, strategy@),
            final(self)@.history == old(self)@.history,
    {
        proof {
            use_type_invariant(&*self);
        }
        let i = slot_of(conflict_type);
        let mut table: Vec<ConflictResolution> = Vec::new();
        let mut k: usize = 0;
        while k < 5
            invariant
                k <= 5,
                i == type_slot(conflict_type),
                self.resolution_strategies@.len() == 5,
                table@.len() == k,
                forall|j: int| 0 <= j < k ==> (#[trigger] table@[j])@ == (if j == i {
                    strategy@
                } else {
                    self.resolution_strategies@[j]@
                }),
            decreases 5 - k,
        {
            if k == i {
                table.push(strategy.copy());
            } else {
                table.push(self.resolution_strategies[k].copy());
            }
            k = k + 1;
        }
        self.resolution_strategies = table;
        proof {
            assert forall|t: ConflictType| #![auto]
                self@.strategies[t] == old(self)@.strategies.insert(conflict_type, strategy@)[t] by {
                if t != conflict_type {
                    assert(type_slot(t) != type_slot(conflict_type));
                }
            }
            assert(self@.strategies =~= old(self)@.strategies.insert(conflict_type, strategy@));
        }
    }
}

/// The identifiers of the rules, each once, in the order in which they first occur.
pub open spec fn group_ids(rules: Seq<ConfigEntry>) -> Seq<Seq<char>>
    decreases rules.len(),
{
    if rules.len() == 0 {
        Seq::empty()
    } else {
        let prev = group_ids(rules.drop_last());
        if prev.contains(rules.last().rule_id@) {
            prev
        } else {
            prev.push(rules.last().rule_id@)
        }
    }
}

/// The action and scope of each rule with identifier `id`, in order.
pub open spec fn group_of(rules: Seq<ConfigEntry>, id: Seq<char>) -> Seq<(ConfigAction, ConfigScope)>
    decreases rules.len(),
{
    if rules.len() == 0 {
        Seq::empty()
    } else {
        let prev = group_of(rules.drop_last(), id);
        if rules.last().rule_id@ == id {
            prev.push((rules.last().action, rules.last().scope))
        } else {
            prev
        }
    }
}

/// Two rules of the group ask for different actions.
pub open spec fn actions_conflict(g: Seq<(ConfigAction, ConfigScope)>) -> bool {
    exists|i: int, j: int| 0 <= i < g.len() && 0 <= j < g.len() && (#[trigger] g[i]).0 != (#[trigger] g[j]).0
}

/// A scope narrower than the whole project.
pub open spec fn is_specific(s: ConfigScope) -> bool {
    s == ConfigScope::FileSpecific || s == ConfigScope::Directory
}

/// The group has more than one rule, one of them global and one file or directory specific.
pub open spec fn scopes_conflict(g: Seq<(ConfigAction, ConfigScope)>) -> bool {
    &&& g.len() > 1
    &&& exists|i: int| 0 <= i < g.len() && (#[trigger] g[i]).1 == ConfigScope::Global
    &&& exists|j: int| 0 <= j < g.len() && is_specific((#[trigger] g[j]).1)
}

/// The group has more than one rule, all with the same action and scope.
pub open spec fn all_identical(g: Seq<(ConfigAction, ConfigScope)>) -> bool {
    g.len() > 1 && forall|i: int| 0 <= i < g.len() ==> #[trigger] g[i] == g[0]
}

/// Whether a check of the given kind finds a conflict in a group of rules.
pub open spec fn group_check(kind: ConflictType, g: Seq<(ConfigAction, ConfigScope)>) -> bool {
    match kind {
        ConflictType::ConflictingActions => actions_conflict(g),
        ConflictType::ScopeConflict => scopes_conflict(g),
        ConflictType::RedundantRules => all_identical(g),
        _ => false,
    }
}

/// The conflict a check of the given kind reports for rule `id`.
pub open spec fn group_conflict(kind: ConflictType, id: Seq<char>) -> ConflictModel {
    match kind {
        ConflictType::ConflictingActions => ConflictModel {
            conflict_type: ConflictType::ConflictingActions,
            rule_ids: seq![id],
            severity: ConflictSeverity::Error,
            description: "Multiple actions for rule: "@ + id,
            suggested_resolution: ResolutionModel::KeepMostSpecific,
        },
        ConflictType::ScopeConflict => ConflictModel {
            conflict_type: ConflictType::ScopeConflict,
            rule_ids: seq![id],
            severity: ConflictSeverity::Warning,
            description: "Rule "@ + id + " has both global and specific scopes"@,
            suggested_resolution: ResolutionModel::KeepMostSpecific,
        },
        _ => ConflictModel {
            conflict_type: ConflictType::RedundantRules,
            rule_ids: seq![id],
            severity: ConflictSeverity::Info,
            description: "Multiple identical rules for "@ + id,
            suggested_resolution: ResolutionModel::RemoveConflicting,
        },
    }
}

/// The conflicts a check of the given kind reports for the groups `ids`, in order.
pub open spec fn grouped_conflicts(rules: Seq<ConfigEntry>, ids: Seq<Seq<char>>, kind: ConflictType) -> Seq<
    ConflictModel,
>
    decreases ids.len(),
{
    if ids.len() == 0 {
        Seq::empty()
    } else {
        let prev = grouped_conflicts(rules, ids.drop_last(), kind);
        if group_check(kind, group_of(rules, ids.last())) {
            prev.push(group_conflict(kind, ids.last()))
        } else {
            prev
        }
    }
}

/// Two scopes overlap when both are global.
pub open spec fn scopes_overlap(a: ConfigScope, b: ConfigScope) -> bool {
    a == ConfigScope::Global && b == ConfigScope::Global
}

/// The conflict reported for two overlapping rules.
pub open spec fn overlap_conflict(a: Seq<char>, b: Seq<char>) -> ConflictModel {
    ConflictModel {
        conflict_type: ConflictType::OverlappingRules,
        rule_ids: seq![a, b],
        severity: ConflictSeverity::Warning,
        description: "Rules "@ + a + " and "@ + b + " overlap"@,
        suggested_resolution: ResolutionModel::MergeRules,
    }
}

/// Overlaps of rule `i` with the rules after it and before `j`.
pub open spec fn overlap_row(rules: Seq<ConfigEntry>, i: int, j: int) -> Seq<ConflictModel>
    decreases j,
{
    if j <= i + 1 || j > rules.len() || i < 0 {
        Seq::empty()
    } else {
        let prev = overlap_row(rules, i, j - 1);
        if scopes_overlap(rules[i].scope, rules[j - 1].scope) {
            prev.push(overlap_conflict(rules[i].rule_id@, rules[j - 1].rule_id@))
        } else {
            prev
        }
    }
}

/// Overlaps of each of the first `i` rules with the rules after it.
pub open spec fn overlap_rows(rules: Seq<ConfigEntry>, i: int) -> Seq<ConflictModel>
    decreases i,
{
    if i <= 0 {
        Seq::empty()
    } else {
        overlap_rows(rules, i - 1) + overlap_row(rules, i - 1, rules.len() as int)
    }
}

/// Every conflict between the rules: conflicting actions, overlaps, scope conflicts,
/// circular dependencies (none are detected) and redundant rules, in that order.
pub open spec fn all_conflicts(rules: Seq<ConfigEntry>) -> Seq<ConflictModel> {
    grouped_conflicts(rules, group_ids(rules), ConflictType::ConflictingActions)
        + overlap_rows(rules, rules.len() as int)
        + grouped_conflicts(rules, group_ids(rules), ConflictType::ScopeConflict)
        + grouped_conflicts(rules, group_ids(rules), ConflictType::RedundantRules)
}

/// The rules that a configuration tree yields to conflict analysis: none are read from it.
pub open spec fn ast_rules(ast: ConfigAST) -> Seq<ConfigEntry> {
    Seq::empty()
}

/// Whether the list holds the string.
fn contains_string(v: &Vec<String>, s: &String) -> (b: bool)
    ensures
        b == strings_model(v@).contains(s@),
{
    let mut i: usize = 0;
    while i < v.len()
        invariant
            i <= v@.len(),
            forall|t: int| 0 <= t < i ==> (#[trigger] v@[t])@ != s@,
        decreases v@.len() - i,
    {
        if v[i] == *s {
            assert(strings_model(v@)[i as int] == s@);
            return true;
        }
        i = i + 1;
    }
    assert(!strings_model(v@).contains(s@)) by {
        if strings_model(v@).contains(s@) {
            let t = choose|t: int| 0 <= t < strings_model(v@).len() && strings_model(v@)[t] == s@;
            assert(v@[t]@ == s@);
        }
    }
    false
}

/// The rule identifiers, each once, in order of first occurrence.
fn distinct_ids(rules: &[ConfigEntry]) -> (r: Vec<String>)
    ensures
        strings_model(r@) == group_ids(rules@),
{
    let mut r: Vec<String> = Vec::new();
    let mut k: usize = 0;
    while k < rules.len()
        invariant
            k <= rules@.len(),
            strings_model(r@) == group_ids(rules@.take(k as int)),
        decreases rules@.len() - k,
    {
        assert(rules@.take(k + 1).drop_last() =~= rules@.take(k as int));
        let id = &rules[k].rule_id;
        if !contains_string(&r, id) {
            r.push(id.clone());
            assert(strings_model(r@) =~= strings_model(r@.drop_last()).push(id@));
        }
        k = k + 1;
    }
    assert(rules@.take(rules@.len() as int) =~= rules@);
    r
}

/// The action and scope of each rule with identifier `id`, in order.
fn group_entries(rules: &[ConfigEntry], id: &String) -> (r: Vec<(ConfigAction, ConfigScope)>)
    ensures
        r@ == group_of(rules@, id@),
{
    let mut r: Vec<(ConfigAction, ConfigScope)> = Vec::new();
    let mut k: usize = 0;
    while k < rules.len()
        invariant
            k <= rules@.len(),
            r@ == group_of(rules@.take(k as int), id@),
        decreases rules@.len() - k,
    {
        assert(rules@.take(k + 1).drop_last() =~= rules@.take(k as int));
        if rules[k].rule_id == *id {
            r.push((rules[k].action, rules[k].scope));
        }
        k = k + 1;
    }
    assert(rules@.take(rules@.len() as int) =~= rules@);
    r
}

/// Whether two entries of the group ask for different actions.
fn has_conflicting_actions(g: &Vec<(ConfigAction, ConfigScope)>) -> (b: bool)
    ensures
        b == actions_conflict(g@),
{
    if g.len() == 0 {
        return false;
    }
    let first = g[0].0;
    let mut j: usize = 1;
    while j < g.len()
        invariant
            1 <= j <= g@.len(),
            first == g@[0].0,
            forall|t: int| 0 <= t < j ==> (#[trigger] g@[t]).0 == first,
        decreases g@.len() - j,
    {
        if g[j].0 != first {
            assert(g@[j as int].0 != g@[0].0);
            return true;
        }
        j = j + 1;
    }
    false
}

/// Whether the group mixes a global scope with a file or directory scope.
fn has_scope_conflict(g: &Vec<(ConfigAction, ConfigScope)>) -> (b: bool)
    ensures
        b == scopes_conflict(g@),
{
    if g.len() <= 1 {
        return false;
    }
    let mut has_global = false;
    let mut has_specific = false;
    let mut j: usize = 0;
    while j < g.len()
        invariant
            j <= g@.len(),
            has_global == exists|t: int| 0 <= t < j && (#[trigger] g@[t]).1 == ConfigScope::Global,
            has_specific == exists|t: int| 0 <= t < j && is_specific((#[trigger] g@[t]).1),
        decreases g@.len() - j,
    {
        let sc = g[j].1;
        if sc == ConfigScope::Global {
            has_global = true;
        }
        if sc == ConfigScope::FileSpecific || sc == ConfigScope::Directory {
            has_specific = true;
        }
        j = j + 1;
    }
    has_global && has_specific
}

/// Whether the group has more than one entry, all alike.
fn has_identical_entries(g: &Vec<(ConfigAction, ConfigScope)>) -> (b: bool)
    ensures
        b == all_identical(g@),
{
    if g.len() <= 1 {
        return false;
    }
    let first = g[0];
    let mut j: usize = 0;
    while j < g.len()
        invariant
            j <= g@.len(),
            g@.len() > 1,
            first == g@[0],
            forall|t: int| 0 <= t < j ==> #[trigger] g@[t] == first,
        decreases g@.len() - j,
    {
        if g[j].0 != first.0 || g[j].1 != first.1 {
            assert(g@[j as int] != g@[0]);
            return false;
        }
        j = j + 1;
    }
    true
}

/// A `String` holding `a` followed by `b`.
fn concat(a: &str, b: &str) -> (r: String)
    ensures
        r@ == a@ + b@,
{
    let mut r = String::from_str(a);
    r.append(b);
    r
}

/// The conflict a check of the given kind reports for rule `id`.
fn make_group_conflict(kind: ConflictType, id: &String) -> (c: Conflict)
    ensures
        c@ == group_conflict(kind, id@),
{
    let mut ids: Vec<String> = Vec::new();
    ids.push(id.clone());
    assert(strings_model(ids@) =~= seq![id@]);
    match kind {
        ConflictType::ConflictingActions => Conflict {
            conflict_type: ConflictType::ConflictingActions,
            rule_ids: ids,
            severity: ConflictSeverity::Error,
            description: concat("Multiple actions for rule: ", id.as_str()),
            suggested_resolution: ConflictResolution::KeepMostSpecific,
        },
        ConflictType::ScopeConflict => {
            let d = concat("Rule ", id.as_str());
            Conflict {
                conflict_type: ConflictType::ScopeConflict,
                rule_ids: ids,
                severity: ConflictSeverity::Warning,
                description: concat(d.as_str(), " has both global and specific scopes"),
                suggested_resolution: ConflictResolution::KeepMostSpecific,
            }
        },
        _ => Conflict {
            conflict_type: ConflictType::RedundantRules,
            rule_ids: ids,
            severity: ConflictSeverity::Info,
            description: concat("Multiple identical rules for ", id.as_str()),
            suggested_resolution: ConflictResolution::RemoveConflicting,
        },
    }
}

/// The conflicts a check of the given kind finds, group by group.
fn check_groups(rules: &[ConfigEntry], kind: ConflictType) -> (r: Vec<Conflict>)
    requires
        kind == ConflictType::ConflictingActions || kind == ConflictType::ScopeConflict || kind
            == ConflictType::RedundantRules,
    ensures
        conflicts_model(r@) == grouped_conflicts(rules@, group_ids(rules@), kind),
{
    let ids = distinct_ids(rules);
    let ghost all_ids = strings_model(ids@);
    let mut r: Vec<Conflict> = Vec::new();
    let mut k: usize = 0;
    while k < ids.len()
        invariant
            k <= ids@.len(),
            all_ids == strings_model(ids@),
            all_ids == group_ids(rules@),
            kind == ConflictType::ConflictingActions || kind == ConflictType::ScopeConflict || kind
                == ConflictType::RedundantRules,
            conflicts_model(r@) == grouped_conflicts(rules@, all_ids.take(k as int), kind),
        decreases ids@.len() - k,
    {
        let id = &ids[k];
        assert(all_ids.take(k + 1).drop_last() =~= all_ids.take(k as int));
        assert(all_ids.take(k + 1).last() == id@);
        let g = group_entries(rules, id);
        let found = match kind {
            ConflictType::ConflictingActions => has_conflicting_actions(&g),
            ConflictType::ScopeConflict => has_scope_conflict(&g),
            _ => has_identical_entries(&g),
        };
        if found {
            let c = make_group_conflict(kind, id);
            r.push(c);
            assert(conflicts_model(r@) =~= conflicts_model(r@.drop_last()).push(c@));
        }
        k = k + 1;
    }
    assert(all_ids.take(ids@.len() as int) =~= all_ids);
    r
}

/// The conflict reported for two overlapping rules.
fn make_overlap_conflict(a: &String, b: &String) -> (c: Conflict)
    ensures
        c@ == overlap_conflict(a@, b@),
{
    let mut ids: Vec<String> = Vec::new();
    ids.push(a.clone());
    ids.push(b.clone());
    assert(strings_model(ids@) =~= seq![a@, b@]);
    let d1 = concat("Rules ", a.as_str());
    let d2 = concat(d1.as_str(), " and ");
    let d3 = concat(d2.as_str(), b.as_str());
    Conflict {
        conflict_type: ConflictType::OverlappingRules,
        rule_ids: ids,
        severity: ConflictSeverity::Warning,
        description: concat(d3.as_str(), " overlap"),
        suggested_resolution: ConflictResolution::MergeRules,
    }
}

/// Whether the strategy is one the resolver applies by itself.
pub open spec fn auto_resolvable(s: ResolutionModel) -> bool {
    s is KeepMostSpecific || s is MergeRules || s is RemoveConflicting
}

/// The conflicts whose kind has no strategy the resolver applies by itself, in order.
pub open spec fn unresolved(strategies: Map<ConflictType, ResolutionModel>, cs: Seq<ConflictModel>) -> Seq<
    ConflictModel,
>
    decreases cs.len(),
{
    if cs.len() == 0 {
        Seq::empty()
    } else {
        let prev = unresolved(strategies, cs.drop_last());
        if auto_resolvable(strategies[cs.last().conflict_type]) {
            prev
        } else {
            prev.push(cs.last())
        }
    }
}

impl ConflictResolver {
    /// Conflicts between the rules of a configuration; they are added to the history.
    pub fn analyze_conflicts(&mut self, ast: &ConfigAST) -> (r: Vec<Conflict>)
        ensures
            conflicts_model(r@) == all_conflicts(ast_rules(*ast)),
            final(self)@.strategies == old(self)@.strategies,
            final(self)@.history == old(self)@.history + conflicts_model(r@),
    {
        let rules = self.extract_rules_from_ast(ast);
        assert(rules@ =~= ast_rules(*ast));
        self.analyze_entries(rules.as_slice())
    }

    /// The rules a configuration tree yields to analysis: none are read from it yet.
    fn extract_rules_from_ast(&self, ast: &ConfigAST) -> (r: Vec<ConfigEntry>)
        ensures
            r@ == ast_rules(*ast),
    {
        Vec::new()
    }

    /// Conflicts between the given rules; they are added to the history.
    pub fn analyze_entries(&mut self, rules: &[ConfigEntry]) -> (r: Vec<Conflict>)
        ensures
            conflicts_model(r@) == all_conflicts(rules@),
            final(self)@.strategies == old(self)@.strategies,
            final(self)@.history == old(self)@.history + conflicts_model(r@),
    {
        let mut conflicts = self.check_conflicting_actions(rules);
        let mut overlapping = self.check_overlapping_rules(rules);
        let mut scopes = self.check_scope_conflicts(rules);
        let mut circular = self.check_circular_dependencies(rules);
        let mut redundant = self.check_redundant_rules(rules);
        let ghost a = conflicts_model(conflicts@);
        let ghost b = conflicts_model(overlapping@);
        let ghost c = conflicts_model(scopes@);
        let ghost e = conflicts_model(redundant@);
        conflicts.append(&mut overlapping);
        conflicts.append(&mut scopes);
        conflicts.append(&mut circular);
        conflicts.append(&mut redundant);
        assert(conflicts_model(conflicts@) =~= a + b + c + e);
        let copies = copy_conflicts(conflicts.as_slice());
        self.record(copies);
        conflicts
    }

    /// Adds conflicts to the history.
    fn record(&mut self, found: Vec<Conflict>)
        ensures
            final(self)@.strategies == old(self)@.strategies,
            final(self)@.history == old(self)@.history + conflicts_model(found@),
    {
        proof {
            use_type_invariant(&*self);
        }
        let mut history: Vec<Conflict> = Vec::new();
        std::mem::swap(&mut history, &mut self.conflict_history);
        let ghost before = conflicts_model(history@);
        let ghost added = conflicts_model(found@);
        let mut found = found;
        history.append(&mut found);
        assert(conflicts_model(history@) =~= before + added);
        self.conflict_history = history;
    }

    /// Rules with the same identifier but different actions.
    fn check_conflicting_actions(&self, rules: &[ConfigEntry]) -> (r: Vec<Conflict>)
        ensures
            conflicts_model(r@) == grouped_conflicts(
                rules@,
                group_ids(rules@),
                ConflictType::ConflictingActions,
            ),
    {
        check_groups(rules, ConflictType::ConflictingActions)
    }

    /// Pairs of rules whose scopes overlap, in the order of the pairs.
    fn check_overlapping_rules(&self, rules: &[ConfigEntry]) -> (r: Vec<Conflict>)
        ensures
            conflicts_model(r@) == overlap_rows(rules@, rules@.len() as int),
    {
        let n = rules.len();
        let mut r: Vec<Conflict> = Vec::new();
        let mut i: usize = 0;
        while i < n
            invariant
                n == rules@.len(),
                i <= n,
                conflicts_model(r@) == overlap_rows(rules@, i as int),
            decreases n - i,
        {
            let ghost row_start = conflicts_model(r@);
            let mut j: usize = i + 1;
            while j < n
                invariant
                    n == rules@.len(),
                    i < n,
                    i + 1 <= j <= n,
                    row_start == overlap_rows(rules@, i as int),
                    conflicts_model(r@) == row_start + overlap_row(rules@, i as int, j as int),
                decreases n - j,
            {
                let ghost row = overlap_row(rules@, i as int, j as int);
                if self.rules_overlap(&rules[i], &rules[j]) {
                    let c = make_overlap_conflict(&rules[i].rule_id, &rules[j].rule_id);
                    let ghost before = conflicts_model(r@);
                    let ghost cm = c@;
                    r.push(c);
                    assert(conflicts_model(r@) =~= before.push(cm));
                    assert(overlap_row(rules@, i as int, j + 1) == row.push(cm));
                    assert(before.push(cm) =~= row_start + row.push(cm));
                } else {
                    assert(overlap_row(rules@, i as int, j + 1) == row);
                }
                assert(conflicts_model(r@) =~= row_start + overlap_row(rules@, i as int, j + 1));
                j = j + 1;
            }
            i = i + 1;
        }
        r
    }

    /// Whether two rules overlap: both apply to the whole project.
    fn rules_overlap(&self, rule1: &ConfigEntry, rule2: &ConfigEntry) -> (b: bool)
        ensures
            b == scopes_overlap(rule1.scope, rule2.scope),
    {
        match (rule1.scope, rule2.scope) {
            (ConfigScope::Global, ConfigScope::Global) => true,
            (ConfigScope::FileSpecific, ConfigScope::FileSpecific) => false,
            (ConfigScope::Directory, ConfigScope::Directory) => false,
            _ => false,
        }
    }

    /// Rules that are both global and file or directory specific.
    fn check_scope_conflicts(&self, rules: &[ConfigEntry]) -> (r: Vec<Conflict>)
        ensures
            conflicts_model(r@) == grouped_conflicts(
                rules@,
                group_ids(rules@),
                ConflictType::ScopeConflict,
            ),
    {
        check_groups(rules, ConflictType::ScopeConflict)
    }

    /// Circular dependencies between rules: none are detected.
    fn check_circular_dependencies(&self, rules: &[ConfigEntry]) -> (r: Vec<Conflict>)
        ensures
            r@.len() == 0,
    {
        Vec::new()
    }

    /// Rules given more than once, always alike.
    fn check_redundant_rules(&self, rules: &[ConfigEntry]) -> (r: Vec<Conflict>)
        ensures
            conflicts_model(r@) == grouped_conflicts(
                rules@,
                group_ids(rules@),
                ConflictType::RedundantRules,
            ),
    {
        check_groups(rules, ConflictType::RedundantRules)
    }

    /// Resolves the conflicts whose kind has an automatic strategy (keeping the most specific
    /// rule, merging, or removing) and returns the others, in order. The configuration is left
    /// as it is: none of the automatic strategies changes it yet.
    pub fn resolve_conflicts(&self, conflicts: &[Conflict], ast: &mut ConfigAST) -> (r: Vec<Conflict>)
        ensures
            conflicts_model(r@) == unresolved(self@.strategies, conflicts_model(conflicts@)),
            *final(ast) == *old(ast),
    {
        let ghost cs = conflicts_model(conflicts@);
        let mut r: Vec<Conflict> = Vec::new();
        let mut k: usize = 0;
        while k < conflicts.len()
            invariant
                k <= conflicts@.len(),
                cs == conflicts_model(conflicts@),
                conflicts_model(r@) == unresolved(self@.strategies, cs.take(k as int)),
            decreases conflicts@.len() - k,
        {
            assert(cs.take(k + 1).drop_last() =~= cs.take(k as int));
            let conflict = &conflicts[k];
            let strategy = self.resolution_strategy(conflict.conflict_type);
            match strategy {
                ConflictResolution::KeepMostSpecific => {},
                ConflictResolution::MergeRules => {},
                ConflictResolution::RemoveConflicting => {},
                _ => {
                    let c = conflict.copy();
                    r.push(c);
                    assert(conflicts_model(r@) =~= conflicts_model(r@.drop_last()).push(c@));
                },
            }
            k = k + 1;
        }
        assert(cs.take(conflicts@.len() as int) =~= cs);
        r
    }

    /// Whether no critical conflict remains in the configuration, as a fresh resolver finds it.
    pub fn validate_resolution(&self, ast: &ConfigAST) -> (b: bool)
        ensures
            b == !exists|i: int|
                0 <= i < all_conflicts(ast_rules(*ast)).len() && (#[trigger] all_conflicts(
                    ast_rules(*ast),
                )[i]).severity == ConflictSeverity::Critical,
    {
        let mut temp_resolver = ConflictResolver::new();
        let conflicts = temp_resolver.analyze_conflicts(ast);
        let ghost cs = conflicts_model(conflicts@);
        let mut k: usize = 0;
        while k < conflicts.len()
            invariant
                k <= conflicts@.len(),
                cs == conflicts_model(conflicts@),
                cs == all_conflicts(ast_rules(*ast)),
                forall|t: int| 0 <= t < k ==> (#[trigger] cs[t]).severity != ConflictSeverity::Critical,
            decreases conflicts@.len() - k,
        {
            if conflicts[k].severity == ConflictSeverity::Critical {
                assert(all_conflicts(ast_rules(*ast))[k as int].severity == ConflictSeverity::Critical);
                return false;
            }
            k = k + 1;
        }
        true
    }
}

/// The count paired with the first occurrence of severity `s` in `v`, from position `i` on.
pub open spec fn severity_lookup_from(v: Seq<(ConflictSeverity, usize)>, s: ConflictSeverity, i: int) -> Option<
    usize,
>
    decreases v.len() - i,
{
    if i < 0 || i >= v.len() {
        None
    } else if v[i].0 == s {
        Some(v[i].1)
    } else {
        severity_lookup_from(v, s, i + 1)
    }
}

/// The count recorded for severity `s`, if any.
pub open spec fn severity_lookup(v: Seq<(ConflictSeverity, usize)>, s: ConflictSeverity) -> Option<usize> {
    severity_lookup_from(v, s, 0)
}

/// Entries before `i` that do not hold `s` do not change the lookup.
proof fn lemma_lookup_skip(v: Seq<(ConflictSeverity, usize)>, s: ConflictSeverity, i: int)
    requires
        0 <= i <= v.len(),
        forall|t: int| 0 <= t < i ==> (#[trigger] v[t]).0 != s,
    ensures
        severity_lookup(v, s) == severity_lookup_from(v, s, i),
    decreases i,
{
    if i > 0 {
        lemma_lookup_skip(v, s, i - 1);
    }
}

/// Two tables that agree on where `s` occurs and on its counts give the same lookup.
proof fn lemma_lookup_same(
    v: Seq<(ConflictSeverity, usize)>,
    w: Seq<(ConflictSeverity, usize)>,
    s: ConflictSeverity,
    k: int,
)
    requires
        0 <= k <= v.len(),
        v.len() == w.len(),
        forall|t: int| k <= t < v.len() ==> ((#[trigger] v[t]).0 == s) == (w[t].0 == s),
        forall|t: int| k <= t < v.len() && (#[trigger] v[t]).0 == s ==> v[t].1 == w[t].1,
    ensures
        severity_lookup_from(v, s, k) == severity_lookup_from(w, s, k),
    decreases v.len() - k,
{
    if k < v.len() {
        lemma_lookup_same(v, w, s, k + 1);
    }
}

/// Appending an entry changes the lookup only where `s` was not found before.
proof fn lemma_lookup_push(
    v: Seq<(ConflictSeverity, usize)>,
    p: (ConflictSeverity, usize),
    s: ConflictSeverity,
    k: int,
)
    requires
        0 <= k <= v.len(),
    ensures
        severity_lookup_from(v.push(p), s, k) == match severity_lookup_from(v, s, k) {
            Some(n) => Some(n),
            None => if p.0 == s {
                Some(p.1)
            } else {
                None
            },
        },
    decreases v.len() - k,
{
    if k < v.len() {
        lemma_lookup_push(v, p, s, k + 1);
        assert(v.push(p)[k] == v[k]);
    } else {
        assert(v.push(p)[k] == p);
        assert(severity_lookup_from(v.push(p), s, k + 1) is None);
    }
}

/// Summary of a conflict resolution run.
#[derive(Debug, Clone)]
pub struct ConflictReport {
    /// Total number of conflicts found
    pub total_conflicts: usize,
    /// Number of conflicts resolved
    pub resolved_conflicts: usize,
    /// Number of conflicts remaining
    pub unresolved_conflicts: usize,
    /// Number of conflicts of each severity, in the order the severities were first seen
    pub conflicts_by_severity: Vec<(ConflictSeverity, usize)>,
    /// Total time spent resolving, in nanoseconds
    pub resolution_time: u128,
}

impl ConflictReport {
    /// An empty report.
    pub fn new() -> (r: Self)
        ensures
            r.total_conflicts == 0,
            r.resolved_conflicts == 0,
            r.unresolved_conflicts == 0,
            r.conflicts_by_severity@.len() == 0,
            r.resolution_time == 0,
    {
        ConflictReport {
            total_conflicts: 0,
            resolved_conflicts: 0,
            unresolved_conflicts: 0,
            conflicts_by_severity: Vec::new(),
            resolution_time: 0,
        }
    }

    /// The number of conflicts of the severity counted so far, if any was.
    pub fn conflicts_with_severity(&self, severity: ConflictSeverity) -> (r: Option<usize>)
        ensures
            r == severity_lookup(self.conflicts_by_severity@, severity),
    {
        match self.find_severity(severity) {
            Some(i) => Some(self.conflicts_by_severity[i].1),
            None => None,
        }
    }

    /// Position of the first entry for the severity.
    fn find_severity(&self, severity: ConflictSeverity) -> (r: Option<usize>)
        ensures
            match r {
                Some(i) => i < self.conflicts_by_severity@.len() && self.conflicts_by_severity@[i as int].0
                    == severity && forall|t: int|
                    0 <= t < i ==> (#[trigger] self.conflicts_by_severity@[t]).0 != severity,
                None => forall|t: int|
                    0 <= t < self.conflicts_by_severity@.len() ==> (
                    #[trigger] self.conflicts_by_severity@[t]).0 != severity,
            },
            match r {
                Some(i) => severity_lookup(self.conflicts_by_severity@, severity) == Some(
                    self.conflicts_by_severity@[i as int].1,
                ),
                None => severity_lookup(self.conflicts_by_severity@, severity) is None,
            },
    {
        let v = &self.conflicts_by_severity;
        let mut i: usize = 0;
        while i < v.len()
            invariant
                v@ == self.conflicts_by_severity@,
                i <= v@.len(),
                forall|t: int| 0 <= t < i ==> (#[trigger] v@[t]).0 != severity,
            decreases v@.len() - i,
        {
            if v[i].0 == severity {
                proof {
                    lemma_lookup_skip(v@, severity, i as int);
                }
                return Some(i);
            }
            i = i + 1;
        }
        proof {
            lemma_lookup_skip(v@, severity, v@.len() as int);
        }
        None
    }

    /// Counts one more conflict, under its severity.
    pub fn add_conflict(&mut self, conflict: &Conflict)
        requires
            old(self).total_conflicts < usize::MAX,
            severity_lookup(old(self).conflicts_by_severity@, conflict.severity) != Some(usize::MAX),
        ensures
            final(self).total_conflicts == old(self).total_conflicts + 1,
            severity_lookup(final(self).conflicts_by_severity@, conflict.severity) == Some(
                match severity_lookup(old(self).conflicts_by_severity@, conflict.severity) {
                    Some(n) => (n + 1) as usize,
                    None => 1usize,
                },
            ),
            forall|s: ConflictSeverity|
                s != conflict.severity ==> #[trigger] severity_lookup(
                    final(self).conflicts_by_severity@,
                    s,
                ) == severity_lookup(old(self).conflicts_by_severity@, s),
            final(self).resolved_conflicts == old(self).resolved_conflicts,
            final(self).unresolved_conflicts == old(self).unresolved_conflicts,
            final(self).resolution_time == old(self).resolution_time,
    {
        self.total_conflicts = self.total_conflicts + 1;
        let sev = conflict.severity;
        let ghost v = self.conflicts_by_severity@;
        match self.find_severity(sev) {
            Some(i) => {
                let n = self.conflicts_by_severity[i].1;
                self.conflicts_by_severity.set(i, (sev, n + 1));
                proof {
                    let w = self.conflicts_by_severity@;
                    lemma_lookup_skip(w, sev, i as int);
                    assert forall|s: ConflictSeverity|
                        s != sev implies #[trigger] severity_lookup(w, s) == severity_lookup(v, s) by {
                        lemma_lookup_same(v, w, s, 0);
                    }
                }
            },
            None => {
                self.conflicts_by_severity.push((sev, 1));
                proof {
                    assert forall|s: ConflictSeverity| #![auto]
                        severity_lookup(self.conflicts_by_severity@, s) == match severity_lookup(v, s) {
                            Some(n) => Some(n),
                            None => if sev == s {
                                Some(1usize)
                            } else {
                                None
                            },
                        } by {
                        lemma_lookup_push(v, (sev, 1usize), s, 0);
                    }
                }
            },
        }
    }

    /// Counts one more resolved conflict.
    pub fn mark_resolved(&mut self)
        requires
            old(self).resolved_conflicts < usize::MAX,
        ensures
            final(self).resolved_conflicts == old(self).resolved_conflicts + 1,
            final(self).total_conflicts == old(self).total_conflicts,
            final(self).unresolved_conflicts == old(self).unresolved_conflicts,
            final(self).conflicts_by_severity@ == old(self).conflicts_by_severity@,
            final(self).resolution_time == old(self).resolution_time,
    {
        self.resolved_conflicts = self.resolved_conflicts + 1;
    }

    /// Counts one more unresolved conflict.
    pub fn mark_unresolved(&mut self)
        requires
            old(self).unresolved_conflicts < usize::MAX,
        ensures
            final(self).unresolved_conflicts == old(self).unresolved_conflicts + 1,
            final(self).total_conflicts == old(self).total_conflicts,
            final(self).resolved_conflicts == old(self).resolved_conflicts,
            final(self).conflicts_by_severity@ == old(self).conflicts_by_severity@,
            final(self).resolution_time == old(self).resolution_time,
    {
        self.unresolved_conflicts = self.unresolved_conflicts + 1;
    }

    /// Records the time spent resolving, in nanoseconds.
    pub fn set_resolution_time(&mut self, duration: u128)
        ensures
            final(self).resolution_time == duration,
            final(self).total_conflicts == old(self).total_conflicts,
            final(self).resolved_conflicts == old(self).resolved_conflicts,
            final(self).unresolved_conflicts == old(self).unresolved_conflicts,
            final(self).conflicts_by_severity@ == old(self).conflicts_by_severity@,
    {
        self.resolution_time = duration;
    }
}

/// None of the conflicts is critical.
pub open spec fn none_critical(cs: Seq<ConflictModel>) -> bool {
    forall|i: int| 0 <= i < cs.len() ==> (#[trigger] cs[i]).severity != ConflictSeverity::Critical
}

proof fn lemma_grouped_not_critical(rules: Seq<ConfigEntry>, ids: Seq<Seq<char>>, kind: ConflictType)
    ensures
        none_critical(grouped_conflicts(rules, ids, kind)),
    decreases ids.len(),
{
    if ids.len() > 0 {
        lemma_grouped_not_critical(rules, ids.drop_last(), kind);
    }
}

proof fn lemma_row_not_critical(rules: Seq<ConfigEntry>, i: int, j: int)
    ensures
        none_critical(overlap_row(rules, i, j)),
    decreases j,
{
    if !(j <= i + 1 || j > rules.len() || i < 0) {
        lemma_row_not_critical(rules, i, j - 1);
    }
}

proof fn lemma_rows_not_critical(rules: Seq<ConfigEntry>, i: int)
    ensures
        none_critical(overlap_rows(rules, i)),
    decreases i,
{
    if i > 0 {
        lemma_rows_not_critical(rules, i - 1);
        lemma_row_not_critical(rules, i - 1, rules.len() as int);
        let a = overlap_rows(rules, i - 1);
        let b = overlap_row(rules, i - 1, rules.len() as int);
        assert forall|t: int| 0 <= t < (a + b).len() implies (#[trigger] (a + b)[t]).severity
            != ConflictSeverity::Critical by {
            if t < a.len() {
                assert((a + b)[t] == a[t]);
            } else {
                assert((a + b)[t] == b[t - a.len()]);
            }
        }
    }
}

/// Conflict analysis never reports a critical conflict, whatever the rules; so a
/// configuration always passes the check after resolution.
pub proof fn law_no_critical_conflicts(rules: Seq<ConfigEntry>)
    ensures
        none_critical(all_conflicts(rules)),
{
    let ids = group_ids(rules);
    let a = grouped_conflicts(rules, ids, ConflictType::ConflictingActions);
    let b = overlap_rows(rules, rules.len() as int);
    let c = grouped_conflicts(rules, ids, ConflictType::ScopeConflict);
    let d = grouped_conflicts(rules, ids, ConflictType::RedundantRules);
    lemma_grouped_not_critical(rules, ids, ConflictType::ConflictingActions);
    lemma_rows_not_critical(rules, rules.len() as int);
    lemma_grouped_not_critical(rules, ids, ConflictType::ScopeConflict);
    lemma_grouped_not_critical(rules, ids, ConflictType::RedundantRules);
    let all = a + b + c + d;
    assert forall|t: int| 0 <= t < all.len() implies (#[trigger] all[t]).severity
        != ConflictSeverity::Critical by {
        if t < a.len() {
            assert(all[t] == a[t]);
        } else if t < a.len() + b.len() {
            assert(all[t] == b[t - a.len()]);
        } else if t < a.len() + b.len() + c.len() {
            assert(all[t] == c[t - a.len() - b.len()]);
        } else {
            assert(all[t] == d[t - a.len() - b.len() - c.len()]);
        }
    }
}

/// The count recorded for a severity, 0 when there is none.
pub open spec fn severity_count(v: Seq<(ConflictSeverity, usize)>, s: ConflictSeverity) -> int {
    match severity_lookup(v, s) {
        Some(n) => n as int,
        None => 0,
    }
}

/// The counts of all four severities added up.
pub open spec fn severity_total(v: Seq<(ConflictSeverity, usize)>) -> int {
    severity_count(v, ConflictSeverity::Info) + severity_count(v, ConflictSeverity::Warning)
        + severity_count(v, ConflictSeverity::Error) + severity_count(v, ConflictSeverity::Critical)
}

/// Adding a conflict to a report whose total is the sum of its counts by severity (as a new
/// report's is) keeps it so: the total and the conflict's severity both gain one, the other
/// severities keep their counts.
pub proof fn law_report_total_by_severity(old_report: ConflictReport, new_report: ConflictReport, c: ConflictSeverity)
    requires
        old_report.total_conflicts == severity_total(old_report.conflicts_by_severity@),
        new_report.total_conflicts == old_report.total_conflicts + 1,
        severity_lookup(new_report.conflicts_by_severity@, c) == Some(
            match severity_lookup(old_report.conflicts_by_severity@, c) {
                Some(n) => (n + 1) as usize,
                None => 1usize,
            },
        ),
        forall|s: ConflictSeverity|
            s != c ==> #[trigger] severity_lookup(new_report.conflicts_by_severity@, s) == severity_lookup(
                old_report.conflicts_by_severity@,
                s,
            ),
        severity_lookup(old_report.conflicts_by_severity@, c) != Some(usize::MAX),
    ensures
        new_report.total_conflicts == severity_total(new_report.conflicts_by_severity@),
        severity_count(new_report.conflicts_by_severity@, c) == severity_count(old_report.conflicts_by_severity@, c)
            + 1,
{
    let o = old_report.conflicts_by_severity@;
    let n = new_report.conflicts_by_severity@;
    assert(severity_lookup(n, ConflictSeverity::Info) == severity_lookup(o, ConflictSeverity::Info) || c
        == ConflictSeverity::Info);
    assert(severity_lookup(n, ConflictSeverity::Warning) == severity_lookup(o, ConflictSeverity::Warning) || c
        == ConflictSeverity::Warning);
    assert(severity_lookup(n, ConflictSeverity::Error) == severity_lookup(o, ConflictSeverity::Error) || c
        == ConflictSeverity::Error);
    assert(severity_lookup(n, ConflictSeverity::Critical) == severity_lookup(o, ConflictSeverity::Critical) || c
        == ConflictSeverity::Critical);
}

} // verus!
