//! Structural difference between two configuration trees: key insertions, updates and
//! removals in objects, and element edits in arrays.
use vstd::prelude::*;
use crate::config::{ASTNode, NodeModel, NodeType, lemma_node_models};
use crate::text::{decimal, usize_to_decimal};

verus! {

/// A single change in the AST.
#[derive(Debug)]
pub enum AstChange {
    /// Insert key at path with value
    Insert {
        /// Path of keys/indexes to the parent node
        path: Vec<String>,
        /// Key (or index as string) being inserted
        key: String,
        /// Value node to insert
        value: ASTNode,
    },
    /// Update key at path from old to new value
    Update {
        /// Path of keys/indexes to the parent node
        path: Vec<String>,
        /// Key (or index as string) being updated
        key: String,
        /// Old value
        old: ASTNode,
        /// New value
        new: ASTNode,
    },
    /// Remove key at path
    Remove {
        /// Path of keys/indexes to the parent node
        path: Vec<String>,
        /// Key (or index as string) being removed
        key: String,
    },
}

/// The mathematical content of an [`AstChange`].
pub enum ChangeModel {
    Insert { path: Seq<Seq<char>>, key: Seq<char>, value: NodeModel },
    Update { path: Seq<Seq<char>>, key: Seq<char>, old: NodeModel, new: NodeModel },
    Remove { path: Seq<Seq<char>>, key: Seq<char> },
}

/// The characters of each string of a path.
pub open spec fn path_model(p: Seq<String>) -> Seq<Seq<char>> {
    p.map_values(|s: String| s@)
}

impl View for AstChange {
    type V = ChangeModel;

    open spec fn view(&self) -> ChangeModel {
        match self {
            AstChange::Insert { path, key, value } => ChangeModel::Insert {
                path: path_model(path@),
                key: key@,
                value: value@,
            },
            AstChange::Update { path, key, old, new } => ChangeModel::Update {
                path: path_model(path@),
                key: key@,
                old: old@,
                new: new@,
            },
            AstChange::Remove { path, key } => ChangeModel::Remove {
                path: path_model(path@),
                key: key@,
            },
        }
    }
}

/// The models of a sequence of changes.
pub open spec fn changes_model(s: Seq<AstChange>) -> Seq<ChangeModel> {
    s.map_values(|c: AstChange| c@)
}

/// The key of a key/value child: the value of its first child, when it has exactly two.
pub open spec fn kv_key(kv: NodeModel) -> Option<Seq<char>> {
    if kv.children.len() == 2 {
        kv.children[0].value
    } else {
        None
    }
}

/// First position at or after `i` whose key is `k`, or -1.
pub open spec fn find_from(ents: Seq<(Seq<char>, int)>, k: Seq<char>, i: int) -> int
    decreases ents.len() - i,
{
    if i < 0 || i >= ents.len() {
        -1
    } else if ents[i].0 == k {
        i
    } else {
        find_from(ents, k, i + 1)
    }
}

/// The entries of an object's children as a map with insertion order: each key once, at
/// the place where it first occurs, paired with the position of the last child that
/// carries it (a later child with the same key replaces the value).
pub open spec fn entries(c: Seq<NodeModel>) -> Seq<(Seq<char>, int)>
    decreases c.len(),
{
    if c.len() == 0 {
        Seq::empty()
    } else {
        let prev = entries(c.drop_last());
        match kv_key(c.last()) {
            Some(k) => {
                let p = find_from(prev, k, 0);
                if p >= 0 {
                    prev.update(p, (k, c.len() - 1))
                } else {
                    prev.push((k, c.len() - 1))
                }
            },
            None => prev,
        }
    }
}

/// The value stored under entry `e`.
pub open spec fn entry_value(c: Seq<NodeModel>, e: (Seq<char>, int)) -> NodeModel {
    c[e.1].children[1]
}

pub proof fn lemma_find_from(ents: Seq<(Seq<char>, int)>, k: Seq<char>, i: int)
    requires
        0 <= i,
    ensures
        find_from(ents, k, i) == -1 || (i <= find_from(ents, k, i) < ents.len() && ents[find_from(ents, k, i)].0 == k),
        find_from(ents, k, i) == -1 ==> forall|t: int| i <= t < ents.len() ==> ents[t].0 != k,
        find_from(ents, k, i) >= 0 ==> forall|t: int| i <= t < find_from(ents, k, i) ==> ents[t].0 != k,
    decreases ents.len() - i,
{
    if i < ents.len() && ents[i].0 != k {
        lemma_find_from(ents, k, i + 1);
    }
}

/// Every entry points at a key/value child that carries its key.
pub proof fn lemma_entries(c: Seq<NodeModel>)
    ensures
        forall|t: int|
            0 <= t < entries(c).len() ==> {
                &&& 0 <= #[trigger] entries(c)[t].1 < c.len()
                &&& c[entries(c)[t].1].children.len() == 2
                &&& kv_key(c[entries(c)[t].1]) == Some(entries(c)[t].0)
            },
    decreases c.len(),
{
    if c.len() > 0 {
        let prev = entries(c.drop_last());
        lemma_entries(c.drop_last());
        match kv_key(c.last()) {
            Some(k) => {
                lemma_find_from(prev, k, 0);
            },
            None => {},
        }
    }
}

/// Changes between `old` and `new`, reached at `path`.
pub open spec fn diff(old: NodeModel, new: NodeModel, path: Seq<Seq<char>>) -> Seq<ChangeModel>
    decreases old, 2nat, 0nat,
{
    if old.node_type == NodeType::Object && new.node_type == NodeType::Object {
        diff_entries(old, new, path, 0) + object_inserts(old, new, path, 0)
    } else if old.node_type == NodeType::Array && new.node_type == NodeType::Array {
        diff_items(old, new, path, 0) + array_tail(old, new, path)
    } else if old.value != new.value || old.node_type != new.node_type {
        seq![ChangeModel::Update { path, key: Seq::empty(), old, new }]
    } else {
        Seq::empty()
    }
}

/// Changes for the old object's entries from the `k`-th on: a recursive diff where the key
/// is still present, a removal where it is gone.
pub open spec fn diff_entries(old: NodeModel, new: NodeModel, path: Seq<Seq<char>>, k: int) -> Seq<
    ChangeModel,
>
    decreases old, 1nat, (entries(old.children).len() - k) as nat,
{
    let oe = entries(old.children);
    if k < 0 || k >= oe.len() {
        Seq::empty()
    } else {
        let key = oe[k].0;
        let ne = entries(new.children);
        let j = find_from(ne, key, 0);
        let here = if j >= 0 {
            proof {
                lemma_entries(old.children);
                assert(0 <= oe[k].1 < old.children.len());
            }
            diff(entry_value(old.children, oe[k]), entry_value(new.children, ne[j]), path.push(key))
        } else {
            seq![ChangeModel::Remove { path, key }]
        };
        here + diff_entries(old, new, path, k + 1)
    }
}

/// Insertions for the new object's entries from the `k`-th on whose key the old object lacks.
pub open spec fn object_inserts(old: NodeModel, new: NodeModel, path: Seq<Seq<char>>, k: int) -> Seq<
    ChangeModel,
>
    decreases entries(new.children).len() - k,
{
    let ne = entries(new.children);
    if k < 0 || k >= ne.len() {
        Seq::empty()
    } else {
        let key = ne[k].0;
        let here = if find_from(entries(old.children), key, 0) < 0 {
            seq![ChangeModel::Insert { path, key, value: entry_value(new.children, ne[k]) }]
        } else {
            Seq::empty()
        };
        here + object_inserts(old, new, path, k + 1)
    }
}

/// The number of positions both arrays have.
pub open spec fn common_len(old: NodeModel, new: NodeModel) -> int {
    if old.children.len() <= new.children.len() {
        old.children.len() as int
    } else {
        new.children.len() as int
    }
}

/// Changes between the elements at the same positions, from position `i` on.
pub open spec fn diff_items(old: NodeModel, new: NodeModel, path: Seq<Seq<char>>, i: int) -> Seq<
    ChangeModel,
>
    decreases old, 1nat, (common_len(old, new) - i) as nat,
{
    if i < 0 || i >= common_len(old, new) {
        Seq::empty()
    } else {
        diff(old.children[i], new.children[i], path.push(decimal(i as nat))) + diff_items(
            old,
            new,
            path,
            i + 1,
        )
    }
}

/// Removals of the positions only the old array has, or insertions of those only the new
/// one has.
pub open spec fn array_tail(old: NodeModel, new: NodeModel, path: Seq<Seq<char>>) -> Seq<
    ChangeModel,
> {
    let lo = old.children.len() as int;
    let ln = new.children.len() as int;
    if lo > ln {
        Seq::new(
            (lo - ln) as nat,
            |t: int| ChangeModel::Remove { path, key: decimal((ln + t) as nat) },
        )
    } else {
        Seq::new(
            (ln - lo) as nat,
            |t: int|
                ChangeModel::Insert {
                    path,
                    key: decimal((lo + t) as nat),
                    value: new.children[lo + t],
                },
        )
    }
}

/// Law: a tree has no changes with respect to itself.
pub proof fn law_diff_self_empty(n: NodeModel, path: Seq<Seq<char>>)
    ensures
        diff(n, n, path) == Seq::<ChangeModel>::empty(),
    decreases n, 2nat, 0nat,
{
    if n.node_type == NodeType::Object {
        lemma_diff_entries_self(n, path, 0);
        lemma_object_inserts_self(n, path, 0);
    } else if n.node_type == NodeType::Array {
        lemma_diff_items_self(n, path, 0);
        assert(array_tail(n, n, path) =~= Seq::<ChangeModel>::empty());
    }
}

proof fn lemma_diff_entries_self(n: NodeModel, path: Seq<Seq<char>>, k: int)
    ensures
        diff_entries(n, n, path, k) == Seq::<ChangeModel>::empty(),
    decreases n, 1nat, (entries(n.children).len() - k) as nat,
{
    let oe = entries(n.children);
    if 0 <= k < oe.len() {
        let key = oe[k].0;
        lemma_find_from(oe, key, 0);
        let j = find_from(oe, key, 0);
        lemma_unique_keys(n.children);
        assert(j == k);
        lemma_entries(n.children);
        law_diff_self_empty(entry_value(n.children, oe[k]), path.push(key));
        lemma_diff_entries_self(n, path, k + 1);
        assert(diff_entries(n, n, path, k) =~= Seq::<ChangeModel>::empty());
    }
}

proof fn lemma_object_inserts_self(n: NodeModel, path: Seq<Seq<char>>, k: int)
    ensures
        object_inserts(n, n, path, k) == Seq::<ChangeModel>::empty(),
    decreases entries(n.children).len() - k,
{
    let ne = entries(n.children);
    if 0 <= k < ne.len() {
        lemma_find_from(ne, ne[k].0, 0);
        lemma_object_inserts_self(n, path, k + 1);
        assert(object_inserts(n, n, path, k) =~= Seq::<ChangeModel>::empty());
    }
}

proof fn lemma_diff_items_self(n: NodeModel, path: Seq<Seq<char>>, i: int)
    ensures
        diff_items(n, n, path, i) == Seq::<ChangeModel>::empty(),
    decreases n, 1nat, (common_len(n, n) - i) as nat,
{
    if 0 <= i < common_len(n, n) {
        law_diff_self_empty(n.children[i], path.push(decimal(i as nat)));
        lemma_diff_items_self(n, path, i + 1);
        assert(diff_items(n, n, path, i) =~= Seq::<ChangeModel>::empty());
    }
}

/// Two trees that differ at most in their nodes' metadata maps.
pub open spec fn same_but_metadata(a: NodeModel, b: NodeModel) -> bool
    decreases a,
{
    &&& a.node_type == b.node_type
    &&& a.value == b.value
    &&& a.children.len() == b.children.len()
    &&& forall|i: int| 0 <= i < a.children.len() ==> same_but_metadata(#[trigger] a.children[i], b.children[i])
}

/// Children that differ at most in metadata have the same entries.
proof fn lemma_entries_same(c: Seq<NodeModel>, d: Seq<NodeModel>)
    requires
        c.len() == d.len(),
        forall|i: int| 0 <= i < c.len() ==> same_but_metadata(#[trigger] c[i], d[i]),
    ensures
        entries(c) == entries(d),
    decreases c.len(),
{
    if c.len() > 0 {
        let n = c.len() - 1;
        assert(same_but_metadata(c[n], d[n]));
        assert forall|i: int| 0 <= i < c.drop_last().len() implies same_but_metadata(
            #[trigger] c.drop_last()[i],
            d.drop_last()[i],
        ) by {
            assert(c.drop_last()[i] == c[i] && d.drop_last()[i] == d[i]);
            assert(same_but_metadata(c[i], d[i]));
        }
        lemma_entries_same(c.drop_last(), d.drop_last());
        if c[n].children.len() == 2 {
            assert(same_but_metadata(c[n].children[0], d[n].children[0]));
        }
        assert(kv_key(c.last()) == kv_key(d.last()));
    }
}

/// Law: the difference of two trees that differ only in their nodes' metadata is empty:
/// the difference never looks at metadata.
pub proof fn law_diff_ignores_metadata(a: NodeModel, b: NodeModel, path: Seq<Seq<char>>)
    requires
        same_but_metadata(a, b),
    ensures
        diff(a, b, path) == Seq::<ChangeModel>::empty(),
    decreases a, 2nat, 0nat,
{
    if a.node_type == NodeType::Object {
        lemma_diff_entries_same(a, b, path, 0);
        lemma_object_inserts_same(a, b, path, 0);
    } else if a.node_type == NodeType::Array {
        lemma_diff_items_same(a, b, path, 0);
        assert(array_tail(a, b, path) =~= Seq::<ChangeModel>::empty());
    }
}

proof fn lemma_diff_entries_same(a: NodeModel, b: NodeModel, path: Seq<Seq<char>>, k: int)
    requires
        same_but_metadata(a, b),
    ensures
        diff_entries(a, b, path, k) == Seq::<ChangeModel>::empty(),
    decreases a, 1nat, (entries(a.children).len() - k) as nat,
{
    let oe = entries(a.children);
    if 0 <= k < oe.len() {
        lemma_entries_same(a.children, b.children);
        let key = oe[k].0;
        lemma_find_from(oe, key, 0);
        let j = find_from(oe, key, 0);
        lemma_unique_keys(a.children);
        assert(j == k);
        lemma_entries(a.children);
        let p = oe[k].1;
        assert(same_but_metadata(a.children[p], b.children[p]));
        assert(same_but_metadata(a.children[p].children[1], b.children[p].children[1]));
        law_diff_ignores_metadata(entry_value(a.children, oe[k]), entry_value(b.children, oe[k]), path.push(key));
        lemma_diff_entries_same(a, b, path, k + 1);
        assert(diff_entries(a, b, path, k) =~= Seq::<ChangeModel>::empty());
    }
}

proof fn lemma_object_inserts_same(a: NodeModel, b: NodeModel, path: Seq<Seq<char>>, k: int)
    requires
        same_but_metadata(a, b),
    ensures
        object_inserts(a, b, path, k) == Seq::<ChangeModel>::empty(),
    decreases entries(b.children).len() - k,
{
    let ne = entries(b.children);
    if 0 <= k < ne.len() {
        lemma_entries_same(a.children, b.children);
        lemma_find_from(ne, ne[k].0, 0);
        lemma_object_inserts_same(a, b, path, k + 1);
        assert(object_inserts(a, b, path, k) =~= Seq::<ChangeModel>::empty());
    }
}

proof fn lemma_diff_items_same(a: NodeModel, b: NodeModel, path: Seq<Seq<char>>, i: int)
    requires
        same_but_metadata(a, b),
    ensures
        diff_items(a, b, path, i) == Seq::<ChangeModel>::empty(),
    decreases a, 1nat, (common_len(a, b) - i) as nat,
{
    if 0 <= i < common_len(a, b) {
        assert(same_but_metadata(a.children[i], b.children[i]));
        law_diff_ignores_metadata(a.children[i], b.children[i], path.push(decimal(i as nat)));
        lemma_diff_items_same(a, b, path, i + 1);
        assert(diff_items(a, b, path, i) =~= Seq::<ChangeModel>::empty());
    }
}

/// The path of the node a change is about.
pub open spec fn change_path(c: ChangeModel) -> Seq<Seq<char>> {
    match c {
        ChangeModel::Insert { path, .. } => path,
        ChangeModel::Update { path, .. } => path,
        ChangeModel::Remove { path, .. } => path,
    }
}

/// Every change is about a node at least `n` steps deep.
pub open spec fn paths_at_least(s: Seq<ChangeModel>, n: int) -> bool {
    forall|j: int| 0 <= j < s.len() ==> #[trigger] change_path(s[j]).len() >= n
}

proof fn lemma_concat_paths(x: Seq<ChangeModel>, y: Seq<ChangeModel>, n: int)
    requires
        paths_at_least(x, n),
        paths_at_least(y, n),
    ensures
        paths_at_least(x + y, n),
{
    assert forall|j: int| 0 <= j < (x + y).len() implies #[trigger] change_path((x + y)[j]).len() >= n by {
        if j < x.len() {
            assert((x + y)[j] == x[j]);
        } else {
            assert((x + y)[j] == y[j - x.len()]);
        }
    }
}

/// Every change of a difference reached at `path` is about a node at or below `path`'s depth.
proof fn lemma_diff_paths(a: NodeModel, b: NodeModel, path: Seq<Seq<char>>)
    ensures
        paths_at_least(diff(a, b, path), path.len() as int),
    decreases a, 2nat, 0nat,
{
    if a.node_type == NodeType::Object && b.node_type == NodeType::Object {
        lemma_entries_paths(a, b, path, 0);
        lemma_inserts_paths(a, b, path, 0);
        lemma_concat_paths(diff_entries(a, b, path, 0), object_inserts(a, b, path, 0), path.len() as int);
    } else if a.node_type == NodeType::Array && b.node_type == NodeType::Array {
        lemma_items_paths(a, b, path, 0);
        let t = array_tail(a, b, path);
        assert(paths_at_least(t, path.len() as int));
        lemma_concat_paths(diff_items(a, b, path, 0), t, path.len() as int);
    }
}

proof fn lemma_entries_paths(a: NodeModel, b: NodeModel, path: Seq<Seq<char>>, k: int)
    ensures
        paths_at_least(diff_entries(a, b, path, k), path.len() as int),
    decreases a, 1nat, (entries(a.children).len() - k) as nat,
{
    let oe = entries(a.children);
    if 0 <= k < oe.len() {
        let key = oe[k].0;
        let ne = entries(b.children);
        let j = find_from(ne, key, 0);
        lemma_entries(a.children);
        assert(0 <= oe[k].1 < a.children.len());
        let here = if j >= 0 {
            diff(entry_value(a.children, oe[k]), entry_value(b.children, ne[j]), path.push(key))
        } else {
            seq![ChangeModel::Remove { path, key }]
        };
        if j >= 0 {
            lemma_diff_paths(entry_value(a.children, oe[k]), entry_value(b.children, ne[j]), path.push(key));
        }
        assert(paths_at_least(here, path.len() as int));
        lemma_entries_paths(a, b, path, k + 1);
        lemma_concat_paths(here, diff_entries(a, b, path, k + 1), path.len() as int);
        assert(diff_entries(a, b, path, k) == here + diff_entries(a, b, path, k + 1));
    }
}

proof fn lemma_inserts_paths(a: NodeModel, b: NodeModel, path: Seq<Seq<char>>, k: int)
    ensures
        paths_at_least(object_inserts(a, b, path, k), path.len() as int),
    decreases entries(b.children).len() - k,
{
    let ne = entries(b.children);
    if 0 <= k < ne.len() {
        let key = ne[k].0;
        let here = if find_from(entries(a.children), key, 0) < 0 {
            seq![ChangeModel::Insert { path, key, value: entry_value(b.children, ne[k]) }]
        } else {
            Seq::empty()
        };
        assert(paths_at_least(here, path.len() as int));
        lemma_inserts_paths(a, b, path, k + 1);
        lemma_concat_paths(here, object_inserts(a, b, path, k + 1), path.len() as int);
    }
}

proof fn lemma_items_paths(a: NodeModel, b: NodeModel, path: Seq<Seq<char>>, i: int)
    ensures
        paths_at_least(diff_items(a, b, path, i), path.len() as int + 1),
    decreases a, 1nat, (common_len(a, b) - i) as nat,
{
    if 0 <= i < common_len(a, b) {
        let p = path.push(decimal(i as nat));
        lemma_diff_paths(a.children[i], b.children[i], p);
        lemma_items_paths(a, b, path, i + 1);
        let here = diff(a.children[i], b.children[i], p);
        assert(paths_at_least(here, path.len() as int + 1));
        lemma_concat_paths(here, diff_items(a, b, path, i + 1), path.len() as int + 1);
    }
}

/// A change at `path`, if it is an insertion, is keyed by a position of `new` that `old`
/// lacks and carries `new`'s element there; if it is a removal, it is keyed by a position of
/// `old` that `new` lacks.
pub open spec fn keyed_by_index(c: ChangeModel, path: Seq<Seq<char>>, old: NodeModel, new: NodeModel) -> bool {
    match c {
        ChangeModel::Insert { path: q, key, value } => q == path ==> exists|i: int|
            old.children.len() <= i < new.children.len() && key == decimal(i as nat) && value
                == #[trigger] new.children[i],
        ChangeModel::Remove { path: q, key } => q == path ==> exists|i: int|
            new.children.len() <= i < old.children.len() && #[trigger] decimal(i as nat) == key,
        ChangeModel::Update { .. } => true,
    }
}

/// Law: in the difference of two arrays, every element inserted at the array itself is
/// keyed by its position in the new array, a position the old array lacks, and carries the
/// new array's element there; every element removed there is keyed by a position the old
/// array has and the new one lacks.
pub proof fn law_array_changes_keyed_by_index(old: NodeModel, new: NodeModel, path: Seq<Seq<char>>)
    requires
        old.node_type == NodeType::Array,
        new.node_type == NodeType::Array,
    ensures
        forall|j: int|
            0 <= j < diff(old, new, path).len() ==> keyed_by_index(#[trigger] diff(old, new, path)[j], path, old, new),
{
    let d = diff(old, new, path);
    let items = diff_items(old, new, path, 0);
    let tail = array_tail(old, new, path);
    lemma_items_paths(old, new, path, 0);
    assert(d == items + tail);
    let lo = old.children.len() as int;
    let ln = new.children.len() as int;
    assert forall|j: int| 0 <= j < d.len() implies keyed_by_index(#[trigger] d[j], path, old, new) by {
        if j < items.len() {
            assert(d[j] == items[j]);
            assert(change_path(items[j]).len() >= path.len() + 1);
            assert(change_path(d[j]) != path);
        } else {
            let t = j - items.len();
            assert(d[j] == tail[t]);
            if lo <= ln {
                let i = lo + t;
                assert(tail[t] == ChangeModel::Insert { path, key: decimal(i as nat), value: new.children[i] });
                assert(lo <= i < ln);
                assert(new.children[i] == new.children[i]);
            } else {
                let i = ln + t;
                assert(tail[t] == ChangeModel::Remove { path, key: decimal(i as nat) });
                assert(ln <= i < lo);
                assert(decimal(i as nat) == decimal(i as nat));
            }
        }
    }
}

/// No key occurs twice among the entries.
pub proof fn lemma_unique_keys(c: Seq<NodeModel>)
    ensures
        forall|s: int, t: int|
            0 <= s < t < entries(c).len() ==> #[trigger] entries(c)[s].0 != #[trigger] entries(
                c,
            )[t].0,
    decreases c.len(),
{
    if c.len() > 0 {
        let prev = entries(c.drop_last());
        lemma_unique_keys(c.drop_last());
        match kv_key(c.last()) {
            Some(k) => {
                lemma_find_from(prev, k, 0);
            },
            None => {},
        }
    }
}

// ---------------------------------------------------------------------------------------
// Executable difference.
/// A copy of a path of strings.
fn copy_path(p: &Vec<String>) -> (r: Vec<String>)
    ensures
        r@ == p@,
{
    let mut r: Vec<String> = Vec::new();
    let mut i: usize = 0;
    while i < p.len()
        invariant
            i <= p@.len(),
            r@ == p@.take(i as int),
        decreases p@.len() - i,
    {
        r.push(p[i].clone());
        assert(p@.take(i + 1) == p@.take(i as int).push(p@[i as int]));
        i = i + 1;
    }
    assert(p@.take(p@.len() as int) == p@);
    r
}

/// An executable entry table agrees with its model.
pub open spec fn entries_match(r: Seq<(String, usize)>, e: Seq<(Seq<char>, int)>) -> bool {
    &&& r.len() == e.len()
    &&& forall|t: int| 0 <= t < r.len() ==> #[trigger] r[t].0@ == e[t].0 && r[t].1 as int == e[t].1
}

fn push_change(out: &mut Vec<AstChange>, c: AstChange)
    ensures
        changes_model(final(out)@) == changes_model(old(out)@).push(c@),
{
    out.push(c);
    assert(changes_model(out@) =~= changes_model(old(out)@).push(c@));
}

/// The entries of an object node, as in [`entries`]: each key with the position of the
/// child that holds its value.
#[verifier::spinoff_prover]
fn collect_object(node: &ASTNode) -> (r: Vec<(String, usize)>)
    ensures
        entries_match(r@, entries(node@.children)),
{
    let mut map: Vec<(String, usize)> = Vec::new();
    let n = node.children.len();
    proof {
        lemma_node_models(node.children@);
    }
    let ghost c = node@.children;
    let mut i: usize = 0;
    while i < n
        invariant
            n == node.children@.len(),
            c == node@.children,
            c.len() == n,
            forall|t: int| 0 <= t < n ==> #[trigger] c[t] == node.children@[t]@,
            i <= n,
            entries_match(map@, entries(c.take(i as int))),
        decreases n - i,
    {
        let kv = &node.children[i];
        let ghost prefix = c.take(i + 1);
        let ghost prev = entries(c.take(i as int));
        assert(prefix.drop_last() == c.take(i as int));
        assert(prefix.last() == c[i as int]);
        assert(c[i as int] == kv@);
        proof {
            lemma_node_models(kv.children@);
        }
        if kv.children.len() == 2 {
            match &kv.children[0].value {
                Some(k) => {
                    assert(kv_key(kv@) == Some(k@));
                    match find_key(&map, k) {
                        Some(p) => {
                            proof {
                                assert forall|t: int| 0 <= t < p implies prev[t].0 != k@ by {
                                    assert(map@[t].0@ == prev[t].0);
                                }
                                lemma_find_matches(prev, k@, p as int);
                            }
                            let ghost before = map@;
                            let kc = k.clone();
                            map.set(p, (kc, i));
                            assert(entries(prefix) == prev.update(p as int, (k@, i as int)));
                            assert(map@ == before.update(p as int, (kc, i)));
                            assert forall|t: int| 0 <= t < map@.len() implies #[trigger] map@[t].0@
                                == entries(prefix)[t].0 && map@[t].1 as int == entries(prefix)[t].1 by {
                                if t != p {
                                    assert(before[t].0@ == prev[t].0 && before[t].1 as int == prev[t].1);
                                }
                            }
                            assert(map@.len() == entries(prefix).len());
                            assert(entries_match(map@, entries(prefix)));
                        },
                        None => {
                            proof {
                                assert forall|t: int| 0 <= t < prev.len() implies prev[t].0 != k@ by {
                                    assert(map@[t].0@ == prev[t].0);
                                }
                                lemma_find_absent(prev, k@);
                            }
                            let ghost before = map@;
                            let kc = k.clone();
                            map.push((kc, i));
                            assert(entries(prefix) == prev.push((k@, i as int)));
                            assert(map@ == before.push((kc, i)));
                            assert forall|t: int| 0 <= t < map@.len() implies #[trigger] map@[t].0@
                                == entries(prefix)[t].0 && map@[t].1 as int == entries(prefix)[t].1 by {
                                if t < before.len() {
                                    assert(before[t].0@ == prev[t].0 && before[t].1 as int == prev[t].1);
                                }
                            }
                            assert(map@.len() == entries(prefix).len());
                            assert(entries_match(map@, entries(prefix)));
                        },
                    }
                },
                None => {
                    assert(kv_key(kv@) == None::<Seq<char>>);
                    assert(entries(prefix) == prev);
                    assert(entries_match(map@, entries(prefix)));
                },
            }
        } else {
            assert(kv_key(kv@) == None::<Seq<char>>);
            assert(entries(prefix) == prev);
            assert(entries_match(map@, entries(prefix)));
        }
        i = i + 1;
    }
    assert(c.take(n as int) == c);
    map
}

/// Position of `key` among `ents`, as [`find_from`] from the start.
fn find_key(ents: &Vec<(String, usize)>, key: &String) -> (r: Option<usize>)
    ensures
        match r {
            Some(j) => j < ents@.len() && ents@[j as int].0@ == key@ && forall|t: int|
                0 <= t < j ==> ents@[t].0@ != key@,
            None => forall|t: int| 0 <= t < ents@.len() ==> ents@[t].0@ != key@,
        },
{
    let mut p: usize = 0;
    while p < ents.len()
        invariant
            p <= ents@.len(),
            forall|t: int| 0 <= t < p ==> ents@[t].0@ != key@,
        decreases ents@.len() - p,
    {
        if ents[p].0 == *key {
            return Some(p);
        }
        p = p + 1;
    }
    None
}

proof fn lemma_find_matches(ents: Seq<(Seq<char>, int)>, key: Seq<char>, j: int)
    requires
        0 <= j < ents.len(),
        ents[j].0 == key,
        forall|t: int| 0 <= t < j ==> ents[t].0 != key,
    ensures
        find_from(ents, key, 0) == j,
{
    lemma_find_from(ents, key, 0);
}

proof fn lemma_find_absent(ents: Seq<(Seq<char>, int)>, key: Seq<char>)
    requires
        forall|t: int| 0 <= t < ents.len() ==> ents[t].0 != key,
    ensures
        find_from(ents, key, 0) == -1,
{
    lemma_find_from(ents, key, 0);
}

fn diff_node_recursive(
    lhs: &ASTNode,
    rhs: &ASTNode,
    path: &mut Vec<String>,
    out: &mut Vec<AstChange>,
)
    ensures
        final(path)@ == old(path)@,
        changes_model(final(out)@) == changes_model(old(out)@) + diff(
            lhs@,
            rhs@,
            path_model(old(path)@),
        ),
    decreases lhs, 2nat,
{
    if lhs.node_type == NodeType::Object && rhs.node_type == NodeType::Object {
        diff_object(lhs, rhs, path, out);
    } else if lhs.node_type == NodeType::Array && rhs.node_type == NodeType::Array {
        diff_array(lhs, rhs, path, out);
    } else {
        let same_value = match (&lhs.value, &rhs.value) {
            (Some(a), Some(b)) => *a == *b,
            (None, None) => true,
            _ => false,
        };
        if !same_value || lhs.node_type != rhs.node_type {
            let c = AstChange::Update {
                path: copy_path(path),
                key: String::new(),
                old: lhs.copy(),
                new: rhs.copy(),
            };
            push_change(out, c);
            assert(diff(lhs@, rhs@, path_model(path@)) =~= seq![c@]);
        } else {
            assert(diff(lhs@, rhs@, path_model(path@)) =~= Seq::<ChangeModel>::empty());
        }
        assert(changes_model(out@) =~= changes_model(old(out)@) + diff(
            lhs@,
            rhs@,
            path_model(old(path)@),
        ));
    }
}

fn diff_object(lhs: &ASTNode, rhs: &ASTNode, path: &mut Vec<String>, out: &mut Vec<AstChange>)
    requires
        lhs.node_type == NodeType::Object,
        rhs.node_type == NodeType::Object,
    ensures
        final(path)@ == old(path)@,
        changes_model(final(out)@) == changes_model(old(out)@) + diff(
            lhs@,
            rhs@,
            path_model(old(path)@),
        ),
    decreases lhs, 1nat,
{
    let old_map = collect_object(lhs);
    let new_map = collect_object(rhs);
    let ghost pm = path_model(path@);
    let ghost oe = entries(lhs@.children);
    let ghost ne = entries(rhs@.children);
    let ghost start = changes_model(out@);
    proof {
        lemma_node_models(lhs.children@);
        lemma_node_models(rhs.children@);
        lemma_entries(lhs@.children);
        lemma_entries(rhs@.children);
    }
    // removals / updates
    let mut k: usize = 0;
    while k < old_map.len()
        invariant
            k <= old_map@.len(),
            old_map@.len() == oe.len(),
            new_map@.len() == ne.len(),
            oe == entries(lhs@.children),
            ne == entries(rhs@.children),
            entries_match(old_map@, oe),
            entries_match(new_map@, ne),
            forall|t: int|
                0 <= t < oe.len() ==> {
                    &&& 0 <= #[trigger] oe[t].1 < lhs@.children.len()
                    &&& lhs@.children[oe[t].1].children.len() == 2
                },
            forall|t: int|
                0 <= t < ne.len() ==> {
                    &&& 0 <= #[trigger] ne[t].1 < rhs@.children.len()
                    &&& rhs@.children[ne[t].1].children.len() == 2
                },
            lhs@.children.len() == lhs.children@.len(),
            rhs@.children.len() == rhs.children@.len(),
            forall|t: int| 0 <= t < lhs.children@.len() ==> #[trigger] lhs@.children[t] == lhs.children@[t]@,
            forall|t: int| 0 <= t < rhs.children@.len() ==> #[trigger] rhs@.children[t] == rhs.children@[t]@,
            path@ == old(path)@,
            pm == path_model(path@),
            start == changes_model(old(out)@),
            changes_model(out@) + diff_entries(lhs@, rhs@, pm, k as int) == start + diff_entries(
                lhs@,
                rhs@,
                pm,
                0,
            ),
        decreases old_map@.len() - k,
    {
        let key = &old_map[k].0;
        let oi = old_map[k].1;
        let ghost before = changes_model(out@);
        assert(diff_entries(lhs@, rhs@, pm, k as int) == {
            let j = find_from(ne, oe[k as int].0, 0);
            let here = if j >= 0 {
                diff(entry_value(lhs@.children, oe[k as int]), entry_value(rhs@.children, ne[j]), pm.push(oe[k as int].0))
            } else {
                seq![ChangeModel::Remove { path: pm, key: oe[k as int].0 }]
            };
            here + diff_entries(lhs@, rhs@, pm, k + 1)
        });
        match find_key(&new_map, key) {
            Some(j) => {
                proof {
                    assert forall|t: int| 0 <= t < j implies ne[t].0 != key@ by {
                        assert(new_map@[t].0@ == ne[t].0);
                    }
                    lemma_find_matches(ne, key@, j as int);
                }
                let ni = new_map[j].1;
                let okv = &lhs.children[oi];
                let nkv = &rhs.children[ni];
                proof {
                    lemma_node_models(okv.children@);
                    lemma_node_models(nkv.children@);
                }
                path.push(key.clone());
                assert(path_model(path@) =~= pm.push(key@));
                diff_node_recursive(&okv.children[1], &nkv.children[1], path, out);
                path.pop();
                assert(path@ =~= old(path)@);
            },
            None => {
                proof {
                    assert forall|t: int| 0 <= t < ne.len() implies ne[t].0 != key@ by {
                        assert(new_map@[t].0@ == ne[t].0);
                    }
                    lemma_find_absent(ne, key@);
                }
                let c = AstChange::Remove { path: copy_path(path), key: key.clone() };
                push_change(out, c);
                assert(seq![c@] =~= seq![ChangeModel::Remove { path: pm, key: oe[k as int].0 }]);
            },
        }
        assert(changes_model(out@) + diff_entries(lhs@, rhs@, pm, k + 1) =~= before
            + diff_entries(lhs@, rhs@, pm, k as int));
        k = k + 1;
    }
    // insertions
    let ghost mid = changes_model(out@);
    let mut k: usize = 0;
    while k < new_map.len()
        invariant
            k <= new_map@.len(),
            old_map@.len() == oe.len(),
            new_map@.len() == ne.len(),
            oe == entries(lhs@.children),
            ne == entries(rhs@.children),
            entries_match(old_map@, oe),
            entries_match(new_map@, ne),
            forall|t: int|
                0 <= t < ne.len() ==> {
                    &&& 0 <= #[trigger] ne[t].1 < rhs@.children.len()
                    &&& rhs@.children[ne[t].1].children.len() == 2
                },
            rhs@.children.len() == rhs.children@.len(),
            forall|t: int| 0 <= t < rhs.children@.len() ==> #[trigger] rhs@.children[t] == rhs.children@[t]@,
            path@ == old(path)@,
            pm == path_model(path@),
            changes_model(out@) + object_inserts(lhs@, rhs@, pm, k as int) == mid
                + object_inserts(lhs@, rhs@, pm, 0),
        decreases new_map@.len() - k,
    {
        let key = &new_map[k].0;
        let ni = new_map[k].1;
        let ghost before = changes_model(out@);
        match find_key(&old_map, key) {
            Some(j) => {
                proof {
                    assert forall|t: int| 0 <= t < j implies oe[t].0 != key@ by {
                        assert(old_map@[t].0@ == oe[t].0);
                    }
                    lemma_find_matches(oe, key@, j as int);
                }
            },
            None => {
                proof {
                    assert forall|t: int| 0 <= t < oe.len() implies oe[t].0 != key@ by {
                        assert(old_map@[t].0@ == oe[t].0);
                    }
                    lemma_find_absent(oe, key@);
                }
                let nkv = &rhs.children[ni];
                proof {
                    lemma_node_models(nkv.children@);
                }
                let c = AstChange::Insert {
                    path: copy_path(path),
                    key: key.clone(),
                    value: nkv.children[1].copy(),
                };
                push_change(out, c);
            },
        }
        assert(changes_model(out@) + object_inserts(lhs@, rhs@, pm, k + 1) =~= before
            + object_inserts(lhs@, rhs@, pm, k as int));
        k = k + 1;
    }
    assert(changes_model(out@) =~= start + diff(lhs@, rhs@, pm));
}

fn diff_array(lhs: &ASTNode, rhs: &ASTNode, path: &mut Vec<String>, out: &mut Vec<AstChange>)
    requires
        lhs.node_type == NodeType::Array,
        rhs.node_type == NodeType::Array,
    ensures
        final(path)@ == old(path)@,
        changes_model(final(out)@) == changes_model(old(out)@) + diff(
            lhs@,
            rhs@,
            path_model(old(path)@),
        ),
    decreases lhs, 1nat,
{
    let len_old = lhs.children.len();
    let len_new = rhs.children.len();
    let min_len = if len_old <= len_new {
        len_old
    } else {
        len_new
    };
    let ghost pm = path_model(path@);
    let ghost start = changes_model(out@);
    proof {
        lemma_node_models(lhs.children@);
        lemma_node_models(rhs.children@);
    }
    let mut i: usize = 0;
    while i < min_len
        invariant
            i <= min_len,
            min_len as int == common_len(lhs@, rhs@),
            len_old == lhs.children@.len(),
            len_new == rhs.children@.len(),
            lhs@.children.len() == len_old,
            rhs@.children.len() == len_new,
            forall|t: int| 0 <= t < len_old ==> #[trigger] lhs@.children[t] == lhs.children@[t]@,
            forall|t: int| 0 <= t < len_new ==> #[trigger] rhs@.children[t] == rhs.children@[t]@,
            path@ == old(path)@,
            pm == path_model(path@),
            changes_model(out@) + diff_items(lhs@, rhs@, pm, i as int) == start + diff_items(
                lhs@,
                rhs@,
                pm,
                0,
            ),
        decreases min_len - i,
    {
        let ghost before = changes_model(out@);
        path.push(usize_to_decimal(i));
        assert(path_model(path@) =~= pm.push(decimal(i as nat)));
        diff_node_recursive(&lhs.children[i], &rhs.children[i], path, out);
        path.pop();
        assert(path@ =~= old(path)@);
        assert(changes_model(out@) + diff_items(lhs@, rhs@, pm, i + 1) =~= before + diff_items(
            lhs@,
            rhs@,
            pm,
            i as int,
        ));
        i = i + 1;
    }
    let ghost mid = changes_model(out@);
    let ghost tail = array_tail(lhs@, rhs@, pm);
    if len_old > len_new {
        let mut t: usize = len_new;
        while t < len_old
            invariant
                len_new <= t <= len_old,
                len_old > len_new,
                lhs@.children.len() == len_old,
                rhs@.children.len() == len_new,
                path@ == old(path)@,
                pm == path_model(path@),
                tail == array_tail(lhs@, rhs@, pm),
                changes_model(out@) == mid + tail.take(t - len_new),
            decreases len_old - t,
        {
            let c = AstChange::Remove { path: copy_path(path), key: usize_to_decimal(t) };
            push_change(out, c);
            assert(tail.take(t + 1 - len_new) =~= tail.take(t - len_new).push(c@));
            t = t + 1;
        }
        assert(tail.take(len_old - len_new) =~= tail);
    } else {
        let mut t: usize = len_old;
        while t < len_new
            invariant
                len_old <= t <= len_new,
                len_old <= len_new,
                len_new == rhs.children@.len(),
                lhs@.children.len() == len_old,
                rhs@.children.len() == len_new,
                forall|u: int| 0 <= u < len_new ==> #[trigger] rhs@.children[u] == rhs.children@[u]@,
                path@ == old(path)@,
                pm == path_model(path@),
                tail == array_tail(lhs@, rhs@, pm),
                changes_model(out@) == mid + tail.take(t - len_old),
            decreases len_new - t,
        {
            let c = AstChange::Insert {
                path: copy_path(path),
                key: usize_to_decimal(t),
                value: rhs.children[t].copy(),
            };
            push_change(out, c);
            assert(tail.take(t + 1 - len_old) =~= tail.take(t - len_old).push(c@));
            t = t + 1;
        }
        assert(tail.take(len_new - len_old) =~= tail);
    }
    assert(changes_model(out@) =~= start + diff(lhs@, rhs@, pm));
}

/// Compute a structural diff between two AST nodes: objects are compared key by key,
/// arrays position by position, and any other pair of nodes by type and value.
pub fn diff_ast(old: &ASTNode, new: &ASTNode) -> (changes: Vec<AstChange>)
    ensures
        changes_model(changes@) == diff(old@, new@, Seq::empty()),
{
    let mut changes: Vec<AstChange> = Vec::new();
    let mut path: Vec<String> = Vec::new();
    diff_node_recursive(old, new, &mut path, &mut changes);
    assert(path_model(Seq::<String>::empty()) =~= Seq::<Seq<char>>::empty());
    assert(changes_model(Seq::<AstChange>::empty()) =~= Seq::<ChangeModel>::empty());
    changes
}

} // verus!
