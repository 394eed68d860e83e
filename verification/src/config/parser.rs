//! Editing configuration trees: setting a value under a dotted path.
//!
//! An object node holds key-value nodes, each a key node and a value node. When a key occurs
//! more than once the last occurrence counts, as it does when the tree is written out as
//! JSON or YAML.
use std::collections::HashMap;
use vstd::prelude::*;
use crate::analysis::ConfigAction;
use crate::config::document::{DocModel, DocValue, doc_node, json_document, parse_json_tree, read_json_document};
use crate::config::{ASTNode, ConfigAST, NodeModel, NodeType, lemma_node_models, node_models};
use crate::text::{split_on, split_vec, to_chars, vecs_model, chars_to_string};

verus! {

/// JSON configuration parser.
#[derive(Debug, Clone, Copy)]
pub struct JsonParser;

/// YAML configuration parser.
#[derive(Debug, Clone, Copy)]
pub struct YamlParser;

/// An object with no entries.
pub open spec fn empty_object() -> NodeModel {
    NodeModel {
        node_type: NodeType::Object,
        value: None,
        children: Seq::empty(),
        metadata: Map::empty(),
    }
}

/// A key node.
pub open spec fn key_node(k: Seq<char>) -> NodeModel {
    NodeModel { node_type: NodeType::Key, value: Some(k), children: Seq::empty(), metadata: Map::empty() }
}

/// A scalar value node.
pub open spec fn value_node(v: Seq<char>) -> NodeModel {
    NodeModel { node_type: NodeType::Value, value: Some(v), children: Seq::empty(), metadata: Map::empty() }
}

/// A key-value node.
pub open spec fn entry_node(k: Seq<char>, v: NodeModel) -> NodeModel {
    NodeModel {
        node_type: NodeType::KeyValue,
        value: None,
        children: seq![key_node(k), v],
        metadata: Map::empty(),
    }
}

/// The child is a key-value node for key `k`.
pub open spec fn is_entry_for(kv: NodeModel, k: Seq<char>) -> bool {
    kv.node_type == NodeType::KeyValue && kv.children.len() == 2 && kv.children[0].value == Some(k)
}

/// The position of the last entry for key `k` among the first `n` children.
pub open spec fn last_entry_before(children: Seq<NodeModel>, k: Seq<char>, n: int) -> Option<int>
    decreases n,
{
    if n <= 0 || n > children.len() {
        None
    } else if is_entry_for(children[n - 1], k) {
        Some(n - 1)
    } else {
        last_entry_before(children, k, n - 1)
    }
}

proof fn lemma_last_entry(children: Seq<NodeModel>, k: Seq<char>, n: int)
    ensures
        last_entry_before(children, k, n) matches Some(i) ==> 0 <= i < n && i < children.len()
            && is_entry_for(children[i], k),
    decreases n,
{
    if n > 0 && n <= children.len() && !is_entry_for(children[n - 1], k) {
        lemma_last_entry(children, k, n - 1);
    }
}

/// The position of the last entry for key `k`.
pub open spec fn last_entry(children: Seq<NodeModel>, k: Seq<char>) -> Option<int> {
    last_entry_before(children, k, children.len() as int)
}

/// The object with key `k` set to `v`: its last entry for `k` replaced, or a new entry at
/// the end.
pub open spec fn put(obj: NodeModel, k: Seq<char>, v: NodeModel) -> NodeModel {
    match last_entry(obj.children, k) {
        Some(i) => NodeModel { children: obj.children.update(i, entry_node(k, v)), ..obj },
        None => NodeModel { children: obj.children.push(entry_node(k, v)), ..obj },
    }
}

/// The node if it is an object, else an empty object.
pub open spec fn as_object(n: NodeModel) -> NodeModel {
    if n.node_type == NodeType::Object {
        n
    } else {
        empty_object()
    }
}

/// The value of key `k` in an object, or an empty object when it has none.
pub open spec fn value_at(obj: NodeModel, k: Seq<char>) -> NodeModel {
    match last_entry(obj.children, k) {
        Some(i) => obj.children[i].children[1],
        None => empty_object(),
    }
}

/// The tree with key `k` set to `v` in the object reached by the path segments, each
/// segment's object made (or made an object) on the way.
pub open spec fn set_path(n: NodeModel, segs: Seq<Seq<char>>, k: Seq<char>, v: NodeModel) -> NodeModel
    decreases segs.len(),
{
    let obj = as_object(n);
    if segs.len() == 0 {
        put(obj, k, v)
    } else {
        put(obj, segs[0], set_path(value_at(obj, segs[0]), segs.drop_first(), k, v))
    }
}

/// The non-empty segments of a dotted path, in order.
pub open spec fn path_segments(path: Seq<char>) -> Seq<Seq<char>> {
    split_on(path, '.').filter(|s: Seq<char>| s.len() > 0)
}

/// The value written for an action when the rule gives none: `false` to disable, `off` to
/// ignore, `on` to enable, and null to modify.
pub open spec fn action_value(a: ConfigAction) -> NodeModel {
    match a {
        ConfigAction::Disable => value_node("false"@),
        ConfigAction::Ignore => value_node("off"@),
        ConfigAction::Enable => value_node("on"@),
        ConfigAction::Modify => value_node("null"@),
    }
}

/// An object node with no entries.
pub fn new_object() -> (n: ASTNode)
    ensures
        n@ == empty_object(),
{
    let n = ASTNode { node_type: NodeType::Object, value: None, children: Vec::new(), metadata: HashMap::new() };
    assert(node_models(n.children@) =~= Seq::<NodeModel>::empty());
    n
}

/// A scalar value node holding the text.
pub fn new_value(v: &str) -> (n: ASTNode)
    ensures
        n@ == value_node(v@),
{
    let n = ASTNode {
        node_type: NodeType::Value,
        value: Some(String::from_str(v)),
        children: Vec::new(),
        metadata: HashMap::new(),
    };
    assert(node_models(n.children@) =~= Seq::<NodeModel>::empty());
    n
}

/// A key-value node.
pub(crate) fn new_entry(k: &str, v: ASTNode) -> (n: ASTNode)
    ensures
        n@ == entry_node(k@, v@),
{
    let key = ASTNode {
        node_type: NodeType::Key,
        value: Some(String::from_str(k)),
        children: Vec::new(),
        metadata: HashMap::new(),
    };
    assert(node_models(key.children@) =~= Seq::<NodeModel>::empty());
    let ghost km = key@;
    let ghost vm = v@;
    let mut children: Vec<ASTNode> = Vec::new();
    children.push(key);
    children.push(v);
    proof {
        lemma_node_models(children@);
        assert(node_models(children@) =~= seq![km, vm]);
    }
    ASTNode { node_type: NodeType::KeyValue, value: None, children, metadata: HashMap::new() }
}

/// Whether the node is a key-value node for key `k`.
fn entry_is_for(kv: &ASTNode, k: &str) -> (b: bool)
    ensures
        b == is_entry_for(kv@, k@),
{
    proof {
        lemma_node_models(kv.children@);
    }
    if kv.node_type == NodeType::KeyValue && kv.children.len() == 2 {
        match &kv.children[0].value {
            Some(name) => crate::text::str_equal(name.as_str(), k),
            None => false,
        }
    } else {
        false
    }
}

/// The position of the last entry for key `k` among the children.
fn find_last_entry(obj: &ASTNode, k: &str) -> (r: Option<usize>)
    ensures
        match r {
            Some(i) => last_entry(obj@.children, k@) == Some(i as int) && i < obj.children@.len(),
            None => last_entry(obj@.children, k@) is None,
        },
{
    let ghost cs = obj@.children;
    proof {
        lemma_node_models(obj.children@);
    }
    let mut n: usize = obj.children.len();
    while n > 0
        invariant
            n <= obj.children@.len(),
            cs == obj@.children,
            cs.len() == obj.children@.len(),
            forall|i: int| 0 <= i < cs.len() ==> #[trigger] cs[i] == obj.children@[i]@,
            last_entry(cs, k@) == last_entry_before(cs, k@, n as int),
        decreases n,
    {
        if entry_is_for(&obj.children[n - 1], k) {
            return Some(n - 1);
        }
        n = n - 1;
    }
    None
}

/// The object with key `k` set to `v`.
pub fn put_entry(obj: ASTNode, k: &str, v: ASTNode) -> (r: ASTNode)
    ensures
        r@ == put(obj@, k@, v@),
{
    let idx = find_last_entry(&obj, k);
    let ghost om = obj@;
    let entry = new_entry(k, v);
    let ghost em = entry@;
    let mut obj = obj;
    let mut children: Vec<ASTNode> = Vec::new();
    std::mem::swap(&mut children, &mut obj.children);
    let ghost before = children@;
    proof {
        lemma_node_models(before);
    }
    match idx {
        Some(i) => {
            children.set(i, entry);
            proof {
                lemma_node_models(children@);
                assert(node_models(children@) =~= om.children.update(i as int, em));
            }
        },
        None => {
            children.push(entry);
            proof {
                lemma_node_models(children@);
                assert(node_models(children@) =~= om.children.push(em));
            }
        },
    }
    ASTNode { node_type: obj.node_type, value: obj.value, children, metadata: obj.metadata }
}

/// A copy of the value of key `k` in the object, or an empty object when it has none.
fn value_copy(obj: &ASTNode, k: &str) -> (r: ASTNode)
    ensures
        r@ == value_at(obj@, k@),
{
    proof {
        lemma_node_models(obj.children@);
    }
    match find_last_entry(obj, k) {
        Some(i) => {
            proof {
                lemma_last_entry(obj@.children, k@, obj@.children.len() as int);
                lemma_node_models(obj.children@[i as int].children@);
            }
            obj.children[i].children[1].copy()
        },
        None => new_object(),
    }
}

/// The tree with key `k` set to `v` under the path segments from `start` on.
fn set_under(n: ASTNode, segs: &Vec<Vec<char>>, start: usize, k: &str, v: ASTNode) -> (r: ASTNode)
    requires
        start <= segs@.len(),
    ensures
        r@ == set_path(n@, vecs_model(segs@).skip(start as int), k@, v@),
    decreases segs@.len() - start,
{
    let ghost rest = vecs_model(segs@).skip(start as int);
    let obj = if n.node_type == NodeType::Object {
        n
    } else {
        new_object()
    };
    if start == segs.len() {
        assert(rest.len() == 0);
        put_entry(obj, k, v)
    } else {
        let seg = chars_to_string(&segs[start]);
        assert(rest[0] == seg@);
        assert(rest.drop_first() =~= vecs_model(segs@).skip(start + 1));
        let child = value_copy(&obj, seg.as_str());
        let inner = set_under(child, segs, start + 1, k, v);
        put_entry(obj, seg.as_str(), inner)
    }
}

/// The non-empty pieces of the path between dots.
fn segments(path: &str) -> (r: Vec<Vec<char>>)
    ensures
        vecs_model(r@) == path_segments(path@),
{
    let chars = to_chars(path);
    let pieces = split_vec(&chars, '.');
    let ghost ps = vecs_model(pieces@);
    let mut r: Vec<Vec<char>> = Vec::new();
    let mut i: usize = 0;
    while i < pieces.len()
        invariant
            i <= pieces@.len(),
            ps == vecs_model(pieces@),
            ps == split_on(path@, '.'),
            vecs_model(r@) == ps.take(i as int).filter(|s: Seq<char>| s.len() > 0),
        decreases pieces@.len() - i,
    {
        let ghost pre = ps.take(i as int);
        assert(ps.take(i + 1).drop_last() =~= pre);
        reveal(Seq::filter);
        if pieces[i].len() > 0 {
            let p = copy_chars(&pieces[i]);
            r.push(p);
            assert(vecs_model(r@) =~= vecs_model(r@.drop_last()).push(ps[i as int]));
        }
        i = i + 1;
    }
    assert(ps.take(pieces@.len() as int) =~= ps);
    r
}

/// A copy of a character vector.
fn copy_chars(v: &Vec<char>) -> (r: Vec<char>)
    ensures
        r@ == v@,
{
    let mut r: Vec<char> = Vec::new();
    let mut i: usize = 0;
    while i < v.len()
        invariant
            i <= v@.len(),
            r@ == v@.take(i as int),
        decreases v@.len() - i,
    {
        r.push(v[i]);
        assert(v@.take(i + 1) =~= v@.take(i as int).push(v@[i as int]));
        i = i + 1;
    }
    assert(v@.take(v@.len() as int) =~= v@);
    r
}

/// The tree with key `k` set to `v` in the object reached by the dotted path (empty segments
/// skipped).
pub fn set_path_value(root: ASTNode, path: &str, k: &str, v: ASTNode) -> (r: ASTNode)
    ensures
        r@ == set_path(root@, path_segments(path@), k@, v@),
{
    let segs = segments(path);
    assert(vecs_model(segs@).skip(0) =~= vecs_model(segs@));
    set_under(root, &segs, 0, k, v)
}

/// The tree with key `k` set to `v` at the top level (the tree made an object first).
pub fn set_top_value(root: ASTNode, k: &str, v: ASTNode) -> (r: ASTNode)
    ensures
        r@ == set_path(root@, Seq::empty(), k@, v@),
{
    let obj = if root.node_type == NodeType::Object {
        root
    } else {
        new_object()
    };
    put_entry(obj, k, v)
}

/// The tree with key `k` set to `v` in the object under the top-level key `section`.
pub fn set_section_value(root: ASTNode, section: &str, k: &str, v: ASTNode) -> (r: ASTNode)
    ensures
        r@ == set_path(root@, seq![section@], k@, v@),
{
    let obj = if root.node_type == NodeType::Object {
        root
    } else {
        new_object()
    };
    let child = value_copy(&obj, section);
    let inner = set_top_value(child, k, v);
    assert(seq![section@].drop_first() =~= Seq::<Seq<char>>::empty());
    put_entry(obj, section, inner)
}

/// The value written for an action when the rule gives none.
pub fn value_for_action(action: ConfigAction) -> (n: ASTNode)
    ensures
        n@ == action_value(action),
{
    match action {
        ConfigAction::Disable => new_value("false"),
        ConfigAction::Ignore => new_value("off"),
        ConfigAction::Enable => new_value("on"),
        ConfigAction::Modify => new_value("null"),
    }
}

/// Sets a rule in a configuration: under the dotted path (the top level when empty), the
/// rule's key gets the given value, or the value for its action.
///
/// The tree is edited as it stands. Setting a rule does not re-read the configuration
/// through a JSON or YAML value, so the tree keeps its key order, its number texts and any
/// child that is not a well-formed key-value pair; written out, the file is the same.
pub fn insert_rule(ast: &mut ConfigAST, path: &str, rule_id: &str, value: Option<ASTNode>, action: ConfigAction)
    ensures
        final(ast).root@ == set_path(
            old(ast).root@,
            path_segments(path@),
            rule_id@,
            match value {
                Some(v) => v@,
                None => action_value(action),
            },
        ),
        final(ast).format == old(ast).format,
{
    let v = match value {
        Some(v) => v,
        None => value_for_action(action),
    };
    let mut root = new_object();
    std::mem::swap(&mut root, &mut ast.root);
    ast.root = set_path_value(root, path, rule_id, v);
}

proof fn lemma_last_entry_is_last(children: Seq<NodeModel>, k: Seq<char>, n: int)
    requires
        0 <= n <= children.len(),
    ensures
        match last_entry_before(children, k, n) {
            Some(i) => forall|t: int| i < t < n ==> !is_entry_for(#[trigger] children[t], k),
            None => forall|t: int| 0 <= t < n ==> !is_entry_for(#[trigger] children[t], k),
        },
    decreases n,
{
    if n > 0 && !is_entry_for(children[n - 1], k) {
        lemma_last_entry_is_last(children, k, n - 1);
    }
}

proof fn lemma_last_entry_same(c1: Seq<NodeModel>, c2: Seq<NodeModel>, k: Seq<char>, n: int)
    requires
        0 <= n <= c1.len(),
        n <= c2.len(),
        forall|t: int| 0 <= t < n ==> is_entry_for(#[trigger] c1[t], k) == is_entry_for(c2[t], k),
    ensures
        last_entry_before(c1, k, n) == last_entry_before(c2, k, n),
    decreases n,
{
    if n > 0 {
        lemma_last_entry_same(c1, c2, k, n - 1);
    }
}

proof fn lemma_last_entry_skip(c: Seq<NodeModel>, k: Seq<char>, m: int, n: int)
    requires
        0 <= m <= n <= c.len(),
        forall|t: int| m <= t < n ==> !is_entry_for(#[trigger] c[t], k),
    ensures
        last_entry_before(c, k, n) == last_entry_before(c, k, m),
    decreases n - m,
{
    if n > m {
        lemma_last_entry_skip(c, k, m, n - 1);
    }
}

/// Setting a key of an object and reading it back gives the value set, and every other key
/// keeps its value.
pub proof fn law_put_then_read(obj: NodeModel, k: Seq<char>, v: NodeModel)
    ensures
        value_at(put(obj, k, v), k) == v,
        forall|k2: Seq<char>| k2 != k ==> #[trigger] value_at(put(obj, k, v), k2) == value_at(obj, k2),
        put(obj, k, v).node_type == obj.node_type,
{
    let c = obj.children;
    let n = c.len() as int;
    let e = entry_node(k, v);
    assert(is_entry_for(e, k));
    lemma_last_entry(c, k, n);
    lemma_last_entry_is_last(c, k, n);
    match last_entry(c, k) {
        Some(i) => {
            let c2 = c.update(i, e);
            assert forall|t: int| i + 1 <= t < n implies !is_entry_for(#[trigger] c2[t], k) by {
                assert(c2[t] == c[t]);
            }
            lemma_last_entry_skip(c2, k, i + 1, n);
            assert(last_entry(c2, k) == Some(i));
            assert forall|k2: Seq<char>| k2 != k implies #[trigger] value_at(put(obj, k, v), k2)
                == value_at(obj, k2) by {
                assert forall|t: int| 0 <= t < n implies is_entry_for(#[trigger] c2[t], k2)
                    == is_entry_for(c[t], k2) by {
                    if t == i {
                        assert(e.children[0].value == Some(k));
                        assert(c[i].children[0].value == Some(k));
                    } else {
                        assert(c2[t] == c[t]);
                    }
                }
                lemma_last_entry_same(c2, c, k2, n);
                lemma_last_entry(c, k2, n);
            }
        },
        None => {
            let c2 = c.push(e);
            assert(last_entry(c2, k) == Some(n));
            assert forall|k2: Seq<char>| k2 != k implies #[trigger] value_at(put(obj, k, v), k2)
                == value_at(obj, k2) by {
                assert(!is_entry_for(c2[n], k2));
                assert(last_entry_before(c2, k2, n + 1) == last_entry_before(c2, k2, n));
                assert forall|t: int| 0 <= t < n implies is_entry_for(#[trigger] c2[t], k2)
                    == is_entry_for(c[t], k2) by {
                    assert(c2[t] == c[t]);
                }
                lemma_last_entry_same(c2, c, k2, n);
                lemma_last_entry(c, k2, n);
            }
        },
    }
}

/// The value found by following the path segments from a node and reading key `k`.
pub open spec fn value_along(n: NodeModel, segs: Seq<Seq<char>>, k: Seq<char>) -> NodeModel
    decreases segs.len(),
{
    let obj = as_object(n);
    if segs.len() == 0 {
        value_at(obj, k)
    } else {
        value_along(value_at(obj, segs[0]), segs.drop_first(), k)
    }
}

/// After setting key `k` under a path, following that path and reading `k` gives the value
/// set.
pub proof fn law_set_path_then_read(n: NodeModel, segs: Seq<Seq<char>>, k: Seq<char>, v: NodeModel)
    ensures
        value_along(set_path(n, segs, k, v), segs, k) == v,
    decreases segs.len(),
{
    let obj = as_object(n);
    if segs.len() == 0 {
        law_put_then_read(obj, k, v);
    } else {
        let inner = set_path(value_at(obj, segs[0]), segs.drop_first(), k, v);
        law_put_then_read(obj, segs[0], inner);
        law_set_path_then_read(value_at(obj, segs[0]), segs.drop_first(), k, v);
    }
}

/// Law: setting key `k` under a path changes nothing else along that path. In every object
/// the path passes through (the root and each segment's object), every key other than the
/// next segment (or, at the end of the path, other than `k`) keeps its value: the other rules
/// under a section stay, and so do the sections beside it.
pub proof fn law_set_path_keeps_others(
    n: NodeModel,
    segs: Seq<Seq<char>>,
    k: Seq<char>,
    v: NodeModel,
    j: int,
    k2: Seq<char>,
)
    requires
        0 <= j <= segs.len(),
        k2 != (if j < segs.len() {
            segs[j]
        } else {
            k
        }),
    ensures
        value_along(set_path(n, segs, k, v), segs.take(j), k2) == value_along(n, segs.take(j), k2),
    decreases segs.len(),
{
    let obj = as_object(n);
    if segs.len() == 0 {
        law_put_then_read(obj, k, v);
        assert(segs.take(j) =~= Seq::<Seq<char>>::empty());
    } else {
        let inner = set_path(value_at(obj, segs[0]), segs.drop_first(), k, v);
        law_put_then_read(obj, segs[0], inner);
        let sp = put(obj, segs[0], inner);
        assert(as_object(sp) == sp);
        if j == 0 {
            assert(segs.take(0) =~= Seq::<Seq<char>>::empty());
        } else {
            let rest = segs.drop_first();
            assert(segs.take(j)[0] == segs[0]);
            assert(segs.take(j).drop_first() =~= rest.take(j - 1));
            assert(rest.len() == segs.len() - 1);
            if j - 1 < rest.len() {
                assert(rest[j - 1] == segs[j]);
            }
            law_set_path_keeps_others(value_at(obj, segs[0]), rest, k, v, j - 1, k2);
        }
    }
}

/// Setting a key twice to the same value is setting it once.
proof fn lemma_put_idempotent(obj: NodeModel, k: Seq<char>, v: NodeModel)
    ensures
        put(put(obj, k, v), k, v) == put(obj, k, v),
{
    let c = obj.children;
    let n = c.len() as int;
    let e = entry_node(k, v);
    assert(is_entry_for(e, k));
    lemma_last_entry(c, k, n);
    lemma_last_entry_is_last(c, k, n);
    match last_entry(c, k) {
        Some(i) => {
            let c2 = c.update(i, e);
            assert forall|t: int| i + 1 <= t < n implies !is_entry_for(#[trigger] c2[t], k) by {
                assert(c2[t] == c[t]);
            }
            lemma_last_entry_skip(c2, k, i + 1, n);
            assert(last_entry(c2, k) == Some(i));
            assert(c2.update(i, e) =~= c2);
        },
        None => {
            let c2 = c.push(e);
            assert(last_entry(c2, k) == Some(n));
            assert(c2.update(n, e) =~= c2);
        },
    }
}

/// Law: setting a rule is idempotent: setting the same key to the same value under the same
/// path a second time leaves the configuration as the first time left it.
pub proof fn law_set_path_idempotent(n: NodeModel, segs: Seq<Seq<char>>, k: Seq<char>, v: NodeModel)
    ensures
        set_path(set_path(n, segs, k, v), segs, k, v) == set_path(n, segs, k, v),
    decreases segs.len(),
{
    let obj = as_object(n);
    if segs.len() == 0 {
        lemma_put_idempotent(obj, k, v);
    } else {
        let inner = set_path(value_at(obj, segs[0]), segs.drop_first(), k, v);
        let once = put(obj, segs[0], inner);
        law_put_then_read(obj, segs[0], inner);
        assert(as_object(once) == once);
        law_set_path_idempotent(value_at(obj, segs[0]), segs.drop_first(), k, v);
        lemma_put_idempotent(obj, segs[0], inner);
    }
}

/// The text of an optional string.
pub open spec fn opt_str(o: Option<&str>) -> Option<Seq<char>> {
    match o {
        Some(t) => Some(t@),
        None => None,
    }
}

/// The dotted path a rule's `path` metadata names, given as JSON text: the string it holds,
/// else the top level.
pub open spec fn metadata_path(path_json: Option<Seq<char>>) -> Seq<char> {
    match path_json {
        Some(t) => match json_document(t) {
            Some(DocModel::Text(p)) => p,
            _ => Seq::empty(),
        },
        None => Seq::empty(),
    }
}

/// The value a rule's `value` metadata gives it, given as JSON text: the tree of that
/// document, else the value for the rule's action.
pub open spec fn metadata_value(value_json: Option<Seq<char>>, action: ConfigAction) -> NodeModel {
    match value_json {
        Some(t) => match json_document(t) {
            Some(d) => doc_node(d),
            None => action_value(action),
        },
        None => action_value(action),
    }
}

/// Sets a rule as its metadata asks: under the path its `path` entry holds (the top level
/// when it holds no string), to the value its `value` entry holds (the value for the action
/// when there is none). Each metadata entry is given as its JSON text.
pub fn insert_rule_from_metadata(
    ast: &mut ConfigAST,
    rule_id: &str,
    action: ConfigAction,
    path_json: Option<&str>,
    value_json: Option<&str>,
)
    ensures
        final(ast).root@ == set_path(
            old(ast).root@,
            path_segments(metadata_path(opt_str(path_json))),
            rule_id@,
            metadata_value(opt_str(value_json), action),
        ),
        final(ast).format == old(ast).format,
{
    let path = match path_json {
        Some(t) => match read_json_document(t) {
            Ok(DocValue::Text(p)) => p,
            _ => String::new(),
        },
        None => String::new(),
    };
    let value = match value_json {
        Some(t) => match parse_json_tree(t) {
            Ok(n) => Some(n),
            Err(_) => None,
        },
        None => None,
    };
    insert_rule(ast, path.as_str(), rule_id, value, action);
}

} // verus!
