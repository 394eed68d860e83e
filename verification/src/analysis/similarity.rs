//! Similarity between rule identifiers and messages: edit distance, shared characters,
//! shared words and exact equality.
//!
//! Each measure yields the whole numbers its score is made of; the score itself is a
//! fraction of them, stated with each measure.
use vstd::prelude::*;
use crate::text::{byte_len, split_words, to_chars, vec_equal, vec_has_char, vecs_model, words};

verus! {

/// Smallest of three naturals.
pub open spec fn min3(x: nat, y: nat, z: nat) -> nat {
    if x <= y && x <= z {
        x
    } else if y <= z {
        y
    } else {
        z
    }
}

/// Levenshtein distance between two character sequences: the fewest single-character
/// insertions, deletions and substitutions that turn `a` into `b`.
pub open spec fn edit_distance(a: Seq<char>, b: Seq<char>) -> nat
    decreases a.len() + b.len(),
{
    if a.len() == 0 {
        b.len()
    } else if b.len() == 0 {
        a.len()
    } else {
        min3(
            edit_distance(a.drop_last(), b) + 1,
            edit_distance(a, b.drop_last()) + 1,
            edit_distance(a.drop_last(), b.drop_last()) + (if a.last() == b.last() {
                0nat
            } else {
                1nat
            }),
        )
    }
}

/// The distance never exceeds the length of the longer sequence.
pub proof fn lemma_edit_distance_bound(a: Seq<char>, b: Seq<char>)
    ensures
        edit_distance(a, b) <= if a.len() >= b.len() { a.len() } else { b.len() },
    decreases a.len() + b.len(),
{
    if a.len() > 0 && b.len() > 0 {
        lemma_edit_distance_bound(a.drop_last(), b.drop_last());
    }
}

/// A sequence is at distance zero from itself.
pub proof fn lemma_edit_distance_refl(a: Seq<char>)
    ensures
        edit_distance(a, a) == 0,
    decreases a.len(),
{
    if a.len() > 0 {
        lemma_edit_distance_refl(a.drop_last());
    }
}

/// Distance zero holds only between equal sequences.
pub proof fn lemma_edit_distance_zero(a: Seq<char>, b: Seq<char>)
    requires
        edit_distance(a, b) == 0,
    ensures
        a == b,
    decreases a.len() + b.len(),
{
    if a.len() > 0 && b.len() > 0 {
        lemma_edit_distance_zero(a.drop_last(), b.drop_last());
        assert(a == a.drop_last().push(a.last()));
        assert(b == b.drop_last().push(b.last()));
    } else {
        assert(a =~= b);
    }
}

/// The distance does not depend on the order of its arguments.
pub proof fn lemma_edit_distance_symmetric(a: Seq<char>, b: Seq<char>)
    ensures
        edit_distance(a, b) == edit_distance(b, a),
    decreases a.len() + b.len(),
{
    if a.len() > 0 && b.len() > 0 {
        lemma_edit_distance_symmetric(a.drop_last(), b);
        lemma_edit_distance_symmetric(a, b.drop_last());
        lemma_edit_distance_symmetric(a.drop_last(), b.drop_last());
    }
}

/// The distance is at least the difference of the lengths.
pub proof fn lemma_edit_distance_lower(a: Seq<char>, b: Seq<char>)
    ensures
        edit_distance(a, b) >= a.len() - b.len(),
        edit_distance(a, b) >= b.len() - a.len(),
    decreases a.len() + b.len(),
{
    if a.len() > 0 && b.len() > 0 {
        lemma_edit_distance_lower(a.drop_last(), b);
        lemma_edit_distance_lower(a, b.drop_last());
        lemma_edit_distance_lower(a.drop_last(), b.drop_last());
    }
}

/// Law: the edit distance of two strings is zero exactly when they are equal, it is the
/// same whichever string comes first, and it lies between the difference of their lengths
/// and the longer length.
pub proof fn law_edit_distance_metric(a: Seq<char>, b: Seq<char>)
    ensures
        (edit_distance(a, b) == 0) <==> (a == b),
        edit_distance(a, b) == edit_distance(b, a),
        edit_distance(a, b) >= a.len() - b.len(),
        edit_distance(a, b) >= b.len() - a.len(),
        edit_distance(a, b) <= if a.len() >= b.len() { a.len() } else { b.len() },
{
    lemma_edit_distance_lower(a, b);
    lemma_edit_distance_bound(a, b);
    if edit_distance(a, b) == 0 {
        lemma_edit_distance_zero(a, b);
    }
    if a == b {
        lemma_edit_distance_refl(a);
    }
    lemma_edit_distance_symmetric(a, b);
}

fn min_of(x: usize, y: usize) -> (r: usize)
    ensures
        r == if x <= y { x } else { y },
{
    if x <= y {
        x
    } else {
        y
    }
}

/// Levenshtein distance between the characters of `a` and of `b`.
pub fn levenshtein_distance(a: &str, b: &str) -> (d: usize)
    ensures
        d == edit_distance(a@, b@),
{
    let a_chars = to_chars(a);
    let b_chars = to_chars(b);
    let a_len = a_chars.len();
    let b_len = b_chars.len();
    if a_len == 0 {
        assert(a@.len() == 0);
        return b_len;
    }
    if b_len == 0 {
        return a_len;
    }
    let ghost sa = a@;
    let ghost sb = b@;
    // prev[j] is the distance between the first i-1 characters of a and the first j of b.
    let mut prev: Vec<usize> = Vec::new();
    prev.push(0);
    let mut j: usize = 0;
    while j < b_len
        invariant
            b_len == b_chars@.len(),
            b_chars@ == sb,
            j <= b_len,
            prev@.len() == j + 1,
            forall|k: int| 0 <= k <= j ==> prev@[k] == k,
        decreases b_len - j,
    {
        j = j + 1;
        prev.push(j);
    }
    assert forall|k: int| 0 <= k <= b_len implies prev@[k] == edit_distance(
        sa.take(0),
        sb.take(k),
    ) by {
        assert(sa.take(0).len() == 0);
    }
    let mut i: usize = 0;
    while i < a_len
        invariant
            a_len == a_chars@.len(),
            b_len == b_chars@.len(),
            a_chars@ == sa,
            b_chars@ == sb,
            i <= a_len,
            b_len > 0,
            prev@.len() == b_len + 1,
            forall|k: int|
                0 <= k <= b_len ==> #[trigger] prev@[k] == edit_distance(sa.take(i as int), sb.take(k)),
        decreases a_len - i,
    {
        let row = i + 1;
        let mut cur: Vec<usize> = Vec::new();
        cur.push(row);
        assert(cur@[0] == edit_distance(sa.take(row as int), sb.take(0))) by {
            assert(sb.take(0).len() == 0);
        }
        let mut j: usize = 0;
        while j < b_len
            invariant
                a_len == a_chars@.len(),
                b_len == b_chars@.len(),
                a_chars@ == sa,
                b_chars@ == sb,
                row == i + 1,
                i < a_len,
                j <= b_len,
                prev@.len() == b_len + 1,
                cur@.len() == j + 1,
                forall|k: int|
                    0 <= k <= b_len ==> #[trigger] prev@[k] == edit_distance(sa.take(i as int), sb.take(k)),
                forall|k: int|
                    0 <= k <= j ==> #[trigger] cur@[k] == edit_distance(sa.take(row as int), sb.take(k)),
            decreases b_len - j,
        {
            let col = j + 1;
            let ghost x = sa.take(row as int);
            let ghost y = sb.take(col as int);
            assert(x.drop_last() == sa.take(i as int));
            assert(y.drop_last() == sb.take(j as int));
            assert(x.last() == sa[i as int]);
            assert(y.last() == sb[j as int]);
            proof {
                lemma_edit_distance_bound(x, y);
            }
            let cost: usize = if a_chars[i] != b_chars[j] {
                1
            } else {
                0
            };
            let del = prev[col].saturating_add(1);
            let ins = cur[j].saturating_add(1);
            let sub = prev[j].saturating_add(cost);
            let best = min_of(min_of(del, ins), sub);
            cur.push(best);
            j = col;
        }
        prev = cur;
        i = row;
    }
    assert(sa.take(a_len as int) == sa);
    assert(sb.take(b_len as int) == sb);
    prev[b_len]
}

/// The characters of `v` without repetitions, in the order of their first occurrence.
fn distinct_chars(v: &Vec<char>) -> (r: Vec<char>)
    ensures
        r@.no_duplicates(),
        r@.to_set() == v@.to_set(),
{
    broadcast use vstd::seq_lib::group_seq_properties;
    let mut r: Vec<char> = Vec::new();
    let mut i: usize = 0;
    while i < v.len()
        invariant
            i <= v@.len(),
            r@.no_duplicates(),
            r@.to_set() == v@.take(i as int).to_set(),
        decreases v@.len() - i,
    {
        assert(v@.take(i + 1) == v@.take(i as int).push(v@[i as int]));
        proof { v@.take(i as int).lemma_push_to_set_commute(v@[i as int]); }
        let ghost before = r@;
        if !vec_has_char(&r, v[i]) {
            r.push(v[i]);
            proof { before.lemma_push_to_set_commute(v@[i as int]); }
        } else {
            assert(r@.to_set().insert(v@[i as int]) =~= r@.to_set());
        }
        i = i + 1;
    }
    assert(v@.take(v@.len() as int) == v@);
    r
}

/// The characters of `a` that also occur in `b`.
fn common_chars(a: &Vec<char>, b: &Vec<char>) -> (r: Vec<char>)
    requires
        a@.no_duplicates(),
    ensures
        r@.no_duplicates(),
        r@.to_set() == a@.to_set().intersect(b@.to_set()),
{
    broadcast use vstd::seq_lib::group_seq_properties;
    let mut r: Vec<char> = Vec::new();
    let mut i: usize = 0;
    while i < a.len()
        invariant
            i <= a@.len(),
            a@.no_duplicates(),
            r@.no_duplicates(),
            r@.to_set() == a@.take(i as int).to_set().intersect(b@.to_set()),
        decreases a@.len() - i,
    {
        let c = a[i];
        assert(a@.take(i + 1) == a@.take(i as int).push(c));
        proof { a@.take(i as int).lemma_push_to_set_commute(c); }
        let ghost before = r@;
        if vec_has_char(b, c) {
            assert(!r@.contains(c)) by {
                if r@.contains(c) {
                    assert(r@.to_set().contains(c));
                    assert(a@.take(i as int).contains(c));
                    let k = choose|k: int| 0 <= k < i && a@.take(i as int)[k] == c;
                    assert(a@[k] == a@[i as int]);
                }
            }
            r.push(c);
            proof { before.lemma_push_to_set_commute(c); }
            assert(r@.to_set() =~= a@.take(i + 1).to_set().intersect(b@.to_set()));
        } else {
            assert(r@.to_set() =~= a@.take(i + 1).to_set().intersect(b@.to_set()));
        }
        i = i + 1;
    }
    assert(a@.take(a@.len() as int) == a@);
    r
}

/// The characters occurring in `a` or in `b`, each once.
fn all_chars(a: &Vec<char>, b: &Vec<char>) -> (r: Vec<char>)
    ensures
        r@.no_duplicates(),
        r@.to_set() == a@.to_set() + b@.to_set(),
{
    broadcast use vstd::seq_lib::group_seq_properties;
    let mut r = distinct_chars(a);
    let mut j: usize = 0;
    while j < b.len()
        invariant
            j <= b@.len(),
            r@.no_duplicates(),
            r@.to_set() == a@.to_set() + b@.take(j as int).to_set(),
        decreases b@.len() - j,
    {
        let c = b[j];
        assert(b@.take(j + 1) == b@.take(j as int).push(c));
        proof { b@.take(j as int).lemma_push_to_set_commute(c); }
        let ghost before = r@;
        if !vec_has_char(&r, c) {
            r.push(c);
            proof { before.lemma_push_to_set_commute(c); }
        } else {
            assert(before.to_set().insert(c) =~= before.to_set());
        }
        assert(r@.to_set() =~= a@.to_set() + b@.take(j + 1).to_set());
        j = j + 1;
    }
    assert(b@.take(b@.len() as int) == b@);
    r
}

/// Whether the word `w` is among `v`.
fn has_word(v: &Vec<Vec<char>>, w: &Vec<char>) -> (b: bool)
    ensures
        b == vecs_model(v@).contains(w@),
{
    let ghost m = vecs_model(v@);
    let mut i: usize = 0;
    while i < v.len()
        invariant
            i <= v@.len(),
            m == vecs_model(v@),
            forall|t: int| 0 <= t < i ==> m[t] != w@,
        decreases v@.len() - i,
    {
        if vec_equal(&v[i], w) {
            assert(m[i as int] == w@);
            return true;
        }
        i = i + 1;
    }
    false
}

/// The words of `v` without repetitions, in the order of their first occurrence.
fn distinct_words(v: &Vec<Vec<char>>) -> (r: Vec<Vec<char>>)
    ensures
        vecs_model(r@).no_duplicates(),
        vecs_model(r@).to_set() == vecs_model(v@).to_set(),
{
    broadcast use vstd::seq_lib::group_seq_properties;
    let ghost m = vecs_model(v@);
    let mut r: Vec<Vec<char>> = Vec::new();
    let mut i: usize = 0;
    while i < v.len()
        invariant
            i <= v@.len(),
            m == vecs_model(v@),
            vecs_model(r@).no_duplicates(),
            vecs_model(r@).to_set() == m.take(i as int).to_set(),
        decreases v@.len() - i,
    {
        assert(m.take(i + 1) == m.take(i as int).push(m[i as int]));
        proof { m.take(i as int).lemma_push_to_set_commute(m[i as int]); }
        let w = v[i].clone();
        let ghost before = vecs_model(r@);
        if !has_word(&r, &w) {
            r.push(w);
            assert(vecs_model(r@) =~= before.push(m[i as int]));
            proof { before.lemma_push_to_set_commute(m[i as int]); }
        } else {
            assert(before.to_set().insert(m[i as int]) =~= before.to_set());
        }
        i = i + 1;
    }
    assert(m.take(m.len() as int) == m);
    r
}

/// The words of `a` that also occur in `b`.
fn common_words(a: &Vec<Vec<char>>, b: &Vec<Vec<char>>) -> (r: Vec<Vec<char>>)
    requires
        vecs_model(a@).no_duplicates(),
    ensures
        vecs_model(r@).no_duplicates(),
        vecs_model(r@).to_set() == vecs_model(a@).to_set().intersect(vecs_model(b@).to_set()),
{
    broadcast use vstd::seq_lib::group_seq_properties;
    let ghost ma = vecs_model(a@);
    let ghost mb = vecs_model(b@);
    let mut r: Vec<Vec<char>> = Vec::new();
    let mut i: usize = 0;
    while i < a.len()
        invariant
            i <= a@.len(),
            ma == vecs_model(a@),
            mb == vecs_model(b@),
            ma.no_duplicates(),
            vecs_model(r@).no_duplicates(),
            vecs_model(r@).to_set() == ma.take(i as int).to_set().intersect(mb.to_set()),
        decreases a@.len() - i,
    {
        let w = a[i].clone();
        assert(ma.take(i + 1) == ma.take(i as int).push(w@));
        proof { ma.take(i as int).lemma_push_to_set_commute(w@); }
        let ghost before = vecs_model(r@);
        if has_word(b, &w) {
            assert(!before.contains(w@)) by {
                if before.contains(w@) {
                    assert(before.to_set().contains(w@));
                    assert(ma.take(i as int).contains(w@));
                    let k = choose|k: int| 0 <= k < i && ma.take(i as int)[k] == w@;
                    assert(ma[k] == ma[i as int]);
                }
            }
            r.push(w);
            assert(vecs_model(r@) =~= before.push(ma[i as int]));
            proof { before.lemma_push_to_set_commute(ma[i as int]); }
            assert(vecs_model(r@).to_set() =~= ma.take(i + 1).to_set().intersect(mb.to_set()));
        } else {
            assert(before.to_set() =~= ma.take(i + 1).to_set().intersect(mb.to_set()));
        }
        i = i + 1;
    }
    assert(ma.take(ma.len() as int) == ma);
    r
}

/// Levenshtein similarity: one minus the edit distance over the longer of the two byte
/// lengths, and 1 when both texts are empty.
#[derive(Debug, Clone, Copy)]
pub struct LevenshteinSimilarity;

impl LevenshteinSimilarity {
    /// The edit distance of the two texts and the longer of their lengths in bytes.
    pub fn components(&self, a: &str, b: &str) -> (r: (usize, usize))
        ensures
            r.0 == edit_distance(a@, b@),
            r.1 == if byte_len(a@) >= byte_len(b@) {
                byte_len(a@)
            } else {
                byte_len(b@)
            },
    {
        let d = levenshtein_distance(a, b);
        let la = a.len();
        let lb = b.len();
        (d, if la >= lb {
            la
        } else {
            lb
        })
    }

    /// Weight of the measure in a combined similarity, in hundredths.
    pub fn weight(&self) -> (w: u32)
        ensures
            w == 40,
    {
        40
    }
}

/// Jaccard similarity of the character sets: the number of characters the texts share over
/// the number occurring in either, and 1 when both texts are empty.
#[derive(Debug, Clone, Copy)]
pub struct JaccardSimilarity;

impl JaccardSimilarity {
    /// The sizes of the intersection and of the union of the two character sets.
    pub fn components(&self, a: &str, b: &str) -> (r: (usize, usize))
        ensures
            r.0 == a@.to_set().intersect(b@.to_set()).len(),
            r.1 == (a@.to_set() + b@.to_set()).len(),
    {
        let va = to_chars(a);
        let vb = to_chars(b);
        let da = distinct_chars(&va);
        let common = common_chars(&da, &vb);
        let all = all_chars(&va, &vb);
        proof {
            common@.unique_seq_to_set();
            all@.unique_seq_to_set();
        }
        (common.len(), all.len())
    }

    /// Weight of the measure in a combined similarity, in hundredths.
    pub fn weight(&self) -> (w: u32)
        ensures
            w == 30,
    {
        30
    }
}

/// Cosine similarity of the word sets: the number of shared words over the square root of
/// the product of the two set sizes, and 0 when either text has no word.
#[derive(Debug, Clone, Copy)]
pub struct CosineSimilarity;

impl CosineSimilarity {
    /// The number of distinct words the texts share, and the numbers of distinct words of
    /// each.
    pub fn components(&self, a: &str, b: &str) -> (r: (usize, usize, usize))
        ensures
            r.0 == words(a@).to_set().intersect(words(b@).to_set()).len(),
            r.1 == words(a@).to_set().len(),
            r.2 == words(b@).to_set().len(),
    {
        let wa = split_words(&to_chars(a));
        let wb = split_words(&to_chars(b));
        let da = distinct_words(&wa);
        let db = distinct_words(&wb);
        let common = common_words(&da, &wb);
        proof {
            vecs_model(common@).unique_seq_to_set();
            vecs_model(da@).unique_seq_to_set();
            vecs_model(db@).unique_seq_to_set();
        }
        (common.len(), da.len(), db.len())
    }

    /// Weight of the measure in a combined similarity, in hundredths.
    pub fn weight(&self) -> (w: u32)
        ensures
            w == 20,
    {
        20
    }
}

/// Exact-match similarity: 1 for equal texts, 0 otherwise.
#[derive(Debug, Clone, Copy)]
pub struct ExactMatchSimilarity;

impl ExactMatchSimilarity {
    /// Whether the texts are equal.
    pub fn components(&self, a: &str, b: &str) -> (r: bool)
        ensures
            r == (a@ == b@),
    {
        crate::text::str_equal(a, b)
    }

    /// Weight of the measure in a combined similarity, in hundredths.
    pub fn weight(&self) -> (w: u32)
        ensures
            w == 10,
    {
        10
    }
}

/// How many of the first `n` positions hold the same character in both sequences.
pub open spec fn aligned_count(a: Seq<char>, b: Seq<char>, n: int) -> nat
    decreases n,
{
    if n <= 0 {
        0
    } else {
        aligned_count(a, b, n - 1) + if a[n - 1] == b[n - 1] {
            1nat
        } else {
            0nat
        }
    }
}

/// Position-by-position agreement of two texts: how many positions within the shorter text
/// hold the same character in both, and the shorter text's length in characters.
pub fn aligned_matches(a: &str, b: &str) -> (r: (usize, usize))
    ensures
        r.1 == if a@.len() <= b@.len() {
            a@.len()
        } else {
            b@.len()
        },
        r.0 == aligned_count(a@, b@, r.1 as int),
{
    let va = to_chars(a);
    let vb = to_chars(b);
    let n = if va.len() <= vb.len() {
        va.len()
    } else {
        vb.len()
    };
    let mut count: usize = 0;
    let mut i: usize = 0;
    while i < n
        invariant
            i <= n,
            n <= va@.len(),
            n <= vb@.len(),
            va@ == a@,
            vb@ == b@,
            count == aligned_count(a@, b@, i as int),
            count <= i,
        decreases n - i,
    {
        if va[i] == vb[i] {
            count = count + 1;
        }
        i = i + 1;
    }
    (count, n)
}

} // verus!
