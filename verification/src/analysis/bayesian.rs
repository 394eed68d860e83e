//! Evidence drawn from linter output and a trainable naive Bayes model that counts it.
//!
//! Counts are kept in tables of (key, count) entries, each key once, in the order the keys
//! were first counted.
use vstd::prelude::*;
use crate::text::{chars_to_string, count_char, lowercase, str_count_char, to_chars, to_lowercase};
use crate::utils::concat;
use crate::config::document::{doc_text_field, json_document, read_json_document, text_field};

verus! {

/// The keys and values of a list of entries with text keys.
pub open spec fn entries_view<V>(s: Seq<(String, V)>) -> Seq<(Seq<char>, V)> {
    s.map_values(|e: (String, V)| (e.0@, e.1))
}

/// Position of the entry with key `k`, if there is one.
pub open spec fn key_index<V>(s: Seq<(Seq<char>, V)>, k: Seq<char>) -> Option<int> {
    if exists|i: int| 0 <= i < s.len() && (#[trigger] s[i]).0 == k {
        Some(choose|i: int| 0 <= i < s.len() && (#[trigger] s[i]).0 == k)
    } else {
        None
    }
}

/// No key occurs twice.
pub open spec fn keys_unique<V>(s: Seq<(Seq<char>, V)>) -> bool {
    forall|i: int, j: int|
        0 <= i < s.len() && 0 <= j < s.len() && i != j ==> (#[trigger] s[i]).0 != (#[trigger] s[j]).0
}

/// The count recorded for `k`, 0 when there is none.
pub open spec fn count_of(s: Seq<(Seq<char>, u64)>, k: Seq<char>) -> nat {
    match key_index(s, k) {
        Some(i) => s[i].1 as nat,
        None => 0,
    }
}

/// The table with `n` more counted for `k`: its entry grows, or a new entry comes last.
pub open spec fn bump(s: Seq<(Seq<char>, u64)>, k: Seq<char>, n: u64) -> Seq<(Seq<char>, u64)> {
    match key_index(s, k) {
        Some(i) => s.update(i, (k, (s[i].1 + n) as u64)),
        None => s.push((k, n)),
    }
}

/// The table after counting each (key, amount) in turn.
pub open spec fn bump_all(s: Seq<(Seq<char>, u64)>, incs: Seq<(Seq<char>, u64)>) -> Seq<
    (Seq<char>, u64),
>
    decreases incs.len(),
{
    if incs.len() == 0 {
        s
    } else {
        bump(bump_all(s, incs.drop_last()), incs.last().0, incs.last().1)
    }
}

/// No count overflows while each (key, amount) is counted in turn.
pub open spec fn fits_all(s: Seq<(Seq<char>, u64)>, incs: Seq<(Seq<char>, u64)>) -> bool
    decreases incs.len(),
{
    incs.len() == 0 || (fits_all(s, incs.drop_last()) && count_of(
        bump_all(s, incs.drop_last()),
        incs.last().0,
    ) + incs.last().1 <= u64::MAX)
}

/// With unique keys, the entry holding `k` is the one `key_index` names.
pub proof fn lemma_key_index<V>(s: Seq<(Seq<char>, V)>, i: int, k: Seq<char>)
    requires
        keys_unique(s),
        0 <= i < s.len(),
        s[i].0 == k,
    ensures
        key_index(s, k) == Some(i),
{
    let j = choose|j: int| 0 <= j < s.len() && (#[trigger] s[j]).0 == k;
    assert(s[j].0 == s[i].0);
}

/// Counting keeps keys unique, and changes only the count of the key counted.
pub proof fn lemma_bump(s: Seq<(Seq<char>, u64)>, k: Seq<char>, n: u64, j: Seq<char>)
    requires
        keys_unique(s),
        count_of(s, k) + n <= u64::MAX,
    ensures
        keys_unique(bump(s, k, n)),
        count_of(bump(s, k, n), j) == count_of(s, j) + if j == k {
            n as nat
        } else {
            0nat
        },
{
    let t = bump(s, k, n);
    match key_index(s, k) {
        Some(i) => {
            assert(s[i].0 == k);
            assert forall|a: int, b: int|
                0 <= a < t.len() && 0 <= b < t.len() && a != b implies (#[trigger] t[a]).0 != (
                #[trigger] t[b]).0 by {
                assert(s[a].0 != s[b].0);
            }
            lemma_key_index(t, i, k);
            if j != k {
                match key_index(s, j) {
                    Some(x) => {
                        assert(s[x].0 == j);
                        assert(t[x] == s[x]);
                        lemma_key_index(t, x, j);
                    },
                    None => {
                        if exists|y: int| 0 <= y < t.len() && (#[trigger] t[y]).0 == j {
                            let y = choose|y: int| 0 <= y < t.len() && (#[trigger] t[y]).0 == j;
                            assert(s[y].0 == j);
                        }
                    },
                }
            }
        },
        None => {
            let last = s.len() as int;
            assert forall|a: int, b: int|
                0 <= a < t.len() && 0 <= b < t.len() && a != b implies (#[trigger] t[a]).0 != (
                #[trigger] t[b]).0 by {
                if a < last && b < last {
                    assert(s[a].0 != s[b].0);
                } else if a < last {
                    assert(t[a] == s[a]);
                    assert(t[b].0 == k);
                } else if b < last {
                    assert(t[b] == s[b]);
                    assert(t[a].0 == k);
                }
            }
            assert(t[last].0 == k);
            lemma_key_index(t, last, k);
            if j != k {
                match key_index(s, j) {
                    Some(x) => {
                        assert(s[x].0 == j);
                        assert(t[x] == s[x]);
                        lemma_key_index(t, x, j);
                    },
                    None => {
                        if exists|y: int| 0 <= y < t.len() && (#[trigger] t[y]).0 == j {
                            let y = choose|y: int| 0 <= y < t.len() && (#[trigger] t[y]).0 == j;
                            assert(y < last);
                            assert(s[y].0 == j);
                        }
                    },
                }
            }
        },
    }
}

/// When every amount fits, so does every prefix, and the next amount fits the table counted
/// so far.
pub proof fn lemma_fits_prefix(s: Seq<(Seq<char>, u64)>, incs: Seq<(Seq<char>, u64)>, k: int)
    requires
        fits_all(s, incs),
        0 <= k <= incs.len(),
    ensures
        fits_all(s, incs.take(k)),
        k < incs.len() ==> count_of(bump_all(s, incs.take(k)), incs[k].0) + incs[k].1 <= u64::MAX,
    decreases incs.len(),
{
    if k == incs.len() {
        assert(incs.take(k) == incs);
    } else {
        assert(incs.take(k) == incs.drop_last().take(k));
        if k + 1 == incs.len() {
            assert(incs.drop_last().take(k) == incs.drop_last());
        } else {
            assert(incs.drop_last()[k] == incs[k]);
        }
        lemma_fits_prefix(s, incs.drop_last(), k);
    }
}

/// Counting one more (key, amount) after a prefix counts the longer prefix.
pub proof fn lemma_bump_all_step(s: Seq<(Seq<char>, u64)>, incs: Seq<(Seq<char>, u64)>, k: int)
    requires
        0 <= k < incs.len(),
    ensures
        bump_all(s, incs.take(k + 1)) == bump(bump_all(s, incs.take(k)), incs[k].0, incs[k].1),
{
    assert(incs.take(k + 1).drop_last() == incs.take(k));
}

/// Counting a prefix one longer fits exactly when the shorter prefix fits and so does the
/// next amount.
pub proof fn lemma_fits_step(s: Seq<(Seq<char>, u64)>, incs: Seq<(Seq<char>, u64)>, k: int)
    requires
        0 <= k < incs.len(),
    ensures
        fits_all(s, incs.take(k + 1)) == (fits_all(s, incs.take(k)) && count_of(
            bump_all(s, incs.take(k)),
            incs[k].0,
        ) + incs[k].1 <= u64::MAX),
{
    assert(incs.take(k + 1).drop_last() == incs.take(k));
}

/// A prefix that does not fit keeps any longer prefix from fitting.
pub proof fn lemma_unfit_longer(s: Seq<(Seq<char>, u64)>, incs: Seq<(Seq<char>, u64)>, j: int, m: int)
    requires
        0 <= j <= m <= incs.len(),
        !fits_all(s, incs.take(j)),
    ensures
        !fits_all(s, incs.take(m)),
{
    if fits_all(s, incs.take(m)) {
        lemma_fits_prefix(s, incs.take(m), j);
        assert(incs.take(m).take(j) == incs.take(j));
    }
}

/// Counts by key.
pub struct CountTable {
    entries: Vec<(String, u64)>,
}

impl View for CountTable {
    type V = Seq<(Seq<char>, u64)>;

    closed spec fn view(&self) -> Seq<(Seq<char>, u64)> {
        entries_view(self.entries@)
    }
}

/// Position of the entry with key `k`.
pub(crate) fn find_key<V>(entries: &Vec<(String, V)>, k: &str) -> (r: Option<usize>)
    ensures
        match r {
            Some(i) => i < entries@.len() && entries@[i as int].0@ == k@,
            None => forall|j: int| 0 <= j < entries@.len() ==> (#[trigger] entries@[j]).0@ != k@,
        },
{
    let mut i: usize = 0;
    while i < entries.len()
        invariant
            i <= entries@.len(),
            forall|j: int| 0 <= j < i ==> (#[trigger] entries@[j]).0@ != k@,
        decreases entries@.len() - i,
    {
        if crate::text::str_equal(entries[i].0.as_str(), k) {
            return Some(i);
        }
        i = i + 1;
    }
    None
}

impl CountTable {
    /// No key occurs twice in a table.
    #[verifier::type_invariant]
    pub open spec fn inv(self) -> bool {
        keys_unique(self@)
    }

    /// A table with nothing counted.
    pub fn new() -> (t: Self)
        ensures
            t@ == Seq::<(Seq<char>, u64)>::empty(),
    {
        let t = CountTable { entries: Vec::new() };
        assert(t@ =~= Seq::<(Seq<char>, u64)>::empty());
        t
    }

    /// The count recorded for the key, 0 when there is none.
    pub fn get(&self, k: &str) -> (n: u64)
        ensures
            n == count_of(self@, k@),
    {
        proof {
            use_type_invariant(self);
        }
        match find_key(&self.entries, k) {
            Some(i) => {
                proof {
                    assert(self@[i as int].0 == k@);
                    lemma_key_index(self@, i as int, k@);
                }
                self.entries[i].1
            },
            None => {
                assert(key_index(self@, k@) is None) by {
                    if exists|j: int| 0 <= j < self@.len() && (#[trigger] self@[j]).0 == k@ {
                        let j = choose|j: int| 0 <= j < self@.len() && (#[trigger] self@[j]).0 == k@;
                        assert(self.entries@[j].0@ == k@);
                    }
                }
                0
            },
        }
    }

    /// Counts `n` more for the key.
    pub fn add(&mut self, k: &str, n: u64)
        requires
            count_of(old(self)@, k@) + n <= u64::MAX,
        ensures
            final(self)@ == bump(old(self)@, k@, n),
    {
        proof {
            use_type_invariant(&*self);
            lemma_bump(self@, k@, n, k@);
        }
        let ghost before = self@;
        let mut entries: Vec<(String, u64)> = Vec::new();
        std::mem::swap(&mut entries, &mut self.entries);
        assert(entries_view(entries@) == before);
        match find_key(&entries, k) {
            Some(i) => {
                proof {
                    assert(before[i as int].0 == k@);
                    lemma_key_index(before, i as int, k@);
                }
                let c = entries[i].1;
                let key = entries[i].0.clone();
                entries.set(i, (key, c + n));
                assert(entries_view(entries@) =~= bump(before, k@, n));
            },
            None => {
                assert(key_index(before, k@) is None) by {
                    if exists|j: int| 0 <= j < before.len() && (#[trigger] before[j]).0 == k@ {
                        let j = choose|j: int| 0 <= j < before.len() && (#[trigger] before[j]).0 == k@;
                        assert(entries@[j].0@ == k@);
                    }
                }
                entries.push((String::from_str(k), n));
                assert(entries_view(entries@) =~= bump(before, k@, n));
            },
        }
        self.entries = entries;
    }

    /// The entries, in the order their keys were first counted.
    pub fn entries(&self) -> (r: &Vec<(String, u64)>)
        ensures
            entries_view(r@) == self@,
    {
        &self.entries
    }

    /// A table with the same entries.
    pub fn copy(&self) -> (t: Self)
        ensures
            t@ == self@,
    {
        proof {
            use_type_invariant(self);
        }
        let mut entries: Vec<(String, u64)> = Vec::new();
        let mut i: usize = 0;
        while i < self.entries.len()
            invariant
                i <= self.entries@.len(),
                entries_view(entries@) == entries_view(self.entries@).take(i as int),
            decreases self.entries@.len() - i,
        {
            let e = (String::from_str(self.entries[i].0.as_str()), self.entries[i].1);
            let ghost before = entries_view(entries@);
            let ghost ev = (e.0@, e.1);
            entries.push(e);
            assert(entries_view(entries@) =~= before.push(ev));
            assert(entries_view(self.entries@).take(i + 1) =~= entries_view(self.entries@).take(
                i as int,
            ).push(ev));
            i = i + 1;
        }
        assert(entries_view(self.entries@).take(self.entries@.len() as int) == self@);
        CountTable { entries }
    }

    /// Number of keys counted.
    pub fn len(&self) -> (n: usize)
        ensures
            n == self@.len(),
    {
        self.entries.len()
    }
}

/// Whether `c` is an ASCII letter or digit.
pub open spec fn is_ascii_alnum(c: char) -> bool {
    ('0' <= c && c <= '9') || ('a' <= c && c <= 'z') || ('A' <= c && c <= 'Z')
}

/// Splitting a text into runs of ASCII letters and digits: the runs finished so far and the
/// run under way.
pub open spec fn token_fold(s: Seq<char>) -> (Seq<Seq<char>>, Seq<char>)
    decreases s.len(),
{
    if s.len() == 0 {
        (Seq::empty(), Seq::empty())
    } else {
        let (done, cur) = token_fold(s.drop_last());
        if is_ascii_alnum(s.last()) {
            (done, cur.push(s.last()))
        } else if cur.len() > 0 {
            (done.push(cur), Seq::empty())
        } else {
            (done, cur)
        }
    }
}

/// The maximal runs of ASCII letters and digits in the text, in order.
pub open spec fn ascii_tokens(s: Seq<char>) -> Seq<Seq<char>> {
    let (done, cur) = token_fold(s);
    if cur.len() > 0 {
        done.push(cur)
    } else {
        done
    }
}

/// Each key counted once.
pub open spec fn ones(keys: Seq<Seq<char>>) -> Seq<(Seq<char>, u64)> {
    keys.map_values(|k: Seq<char>| (k, 1u64))
}

/// How often each lowercased token occurs in the text.
pub open spec fn token_tally(s: Seq<char>) -> Seq<(Seq<char>, u64)> {
    bump_all(Seq::empty(), ones(ascii_tokens(s).map_values(|t: Seq<char>| lowercase(t))))
}

/// The runs of three consecutive bytes of an encoding, each byte read as the character of
/// the same number.
pub open spec fn trigrams(b: Seq<u8>) -> Seq<Seq<char>> {
    Seq::new(
        if b.len() >= 3 {
            (b.len() - 2) as nat
        } else {
            0nat
        },
        |i: int| seq![b[i] as char, b[i + 1] as char, b[i + 2] as char],
    )
}

/// How often each run of three bytes occurs in the UTF-8 encoding of the text.
pub open spec fn ngram_tally(s: Seq<char>) -> Seq<(Seq<char>, u64)> {
    bump_all(Seq::empty(), ones(trigrams(vstd::utf8::encode_utf8(s))))
}

/// Counting keys once each from an empty table keeps keys unique, and no count exceeds the
/// number of keys counted.
pub proof fn lemma_tally(keys: Seq<Seq<char>>)
    requires
        keys.len() < u64::MAX,
    ensures
        keys_unique(bump_all(Seq::empty(), ones(keys))),
        fits_all(Seq::empty(), ones(keys)),
        forall|k: Seq<char>| count_of(bump_all(Seq::empty(), ones(keys)), k) <= keys.len(),
    decreases keys.len(),
{
    if keys.len() > 0 {
        let prev = keys.drop_last();
        assert(ones(keys).drop_last() == ones(prev));
        lemma_tally(prev);
        let t = bump_all(Seq::<(Seq<char>, u64)>::empty(), ones(prev));
        assert forall|k: Seq<char>| count_of(bump_all(Seq::empty(), ones(keys)), k) <= keys.len() by {
            lemma_bump(t, keys.last(), 1, k);
        }
        lemma_bump(t, keys.last(), 1, keys.last());
    }
}

/// Finished runs and the characters of the run under way never outnumber the characters
/// read.
proof fn lemma_token_fold_len(s: Seq<char>)
    ensures
        token_fold(s).0.len() + token_fold(s).1.len() <= s.len(),
    decreases s.len(),
{
    if s.len() > 0 {
        lemma_token_fold_len(s.drop_last());
    }
}

/// Evidence about a possible rule match, as counts.
pub struct EvidenceVector {
    /// Counts of runs of three bytes
    pub ngram_counts: CountTable,
    /// Counts of lowercased words
    pub token_counts: CountTable,
    /// File extension of the context ("rs", "js", ...), when known
    pub file_extension: Option<String>,
    /// Whether the input shows a line:column position
    pub has_line_col: bool,
}

/// The mathematical content of [`EvidenceVector`].
pub struct EvidenceView {
    pub ngrams: Seq<(Seq<char>, u64)>,
    pub tokens: Seq<(Seq<char>, u64)>,
    pub extension: Option<Seq<char>>,
    pub line_col: bool,
}

impl View for EvidenceVector {
    type V = EvidenceView;

    open spec fn view(&self) -> EvidenceView {
        EvidenceView {
            ngrams: self.ngram_counts@,
            tokens: self.token_counts@,
            extension: match self.file_extension {
                Some(e) => Some(e@),
                None => None,
            },
            line_col: self.has_line_col,
        }
    }
}

/// Evidence drawn from the text: its lowercased words of ASCII letters and digits, its runs
/// of three bytes, and whether it holds at least two colons.
pub open spec fn evidence_of(s: Seq<char>) -> EvidenceView {
    EvidenceView {
        ngrams: ngram_tally(s),
        tokens: token_tally(s),
        extension: None,
        line_col: count_char(s, ':') >= 2,
    }
}

/// Builds the evidence for a raw input: linter output or other text.
pub fn evidence_from_input(input: &str) -> (ev: EvidenceVector)
    ensures
        ev@ == evidence_of(input@),
{
    let chars = to_chars(input);
    let ghost lower = |t: Seq<char>| lowercase(t);
    let mut tokens = CountTable::new();
    let mut cur: Vec<char> = Vec::new();
    let ghost mut done: Seq<Seq<char>> = Seq::empty();
    let mut i: usize = 0;
    while i < chars.len()
        invariant
            i <= chars@.len(),
            chars@ == input@,
            (done, cur@) == token_fold(chars@.take(i as int)),
            tokens@ == bump_all(Seq::empty(), ones(done.map_values(lower))),
            lower == (|t: Seq<char>| lowercase(t)),
        decreases chars@.len() - i,
    {
        let c = chars[i];
        assert(chars@.take(i + 1).drop_last() == chars@.take(i as int));
        proof {
            lemma_token_fold_len(chars@.take(i as int));
        }
        if ('0' <= c && c <= '9') || ('a' <= c && c <= 'z') || ('A' <= c && c <= 'Z') {
            cur.push(c);
        } else if cur.len() > 0 {
            let word = chars_to_string(&cur);
            let key = to_lowercase(word.as_str());
            proof {
                lemma_tally(done.map_values(lower));
                let next = done.push(cur@);
                assert(ones(next.map_values(lower)).drop_last() == ones(done.map_values(lower)));
                assert(ones(next.map_values(lower)).last() == (lowercase(cur@), 1u64));
            }
            tokens.add(key.as_str(), 1);
            proof {
                done = done.push(cur@);
            }
            cur = Vec::new();
        }
        i = i + 1;
    }
    assert(chars@.take(chars@.len() as int) == chars@);
    proof {
        lemma_token_fold_len(chars@);
    }
    if cur.len() > 0 {
        let word = chars_to_string(&cur);
        let key = to_lowercase(word.as_str());
        proof {
            lemma_tally(done.map_values(lower));
            let next = done.push(cur@);
            assert(ones(next.map_values(lower)).drop_last() == ones(done.map_values(lower)));
            assert(ones(next.map_values(lower)).last() == (lowercase(cur@), 1u64));
        }
        tokens.add(key.as_str(), 1);
    }
    let bytes = input.as_bytes();
    let ghost tri = trigrams(bytes@);
    let mut ngrams = CountTable::new();
    let len = bytes.len();
    if len >= 3 {
        let windows = len - 2;
        let mut j: usize = 0;
        assert(ones(tri.take(0)) == Seq::<(Seq<char>, u64)>::empty());
        while j < windows
            invariant
                bytes@ == vstd::utf8::encode_utf8(input@),
                tri == trigrams(bytes@),
                len == bytes@.len(),
                windows == len - 2,
                len >= 3,
                j <= windows,
                ngrams@ == bump_all(Seq::empty(), ones(tri.take(j as int))),
            decreases bytes@.len() - j,
        {
            let gram: Vec<char> = vec![bytes[j] as char, bytes[j + 1] as char, bytes[j + 2] as char];
            let key = chars_to_string(&gram);
            proof {
                lemma_tally(tri.take(j as int));
                assert(tri.take(j + 1).drop_last() == tri.take(j as int));
                assert(ones(tri.take(j + 1)).drop_last() == ones(tri.take(j as int)));
                assert(gram@ =~= tri[j as int]);
            }
            ngrams.add(key.as_str(), 1);
            j = j + 1;
        }
        assert(tri.take(j as int) == tri);
    } else {
        assert(tri == Seq::<Seq<char>>::empty());
    }
    let colons = str_count_char(input, ':');
    EvidenceVector { ngram_counts: ngrams, token_counts: tokens, file_extension: None, has_line_col: colons >= 2 }
}

/// The entries with each key put after `p`.
pub open spec fn prefixed(p: Seq<char>, s: Seq<(Seq<char>, u64)>) -> Seq<(Seq<char>, u64)> {
    s.map_values(|e: (Seq<char>, u64)| (p + e.0, e.1))
}

/// The features an observation contributes, with their amounts, in the order the model counts
/// them: the file extension, the line:column position, the words and the runs of three bytes.
pub open spec fn observation_features(e: EvidenceView) -> Seq<(Seq<char>, u64)> {
    (match e.extension {
        Some(x) => seq![("ext:"@ + x, 1u64)],
        None => Seq::empty(),
    }) + (if e.line_col {
        seq![("has_line_col"@, 1u64)]
    } else {
        Seq::empty()
    }) + prefixed("tok:"@, e.tokens) + prefixed("ng:"@, e.ngrams)
}

/// A labelled observation for training.
pub struct LabeledObservation {
    /// Ground-truth rule identifier
    pub rule_id: String,
    /// Evidence drawn from the input
    pub evidence: EvidenceVector,
}

/// The mathematical content of [`NaiveBayesModel`].
pub struct ModelView {
    /// How often each rule was observed
    pub rules: Seq<(Seq<char>, u64)>,
    /// For each rule, how often each feature was observed with it
    pub features: Seq<(Seq<char>, Seq<(Seq<char>, u64)>)>,
    /// How many observations were made
    pub total: u64,
}

/// The feature table kept for the rule, empty when there is none.
pub open spec fn table_for(f: Seq<(Seq<char>, Seq<(Seq<char>, u64)>)>, k: Seq<char>) -> Seq<
    (Seq<char>, u64),
> {
    match key_index(f, k) {
        Some(i) => f[i].1,
        None => Seq::empty(),
    }
}

/// The feature tables with the rule's table replaced, or added last.
pub open spec fn with_table(
    f: Seq<(Seq<char>, Seq<(Seq<char>, u64)>)>,
    k: Seq<char>,
    t: Seq<(Seq<char>, u64)>,
) -> Seq<(Seq<char>, Seq<(Seq<char>, u64)>)> {
    match key_index(f, k) {
        Some(i) => f.update(i, (k, t)),
        None => f.push((k, t)),
    }
}

/// What an observation does to a model: one more observation of its rule, and each of its
/// features counted for that rule.
pub open spec fn observe(m: ModelView, rule: Seq<char>, e: EvidenceView) -> ModelView {
    ModelView {
        rules: bump(m.rules, rule, 1),
        features: with_table(
            m.features,
            rule,
            bump_all(table_for(m.features, rule), observation_features(e)),
        ),
        total: (m.total + 1) as u64,
    }
}

/// Whether the observation can be counted without any count passing `u64::MAX`.
pub open spec fn observation_fits(m: ModelView, rule: Seq<char>, e: EvidenceView) -> bool {
    &&& m.total < u64::MAX
    &&& count_of(m.rules, rule) < u64::MAX
    &&& fits_all(table_for(m.features, rule), observation_features(e))
}

/// A naive Bayes model that learns by counting rules and features.
pub struct NaiveBayesModel {
    rule_counts: CountTable,
    feature_counts: Vec<(String, CountTable)>,
    total_rules: u64,
}

/// The keys and tables of a list of feature tables.
pub open spec fn tables_view(s: Seq<(String, CountTable)>) -> Seq<(Seq<char>, Seq<(Seq<char>, u64)>)> {
    s.map_values(|e: (String, CountTable)| (e.0@, e.1@))
}

impl View for NaiveBayesModel {
    type V = ModelView;

    closed spec fn view(&self) -> ModelView {
        ModelView {
            rules: self.rule_counts@,
            features: tables_view(self.feature_counts@),
            total: self.total_rules,
        }
    }
}

/// Counts each (key, amount) in turn from position `from` of `incs` on, for a list of
/// entries standing at positions `from` to `from + s.len()`.
fn add_entries(
    table: &mut CountTable,
    prefix: &str,
    entries: &Vec<(String, u64)>,
    Ghost(t0): Ghost<Seq<(Seq<char>, u64)>>,
    Ghost(incs): Ghost<Seq<(Seq<char>, u64)>>,
    Ghost(from): Ghost<int>,
)
    requires
        fits_all(t0, incs),
        0 <= from,
        from + entries@.len() <= incs.len(),
        forall|j: int|
            0 <= j < entries@.len() ==> #[trigger] incs[from + j] == (
            prefix@ + entries@[j].0@,
            entries@[j].1,
        ),
        old(table)@ == bump_all(t0, incs.take(from)),
    ensures
        final(table)@ == bump_all(t0, incs.take(from + entries@.len())),
{
    let mut j: usize = 0;
    while j < entries.len()
        invariant
            fits_all(t0, incs),
            0 <= from,
            from + entries@.len() <= incs.len(),
            forall|j: int|
                0 <= j < entries@.len() ==> #[trigger] incs[from + j] == (
                prefix@ + entries@[j].0@,
                entries@[j].1,
            ),
            j <= entries@.len(),
            table@ == bump_all(t0, incs.take(from + j)),
        decreases entries@.len() - j,
    {
        let key = concat(prefix, entries[j].0.as_str());
        proof {
            assert(incs[from + j] == (key@, entries@[j as int].1));
            lemma_fits_prefix(t0, incs, from + j);
            lemma_bump_all_step(t0, incs, from + j);
        }
        table.add(key.as_str(), entries[j].1);
        j = j + 1;
    }
}

/// Counts every feature of the evidence in the table.
fn count_features(table: &mut CountTable, ev: &EvidenceVector)
    requires
        fits_all(old(table)@, observation_features(ev@)),
    ensures
        final(table)@ == bump_all(old(table)@, observation_features(ev@)),
{
    let ghost t0 = table@;
    let ghost incs = observation_features(ev@);
    let ghost mut k: int = 0;
    assert(incs.take(0) == Seq::<(Seq<char>, u64)>::empty());
    match &ev.file_extension {
        Some(ext) => {
            let key = concat("ext:", ext.as_str());
            proof {
                assert(incs[0] == (key@, 1u64));
                lemma_fits_prefix(t0, incs, 0);
                lemma_bump_all_step(t0, incs, 0);
                k = 1;
            }
            table.add(key.as_str(), 1);
        },
        None => {},
    }
    if ev.has_line_col {
        proof {
            assert(incs[k] == ("has_line_col"@, 1u64));
            lemma_fits_prefix(t0, incs, k);
            lemma_bump_all_step(t0, incs, k);
        }
        table.add("has_line_col", 1);
        proof {
            k = k + 1;
        }
    }
    let tokens = ev.token_counts.entries();
    let ngrams = ev.ngram_counts.entries();
    proof {
        let n = tokens@.len() as int;
        assert forall|j: int| 0 <= j < tokens@.len() implies #[trigger] incs[k + j] == (
            "tok:"@ + tokens@[j].0@,
            tokens@[j].1,
        ) by {
            assert(entries_view(tokens@)[j] == (tokens@[j].0@, tokens@[j].1));
        }
        assert forall|j: int| 0 <= j < ngrams@.len() implies #[trigger] incs[(k + n) + j] == (
            "ng:"@ + ngrams@[j].0@,
            ngrams@[j].1,
        ) by {
            assert(entries_view(ngrams@)[j] == (ngrams@[j].0@, ngrams@[j].1));
        }
    }
    add_entries(table, "tok:", tokens, Ghost(t0), Ghost(incs), Ghost(k));
    add_entries(table, "ng:", ngrams, Ghost(t0), Ghost(incs), Ghost(k + tokens@.len()));
    assert(incs.take(incs.len() as int) == incs);
}

/// Whether the entries, each key put after the prefix, can be counted in turn from position
/// `from` of `incs` on; when they can, they are counted in `scratch`.
fn entries_fit(
    scratch: &mut CountTable,
    prefix: &str,
    entries: &Vec<(String, u64)>,
    Ghost(t0): Ghost<Seq<(Seq<char>, u64)>>,
    Ghost(incs): Ghost<Seq<(Seq<char>, u64)>>,
    Ghost(from): Ghost<int>,
) -> (b: bool)
    requires
        fits_all(t0, incs.take(from)),
        0 <= from,
        from + entries@.len() <= incs.len(),
        forall|j: int|
            0 <= j < entries@.len() ==> #[trigger] incs[from + j] == (
            prefix@ + entries@[j].0@,
            entries@[j].1,
        ),
        old(scratch)@ == bump_all(t0, incs.take(from)),
    ensures
        b == fits_all(t0, incs.take(from + entries@.len())),
        b ==> final(scratch)@ == bump_all(t0, incs.take(from + entries@.len())),
{
    let mut j: usize = 0;
    while j < entries.len()
        invariant
            0 <= from,
            from + entries@.len() <= incs.len(),
            forall|j: int|
                0 <= j < entries@.len() ==> #[trigger] incs[from + j] == (
                prefix@ + entries@[j].0@,
                entries@[j].1,
            ),
            j <= entries@.len(),
            fits_all(t0, incs.take(from + j)),
            scratch@ == bump_all(t0, incs.take(from + j)),
        decreases entries@.len() - j,
    {
        let key = concat(prefix, entries[j].0.as_str());
        let amount = entries[j].1;
        proof {
            assert(incs[from + j] == (key@, amount));
            lemma_fits_step(t0, incs, from + j);
            lemma_bump_all_step(t0, incs, from + j);
        }
        if scratch.get(key.as_str()) > u64::MAX - amount {
            proof {
                lemma_unfit_longer(t0, incs, from + j + 1, from + entries@.len());
            }
            return false;
        }
        scratch.add(key.as_str(), amount);
        j = j + 1;
    }
    true
}

/// Whether every feature of the evidence can be counted in the table without a count passing
/// `u64::MAX`.
fn features_fit(table: &CountTable, ev: &EvidenceVector) -> (b: bool)
    ensures
        b == fits_all(table@, observation_features(ev@)),
{
    let ghost t0 = table@;
    let ghost incs = observation_features(ev@);
    let ghost mut k: int = 0;
    let mut scratch = table.copy();
    assert(incs.take(0) == Seq::<(Seq<char>, u64)>::empty());
    match &ev.file_extension {
        Some(ext) => {
            let key = concat("ext:", ext.as_str());
            proof {
                assert(incs[0] == (key@, 1u64));
                lemma_fits_step(t0, incs, 0);
                lemma_bump_all_step(t0, incs, 0);
            }
            if scratch.get(key.as_str()) > u64::MAX - 1 {
                proof {
                    lemma_unfit_longer(t0, incs, 1, incs.len() as int);
                    assert(incs.take(incs.len() as int) == incs);
                }
                return false;
            }
            scratch.add(key.as_str(), 1);
            proof {
                k = 1;
            }
        },
        None => {},
    }
    if ev.has_line_col {
        proof {
            assert(incs[k] == ("has_line_col"@, 1u64));
            lemma_fits_step(t0, incs, k);
            lemma_bump_all_step(t0, incs, k);
        }
        if scratch.get("has_line_col") > u64::MAX - 1 {
            proof {
                lemma_unfit_longer(t0, incs, k + 1, incs.len() as int);
                assert(incs.take(incs.len() as int) == incs);
            }
            return false;
        }
        scratch.add("has_line_col", 1);
        proof {
            k = k + 1;
        }
    }
    let tokens = ev.token_counts.entries();
    let ngrams = ev.ngram_counts.entries();
    proof {
        let n = tokens@.len() as int;
        assert forall|j: int| 0 <= j < tokens@.len() implies #[trigger] incs[k + j] == (
            "tok:"@ + tokens@[j].0@,
            tokens@[j].1,
        ) by {
            assert(entries_view(tokens@)[j] == (tokens@[j].0@, tokens@[j].1));
        }
        assert forall|j: int| 0 <= j < ngrams@.len() implies #[trigger] incs[(k + n) + j] == (
            "ng:"@ + ngrams@[j].0@,
            ngrams@[j].1,
        ) by {
            assert(entries_view(ngrams@)[j] == (ngrams@[j].0@, ngrams@[j].1));
        }
    }
    assert(incs.take(incs.len() as int) == incs);
    if !entries_fit(&mut scratch, "tok:", tokens, Ghost(t0), Ghost(incs), Ghost(k)) {
        proof {
            lemma_unfit_longer(t0, incs, k + tokens@.len(), incs.len() as int);
        }
        return false;
    }
    entries_fit(&mut scratch, "ng:", ngrams, Ghost(t0), Ghost(incs), Ghost(k + tokens@.len()))
}

impl NaiveBayesModel {
    #[verifier::type_invariant]
    spec fn inv(self) -> bool {
        keys_unique(tables_view(self.feature_counts@))
    }

    /// A model that has observed nothing.
    pub fn new() -> (m: Self)
        ensures
            m@ == (ModelView { rules: Seq::empty(), features: Seq::empty(), total: 0 }),
    {
        let m = NaiveBayesModel { rule_counts: CountTable::new(), feature_counts: Vec::new(), total_rules: 0 };
        assert(tables_view(m.feature_counts@) =~= Seq::empty());
        m
    }

    /// How often each rule was observed.
    pub fn rule_counts(&self) -> (t: &CountTable)
        ensures
            t@ == self@.rules,
    {
        &self.rule_counts
    }

    /// For each rule, how often each feature was observed with it.
    pub fn feature_counts(&self) -> (f: &Vec<(String, CountTable)>)
        ensures
            tables_view(f@) == self@.features,
    {
        &self.feature_counts
    }

    /// How many observations were made.
    pub fn total_rules(&self) -> (n: u64)
        ensures
            n == self@.total,
    {
        self.total_rules
    }

    /// A model with the given counts, when no rule has two feature tables.
    pub fn from_parts(rule_counts: CountTable, feature_counts: Vec<(String, CountTable)>, total_rules: u64) -> (r:
        Option<Self>)
        ensures
            match r {
                Some(m) => m@ == (ModelView {
                    rules: rule_counts@,
                    features: tables_view(feature_counts@),
                    total: total_rules,
                }),
                None => !keys_unique(tables_view(feature_counts@)),
            },
    {
        let ghost f = tables_view(feature_counts@);
        let mut i: usize = 0;
        while i < feature_counts.len()
            invariant
                i <= feature_counts@.len(),
                f == tables_view(feature_counts@),
                forall|a: int, b: int| 0 <= a < i && 0 <= b < f.len() && a != b ==> (#[trigger] f[a]).0 != (#[trigger] f[b]).0,
            decreases feature_counts@.len() - i,
        {
            let mut j: usize = 0;
            while j < feature_counts.len()
                invariant
                    i < feature_counts@.len(),
                    j <= feature_counts@.len(),
                    f == tables_view(feature_counts@),
                    forall|b: int| 0 <= b < j && b != i ==> f[i as int].0 != (#[trigger] f[b]).0,
                decreases feature_counts@.len() - j,
            {
                if j != i && crate::text::str_equal(feature_counts[i].0.as_str(), feature_counts[j].0.as_str()) {
                    assert(f[i as int].0 == f[j as int].0);
                    return None;
                }
                j = j + 1;
            }
            i = i + 1;
        }
        Some(NaiveBayesModel { rule_counts, feature_counts, total_rules })
    }

    /// Whether the observation can be counted without any count passing `u64::MAX`.
    pub fn can_observe(&self, obs: &LabeledObservation) -> (b: bool)
        ensures
            b == observation_fits(self@, obs.rule_id@, obs.evidence@),
    {
        proof {
            use_type_invariant(self);
        }
        if self.total_rules == u64::MAX || self.rule_counts.get(obs.rule_id.as_str()) == u64::MAX {
            return false;
        }
        let rule = obs.rule_id.as_str();
        match find_key(&self.feature_counts, rule) {
            Some(i) => {
                proof {
                    assert(self@.features[i as int].0 == rule@);
                    lemma_key_index(self@.features, i as int, rule@);
                }
                features_fit(&self.feature_counts[i].1, &obs.evidence)
            },
            None => {
                assert(key_index(self@.features, rule@) is None) by {
                    if exists|j: int|
                        0 <= j < self@.features.len() && (#[trigger] self@.features[j]).0 == rule@ {
                        let j = choose|j: int|
                            0 <= j < self@.features.len() && (#[trigger] self@.features[j]).0
                                == rule@;
                        assert(self.feature_counts@[j].0@ == rule@);
                    }
                }
                let empty = CountTable::new();
                features_fit(&empty, &obs.evidence)
            },
        }
    }

    /// Counts one labelled observation: one more for its rule, and each of its features for
    /// that rule.
    pub fn add_observation(&mut self, obs: &LabeledObservation)
        requires
            observation_fits(old(self)@, obs.rule_id@, obs.evidence@),
        ensures
            final(self)@ == observe(old(self)@, obs.rule_id@, obs.evidence@),
    {
        proof {
            use_type_invariant(&*self);
        }
        let ghost before = self@;
        let rule = obs.rule_id.as_str();
        let mut rules = CountTable::new();
        std::mem::swap(&mut rules, &mut self.rule_counts);
        rules.add(rule, 1);
        self.rule_counts = rules;
        self.total_rules = self.total_rules + 1;
        let mut tables: Vec<(String, CountTable)> = Vec::new();
        std::mem::swap(&mut tables, &mut self.feature_counts);
        assert(tables_view(tables@) == before.features);
        match find_key(&tables, rule) {
            Some(i) => {
                proof {
                    assert(before.features[i as int].0 == rule@);
                    lemma_key_index(before.features, i as int, rule@);
                }
                let (name, mut table) = tables.remove(i);
                count_features(&mut table, &obs.evidence);
                tables.insert(i, (name, table));
                assert(tables_view(tables@) =~= with_table(
                    before.features,
                    rule@,
                    bump_all(table_for(before.features, rule@), observation_features(obs.evidence@)),
                ));
                assert(keys_unique(tables_view(tables@))) by {
                    let t = tables_view(tables@);
                    assert forall|a: int, b: int|
                        0 <= a < t.len() && 0 <= b < t.len() && a != b implies (#[trigger] t[a]).0
                        != (#[trigger] t[b]).0 by {
                        assert(before.features[a].0 != before.features[b].0);
                    }
                }
            },
            None => {
                assert(key_index(before.features, rule@) is None) by {
                    if exists|j: int|
                        0 <= j < before.features.len() && (#[trigger] before.features[j]).0 == rule@ {
                        let j = choose|j: int|
                            0 <= j < before.features.len() && (#[trigger] before.features[j]).0
                                == rule@;
                        assert(tables@[j].0@ == rule@);
                    }
                }
                let mut table = CountTable::new();
                count_features(&mut table, &obs.evidence);
                tables.push((String::from_str(rule), table));
                assert(tables_view(tables@) =~= with_table(
                    before.features,
                    rule@,
                    bump_all(table_for(before.features, rule@), observation_features(obs.evidence@)),
                ));
                assert(keys_unique(tables_view(tables@))) by {
                    let t = tables_view(tables@);
                    let last = before.features.len() as int;
                    assert forall|a: int, b: int|
                        0 <= a < t.len() && 0 <= b < t.len() && a != b implies (#[trigger] t[a]).0
                        != (#[trigger] t[b]).0 by {
                        if a < last && b < last {
                            assert(before.features[a].0 != before.features[b].0);
                        } else if a < last {
                            assert(t[a] == before.features[a]);
                        } else if b < last {
                            assert(t[b] == before.features[b]);
                        }
                    }
                }
            },
        }
        self.feature_counts = tables;
    }
}

/// The sum of the counts of a table.
pub open spec fn table_sum(s: Seq<(Seq<char>, u64)>) -> nat
    decreases s.len(),
{
    if s.len() == 0 {
        0
    } else {
        table_sum(s.drop_last()) + s.last().1 as nat
    }
}

/// Replacing one count changes the sum by the difference.
proof fn lemma_sum_update(s: Seq<(Seq<char>, u64)>, i: int, e: (Seq<char>, u64))
    requires
        0 <= i < s.len(),
    ensures
        table_sum(s.update(i, e)) == table_sum(s) - s[i].1 + e.1,
    decreases s.len(),
{
    if i < s.len() - 1 {
        lemma_sum_update(s.drop_last(), i, e);
        assert(s.update(i, e).drop_last() == s.drop_last().update(i, e));
    } else {
        assert(s.update(i, e).drop_last() == s.drop_last());
    }
}

/// Law: every observation adds one to the total and one to its rule's count, so a model whose
/// total is the sum of its rule counts keeps it so.
pub proof fn law_total_counts_rules(m: ModelView, rule: Seq<char>, e: EvidenceView)
    requires
        keys_unique(m.rules),
        observation_fits(m, rule, e),
        table_sum(m.rules) == m.total,
    ensures
        table_sum(observe(m, rule, e).rules) == observe(m, rule, e).total,
        observe(m, rule, e).total == m.total + 1,
        count_of(observe(m, rule, e).rules, rule) == count_of(m.rules, rule) + 1,
{
    lemma_bump(m.rules, rule, 1, rule);
    match key_index(m.rules, rule) {
        Some(i) => {
            lemma_sum_update(m.rules, i, (rule, (m.rules[i].1 + 1) as u64));
        },
        None => {
            assert(m.rules.push((rule, 1u64)).drop_last() == m.rules);
        },
    }
}

/// Why a line of training data gives no observation.
#[derive(Debug, Clone, PartialEq, Eq)]
pub enum TrainingLineError {
    /// The line is not JSON; the reader's message
    InvalidJson(String),
    /// No string under `rule_id`
    MissingRuleId,
    /// No string under `text`
    MissingText,
}

/// The observation a JSON training line gives: the string under `rule_id` as the rule and
/// the evidence of the string under `text`.
pub fn training_observation(line: &str) -> (r: Result<LabeledObservation, TrainingLineError>)
    ensures
        match json_document(line@) {
            None => r matches Err(TrainingLineError::InvalidJson(_)),
            Some(d) => match doc_text_field(d, "rule_id"@) {
                None => r matches Err(TrainingLineError::MissingRuleId),
                Some(id) => match doc_text_field(d, "text"@) {
                    None => r matches Err(TrainingLineError::MissingText),
                    Some(t) => r matches Ok(o) && o.rule_id@ == id && o.evidence@ == evidence_of(t),
                },
            },
        },
{
    let d = match read_json_document(line) {
        Ok(d) => d,
        Err(e) => {
            return Err(TrainingLineError::InvalidJson(e));
        },
    };
    let rule_id = match text_field(&d, "rule_id") {
        Some(r) => r,
        None => {
            return Err(TrainingLineError::MissingRuleId);
        },
    };
    let text = match text_field(&d, "text") {
        Some(t) => t,
        None => {
            return Err(TrainingLineError::MissingText);
        },
    };
    let evidence = evidence_from_input(text.as_str());
    Ok(LabeledObservation { rule_id, evidence })
}

} // verus!
