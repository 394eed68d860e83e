//! The index of configuration backups and the names backups get.
//!
//! Copying files and reading the clock happen in the terminal front end; it records each
//! backup here and asks which backups to list or remove.
use vstd::prelude::*;
use crate::linters::strings_model;
use crate::text::{decimal, is_prefix, is_suffix, str_ends_with, str_starts_with};
use crate::utils::concat;

verus! {

/// Errors of backup operations, each with its message.
#[derive(Debug, Clone, PartialEq, Eq)]
pub enum BackupError {
    /// IO error while performing backup operations
    IoError(String),
    /// Requested backup ID not found
    BackupNotFound(String),
    /// Failed to create the backup directory
    DirectoryCreationFailed(String),
    /// Failed to create the backup file
    FileCreationFailed(String),
}

/// The message of a backup error.
pub open spec fn backup_error_message(e: BackupError) -> Seq<char> {
    match e {
        BackupError::IoError(m) => "IO error: "@ + m@,
        BackupError::BackupNotFound(m) => "Backup not found: "@ + m@,
        BackupError::DirectoryCreationFailed(m) => "Backup directory creation failed: "@ + m@,
        BackupError::FileCreationFailed(m) => "Backup file creation failed: "@ + m@,
    }
}

impl BackupError {
    /// The message shown for the error.
    pub fn message(&self) -> (r: String)
        ensures
            r@ == backup_error_message(*self),
    {
        match self {
            BackupError::IoError(m) => concat("IO error: ", m.as_str()),
            BackupError::BackupNotFound(m) => concat("Backup not found: ", m.as_str()),
            BackupError::DirectoryCreationFailed(m) => concat(
                "Backup directory creation failed: ",
                m.as_str(),
            ),
            BackupError::FileCreationFailed(m) => concat("Backup file creation failed: ", m.as_str()),
        }
    }
}

/// A recorded backup.
#[derive(Debug)]
pub struct BackupInfo {
    /// Unique backup identifier
    pub id: String,
    /// Original file path backed up
    pub original_path: String,
    /// Path to the backup file
    pub backup_path: String,
    /// Creation time, in nanoseconds since the Unix epoch (UTC)
    pub timestamp: i64,
    /// Size of the backup in bytes
    pub size: u64,
}

/// The mathematical content of a [`BackupInfo`].
pub struct BackupModel {
    pub id: Seq<char>,
    pub original_path: Seq<char>,
    pub backup_path: Seq<char>,
    pub timestamp: i64,
    pub size: u64,
}

impl View for BackupInfo {
    type V = BackupModel;

    open spec fn view(&self) -> BackupModel {
        BackupModel {
            id: self.id@,
            original_path: self.original_path@,
            backup_path: self.backup_path@,
            timestamp: self.timestamp,
            size: self.size,
        }
    }
}

impl BackupInfo {
    /// A copy of this record.
    pub fn copy(&self) -> (r: BackupInfo)
        ensures
            r@ == self@,
    {
        BackupInfo {
            id: self.id.clone(),
            original_path: self.original_path.clone(),
            backup_path: self.backup_path.clone(),
            timestamp: self.timestamp,
            size: self.size,
        }
    }
}

/// The models of a sequence of records.
pub open spec fn backups_model(s: Seq<BackupInfo>) -> Seq<BackupModel> {
    s.map_values(|b: BackupInfo| b@)
}

/// The position of the record with identifier `id`.
pub open spec fn index_of(s: Seq<BackupModel>, id: Seq<char>) -> Option<int> {
    if exists|i: int| 0 <= i < s.len() && (#[trigger] s[i]).id == id {
        Some(choose|i: int| 0 <= i < s.len() && (#[trigger] s[i]).id == id)
    } else {
        None
    }
}

/// No identifier occurs twice.
pub open spec fn distinct_ids(s: Seq<BackupModel>) -> bool {
    forall|i: int, j: int|
        0 <= i < s.len() && 0 <= j < s.len() && i != j ==> (#[trigger] s[i]).id != (#[trigger] s[j]).id
}

/// The index with the record added, or put in place of the record with its identifier.
pub open spec fn with_backup(s: Seq<BackupModel>, b: BackupModel) -> Seq<BackupModel> {
    match index_of(s, b.id) {
        Some(i) => s.update(i, b),
        None => s.push(b),
    }
}

/// The index without the record with identifier `id`.
pub open spec fn without_backup(s: Seq<BackupModel>, id: Seq<char>) -> Seq<BackupModel> {
    match index_of(s, id) {
        Some(i) => s.remove(i),
        None => s,
    }
}

/// The records of the file, in index order.
pub open spec fn backups_of(s: Seq<BackupModel>, path: Seq<char>) -> Seq<BackupModel>
    decreases s.len(),
{
    if s.len() == 0 {
        s
    } else {
        let prev = backups_of(s.drop_last(), path);
        if s.last().original_path == path {
            prev.push(s.last())
        } else {
            prev
        }
    }
}

/// Where a record made at time `t` goes in a list sorted newest first: after every record
/// at least as new.
pub open spec fn newest_pos(s: Seq<BackupModel>, t: i64) -> int
    decreases s.len(),
{
    if s.len() == 0 {
        0
    } else if s[0].timestamp < t {
        0
    } else {
        1 + newest_pos(s.drop_first(), t)
    }
}

/// The records sorted newest first, records of equal time in their first order.
pub open spec fn newest_first(s: Seq<BackupModel>) -> Seq<BackupModel>
    decreases s.len(),
{
    if s.len() == 0 {
        s
    } else {
        let sorted = newest_first(s.drop_last());
        sorted.insert(newest_pos(sorted, s.last().timestamp), s.last())
    }
}

/// The identifiers of the records.
pub open spec fn ids_of(s: Seq<BackupModel>) -> Seq<Seq<char>> {
    s.map_values(|b: BackupModel| b.id)
}

/// The records made before `cutoff`, in index order.
pub open spec fn older_than(s: Seq<BackupModel>, cutoff: i64) -> Seq<BackupModel>
    decreases s.len(),
{
    if s.len() == 0 {
        s
    } else {
        let prev = older_than(s.drop_last(), cutoff);
        if s.last().timestamp < cutoff {
            prev.push(s.last())
        } else {
            prev
        }
    }
}

proof fn lemma_newest_pos(s: Seq<BackupModel>, t: i64, i: int)
    requires
        0 <= i <= s.len(),
        forall|j: int| 0 <= j < i ==> (#[trigger] s[j]).timestamp >= t,
        i == s.len() || s[i].timestamp < t,
    ensures
        newest_pos(s, t) == i,
    decreases i,
{
    if i > 0 {
        assert forall|j: int| 0 <= j < i - 1 implies (#[trigger] s.drop_first()[j]).timestamp >= t by {
            assert(s.drop_first()[j] == s[j + 1]);
        }
        if i < s.len() {
            assert(s.drop_first()[i - 1] == s[i]);
        }
        lemma_newest_pos(s.drop_first(), t, i - 1);
        assert(s[0].timestamp >= t);
    }
}

/// The backups made so far, by identifier.
pub struct BackupIndex {
    backups: Vec<BackupInfo>,
}

impl View for BackupIndex {
    type V = Seq<BackupModel>;

    closed spec fn view(&self) -> Seq<BackupModel> {
        backups_model(self.backups@)
    }
}

impl BackupIndex {
    #[verifier::type_invariant]
    spec fn well_formed(self) -> bool {
        distinct_ids(backups_model(self.backups@))
    }

    /// An empty index.
    pub fn new() -> (r: Self)
        ensures
            r@ == Seq::<BackupModel>::empty(),
    {
        let r = BackupIndex { backups: Vec::new() };
        assert(r@ =~= Seq::<BackupModel>::empty());
        r
    }

    /// The number of records.
    pub fn len(&self) -> (n: usize)
        ensures
            n == self@.len(),
    {
        self.backups.len()
    }

    /// The records, in the order they were first made.
    pub fn records(&self) -> (r: &Vec<BackupInfo>)
        ensures
            backups_model(r@) == self@,
    {
        &self.backups
    }

    /// Position of the record with the identifier.
    fn find(&self, id: &str) -> (r: Option<usize>)
        ensures
            match r {
                Some(i) => index_of(self@, id@) == Some(i as int) && i < self@.len(),
                None => index_of(self@, id@) is None,
            },
    {
        proof {
            use_type_invariant(self);
        }
        let ghost s = self@;
        let mut i: usize = 0;
        while i < self.backups.len()
            invariant
                i <= self.backups@.len(),
                s == backups_model(self.backups@),
                distinct_ids(s),
                forall|j: int| 0 <= j < i ==> (#[trigger] s[j]).id != id@,
            decreases self.backups@.len() - i,
        {
            if crate::text::str_equal(self.backups[i].id.as_str(), id) {
                assert(s[i as int].id == id@);
                let ghost c = choose|j: int| 0 <= j < s.len() && (#[trigger] s[j]).id == id@;
                assert(c == i);
                return Some(i);
            }
            i = i + 1;
        }
        None
    }

    /// Records a backup, replacing any record with its identifier.
    pub fn insert(&mut self, info: BackupInfo)
        ensures
            final(self)@ == with_backup(old(self)@, info@),
    {
        proof {
            use_type_invariant(&*self);
        }
        let ghost s = self@;
        let ghost b = info@;
        let idx = self.find(info.id.as_str());
        let mut v: Vec<BackupInfo> = Vec::new();
        std::mem::swap(&mut v, &mut self.backups);
        match idx {
            Some(i) => {
                v.set(i, info);
                assert(backups_model(v@) =~= s.update(i as int, b));
                assert(distinct_ids(backups_model(v@))) by {
                    let t = backups_model(v@);
                    assert forall|x: int, y: int|
                        0 <= x < t.len() && 0 <= y < t.len() && x != y implies (#[trigger] t[x]).id
                        != (#[trigger] t[y]).id by {
                        if x != i && y != i {
                            assert(s[x].id != s[y].id);
                        } else if x == i {
                            assert(s[i as int].id == b.id);
                            assert(s[i as int].id != s[y].id);
                        } else {
                            assert(s[i as int].id == b.id);
                            assert(s[x].id != s[i as int].id);
                        }
                    }
                }
            },
            None => {
                v.push(info);
                assert(backups_model(v@) =~= s.push(b));
                assert(distinct_ids(backups_model(v@))) by {
                    let t = backups_model(v@);
                    assert forall|x: int, y: int|
                        0 <= x < t.len() && 0 <= y < t.len() && x != y implies (#[trigger] t[x]).id
                        != (#[trigger] t[y]).id by {
                        if x < s.len() && y < s.len() {
                            assert(s[x].id != s[y].id);
                        } else if x < s.len() {
                            assert(t[x] == s[x]);
                        } else {
                            assert(t[y] == s[y]);
                        }
                    }
                }
            },
        }
        self.backups = v;
    }

    /// The record with the identifier.
    pub fn get(&self, id: &str) -> (r: Option<&BackupInfo>)
        ensures
            match r {
                Some(b) => index_of(self@, id@) matches Some(i) && b@ == self@[i],
                None => index_of(self@, id@) is None,
            },
    {
        match self.find(id) {
            Some(i) => Some(&self.backups[i]),
            None => None,
        }
    }

    /// Removes the record with the identifier, handing it back.
    pub fn remove(&mut self, id: &str) -> (r: Option<BackupInfo>)
        ensures
            final(self)@ == without_backup(old(self)@, id@),
            match r {
                Some(b) => index_of(old(self)@, id@) matches Some(i) && b@ == old(self)@[i],
                None => index_of(old(self)@, id@) is None,
            },
    {
        proof {
            use_type_invariant(&*self);
        }
        let ghost s = self@;
        match self.find(id) {
            Some(i) => {
                let mut v: Vec<BackupInfo> = Vec::new();
                std::mem::swap(&mut v, &mut self.backups);
                let b = v.remove(i);
                assert(backups_model(v@) =~= s.remove(i as int));
                assert(distinct_ids(backups_model(v@))) by {
                    let t = backups_model(v@);
                    assert forall|x: int, y: int|
                        0 <= x < t.len() && 0 <= y < t.len() && x != y implies (#[trigger] t[x]).id
                        != (#[trigger] t[y]).id by {
                        let x0 = if x < i {
                            x
                        } else {
                            x + 1
                        };
                        let y0 = if y < i {
                            y
                        } else {
                            y + 1
                        };
                        assert(t[x] == s[x0]);
                        assert(t[y] == s[y0]);
                        assert(s[x0].id != s[y0].id);
                    }
                }
                self.backups = v;
                Some(b)
            },
            None => None,
        }
    }

    /// The identifiers of the backups of the file, newest first.
    pub fn list_backups(&self, original_path: &str) -> (r: Vec<String>)
        ensures
            strings_model(r@) == ids_of(newest_first(backups_of(self@, original_path@))),
    {
        let ghost s = self@;
        let mut sorted: Vec<&BackupInfo> = Vec::new();
        let ghost mut picked: Seq<BackupModel> = Seq::empty();
        let mut k: usize = 0;
        while k < self.backups.len()
            invariant
                k <= self.backups@.len(),
                s == backups_model(self.backups@),
                picked == backups_of(s.take(k as int), original_path@),
                sorted@.map_values(|b: &BackupInfo| b@) == newest_first(picked),
            decreases self.backups@.len() - k,
        {
            assert(s.take(k + 1).drop_last() =~= s.take(k as int));
            let b = &self.backups[k];
            if crate::text::str_equal(b.original_path.as_str(), original_path) {
                let ghost sm = sorted@.map_values(|x: &BackupInfo| x@);
                let t = b.timestamp;
                let mut i: usize = 0;
                while i < sorted.len() && sorted[i].timestamp >= t
                    invariant
                        i <= sorted@.len(),
                        sm == sorted@.map_values(|x: &BackupInfo| x@),
                        forall|j: int| 0 <= j < i ==> (#[trigger] sm[j]).timestamp >= t,
                    decreases sorted@.len() - i,
                {
                    i = i + 1;
                }
                proof {
                    lemma_newest_pos(sm, t, i as int);
                    picked = picked.push(b@);
                    assert(picked.drop_last() =~= backups_of(s.take(k as int), original_path@));
                }
                sorted.insert(i, b);
                assert(sorted@.map_values(|x: &BackupInfo| x@) =~= sm.insert(i as int, b@));
            }
            k = k + 1;
        }
        assert(s.take(self.backups@.len() as int) =~= s);
        let ghost fin = newest_first(picked);
        let mut r: Vec<String> = Vec::new();
        let mut i: usize = 0;
        while i < sorted.len()
            invariant
                i <= sorted@.len(),
                fin == sorted@.map_values(|b: &BackupInfo| b@),
                strings_model(r@) == ids_of(fin.take(i as int)),
            decreases sorted@.len() - i,
        {
            let ghost before = strings_model(r@);
            let id = sorted[i].id.clone();
            assert(id@ == fin[i as int].id);
            r.push(id);
            assert(strings_model(r@) =~= before.push(fin[i as int].id));
            assert(fin.take(i + 1) =~= fin.take(i as int).push(fin[i as int]));
            assert(ids_of(fin.take(i + 1)) =~= ids_of(fin.take(i as int)).push(fin[i as int].id));
            i = i + 1;
        }
        assert(fin.take(sorted@.len() as int) =~= fin);
        r
    }

    /// The identifiers of the backups made before `cutoff`, in index order.
    pub fn expired(&self, cutoff: i64) -> (r: Vec<String>)
        ensures
            strings_model(r@) == ids_of(older_than(self@, cutoff)),
    {
        let ghost s = self@;
        let mut r: Vec<String> = Vec::new();
        let mut k: usize = 0;
        while k < self.backups.len()
            invariant
                k <= self.backups@.len(),
                s == backups_model(self.backups@),
                strings_model(r@) == ids_of(older_than(s.take(k as int), cutoff)),
            decreases self.backups@.len() - k,
        {
            assert(s.take(k + 1).drop_last() =~= s.take(k as int));
            if self.backups[k].timestamp < cutoff {
                let ghost before = strings_model(r@);
                r.push(self.backups[k].id.clone());
                assert(strings_model(r@) =~= before.push(s[k as int].id));
                assert(ids_of(older_than(s.take(k + 1), cutoff)) =~= ids_of(
                    older_than(s.take(k as int), cutoff),
                ).push(s[k as int].id));
            }
            k = k + 1;
        }
        assert(s.take(self.backups@.len() as int) =~= s);
        r
    }
}

/// Lower-case hexadecimal notation of a natural number, as `{:x}` prints it.
pub open spec fn hex(n: nat) -> Seq<char>
    decreases n,
{
    if n < 16 {
        seq![hex_digit(n)]
    } else {
        hex(n / 16).push(hex_digit(n % 16))
    }
}

/// The lower-case hexadecimal digit for a value below sixteen.
pub open spec fn hex_digit(d: nat) -> char {
    if d < 10 {
        ((48 + d) as u8) as char
    } else {
        ((87 + d) as u8) as char
    }
}

/// Decimal notation of an integer, with a minus sign when negative.
pub open spec fn signed_decimal(n: int) -> Seq<char> {
    if n < 0 {
        "-"@ + decimal((-n) as nat)
    } else {
        decimal(n as nat)
    }
}

fn push_hex(n: u32, out: &mut Vec<char>)
    ensures
        final(out)@ == old(out)@ + hex(n as nat),
    decreases n,
{
    if n >= 16 {
        push_hex(n / 16, out);
    }
    let d: u8 = (n % 16) as u8;
    let c: char = if d < 10 {
        (48u8 + d) as char
    } else {
        (87u8 + d) as char
    };
    out.push(c);
    proof {
        if n >= 16 {
            assert(hex(n as nat) == hex((n / 16) as nat).push(hex_digit((n % 16) as nat)));
        }
    }
}

/// Decimal notation of a signed number.
fn i64_to_decimal(n: i64) -> (s: String)
    ensures
        s@ == signed_decimal(n as int),
{
    if n < 0 {
        let m: u64 = if n == i64::MIN {
            9223372036854775808u64
        } else {
            (-n) as u64
        };
        let digits = u64_to_decimal(m);
        concat("-", digits.as_str())
    } else {
        u64_to_decimal(n as u64)
    }
}

fn push_decimal_u64(n: u64, out: &mut Vec<char>)
    ensures
        final(out)@ == old(out)@ + decimal(n as nat),
    decreases n,
{
    if n >= 10 {
        push_decimal_u64(n / 10, out);
    }
    let d: u8 = (n % 10) as u8;
    let c: char = (48u8 + d) as char;
    out.push(c);
    proof {
        if n >= 10 {
            assert(decimal(n as nat) == decimal((n / 10) as nat).push(
                crate::text::digit_char((n % 10) as nat),
            ));
        }
    }
}

/// Decimal notation of an unsigned 64-bit number.
fn u64_to_decimal(n: u64) -> (s: String)
    ensures
        s@ == decimal(n as nat),
{
    let mut v: Vec<char> = Vec::new();
    push_decimal_u64(n, &mut v);
    assert(v@ =~= decimal(n as nat));
    crate::text::chars_to_string(&v)
}

/// The identifier of a backup: the file name, the creation time in whole seconds, and a
/// random number in hexadecimal, joined by underscores.
pub open spec fn backup_id_for(file_name: Seq<char>, seconds: i64, suffix: u32) -> Seq<char> {
    file_name + "_"@ + signed_decimal(seconds as int) + "_"@ + hex(suffix as nat)
}

/// The identifier of a backup of the file named `file_name` (`unknown` when it has none),
/// made at `seconds` since the epoch, with the random `suffix`.
pub fn backup_id(file_name: Option<&str>, seconds: i64, suffix: u32) -> (r: String)
    ensures
        r@ == backup_id_for(
            match file_name {
                Some(n) => n@,
                None => "unknown"@,
            },
            seconds,
            suffix,
        ),
{
    let name = match file_name {
        Some(n) => n,
        None => "unknown",
    };
    let secs = i64_to_decimal(seconds);
    let mut h: Vec<char> = Vec::new();
    push_hex(suffix, &mut h);
    assert(h@ =~= hex(suffix as nat));
    let hs = crate::text::chars_to_string(&h);
    let a = concat(name, "_");
    let b = concat(a.as_str(), secs.as_str());
    let c = concat(b.as_str(), "_");
    concat(c.as_str(), hs.as_str())
}

proof fn lemma_index_of(s: Seq<BackupModel>, id: Seq<char>)
    ensures
        index_of(s, id) matches Some(i) ==> 0 <= i < s.len() && s[i].id == id,
        index_of(s, id) is None ==> forall|i: int| 0 <= i < s.len() ==> (#[trigger] s[i]).id != id,
{
}

/// In an index without repeated identifiers, a recorded backup is found again under its
/// identifier, the identifiers stay distinct, and after removing it it is no longer found.
pub proof fn law_backup_record_then_find(s: Seq<BackupModel>, b: BackupModel)
    requires
        distinct_ids(s),
    ensures
        distinct_ids(with_backup(s, b)),
        index_of(with_backup(s, b), b.id) matches Some(i) && with_backup(s, b)[i] == b,
        index_of(without_backup(with_backup(s, b), b.id), b.id) is None,
{
    let t = with_backup(s, b);
    lemma_index_of(s, b.id);
    match index_of(s, b.id) {
        Some(i) => {
            assert forall|x: int, y: int|
                0 <= x < t.len() && 0 <= y < t.len() && x != y implies (#[trigger] t[x]).id
                != (#[trigger] t[y]).id by {
                assert(s[x].id != s[y].id);
            }
            assert(t[i].id == b.id);
        },
        None => {
            let n = s.len() as int;
            assert forall|x: int, y: int|
                0 <= x < t.len() && 0 <= y < t.len() && x != y implies (#[trigger] t[x]).id
                != (#[trigger] t[y]).id by {
                if x < n && y < n {
                    assert(s[x].id != s[y].id);
                } else if x < n {
                    assert(t[x] == s[x]);
                } else {
                    assert(t[y] == s[y]);
                }
            }
            assert(t[n].id == b.id);
        },
    }
    lemma_index_of(t, b.id);
    let j = index_of(t, b.id)->0;
    assert forall|x: int| 0 <= x < t.len() && x != j implies (#[trigger] t[x]).id != b.id by {
        assert(t[x].id != t[j].id);
    }
    if let Some(i) = index_of(s, b.id) {
        assert(t[i].id == b.id);
        assert(j == i);
    } else {
        assert(t[s.len() as int].id == b.id);
        assert(j == s.len());
    }
    let u = without_backup(t, b.id);
    assert(u == t.remove(j));
    assert forall|x: int| 0 <= x < u.len() implies (#[trigger] u[x]).id != b.id by {
        if x < j {
            assert(u[x] == t[x]);
        } else {
            assert(u[x] == t[x + 1]);
        }
    }
    lemma_index_of(u, b.id);
}

/// The text with every trailing copy of `suffix` removed, as `str::trim_end_matches` does.
pub open spec fn strip_suffixes(s: Seq<char>, suffix: Seq<char>) -> Seq<char>
    decreases s.len(),
{
    if suffix.len() > 0 && is_suffix(suffix, s) {
        strip_suffixes(s.subrange(0, s.len() - suffix.len()), suffix)
    } else {
        s
    }
}

/// A file in the backup directory belongs to the configuration file `stem` when its name
/// ends in `.backup` and starts with `stem`.
pub open spec fn is_backup_of(file_name: Seq<char>, stem: Seq<char>) -> bool {
    is_suffix(".backup"@, file_name) && is_prefix(stem, file_name)
}

/// Whether a file in the backup directory is a backup of the configuration file `stem`.
pub fn backup_file_matches(file_name: &str, stem: &str) -> (b: bool)
    ensures
        b == is_backup_of(file_name@, stem@),
{
    str_ends_with(file_name, ".backup") && str_starts_with(file_name, stem)
}

/// The backup identifier a backup file stands for: its name without the `.backup` endings,
/// when it is a backup of the configuration file `stem`.
pub fn backup_file_id(file_name: &str, stem: &str) -> (r: Option<String>)
    ensures
        match r {
            Some(id) => is_backup_of(file_name@, stem@) && id@ == strip_suffixes(file_name@, ".backup"@),
            None => !is_backup_of(file_name@, stem@),
        },
{
    if !backup_file_matches(file_name, stem) {
        return None;
    }
    proof {
        reveal_strlit(".backup");
    }
    let chars = crate::text::to_chars(file_name);
    let suffix = crate::text::to_chars(".backup");
    let mut end: usize = chars.len();
    assert(chars@.subrange(0, end as int) =~= chars@);
    while end >= suffix.len() && ends_at(&chars, &suffix, end)
        invariant
            end <= chars@.len(),
            suffix@ == ".backup"@,
            suffix@.len() == 7,
            strip_suffixes(file_name@, ".backup"@) == strip_suffixes(chars@.subrange(0, end as int), suffix@),
            chars@ == file_name@,
        decreases end,
    {
        let ghost t = chars@.subrange(0, end as int);
        assert(t.subrange(0, t.len() - 7) =~= chars@.subrange(0, end - 7));
        end = end - suffix.len();
    }
    let ghost t = chars@.subrange(0, end as int);
    assert(!(is_suffix(suffix@, t))) by {
        if end >= 7 {
            assert(t.subrange(t.len() - 7, t.len() as int) =~= chars@.subrange(end - 7, end as int));
        }
    }
    let mut id: Vec<char> = Vec::new();
    let mut i: usize = 0;
    while i < end
        invariant
            i <= end <= chars@.len(),
            id@ == chars@.subrange(0, i as int),
        decreases end - i,
    {
        id.push(chars[i]);
        assert(chars@.subrange(0, i + 1) =~= chars@.subrange(0, i as int).push(chars@[i as int]));
        i = i + 1;
    }
    Some(crate::text::chars_to_string(&id))
}

/// Whether `suffix` ends the first `end` characters of `s`.
fn ends_at(s: &Vec<char>, suffix: &Vec<char>, end: usize) -> (b: bool)
    requires
        suffix@.len() <= end <= s@.len(),
    ensures
        b == is_suffix(suffix@, s@.subrange(0, end as int)),
{
    let start = end - suffix.len();
    let mut k: usize = 0;
    while k < suffix.len()
        invariant
            start + suffix@.len() == end,
            end <= s@.len(),
            k <= suffix@.len(),
            forall|t: int| 0 <= t < k ==> s@[start + t] == suffix@[t],
        decreases suffix@.len() - k,
    {
        if s[start + k] != suffix[k] {
            assert(s@.subrange(0, end as int).subrange(start as int, end as int)[k as int] != suffix@[k as int]);
            return false;
        }
        k = k + 1;
    }
    assert(s@.subrange(0, end as int).subrange(start as int, end as int) =~= suffix@);
    true
}

/// How many of the file names are backups of the configuration file `stem`.
pub open spec fn backups_among(names: Seq<Seq<char>>, stem: Seq<char>) -> nat
    decreases names.len(),
{
    if names.len() == 0 {
        0
    } else {
        backups_among(names.drop_last(), stem) + if is_backup_of(names.last(), stem) {
            1nat
        } else {
            0nat
        }
    }
}

/// How many of the file names are backups of the configuration file `stem`.
pub fn count_backup_files(names: &Vec<String>, stem: &str) -> (n: usize)
    ensures
        n == backups_among(strings_model(names@), stem@),
{
    let ghost m = strings_model(names@);
    let mut n: usize = 0;
    let mut i: usize = 0;
    while i < names.len()
        invariant
            i <= names@.len(),
            m == strings_model(names@),
            n == backups_among(m.take(i as int), stem@),
            n <= i,
        decreases names@.len() - i,
    {
        assert(m.take(i + 1).drop_last() =~= m.take(i as int));
        if backup_file_matches(names[i].as_str(), stem) {
            n = n + 1;
        }
        i = i + 1;
    }
    assert(m.take(names@.len() as int) =~= m);
    n
}

/// Where an entry made at time `t` goes in a list sorted newest first.
pub open spec fn time_pos(s: Seq<(Seq<char>, i64)>, t: i64) -> int
    decreases s.len(),
{
    if s.len() == 0 {
        0
    } else if s[0].1 < t {
        0
    } else {
        1 + time_pos(s.drop_first(), t)
    }
}

/// Entries sorted newest first, entries of equal time in their first order.
pub open spec fn by_time(s: Seq<(Seq<char>, i64)>) -> Seq<(Seq<char>, i64)>
    decreases s.len(),
{
    if s.len() == 0 {
        s
    } else {
        let sorted = by_time(s.drop_last());
        sorted.insert(time_pos(sorted, s.last().1), s.last())
    }
}

proof fn lemma_time_pos(s: Seq<(Seq<char>, i64)>, t: i64, i: int)
    requires
        0 <= i <= s.len(),
        forall|j: int| 0 <= j < i ==> (#[trigger] s[j]).1 >= t,
        i == s.len() || s[i].1 < t,
    ensures
        time_pos(s, t) == i,
    decreases i,
{
    if i > 0 {
        assert forall|j: int| 0 <= j < i - 1 implies (#[trigger] s.drop_first()[j]).1 >= t by {
            assert(s.drop_first()[j] == s[j + 1]);
        }
        if i < s.len() {
            assert(s.drop_first()[i - 1] == s[i]);
        }
        lemma_time_pos(s.drop_first(), t, i - 1);
    }
}

/// The identifiers of the entries, newest first (by modification time).
pub fn ids_newest_first(entries: &Vec<(String, i64)>) -> (r: Vec<String>)
    ensures
        strings_model(r@) == by_time(entries@.map_values(|e: (String, i64)| (e.0@, e.1))).map_values(
            |e: (Seq<char>, i64)| e.0,
        ),
{
    let ghost all = entries@.map_values(|e: (String, i64)| (e.0@, e.1));
    let mut sorted: Vec<(String, i64)> = Vec::new();
    let mut k: usize = 0;
    while k < entries.len()
        invariant
            k <= entries@.len(),
            all == entries@.map_values(|e: (String, i64)| (e.0@, e.1)),
            sorted@.map_values(|e: (String, i64)| (e.0@, e.1)) == by_time(all.take(k as int)),
        decreases entries@.len() - k,
    {
        assert(all.take(k + 1).drop_last() =~= all.take(k as int));
        let t = entries[k].1;
        let ghost sm = sorted@.map_values(|e: (String, i64)| (e.0@, e.1));
        let mut i: usize = 0;
        while i < sorted.len() && sorted[i].1 >= t
            invariant
                i <= sorted@.len(),
                sm == sorted@.map_values(|e: (String, i64)| (e.0@, e.1)),
                forall|j: int| 0 <= j < i ==> (#[trigger] sm[j]).1 >= t,
            decreases sorted@.len() - i,
        {
            i = i + 1;
        }
        proof {
            lemma_time_pos(sm, t, i as int);
        }
        let e = (entries[k].0.clone(), t);
        let ghost em = (e.0@, e.1);
        sorted.insert(i, e);
        assert(sorted@.map_values(|e: (String, i64)| (e.0@, e.1)) =~= sm.insert(i as int, em));
        k = k + 1;
    }
    assert(all.take(entries@.len() as int) =~= all);
    let ghost fin = sorted@.map_values(|e: (String, i64)| (e.0@, e.1));
    let mut r: Vec<String> = Vec::new();
    let mut i: usize = 0;
    while i < sorted.len()
        invariant
            i <= sorted@.len(),
            fin == sorted@.map_values(|e: (String, i64)| (e.0@, e.1)),
            strings_model(r@) == fin.take(i as int).map_values(|e: (Seq<char>, i64)| e.0),
        decreases sorted@.len() - i,
    {
        let ghost before = strings_model(r@);
        let id = sorted[i].0.clone();
        r.push(id);
        assert(strings_model(r@) =~= before.push(fin[i as int].0));
        assert(fin.take(i + 1).map_values(|e: (Seq<char>, i64)| e.0) =~= fin.take(i as int).map_values(
            |e: (Seq<char>, i64)| e.0,
        ).push(fin[i as int].0));
        i = i + 1;
    }
    assert(fin.take(sorted@.len() as int) =~= fin);
    r
}

/// The backup files a cleanup removes, by position: the backups of the configuration file
/// `stem` (of every configuration file when `stem` is empty) last modified before `cutoff`.
pub open spec fn expired_files(entries: Seq<(String, i64)>, stem: Seq<char>, cutoff: i64) -> Seq<usize>
    decreases entries.len(),
{
    if entries.len() == 0 {
        Seq::empty()
    } else {
        let prev = expired_files(entries.drop_last(), stem, cutoff);
        let e = entries.last();
        if is_backup_of(e.0@, stem) && e.1 < cutoff {
            prev.push((entries.len() - 1) as usize)
        } else {
            prev
        }
    }
}

/// The backup files a cleanup removes, given each file's name and modification time.
pub fn select_expired_files(entries: &Vec<(String, i64)>, stem: &str, cutoff: i64) -> (r: Vec<usize>)
    ensures
        r@ == expired_files(entries@, stem@, cutoff),
{
    let mut r: Vec<usize> = Vec::new();
    let mut i: usize = 0;
    while i < entries.len()
        invariant
            i <= entries@.len(),
            r@ == expired_files(entries@.take(i as int), stem@, cutoff),
        decreases entries@.len() - i,
    {
        assert(entries@.take(i + 1).drop_last() =~= entries@.take(i as int));
        assert(entries@.take(i + 1).last() == entries@[i as int]);
        if backup_file_matches(entries[i].0.as_str(), stem) && entries[i].1 < cutoff {
            r.push(i);
        }
        i = i + 1;
    }
    assert(entries@.take(entries@.len() as int) =~= entries@);
    r
}

} // verus!
