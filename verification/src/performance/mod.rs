//! Monitoring of operation times and memory use.
//!
//! Durations are kept in nanoseconds. Summing and averaging them follows
//! `std::time::Duration`: sums are exact, and an average divides the whole seconds and the
//! remaining nanoseconds separately, as `Duration`'s division by an integer does.
use vstd::prelude::*;

verus! {

/// A point in time, from the system's monotonic clock.
#[verifier::external_type_specification]
#[verifier::external_body]
pub struct ExInstant(std::time::Instant);

/// `std::time::Instant::now` (std): the current time. Nothing is stated of it.
#[verifier::external_body]
fn instant_now() -> (t: std::time::Instant) {
    std::time::Instant::now()
}

/// `std::time::Instant::elapsed` (std), in nanoseconds: the time since `t`. Nothing is stated
/// of it: it depends on the clock.
#[verifier::external_body]
fn elapsed_nanos(t: &std::time::Instant) -> (n: u128) {
    t.elapsed().as_nanos()
}

/// Nanoseconds in a second.
pub const NANOS_PER_SEC: u128 = 1_000_000_000;

/// Performance metrics of a rule processor.
#[derive(Debug, Clone, Copy)]
pub struct PerformanceMetrics {
    /// Total number of operations processed
    pub total_operations: u64,
    /// Total processing time accumulated, in nanoseconds
    pub total_duration: u128,
    /// Average operation duration, in nanoseconds
    pub average_duration: u128,
    /// Number of cache hits
    pub cache_hits: u64,
    /// Number of cache misses
    pub cache_misses: u64,
    /// Estimated memory usage
    pub memory_usage: usize,
}

/// A recorded operation.
#[derive(Debug)]
pub struct OperationRecord {
    /// Operation name
    pub name: String,
    /// Duration of the operation, in nanoseconds
    pub duration: u128,
    /// Memory usage during the operation
    pub memory_usage: usize,
    /// When the operation was recorded
    pub timestamp: std::time::Instant,
}

/// The mathematical content of an [`OperationRecord`].
pub struct RecordModel {
    pub name: Seq<char>,
    pub duration: u128,
    pub memory_usage: usize,
    pub timestamp: std::time::Instant,
}

impl View for OperationRecord {
    type V = RecordModel;

    open spec fn view(&self) -> RecordModel {
        RecordModel {
            name: self.name@,
            duration: self.duration,
            memory_usage: self.memory_usage,
            timestamp: self.timestamp,
        }
    }
}

impl OperationRecord {
    /// A copy of this record.
    pub fn copy(&self) -> (r: OperationRecord)
        ensures
            r@ == self@,
    {
        OperationRecord {
            name: self.name.clone(),
            duration: self.duration,
            memory_usage: self.memory_usage,
            timestamp: self.timestamp,
        }
    }
}

/// The models of a sequence of records.
pub open spec fn records_model(s: Seq<OperationRecord>) -> Seq<RecordModel> {
    s.map_values(|r: OperationRecord| r@)
}

/// The sum of the records' durations.
pub open spec fn total_nanos(s: Seq<RecordModel>) -> int
    decreases s.len(),
{
    if s.len() == 0 {
        0
    } else {
        total_nanos(s.drop_last()) + s.last().duration
    }
}

/// The sum of the records' memory use.
pub open spec fn total_memory(s: Seq<RecordModel>) -> int
    decreases s.len(),
{
    if s.len() == 0 {
        0
    } else {
        total_memory(s.drop_last()) + s.last().memory_usage
    }
}

/// A duration of `t` nanoseconds divided by `n` the way `Duration` divides: whole seconds
/// and remaining nanoseconds separately, the remainder of the seconds carried into the
/// nanoseconds.
pub open spec fn duration_div(t: int, n: int) -> int {
    let secs = t / 1_000_000_000;
    let nanos = t % 1_000_000_000;
    (secs / n) * 1_000_000_000 + nanos / n + ((secs % n) * 1_000_000_000) / n
}

/// The position of the last record with the longest duration, as `Iterator::max_by_key`
/// picks it.
pub open spec fn slowest_index(s: Seq<RecordModel>) -> int
    decreases s.len(),
{
    if s.len() <= 1 {
        0
    } else {
        let prev = slowest_index(s.drop_last());
        if s.last().duration >= s[prev].duration {
            s.len() - 1
        } else {
            prev
        }
    }
}

/// The position of the first record with the shortest duration, as `Iterator::min_by_key`
/// picks it.
pub open spec fn fastest_index(s: Seq<RecordModel>) -> int
    decreases s.len(),
{
    if s.len() <= 1 {
        0
    } else {
        let prev = fastest_index(s.drop_last());
        if s.last().duration < s[prev].duration {
            s.len() - 1
        } else {
            prev
        }
    }
}

proof fn lemma_extreme_indices(s: Seq<RecordModel>)
    requires
        s.len() > 0,
    ensures
        0 <= slowest_index(s) < s.len(),
        0 <= fastest_index(s) < s.len(),
    decreases s.len(),
{
    if s.len() > 1 {
        lemma_extreme_indices(s.drop_last());
    }
}

/// Statistics over the recorded operations.
#[derive(Debug)]
pub struct OperationStatistics {
    /// Total number of operations recorded
    pub total_operations: usize,
    /// Aggregate duration of all operations, in nanoseconds
    pub total_duration: u128,
    /// Average operation duration, in nanoseconds
    pub average_duration: u128,
    /// Aggregate memory usage across operations
    pub total_memory_usage: usize,
    /// Average memory usage per operation
    pub average_memory_usage: usize,
    /// Slowest operation record
    pub slowest_operation: Option<OperationRecord>,
    /// Fastest operation record
    pub fastest_operation: Option<OperationRecord>,
}

/// Records operations and reports statistics over them.
pub struct PerformanceMonitor {
    start_time: std::time::Instant,
    operations: Vec<OperationRecord>,
}

impl View for PerformanceMonitor {
    type V = Seq<RecordModel>;

    closed spec fn view(&self) -> Seq<RecordModel> {
        records_model(self.operations@)
    }
}

impl PerformanceMonitor {
    /// The time the monitor was made, which uptime counts from.
    pub closed spec fn start_spec(&self) -> std::time::Instant {
        self.start_time
    }

    /// A monitor that starts now, with no operation recorded.
    pub fn new() -> (m: Self)
        ensures
            m@ == Seq::<RecordModel>::empty(),
    {
        let m = PerformanceMonitor { start_time: instant_now(), operations: Vec::new() };
        assert(m@ =~= Seq::<RecordModel>::empty());
        m
    }

    /// Records an operation, stamped with the current time.
    pub fn record_operation(&mut self, name: &str, duration: u128, memory_usage: usize)
        ensures
            final(self)@.len() == old(self)@.len() + 1,
            final(self)@.drop_last() == old(self)@,
            final(self)@.last().name == name@,
            final(self)@.last().duration == duration,
            final(self)@.last().memory_usage == memory_usage,
            final(self).start_spec() == old(self).start_spec(),
    {
        let record = OperationRecord {
            name: String::from_str(name),
            duration,
            memory_usage,
            timestamp: instant_now(),
        };
        let ghost rm = record@;
        self.operations.push(record);
        assert(self@ =~= old(self)@.push(rm));
    }

    /// Totals, averages and extremes of the recorded operations; all zero and `None` when
    /// nothing was recorded. The average duration divides by the number of operations, or by
    /// `u32::MAX` if there are more.
    pub fn get_statistics(&self) -> (st: OperationStatistics)
        requires
            total_nanos(self@) <= u128::MAX,
            total_memory(self@) <= usize::MAX,
        ensures
            st.total_operations == self@.len(),
            st.total_duration == total_nanos(self@),
            st.total_memory_usage == total_memory(self@),
            self@.len() == 0 ==> st.average_duration == 0 && st.average_memory_usage == 0
                && st.slowest_operation is None && st.fastest_operation is None,
            self@.len() > 0 ==> {
                &&& st.average_duration == duration_div(
                    total_nanos(self@),
                    if self@.len() <= u32::MAX {
                        self@.len() as int
                    } else {
                        u32::MAX as int
                    },
                )
                &&& st.average_memory_usage == total_memory(self@) / (self@.len() as int)
                &&& st.slowest_operation matches Some(r) && r@ == self@[slowest_index(self@)]
                &&& st.fastest_operation matches Some(r) && r@ == self@[fastest_index(self@)]
                &&& forall|i: int|
                    0 <= i < self@.len() ==> self@[slowest_index(self@)].duration >= (#[trigger] self@[i]).duration
                        && self@[fastest_index(self@)].duration <= self@[i].duration
            },
    {
        let ops = &self.operations;
        let ghost s = self@;
        if ops.len() == 0 {
            return OperationStatistics {
                total_operations: 0,
                total_duration: 0,
                average_duration: 0,
                total_memory_usage: 0,
                average_memory_usage: 0,
                slowest_operation: None,
                fastest_operation: None,
            };
        }
        let n = ops.len();
        let mut total_duration: u128 = 0;
        let mut total_memory_usage: usize = 0;
        let mut slow: usize = 0;
        let mut fast: usize = 0;
        let mut i: usize = 0;
        while i < n
            invariant
                n == ops@.len(),
                n > 0,
                s == records_model(ops@),
                total_nanos(s) <= u128::MAX,
                total_memory(s) <= usize::MAX,
                i <= n,
                total_duration == total_nanos(s.take(i as int)),
                total_memory_usage == total_memory(s.take(i as int)),
                i > 0 ==> slow == slowest_index(s.take(i as int)),
                i > 0 ==> fast == fastest_index(s.take(i as int)),
                i == 0 ==> slow == 0 && fast == 0,
                slow < n,
                fast < n,
            decreases n - i,
        {
            let ghost t = s.take(i + 1);
            assert(t.drop_last() =~= s.take(i as int));
            assert(t.last() == s[i as int]);
            proof {
                lemma_totals_prefix(s, i + 1);
                if i > 0 {
                    lemma_extreme_indices(s.take(i as int));
                }
            }
            let d = ops[i].duration;
            total_duration = total_duration + d;
            total_memory_usage = total_memory_usage + ops[i].memory_usage;
            if i > 0 {
                assert(s.take(i as int)[slow as int] == s[slow as int]);
                assert(s.take(i as int)[fast as int] == s[fast as int]);
                if d >= ops[slow].duration {
                    slow = i;
                }
                if d < ops[fast].duration {
                    fast = i;
                }
            }
            i = i + 1;
        }
        assert(s.take(n as int) =~= s);
        let count: u32 = if n <= 4294967295 {
            n as u32
        } else {
            4294967295
        };
        let secs = total_duration / NANOS_PER_SEC;
        let nanos = total_duration % NANOS_PER_SEC;
        let c = count as u128;
        proof {
            lemma_duration_div_bound(total_duration as int, c as int);
            law_extremes(s);
        }
        let average_duration = (secs / c) * NANOS_PER_SEC + nanos / c + ((secs % c) * NANOS_PER_SEC)
            / c;
        OperationStatistics {
            total_operations: n,
            total_duration,
            average_duration,
            total_memory_usage,
            average_memory_usage: total_memory_usage / n,
            slowest_operation: Some(ops[slow].copy()),
            fastest_operation: Some(ops[fast].copy()),
        }
    }

    /// Time since the monitor was made (its start time, which recording and clearing keep), in
    /// nanoseconds. What the clock gives is not stated.
    pub fn get_uptime(&self) -> (n: u128) {
        elapsed_nanos(&self.start_time)
    }

    /// Forgets the recorded operations.
    pub fn clear_history(&mut self)
        ensures
            final(self)@ == Seq::<RecordModel>::empty(),
            final(self).start_spec() == old(self).start_spec(),
    {
        self.operations.clear();
        assert(self@ =~= Seq::<RecordModel>::empty());
    }
}

/// Dividing a duration the way `Duration` does gives at most the duration, and so do the
/// parts of the computation.
proof fn lemma_duration_div_bound(t: int, c: int)
    requires
        t >= 0,
        c >= 1,
    ensures
        (t / 1_000_000_000 / c) * 1_000_000_000 <= t / 1_000_000_000 * 1_000_000_000,
        ((t / 1_000_000_000) % c) * 1_000_000_000 <= t / 1_000_000_000 * 1_000_000_000,
        (t / 1_000_000_000 / c) * 1_000_000_000 + ((t / 1_000_000_000) % c) * 1_000_000_000 / c
            <= t / 1_000_000_000 * 1_000_000_000,
        (t % 1_000_000_000) / c <= t % 1_000_000_000,
        t / 1_000_000_000 * 1_000_000_000 + t % 1_000_000_000 == t,
        duration_div(t, c) <= t,
{
    let secs = t / 1_000_000_000;
    let nanos = t % 1_000_000_000;
    let a = secs / c;
    let r = secs % c;
    assert(secs == a * c + r && 0 <= r < c) by (nonlinear_arith)
        requires
            secs >= 0,
            c >= 1,
            a == secs / c,
            r == secs % c,
    ;
    assert(a * 1_000_000_000 <= secs * 1_000_000_000) by (nonlinear_arith)
        requires
            secs == a * c + r,
            0 <= r,
            c >= 1,
            a >= 0,
    ;
    assert(r * 1_000_000_000 / c <= r * 1_000_000_000) by (nonlinear_arith)
        requires
            r >= 0,
            c >= 1,
    ;
    assert(a * 1_000_000_000 + r * 1_000_000_000 <= secs * 1_000_000_000) by (nonlinear_arith)
        requires
            secs == a * c + r,
            0 <= r,
            c >= 1,
            a >= 0,
    ;
    assert(nanos / c <= nanos) by (nonlinear_arith)
        requires
            nanos >= 0,
            c >= 1,
    ;
}

/// The totals of a prefix are at most those of the whole.
proof fn lemma_totals_prefix(s: Seq<RecordModel>, k: int)
    requires
        0 <= k <= s.len(),
    ensures
        total_nanos(s.take(k)) <= total_nanos(s),
        total_memory(s.take(k)) <= total_memory(s),
    decreases s.len() - k,
{
    if k < s.len() {
        lemma_totals_prefix(s, k + 1);
        assert(s.take(k + 1).drop_last() =~= s.take(k));
    } else {
        assert(s.take(k) =~= s);
    }
}

/// The slowest record takes at least as long as every record, and the fastest at most as
/// long as every record.
pub proof fn law_extremes(s: Seq<RecordModel>)
    requires
        s.len() > 0,
    ensures
        0 <= slowest_index(s) < s.len(),
        0 <= fastest_index(s) < s.len(),
        forall|i: int| 0 <= i < s.len() ==> s[slowest_index(s)].duration >= (#[trigger] s[i]).duration,
        forall|i: int| 0 <= i < s.len() ==> s[fastest_index(s)].duration <= (#[trigger] s[i]).duration,
    decreases s.len(),
{
    lemma_extreme_indices(s);
    if s.len() > 1 {
        let p = s.drop_last();
        law_extremes(p);
        assert forall|i: int| 0 <= i < p.len() implies p[i] == s[i] by {}
    }
}

} // verus!
