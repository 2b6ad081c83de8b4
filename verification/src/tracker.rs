//! Per-operation cost tracking with two interchangeable backends: a linear
//! list and a hash table.
//!
//! Both backends implement [`StateTracker`] and share one abstract model: the
//! sequence of `(operation, snapshot)` entries in first-recorded order, with
//! every operation name occurring once.  Because the two backends are held to
//! the same contracts over that model, swapping one for the other does not
//! change any observable result.

use vstd::prelude::*;
use std::collections::HashMap;
use crate::text::str_eq;

verus! {

/// A snapshot of the cost metrics recorded for a single operation.
#[derive(Debug, Clone, Copy, PartialEq, Eq, Hash, Default)]
pub struct CostSnapshot {
    /// CPU instructions consumed by the operation.
    pub cpu: u64,
    /// Memory bytes consumed by the operation.
    pub memory: u64,
}

impl CostSnapshot {
    /// Creates a new snapshot with the given CPU and memory values.
    pub fn new(cpu: u64, memory: u64) -> (s: Self)
        ensures
            s.cpu == cpu,
            s.memory == memory,
    {
        CostSnapshot { cpu, memory }
    }

    /// Returns a snapshot whose both metrics are zero.
    pub fn zero() -> (s: Self)
        ensures
            s.cpu == 0,
            s.memory == 0,
    {
        CostSnapshot { cpu: 0, memory: 0 }
    }
}

// ---------------------------------------------------------------------------
// The abstract model shared by both backends
// ---------------------------------------------------------------------------

/// `op` is the name of some entry.
pub open spec fn has_op(e: Seq<(Seq<char>, CostSnapshot)>, op: Seq<char>) -> bool {
    exists|i: int| 0 <= i < e.len() && #[trigger] e[i].0 == op
}

/// The position of the entry named `op` (meaningful when `has_op`).
pub open spec fn op_index(e: Seq<(Seq<char>, CostSnapshot)>, op: Seq<char>) -> int {
    choose|i: int| 0 <= i < e.len() && #[trigger] e[i].0 == op
}

/// The snapshot recorded for `op`, if any.
pub open spec fn lookup_op(e: Seq<(Seq<char>, CostSnapshot)>, op: Seq<char>) -> Option<
    CostSnapshot,
> {
    if has_op(e, op) {
        Some(e[op_index(e, op)].1)
    } else {
        None
    }
}

/// Upsert: overwrite the snapshot of `op` in place, or append a new entry.
pub open spec fn record_op(e: Seq<(Seq<char>, CostSnapshot)>, op: Seq<char>, s: CostSnapshot) -> Seq<
    (Seq<char>, CostSnapshot),
> {
    if has_op(e, op) {
        e.update(op_index(e, op), (op, s))
    } else {
        e.push((op, s))
    }
}

/// No operation name occurs twice.
pub open spec fn distinct_ops(e: Seq<(Seq<char>, CostSnapshot)>) -> bool {
    forall|i: int, j: int|
        0 <= i < e.len() && 0 <= j < e.len() && i != j ==> #[trigger] e[i].0 != #[trigger] e[j].0
}

/// The operation names, in entry order.
pub open spec fn op_names(e: Seq<(Seq<char>, CostSnapshot)>) -> Seq<Seq<char>> {
    e.map_values(|p: (Seq<char>, CostSnapshot)| p.0)
}

/// Sum of the CPU values of all entries.
pub open spec fn cpu_sum(e: Seq<(Seq<char>, CostSnapshot)>) -> nat
    decreases e.len(),
{
    if e.len() == 0 {
        0
    } else {
        cpu_sum(e.drop_last()) + e.last().1.cpu as nat
    }
}

/// Sum of the memory values of all entries.
pub open spec fn memory_sum(e: Seq<(Seq<char>, CostSnapshot)>) -> nat
    decreases e.len(),
{
    if e.len() == 0 {
        0
    } else {
        memory_sum(e.drop_last()) + e.last().1.memory as nat
    }
}

proof fn lemma_sums_of_prefix(e: Seq<(Seq<char>, CostSnapshot)>, i: int)
    requires
        0 <= i <= e.len(),
    ensures
        cpu_sum(e.take(i)) <= cpu_sum(e),
        memory_sum(e.take(i)) <= memory_sum(e),
    decreases e.len() - i,
{
    if i < e.len() {
        lemma_sums_of_prefix(e, i + 1);
        assert(e.take(i + 1).drop_last() =~= e.take(i));
    } else {
        assert(e.take(i) =~= e);
    }
}

proof fn lemma_lookup_at(e: Seq<(Seq<char>, CostSnapshot)>, i: int)
    requires
        distinct_ops(e),
        0 <= i < e.len(),
    ensures
        has_op(e, e[i].0),
        op_index(e, e[i].0) == i,
        lookup_op(e, e[i].0) == Some(e[i].1),
{
    assert(has_op(e, e[i].0));
}

/// Recording an operation makes a later lookup of it return the new
/// snapshot, leaves every other operation's lookup unchanged, keeps names
/// distinct, and grows the entry count by one exactly when the name is new.
pub proof fn law_record_then_lookup(
    e: Seq<(Seq<char>, CostSnapshot)>,
    op: Seq<char>,
    s: CostSnapshot,
    other: Seq<char>,
)
    requires
        distinct_ops(e),
    ensures
        distinct_ops(record_op(e, op, s)),
        lookup_op(record_op(e, op, s), op) == Some(s),
        other != op ==> lookup_op(record_op(e, op, s), other) == lookup_op(e, other),
        record_op(e, op, s).len() == e.len() + (if has_op(e, op) { 0int } else { 1int }),
{
    let r = record_op(e, op, s);
    if has_op(e, op) {
        let i = op_index(e, op);
        assert(distinct_ops(r));
        lemma_lookup_at(r, i);
        if has_op(e, other) {
            let j = op_index(e, other);
            if other != op {
                assert(r[j] == e[j]);
                lemma_lookup_at(r, j);
            }
        } else if other != op {
            assert(!has_op(r, other));
        }
    } else {
        assert(distinct_ops(r));
        lemma_lookup_at(r, e.len() as int);
        if has_op(e, other) {
            let j = op_index(e, other);
            assert(r[j] == e[j]);
            lemma_lookup_at(r, j);
        } else if other != op {
            assert(!has_op(r, other));
        }
    }
}

/// Recording the same snapshot twice is the same as recording it once.
pub proof fn law_record_idempotent(e: Seq<(Seq<char>, CostSnapshot)>, op: Seq<char>, s: CostSnapshot)
    requires
        distinct_ops(e),
    ensures
        record_op(record_op(e, op, s), op, s) == record_op(e, op, s),
{
    let r = record_op(e, op, s);
    law_record_then_lookup(e, op, s, op);
    let i = op_index(r, op);
    assert(r[i].0 == op && r[i].1 == s);
    assert(r.update(i, (op, s)) =~= r);
}

// ---------------------------------------------------------------------------
// StateTracker trait
// ---------------------------------------------------------------------------

/// Common interface for per-operation cost tracking.
///
/// Every backend stores `(operation_name, CostSnapshot)` pairs, supports
/// upserts via `record`, lookups via `lookup`, and aggregate queries via
/// `total_cpu` / `total_memory`.
pub trait StateTracker {
    /// The tracked entries, in first-recorded order.
    spec fn entries(&self) -> Seq<(Seq<char>, CostSnapshot)>;

    /// The backend's internal invariant.
    spec fn wf(&self) -> bool;

    /// A well-formed tracker never holds an operation name twice, so the
    /// laws on [`record_op`] (read-after-write among them) apply to it.
    proof fn lemma_wf_distinct(&self)
        requires
            self.wf(),
        ensures
            distinct_ops(self.entries()),
    ;

    /// Inserts or updates the snapshot for `op`.
    fn record(&mut self, op: &str, snapshot: CostSnapshot)
        requires
            old(self).wf(),
        ensures
            final(self).wf(),
            final(self).entries() == record_op(old(self).entries(), op@, snapshot),
    ;

    /// Returns the snapshot for `op`, or `None` if it has not been recorded.
    fn lookup(&self, op: &str) -> (r: Option<&CostSnapshot>)
        requires
            self.wf(),
        ensures
            match r {
                Some(s) => lookup_op(self.entries(), op@) == Some(*s),
                None => lookup_op(self.entries(), op@) is None,
            },
    ;

    /// Returns `true` if `op` has been recorded.
    fn contains(&self, op: &str) -> (r: bool)
        requires
            self.wf(),
        ensures
            r == has_op(self.entries(), op@),
    {
        self.lookup(op).is_some()
    }

    /// Returns the number of distinct operations tracked.
    fn len(&self) -> (r: usize)
        requires
            self.wf(),
        ensures
            r == self.entries().len(),
    ;

    /// Returns `true` if no operations are tracked.
    fn is_empty(&self) -> (r: bool)
        requires
            self.wf(),
        ensures
            r == (self.entries().len() == 0),
    {
        self.len() == 0
    }

    /// Sums CPU across all recorded snapshots.
    fn total_cpu(&self) -> (r: u64)
        requires
            self.wf(),
            cpu_sum(self.entries()) <= u64::MAX,
        ensures
            r == cpu_sum(self.entries()),
    ;

    /// Sums memory across all recorded snapshots.
    fn total_memory(&self) -> (r: u64)
        requires
            self.wf(),
            memory_sum(self.entries()) <= u64::MAX,
        ensures
            r == memory_sum(self.entries()),
    ;

    /// Returns the names of all tracked operations.
    fn ops(&self) -> (r: Vec<String>)
        requires
            self.wf(),
        ensures
            r@.map_values(|s: String| s@) == op_names(self.entries()),
    ;

    /// Removes all entries from the tracker, leaving it empty.
    fn clear(&mut self)
        requires
            old(self).wf(),
        ensures
            final(self).wf(),
            final(self).entries() == Seq::<(Seq<char>, CostSnapshot)>::empty(),
    ;
}

/// On any backend, once `op` is recorded with `s`, a lookup of `op` gives
/// `s`, every other operation's lookup is unchanged, and the count grows by
/// one exactly when `op` was new.
pub proof fn law_tracker_read_after_write<T: StateTracker>(
    before: &T,
    after: &T,
    op: Seq<char>,
    s: CostSnapshot,
    other: Seq<char>,
)
    requires
        before.wf(),
        after.entries() == record_op(before.entries(), op, s),
    ensures
        lookup_op(after.entries(), op) == Some(s),
        other != op ==> lookup_op(after.entries(), other) == lookup_op(before.entries(), other),
        after.entries().len() == before.entries().len() + (if has_op(before.entries(), op) {
            0int
        } else {
            1int
        }),
{
    before.lemma_wf_distinct();
    law_record_then_lookup(before.entries(), op, s, other);
}

/// The entries after recording each `(name, snapshot)` of `ops` in turn,
/// starting from `e`.
pub open spec fn record_seq(
    e: Seq<(Seq<char>, CostSnapshot)>,
    ops: Seq<(Seq<char>, CostSnapshot)>,
) -> Seq<(Seq<char>, CostSnapshot)>
    decreases ops.len(),
{
    if ops.len() == 0 {
        e
    } else {
        record_op(record_seq(e, ops.drop_last()), ops.last().0, ops.last().1)
    }
}

/// The snapshot last recorded for `op` in `ops`, if any.
pub open spec fn last_recorded(ops: Seq<(Seq<char>, CostSnapshot)>, op: Seq<char>) -> Option<
    CostSnapshot,
>
    decreases ops.len(),
{
    if ops.len() == 0 {
        None
    } else if ops.last().0 == op {
        Some(ops.last().1)
    } else {
        last_recorded(ops.drop_last(), op)
    }
}

/// After a sequence of records, names stay distinct and a lookup gives the
/// snapshot last recorded for the name (or what was there before, for a
/// name the sequence never records).
pub proof fn law_record_seq_lookup(
    e: Seq<(Seq<char>, CostSnapshot)>,
    ops: Seq<(Seq<char>, CostSnapshot)>,
    op: Seq<char>,
)
    requires
        distinct_ops(e),
    ensures
        distinct_ops(record_seq(e, ops)),
        lookup_op(record_seq(e, ops), op) == match last_recorded(ops, op) {
            Some(s) => Some(s),
            None => lookup_op(e, op),
        },
    decreases ops.len(),
{
    if ops.len() > 0 {
        law_record_seq_lookup(e, ops.drop_last(), op);
        law_record_then_lookup(record_seq(e, ops.drop_last()), ops.last().0, ops.last().1, op);
    }
}

/// Two backends that hold the same entries and then record the same
/// sequence end with the same entries: the same count, the same totals,
/// the same names in the same order, and for every name the same lookup,
/// which is the snapshot last recorded for it.
pub proof fn law_backends_agree<A: StateTracker, B: StateTracker>(
    a_before: &A,
    b_before: &B,
    a_after: &A,
    b_after: &B,
    ops: Seq<(Seq<char>, CostSnapshot)>,
    op: Seq<char>,
)
    requires
        a_before.wf(),
        b_before.wf(),
        a_before.entries() == b_before.entries(),
        a_after.entries() == record_seq(a_before.entries(), ops),
        b_after.entries() == record_seq(b_before.entries(), ops),
    ensures
        a_after.entries() == b_after.entries(),
        a_after.entries().len() == b_after.entries().len(),
        cpu_sum(a_after.entries()) == cpu_sum(b_after.entries()),
        memory_sum(a_after.entries()) == memory_sum(b_after.entries()),
        op_names(a_after.entries()) == op_names(b_after.entries()),
        lookup_op(a_after.entries(), op) == lookup_op(b_after.entries(), op),
        lookup_op(a_after.entries(), op) == match last_recorded(ops, op) {
            Some(s) => Some(s),
            None => lookup_op(a_before.entries(), op),
        },
{
    a_before.lemma_wf_distinct();
    law_record_seq_lookup(a_before.entries(), ops, op);
}

/// The operations `(names[i], snapshots[i])`, in order.
pub open spec fn paired_ops(names: Seq<String>, snapshots: Seq<CostSnapshot>) -> Seq<
    (Seq<char>, CostSnapshot),
> {
    Seq::new(names.len(), |i: int| (names[i]@, snapshots[i]))
}

/// Records the first `count` pairs `(names[i], snapshots[i])` in order.
pub fn record_all<T: StateTracker>(
    t: &mut T,
    names: &[String],
    snapshots: &[CostSnapshot],
    count: usize,
)
    requires
        old(t).wf(),
        names@.len() == snapshots@.len(),
        count <= names@.len(),
    ensures
        final(t).wf(),
        final(t).entries() == record_seq(
            old(t).entries(),
            paired_ops(names@, snapshots@).take(count as int),
        ),
{
    let ghost ops = paired_ops(names@, snapshots@);
    let ghost e0 = t.entries();
    let mut i: usize = 0;
    proof {
        assert(ops.take(0) =~= Seq::<(Seq<char>, CostSnapshot)>::empty());
    }
    while i < count
        invariant
            i <= count <= names@.len(),
            names@.len() == snapshots@.len(),
            ops == paired_ops(names@, snapshots@),
            t.wf(),
            t.entries() == record_seq(e0, ops.take(i as int)),
        decreases count - i,
    {
        t.record(names[i].as_str(), snapshots[i]);
        proof {
            assert(ops.take(i + 1).drop_last() =~= ops.take(i as int));
            assert(ops.take(i + 1).last() == ops[i as int]);
        }
        i = i + 1;
    }
}

// ---------------------------------------------------------------------------
// LinearStateTracker
// ---------------------------------------------------------------------------

/// Linear-scan cost tracker: entries are kept in a vector in insertion
/// order, and every `record`/`lookup` scans it.
#[derive(Debug, Clone)]
pub struct LinearStateTracker {
    entries: Vec<(String, CostSnapshot)>,
}

impl LinearStateTracker {
    /// The entries as abstract `(name, snapshot)` pairs.
    pub closed spec fn model(&self) -> Seq<(Seq<char>, CostSnapshot)> {
        self.entries@.map_values(|p: (String, CostSnapshot)| (p.0@, p.1))
    }

    /// Creates an empty tracker.
    pub fn new() -> (t: Self)
        ensures
            t.wf(),
            t.entries() == Seq::<(Seq<char>, CostSnapshot)>::empty(),
    {
        let t = LinearStateTracker { entries: Vec::new() };
        assert(t.model() =~= Seq::<(Seq<char>, CostSnapshot)>::empty());
        t
    }

    /// Creates an empty tracker with the given pre-allocated capacity.
    pub fn with_capacity(capacity: usize) -> (t: Self)
        ensures
            t.wf(),
            t.entries() == Seq::<(Seq<char>, CostSnapshot)>::empty(),
    {
        let t = LinearStateTracker { entries: Vec::with_capacity(capacity) };
        assert(t.model() =~= Seq::<(Seq<char>, CostSnapshot)>::empty());
        t
    }

    /// The number of entries currently stored.
    pub fn capacity(&self) -> (r: usize)
        ensures
            r == self.entries().len(),
    {
        self.entries.len()
    }

    /// Converts this linear tracker into a [`HashedStateTracker`] holding
    /// the same entries (for each operation, the last snapshot written).
    pub fn into_hashed(self) -> (h: HashedStateTracker)
        requires
            self.wf(),
        ensures
            h.wf(),
            h.entries() == self.entries(),
    {
        let mut out = HashedStateTracker::with_capacity(self.entries.len());
        let mut i: usize = 0;
        while i < self.entries.len()
            invariant
                self.wf(),
                i <= self.entries@.len(),
                out.wf(),
                out.entries() == self.entries().take(i as int),
            decreases self.entries.len() - i,
        {
            let ghost e = self.entries();
            proof {
                assert(!has_op(e.take(i as int), e[i as int].0)) by {
                    if has_op(e.take(i as int), e[i as int].0) {
                        let j = op_index(e.take(i as int), e[i as int].0);
                        assert(e[j].0 == e[i as int].0);
                    }
                }
                assert(e.take(i + 1) =~= e.take(i as int).push(e[i as int]));
            }
            out.record(self.entries[i].0.as_str(), self.entries[i].1);
            i = i + 1;
        }
        assert(self.entries().take(self.entries@.len() as int) =~= self.entries());
        out
    }
}

impl Default for LinearStateTracker {
    fn default() -> (t: Self)
        ensures
            t.wf(),
            t.entries() == Seq::<(Seq<char>, CostSnapshot)>::empty(),
    {
        LinearStateTracker::new()
    }
}

impl StateTracker for LinearStateTracker {
    closed spec fn entries(&self) -> Seq<(Seq<char>, CostSnapshot)> {
        self.model()
    }

    closed spec fn wf(&self) -> bool {
        distinct_ops(self.model())
    }

    proof fn lemma_wf_distinct(&self) {
    }

    fn record(&mut self, op: &str, snapshot: CostSnapshot) {
        let ghost e = self.model();
        let mut i: usize = 0;
        while i < self.entries.len()
            invariant
                e == old(self).model(),
                e == self.model(),
                distinct_ops(e),
                i <= e.len(),
                forall|k: int| 0 <= k < i ==> e[k].0 != op@,
            decreases self.entries.len() - i,
        {
            if str_eq(self.entries[i].0.as_str(), op) {
                proof {
                    assert(e[i as int].0 == op@);
                    lemma_lookup_at(e, i as int);
                }
                self.entries[i].1 = snapshot;
                proof {
                    assert(self.model() =~= e.update(i as int, (op@, snapshot)));
                }
                return;
            }
            i = i + 1;
        }
        proof {
            assert(!has_op(e, op@));
        }
        self.entries.push((op.to_owned(), snapshot));
        assert(self.model() =~= e.push((op@, snapshot)));
    }

    fn lookup(&self, op: &str) -> (r: Option<&CostSnapshot>) {
        let ghost e = self.model();
        let mut i: usize = 0;
        while i < self.entries.len()
            invariant
                e == self.model(),
                distinct_ops(e),
                i <= e.len(),
                forall|k: int| 0 <= k < i ==> e[k].0 != op@,
            decreases self.entries.len() - i,
        {
            if str_eq(self.entries[i].0.as_str(), op) {
                proof {
                    lemma_lookup_at(e, i as int);
                }
                return Some(&self.entries[i].1);
            }
            i = i + 1;
        }
        None
    }

    fn len(&self) -> (r: usize) {
        self.entries.len()
    }

    fn total_cpu(&self) -> (r: u64) {
        let ghost e = self.model();
        let mut total: u64 = 0;
        let mut i: usize = 0;
        while i < self.entries.len()
            invariant
                e == self.model(),
                cpu_sum(e) <= u64::MAX,
                i <= e.len(),
                total == cpu_sum(e.take(i as int)),
            decreases self.entries.len() - i,
        {
            proof {
                assert(e.take(i + 1).drop_last() =~= e.take(i as int));
                lemma_sums_of_prefix(e, i + 1);
            }
            total = total + self.entries[i].1.cpu;
            i = i + 1;
        }
        assert(e.take(e.len() as int) =~= e);
        total
    }

    fn total_memory(&self) -> (r: u64) {
        let ghost e = self.model();
        let mut total: u64 = 0;
        let mut i: usize = 0;
        while i < self.entries.len()
            invariant
                e == self.model(),
                memory_sum(e) <= u64::MAX,
                i <= e.len(),
                total == memory_sum(e.take(i as int)),
            decreases self.entries.len() - i,
        {
            proof {
                assert(e.take(i + 1).drop_last() =~= e.take(i as int));
                lemma_sums_of_prefix(e, i + 1);
            }
            total = total + self.entries[i].1.memory;
            i = i + 1;
        }
        assert(e.take(e.len() as int) =~= e);
        total
    }

    fn ops(&self) -> (r: Vec<String>) {
        let mut out: Vec<String> = Vec::new();
        let mut i: usize = 0;
        while i < self.entries.len()
            invariant
                i <= self.entries@.len(),
                out@.map_values(|s: String| s@) == op_names(self.model()).take(i as int),
            decreases self.entries.len() - i,
        {
            let name = self.entries[i].0.clone();
            proof {
                assert(op_names(self.model())[i as int] == self.entries@[i as int].0@);
            }
            let ghost before = out@;
            out.push(name);
            proof {
                assert(out@ == before.push(name));
                assert(out@.map_values(|s: String| s@) =~= before.map_values(|s: String| s@).push(
                    name@,
                ));
                assert(op_names(self.model()).take(i + 1) =~= op_names(self.model()).take(
                    i as int,
                ).push(op_names(self.model())[i as int]));
            }
            i = i + 1;
        }
        assert(op_names(self.model()).take(self.entries@.len() as int) =~= op_names(self.model()));
        out
    }

    fn clear(&mut self) {
        self.entries.clear();
        assert(self.model() =~= Seq::<(Seq<char>, CostSnapshot)>::empty());
    }
}

// ---------------------------------------------------------------------------
// HashedStateTracker
// ---------------------------------------------------------------------------

/// What a snapshot table holds: each key (by its characters) mapped to its
/// snapshot.
pub uninterp spec fn snapshot_table_contents(t: HashMap<String, CostSnapshot>) -> Map<
    Seq<char>,
    CostSnapshot,
>;

/// `HashMap::with_capacity`: a new map holds no entries.
#[verifier::external_body]
fn table_with_capacity(capacity: usize) -> (table: HashMap<String, CostSnapshot>)
    ensures
        snapshot_table_contents(table).dom() == Set::<Seq<char>>::empty(),
{
    HashMap::with_capacity(capacity)
}

/// `HashMap::insert`: afterwards `key` maps to `value`, other keys keep
/// their values (`String` keys compare by their characters).
#[verifier::external_body]
fn table_insert(t: &mut HashMap<String, CostSnapshot>, key: String, value: CostSnapshot)
    ensures
        snapshot_table_contents(*final(t)) == snapshot_table_contents(*old(t)).insert(key@, value),
{
    t.insert(key, value);
}

/// `HashMap::get`: the value stored for `key`, if any.
#[verifier::external_body]
fn table_get<'a>(t: &'a HashMap<String, CostSnapshot>, key: &str) -> (r: Option<&'a CostSnapshot>)
    ensures
        match r {
            Some(v) => snapshot_table_contents(*t).contains_key(key@) && snapshot_table_contents(
                *t,
            )[key@] == *v,
            None => !snapshot_table_contents(*t).contains_key(key@),
        },
{
    t.get(key)
}

/// `HashMap::contains_key`.
#[verifier::external_body]
fn table_contains(t: &HashMap<String, CostSnapshot>, key: &str) -> (r: bool)
    ensures
        r == snapshot_table_contents(*t).contains_key(key@),
{
    t.contains_key(key)
}

/// `HashMap::clone`: the copy holds the same entries.
#[verifier::external_body]
fn table_clone(table: &HashMap<String, CostSnapshot>) -> (copy: HashMap<String, CostSnapshot>)
    ensures
        snapshot_table_contents(copy) == snapshot_table_contents(*table),
{
    table.clone()
}

/// `HashMap::clear`: afterwards the map holds no entries.
#[verifier::external_body]
fn table_clear(table: &mut HashMap<String, CostSnapshot>)
    ensures
        snapshot_table_contents(*final(table)).dom() == Set::<Seq<char>>::empty(),
{
    table.clear();
}

/// Hash-based cost tracker: snapshots live in a hash table keyed by
/// operation name (constant-time `record` / `lookup` on average); the list
/// of names, in first-recorded order, serves enumeration and the totals.
#[derive(Debug)]
pub struct HashedStateTracker {
    table: HashMap<String, CostSnapshot>,
    order: Vec<String>,
}

impl HashedStateTracker {
    closed spec fn names(&self) -> Seq<Seq<char>> {
        self.order@.map_values(|s: String| s@)
    }

    closed spec fn model(&self) -> Seq<(Seq<char>, CostSnapshot)> {
        let m = snapshot_table_contents(self.table);
        self.names().map_values(|k: Seq<char>| (k, m[k]))
    }

    closed spec fn consistent(&self) -> bool {
        let m = snapshot_table_contents(self.table);
        &&& self.names().no_duplicates()
        &&& forall|k: Seq<char>| #[trigger] m.contains_key(k) <==> self.names().contains(k)
    }

    /// Creates an empty tracker.
    pub fn new() -> (t: Self)
        ensures
            t.wf(),
            t.entries() == Seq::<(Seq<char>, CostSnapshot)>::empty(),
    {
        HashedStateTracker::with_capacity(0)
    }

    /// Creates an empty tracker with the given pre-allocated capacity.
    pub fn with_capacity(capacity: usize) -> (t: Self)
        ensures
            t.wf(),
            t.entries() == Seq::<(Seq<char>, CostSnapshot)>::empty(),
    {
        let t = HashedStateTracker { table: table_with_capacity(capacity), order: Vec::new() };
        assert(t.names() =~= Seq::<Seq<char>>::empty());
        assert(t.model() =~= Seq::<(Seq<char>, CostSnapshot)>::empty());
        t
    }

    /// The number of entries currently stored.
    pub fn capacity(&self) -> (r: usize)
        ensures
            r == self.entries().len(),
    {
        self.order.len()
    }
}

impl Clone for HashedStateTracker {
    fn clone(&self) -> (c: Self)
        ensures
            c.wf() == self.wf(),
            c.entries() == self.entries(),
    {
        let c = HashedStateTracker { table: table_clone(&self.table), order: self.order.clone() };
        assert(c.names() =~= self.names());
        assert(snapshot_table_contents(c.table) == snapshot_table_contents(self.table));
        assert(c.consistent() == self.consistent());
        c
    }
}

impl Default for HashedStateTracker {
    fn default() -> (t: Self)
        ensures
            t.wf(),
            t.entries() == Seq::<(Seq<char>, CostSnapshot)>::empty(),
    {
        HashedStateTracker::new()
    }
}

proof fn lemma_names_distinct(t: &HashedStateTracker)
    requires
        t.consistent(),
    ensures
        distinct_ops(t.model()),
        op_names(t.model()) == t.names(),
        forall|k: Seq<char>| has_op(t.model(), k) <==> snapshot_table_contents(t.table).contains_key(k),
        forall|k: Seq<char>| #[trigger] has_op(t.model(), k) ==> lookup_op(t.model(), k) == Some(snapshot_table_contents(t.table)[k]),
{
    let e = t.model();
    let n = t.names();
    assert forall|i: int, j: int| 0 <= i < e.len() && 0 <= j < e.len() && i != j implies #[trigger] e[i].0 != #[trigger] e[j].0 by {
        assert(e[i].0 == n[i] && e[j].0 == n[j]);
    }
    assert(op_names(e) =~= n);
    assert forall|k: Seq<char>| has_op(e, k) <==> snapshot_table_contents(t.table).contains_key(k) by {
        if has_op(e, k) {
            let i = op_index(e, k);
            assert(n[i] == k);
        }
        if snapshot_table_contents(t.table).contains_key(k) {
            assert(n.contains(k));
            let i = choose|i: int| 0 <= i < n.len() && n[i] == k;
            assert(e[i].0 == k);
        }
    }
    assert forall|k: Seq<char>| #[trigger] has_op(e, k) implies lookup_op(e, k) == Some(snapshot_table_contents(t.table)[k]) by {
        let i = op_index(e, k);
        assert(e[i] == (n[i], snapshot_table_contents(t.table)[n[i]]));
    }
}

impl StateTracker for HashedStateTracker {
    closed spec fn entries(&self) -> Seq<(Seq<char>, CostSnapshot)> {
        self.model()
    }

    closed spec fn wf(&self) -> bool {
        self.consistent()
    }

    proof fn lemma_wf_distinct(&self) {
        lemma_names_distinct(self);
    }

    fn record(&mut self, op: &str, snapshot: CostSnapshot) {
        proof {
            lemma_names_distinct(self);
        }
        let ghost e = self.model();
        let ghost n = self.names();
        if !table_contains(&self.table, op) {
            self.order.push(op.to_owned());
            proof {
                assert(self.names() =~= n.push(op@));
            }
        }
        table_insert(&mut self.table, op.to_owned(), snapshot);
        proof {
            let m = snapshot_table_contents(self.table);
            if has_op(e, op@) {
                let i = op_index(e, op@);
                assert(self.names() == n);
                assert(self.model() =~= e.update(i, (op@, snapshot))) by {
                    assert forall|j: int| 0 <= j < e.len() implies #[trigger] self.model()[j] == e.update(i, (op@, snapshot))[j] by {
                        if j != i {
                            assert(n[j] != op@);
                        }
                    }
                }
            } else {
                assert(self.model() =~= e.push((op@, snapshot))) by {
                    assert forall|j: int| 0 <= j < e.len() implies #[trigger] self.model()[j] == e.push((op@, snapshot))[j] by {
                        assert(n[j] != op@) by {
                            if n[j] == op@ {
                                assert(e[j].0 == op@);
                            }
                        }
                    }
                }
            }
            assert forall|k: Seq<char>| #[trigger] m.contains_key(k) <==> self.names().contains(k) by {
                if k == op@ {
                    assert(self.names().contains(op@)) by {
                        if has_op(e, op@) {
                            let i = op_index(e, op@);
                            assert(self.names()[i] == op@);
                        } else {
                            assert(self.names()[n.len() as int] == op@);
                        }
                    }
                } else if self.names().contains(k) {
                    let i = choose|i: int| 0 <= i < self.names().len() && self.names()[i] == k;
                    assert(n.contains(k)) by {
                        assert(n[i] == k);
                    }
                } else if m.contains_key(k) {
                    assert(n.contains(k));
                    let i = choose|i: int| 0 <= i < n.len() && n[i] == k;
                    assert(self.names()[i] == k);
                }
            }
        }
    }

    fn lookup(&self, op: &str) -> (r: Option<&CostSnapshot>) {
        proof {
            lemma_names_distinct(self);
        }
        table_get(&self.table, op)
    }

    fn contains(&self, op: &str) -> (r: bool) {
        proof {
            lemma_names_distinct(self);
        }
        table_contains(&self.table, op)
    }

    fn len(&self) -> (r: usize) {
        self.order.len()
    }

    fn total_cpu(&self) -> (r: u64) {
        let ghost e = self.model();
        let mut total: u64 = 0;
        let mut i: usize = 0;
        while i < self.order.len()
            invariant
                e == self.model(),
                self.consistent(),
                cpu_sum(e) <= u64::MAX,
                i <= e.len(),
                e.len() == self.order@.len(),
                total == cpu_sum(e.take(i as int)),
            decreases self.order.len() - i,
        {
            proof {
                assert(e.take(i + 1).drop_last() =~= e.take(i as int));
                lemma_sums_of_prefix(e, i + 1);
                assert(self.names().contains(self.order@[i as int]@)) by {
                    assert(self.names()[i as int] == self.order@[i as int]@);
                }
            }
            let s = table_get(&self.table, self.order[i].as_str());
            match s {
                Some(snap) => {
                    total = total + snap.cpu;
                },
                None => {},
            }
            i = i + 1;
        }
        assert(e.take(e.len() as int) =~= e);
        total
    }

    fn total_memory(&self) -> (r: u64) {
        let ghost e = self.model();
        let mut total: u64 = 0;
        let mut i: usize = 0;
        while i < self.order.len()
            invariant
                e == self.model(),
                self.consistent(),
                memory_sum(e) <= u64::MAX,
                i <= e.len(),
                e.len() == self.order@.len(),
                total == memory_sum(e.take(i as int)),
            decreases self.order.len() - i,
        {
            proof {
                assert(e.take(i + 1).drop_last() =~= e.take(i as int));
                lemma_sums_of_prefix(e, i + 1);
                assert(self.names().contains(self.order@[i as int]@)) by {
                    assert(self.names()[i as int] == self.order@[i as int]@);
                }
            }
            let s = table_get(&self.table, self.order[i].as_str());
            match s {
                Some(snap) => {
                    total = total + snap.memory;
                },
                None => {},
            }
            i = i + 1;
        }
        assert(e.take(e.len() as int) =~= e);
        total
    }

    fn ops(&self) -> (r: Vec<String>) {
        proof {
            lemma_names_distinct(self);
        }
        let r = self.order.clone();
        assert(r@.map_values(|s: String| s@) =~= self.names());
        r
    }

    fn clear(&mut self) {
        table_clear(&mut self.table);
        self.order.clear();
        assert(self.names() =~= Seq::<Seq<char>>::empty());
        assert(self.model() =~= Seq::<(Seq<char>, CostSnapshot)>::empty());
    }
}

// ---------------------------------------------------------------------------
// Benchmark harness
// ---------------------------------------------------------------------------

/// `std::time::Instant`, carried through opaquely.
#[verifier::external_type_specification]
#[verifier::external_body]
pub struct ExInstant(std::time::Instant);

/// `Instant::now`: reads the monotonic clock; nothing is claimed of the
/// value.
#[verifier::external_body]
fn clock_now() -> std::time::Instant {
    std::time::Instant::now()
}

/// `Instant::elapsed`: the time since `start`; it depends on the clock, so
/// nothing is claimed of it.
#[verifier::external_body]
fn clock_elapsed(start: &std::time::Instant) -> std::time::Duration {
    start.elapsed()
}

/// Result of [`compare_backends`]: the elapsed time of each phase.
#[derive(Debug, Clone, Copy, PartialEq, Eq)]
pub struct BenchmarkReport {
    /// Number of distinct operations exercised.
    pub n: usize,
    /// Number of warm-up inserts run before timing began.
    pub warmup: usize,
    /// Time spent on `n` `record` calls against the linear backend.
    pub linear_record_time: std::time::Duration,
    /// Time spent on `n` `record` calls against the hashed backend.
    pub hashed_record_time: std::time::Duration,
    /// Time spent on `n` `lookup` calls against the linear backend.
    pub linear_lookup_time: std::time::Duration,
    /// Time spent on `n` `lookup` calls against the hashed backend.
    pub hashed_lookup_time: std::time::Duration,
}

/// The name `op_<i>` used by the benchmark for operation `i`.
pub open spec fn bench_op_name(i: nat) -> Seq<char> {
    seq!['o', 'p', '_'] + crate::text::decimal(i)
}

/// The snapshot the benchmark records for operation `i`: `(10 i, 4 i)`.
pub open spec fn bench_snapshot(i: nat) -> CostSnapshot {
    CostSnapshot { cpu: (i * 10) as u64, memory: (i * 4) as u64 }
}

/// The benchmark's workload: the names `op_0 .. op_{n-1}` and, for each,
/// the snapshot [`bench_snapshot`].
pub fn bench_workload(n: usize) -> (r: (Vec<String>, Vec<CostSnapshot>))
    requires
        n * 10 <= u64::MAX,
    ensures
        r.0@.len() == n,
        r.1@.len() == n,
        forall|k: int| 0 <= k < n ==> #[trigger] r.0@[k]@ == bench_op_name(k as nat),
        forall|k: int| 0 <= k < n ==> #[trigger] r.1@[k] == bench_snapshot(k as nat),
{
    let mut names: Vec<String> = Vec::new();
    let mut snapshots: Vec<CostSnapshot> = Vec::new();
    let mut i: usize = 0;
    while i < n
        invariant
            i <= n,
            n * 10 <= u64::MAX,
            names@.len() == i,
            snapshots@.len() == i,
            forall|k: int| 0 <= k < i ==> #[trigger] names@[k]@ == bench_op_name(k as nat),
            forall|k: int| 0 <= k < i ==> #[trigger] snapshots@[k] == bench_snapshot(k as nat),
        decreases n - i,
    {
        let mut name = String::new();
        name.append("op_");
        crate::text::push_decimal(&mut name, i as u64);
        proof {
            reveal_strlit("op_");
            assert(name@ =~= bench_op_name(i as nat));
        }
        names.push(name);
        snapshots.push(CostSnapshot::new(i as u64 * 10, i as u64 * 4));
        i = i + 1;
    }
    (names, snapshots)
}

/// Paired benchmark: `warmup` untimed records, then `n` timed records and
/// `n` timed lookups of the names `op_0 .. op_{n-1}` (snapshot `i` is
/// `(10 i, 4 i)`) on each backend, both backends receiving the same
/// operation sequence from [`bench_workload`].  Only the timings depend on
/// the machine.
pub fn compare_backends(n: usize, warmup: usize) -> (r: BenchmarkReport)
    requires
        warmup <= n,
        n * 10 <= u64::MAX,
    ensures
        r.n == n,
        r.warmup == warmup,
{
    let (names, snapshots) = bench_workload(n);
    let mut linear = LinearStateTracker::with_capacity(n);
    let mut hashed = HashedStateTracker::with_capacity(n);
    record_all(&mut linear, names.as_slice(), snapshots.as_slice(), warmup);
    record_all(&mut hashed, names.as_slice(), snapshots.as_slice(), warmup);
    let t0 = clock_now();
    record_all(&mut linear, names.as_slice(), snapshots.as_slice(), n);
    let linear_record_time = clock_elapsed(&t0);
    let t0 = clock_now();
    record_all(&mut hashed, names.as_slice(), snapshots.as_slice(), n);
    let hashed_record_time = clock_elapsed(&t0);
    // Both backends were fed the same sequence, so they hold the same entries.
    assert(linear.entries() == hashed.entries());
    let t0 = clock_now();
    let mut i: usize = 0;
    while i < n
        invariant
            i <= n,
            names@.len() == n,
            linear.wf(),
        decreases n - i,
    {
        let _ = linear.lookup(names[i].as_str());
        i = i + 1;
    }
    let linear_lookup_time = clock_elapsed(&t0);
    let t0 = clock_now();
    let mut i: usize = 0;
    while i < n
        invariant
            i <= n,
            names@.len() == n,
            hashed.wf(),
        decreases n - i,
    {
        let _ = hashed.lookup(names[i].as_str());
        i = i + 1;
    }
    let hashed_lookup_time = clock_elapsed(&t0);
    BenchmarkReport {
        n,
        warmup,
        linear_record_time,
        hashed_record_time,
        linear_lookup_time,
        hashed_lookup_time,
    }
}

} // verus!
