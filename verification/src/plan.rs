//! Planning Tier A limits from a Tier B report: which limits there are,
//! which Tier B values they come from, and in which order they are written.
//! Applying the (floating-point) margins to the planned values is left to
//! the caller.

use vstd::prelude::*;
use crate::derivation::{
    env_var_key, env_var_scenario_key, function_key, scenario_key, TierBMeasurement,
};
use crate::name_map::{lex_less, lex_less_exec, NameMap};
use crate::text::{chars_of, slice_vec, string_of, str_eq};

verus! {

// ---------------------------------------------------------------------------
// Margin components
// ---------------------------------------------------------------------------

/// The margin component that applies to a metric.
#[derive(Debug, Clone, Copy, PartialEq, Eq, Structural)]
pub enum MarginSlot {
    Cpu,
    Memory,
    Read,
    Write,
}

/// The margin component of a metric label, if it has one.
pub open spec fn margin_slot_of(label: Seq<char>) -> Option<MarginSlot> {
    if label == "CPU Instructions"@ {
        Some(MarginSlot::Cpu)
    } else if label == "Memory Bytes"@ || label == "Memory bytes"@ || label == "memory_bytes"@ {
        Some(MarginSlot::Memory)
    } else if label == "Read Bytes"@ {
        Some(MarginSlot::Read)
    } else if label == "Write Bytes"@ {
        Some(MarginSlot::Write)
    } else {
        None
    }
}

/// The margin component of a metric label: `CPU Instructions` uses the CPU
/// margin, the memory labels the memory margin, `Read Bytes` and `Write
/// Bytes` their own; any other label has none.
pub fn margin_slot(metric: &str) -> (r: Option<MarginSlot>)
    ensures
        r == margin_slot_of(metric@),
{
    if str_eq(metric, "CPU Instructions") {
        Some(MarginSlot::Cpu)
    } else if str_eq(metric, "Memory Bytes") || str_eq(metric, "Memory bytes") || str_eq(
        metric,
        "memory_bytes",
    ) {
        Some(MarginSlot::Memory)
    } else if str_eq(metric, "Read Bytes") {
        Some(MarginSlot::Read)
    } else if str_eq(metric, "Write Bytes") {
        Some(MarginSlot::Write)
    } else {
        None
    }
}

// ---------------------------------------------------------------------------
// `package::name` keys
// ---------------------------------------------------------------------------

/// A `::` starts at index `i` of `s`.
pub open spec fn separator_at(s: Seq<char>, i: int) -> bool {
    0 <= i && i + 1 < s.len() && s[i] == ':' && s[i + 1] == ':'
}

/// The first index at or after `from` where a `::` starts, or `-1`.
pub open spec fn separator_from(s: Seq<char>, from: int) -> int
    decreases s.len() - from,
{
    if from < 0 || from + 1 >= s.len() {
        -1
    } else if separator_at(s, from) {
        from
    } else {
        separator_from(s, from + 1)
    }
}

/// `s` split at its first `::`; without one, an empty first part and `s`.
pub open spec fn split_key(s: Seq<char>) -> (Seq<char>, Seq<char>) {
    let i = separator_from(s, 0);
    if i < 0 {
        (Seq::empty(), s)
    } else {
        (s.take(i), s.skip(i + 2))
    }
}

/// The group key of a record: `package::function`.
pub open spec fn group_key(m: TierBMeasurement) -> Seq<char> {
    m.package@ + "::"@ + m.function@
}

/// Splits `s` at its first `::`, as [`split_key`] describes.
pub fn split_at_separator(s: &str) -> (r: (String, String))
    ensures
        r.0@ == split_key(s@).0,
        r.1@ == split_key(s@).1,
{
    let cs = chars_of(s);
    let mut i: usize = 0;
    while i < cs.len() && i + 1 < cs.len() && !(cs[i] == ':' && cs[i + 1] == ':')
        invariant
            i <= cs@.len(),
            cs@ == s@,
            separator_from(s@, 0) == separator_from(s@, i as int),
        decreases cs.len() - i,
    {
        i = i + 1;
    }
    if i < cs.len() && i + 1 < cs.len() {
        let a = slice_vec(&cs, 0, i);
        let b = slice_vec(&cs, i + 2, cs.len());
        (string_of(&a), string_of(&b))
    } else {
        (String::new(), string_of(&cs))
    }
}

// ---------------------------------------------------------------------------
// Planned limits
// ---------------------------------------------------------------------------

/// Where a planned limit comes from.
#[derive(Debug)]
pub enum LimitOrigin {
    /// One metric of one function; `group` is the `package::function` key
    /// the records were grouped under, `package` and `function` its parts.
    Function { group: String, package: String, function: String, metric: String },
    /// One metric of the scenario at `index` among the scenarios given.
    Scenario { index: usize, metric: &'static str },
}

/// One limit to write: its key, the margin component to apply, the Tier B
/// value it is reported against and the value the margin is applied to.
#[derive(Debug)]
pub struct PlannedLimit {
    pub key: String,
    pub slot: MarginSlot,
    pub tier_b_value: u64,
    pub base_value: u64,
    pub origin: LimitOrigin,
}

/// The mathematical form of a [`LimitOrigin`].
pub enum OriginView {
    Function { group: Seq<char>, package: Seq<char>, function: Seq<char>, metric: Seq<char> },
    Scenario { index: nat, metric: Seq<char> },
}

/// The mathematical form of a [`PlannedLimit`].
pub struct PlannedLimitView {
    pub key: Seq<char>,
    pub slot: MarginSlot,
    pub tier_b_value: u64,
    pub base_value: u64,
    pub origin: OriginView,
}

impl View for PlannedLimit {
    type V = PlannedLimitView;

    open spec fn view(&self) -> PlannedLimitView {
        PlannedLimitView {
            key: self.key@,
            slot: self.slot,
            tier_b_value: self.tier_b_value,
            base_value: self.base_value,
            origin: match self.origin {
                LimitOrigin::Function { group, package, function, metric } => OriginView::Function {
                    group: group@,
                    package: package@,
                    function: function@,
                    metric: metric@,
                },
                LimitOrigin::Scenario { index, metric } => OriginView::Scenario {
                    index: index as nat,
                    metric: metric@,
                },
            },
        }
    }
}

/// The views of `rows`.
pub open spec fn plan_views(rows: Seq<PlannedLimit>) -> Seq<PlannedLimitView> {
    rows.map_values(|r: PlannedLimit| r@)
}

// ---------------------------------------------------------------------------
// The latest record of a metric
// ---------------------------------------------------------------------------

/// The value of the last record of `ms` under group key `group` with
/// metric `metric`.
pub open spec fn last_group_value(ms: Seq<TierBMeasurement>, group: Seq<char>, metric: Seq<char>) -> Option<u64>
    decreases ms.len(),
{
    if ms.len() == 0 {
        None
    } else if group_key(ms.last()) == group && ms.last().metric@ == metric {
        Some(ms.last().value)
    } else {
        last_group_value(ms.drop_last(), group, metric)
    }
}

/// Some record of `ms` has group key `group`.
pub open spec fn group_present(ms: Seq<TierBMeasurement>, group: Seq<char>) -> bool
    decreases ms.len(),
{
    if ms.len() == 0 {
        false
    } else {
        group_key(ms.last()) == group || group_present(ms.drop_last(), group)
    }
}

/// The value of the last record of `ms` for `package`, `function` and
/// `metric`.
pub open spec fn last_record_value(
    ms: Seq<TierBMeasurement>,
    package: Seq<char>,
    function: Seq<char>,
    metric: Seq<char>,
) -> Option<u64>
    decreases ms.len(),
{
    if ms.len() == 0 {
        None
    } else if ms.last().package@ == package && ms.last().function@ == function && ms.last().metric@
        == metric {
        Some(ms.last().value)
    } else {
        last_record_value(ms.drop_last(), package, function, metric)
    }
}

/// The value of the last record for `package`, `function` and `metric`.
pub fn find_record_value(ms: &[TierBMeasurement], package: &str, function: &str, metric: &str) -> (r: Option<u64>)
    ensures
        r == last_record_value(ms@, package@, function@, metric@),
{
    let mut i: usize = ms.len();
    proof {
        assert(ms@.take(ms@.len() as int) =~= ms@);
    }
    while i > 0
        invariant
            i <= ms@.len(),
            last_record_value(ms@, package@, function@, metric@) == last_record_value(
                ms@.take(i as int),
                package@,
                function@,
                metric@,
            ),
        decreases i,
    {
        let m = &ms[i - 1];
        proof {
            assert(ms@.take(i as int).drop_last() =~= ms@.take(i - 1));
            assert(ms@.take(i as int).last() == ms@[i - 1]);
        }
        if str_eq(m.package.as_str(), package) && str_eq(m.function.as_str(), function) && str_eq(
            m.metric.as_str(),
            metric,
        ) {
            return Some(m.value);
        }
        i = i - 1;
    }
    None
}

// ---------------------------------------------------------------------------
// Grouping records by function
// ---------------------------------------------------------------------------

/// `g` maps each group key of `ms` to its metrics, and each of those to the
/// value of its last record.
pub open spec fn groups_records(g: Map<Seq<char>, NameMap<u64>>, ms: Seq<TierBMeasurement>) -> bool {
    &&& forall|k: Seq<char>| #[trigger] g.dom().contains(k) <==> group_present(ms, k)
    &&& forall|k: Seq<char>, m: Seq<char>|
        g.dom().contains(k) ==> (#[trigger] g[k]@.dom().contains(m) <==> last_group_value(
            ms,
            k,
            m,
        ) is Some)
    &&& forall|k: Seq<char>, m: Seq<char>|
        g.dom().contains(k) && #[trigger] g[k]@.dom().contains(m) ==> last_group_value(ms, k, m)
            == Some(g[k]@[m])
}

proof fn lemma_last_group_value_present(ms: Seq<TierBMeasurement>, group: Seq<char>, metric: Seq<char>)
    ensures
        last_group_value(ms, group, metric) is Some ==> group_present(ms, group),
    decreases ms.len(),
{
    if ms.len() > 0 {
        lemma_last_group_value_present(ms.drop_last(), group, metric);
    }
}

fn group_key_string(m: &TierBMeasurement) -> (k: String)
    ensures
        k@ == group_key(*m),
{
    let mut k = String::new();
    k.append(m.package.as_str());
    k.append("::");
    k.append(m.function.as_str());
    k
}

/// Groups the records by `package::function` key and metric, keeping the
/// value of the last record of each; stops at the first record whose
/// metric has no margin component and returns its index.
fn group_by_function(ms: &[TierBMeasurement]) -> (r: Result<NameMap<NameMap<u64>>, usize>)
    ensures
        match r {
            Err(k) => k < ms@.len() && margin_slot_of(ms@[k as int].metric@) is None && forall|
                j: int,
            |
                0 <= j < k ==> #[trigger] margin_slot_of(ms@[j].metric@) is Some,
            Ok(g) => (forall|j: int|
                0 <= j < ms@.len() ==> #[trigger] margin_slot_of(ms@[j].metric@) is Some)
                && groups_records(g@, ms@),
        },
{
    let mut grouped: NameMap<NameMap<u64>> = NameMap::new();
    let mut k: usize = 0;
    while k < ms.len()
        invariant
            k <= ms@.len(),
            forall|j: int| 0 <= j < k ==> #[trigger] margin_slot_of(ms@[j].metric@) is Some,
            groups_records(grouped@, ms@.take(k as int)),
        decreases ms.len() - k,
    {
        let rec = &ms[k];
        if margin_slot(rec.metric.as_str()).is_none() {
            return Err(k);
        }
        let gk = group_key_string(rec);
        let ghost before = grouped@;
        let ghost g0 = gk@;
        let ghost m0 = rec.metric@;
        let ghost prev = ms@.take(k as int);
        let ghost next = ms@.take(k + 1);
        proof {
            assert(next.drop_last() =~= prev);
            assert(next.last() == ms@[k as int]);
        }
        let mut metrics = match grouped.remove(gk.as_str()) {
            Some(m) => m,
            None => NameMap::new(),
        };
        let ghost ms_before = metrics@;
        metrics.insert(rec.metric.clone(), rec.value);
        grouped.insert(gk, metrics);
        proof {
            assert(grouped@ == before.insert(g0, metrics));
            assert forall|q: Seq<char>| #[trigger] grouped@.dom().contains(q) <==> group_present(
                next,
                q,
            ) by {}
            assert forall|q: Seq<char>, m: Seq<char>|
                grouped@.dom().contains(q) implies (#[trigger] grouped@[q]@.dom().contains(m)
                <==> last_group_value(next, q, m) is Some) by {
                if q == g0 && before.dom().contains(g0) {
                    assert(ms_before == before[g0]@);
                }
                if q == g0 && !before.dom().contains(g0) {
                    lemma_last_group_value_present(prev, g0, m);
                }
            }
            assert forall|q: Seq<char>, m: Seq<char>|
                grouped@.dom().contains(q) && #[trigger] grouped@[q]@.dom().contains(m) implies last_group_value(
                next,
                q,
                m,
            ) == Some(grouped@[q]@[m]) by {
                if q == g0 && before.dom().contains(g0) {
                    assert(ms_before == before[g0]@);
                }
            }
        }
        k = k + 1;
    }
    proof {
        assert(ms@.take(k as int) =~= ms@);
    }
    Ok(grouped)
}

// ---------------------------------------------------------------------------
// Function limits
// ---------------------------------------------------------------------------

/// The group key of a planned function limit.
pub open spec fn origin_group(v: PlannedLimitView) -> Seq<char> {
    match v.origin {
        OriginView::Function { group, .. } => group,
        OriginView::Scenario { .. } => Seq::empty(),
    }
}

/// The metric of a planned limit.
pub open spec fn origin_metric(v: PlannedLimitView) -> Seq<char> {
    match v.origin {
        OriginView::Function { metric, .. } => metric,
        OriginView::Scenario { metric, .. } => metric,
    }
}

/// `(g1, m1)` sorts before `(g2, m2)`: by group key, then by metric.
pub open spec fn pair_less(g1: Seq<char>, m1: Seq<char>, g2: Seq<char>, m2: Seq<char>) -> bool {
    lex_less(g1, g2) || (g1 == g2 && lex_less(m1, m2))
}

/// `o` with a default of `0`.
pub open spec fn or_zero(o: Option<u64>) -> u64 {
    match o {
        Some(v) => v,
        None => 0,
    }
}

/// The limit planned for `metric` of the records under `group`: keyed by
/// the two parts of the group key, applied to the value of the group's
/// last record of the metric, and reported against the last record of
/// exactly those parts (`0` when there is none).
pub open spec fn function_row(ms: Seq<TierBMeasurement>, group: Seq<char>, metric: Seq<char>) -> PlannedLimitView {
    let parts = split_key(group);
    PlannedLimitView {
        key: function_key(parts.0, parts.1, metric),
        slot: match margin_slot_of(metric) {
            Some(s) => s,
            None => MarginSlot::Cpu,
        },
        tier_b_value: or_zero(last_record_value(ms, parts.0, parts.1, metric)),
        base_value: or_zero(last_group_value(ms, group, metric)),
        origin: OriginView::Function { group, package: parts.0, function: parts.1, metric },
    }
}

/// `r` has one limit for each group key and metric of `ms`, in ascending
/// order of group key and then metric.
pub open spec fn is_function_plan(ms: Seq<TierBMeasurement>, r: Seq<PlannedLimitView>) -> bool {
    &&& forall|i: int, j: int|
        0 <= i < j < r.len() ==> pair_less(
            origin_group(#[trigger] r[i]),
            origin_metric(r[i]),
            origin_group(#[trigger] r[j]),
            origin_metric(r[j]),
        )
    &&& forall|i: int|
        0 <= i < r.len() ==> #[trigger] r[i] == function_row(
            ms,
            origin_group(r[i]),
            origin_metric(r[i]),
        )
    &&& forall|g: Seq<char>, m: Seq<char>|
        #[trigger] last_group_value(ms, g, m) is Some <==> exists|i: int|
            0 <= i < r.len() && origin_group(#[trigger] r[i]) == g && origin_metric(r[i]) == m
}

proof fn lemma_last_group_value_metric(ms: Seq<TierBMeasurement>, group: Seq<char>, metric: Seq<char>)
    ensures
        last_group_value(ms, group, metric) is Some ==> exists|j: int|
            0 <= j < ms.len() && #[trigger] ms[j].metric@ == metric,
    decreases ms.len(),
{
    if ms.len() > 0 {
        lemma_last_group_value_metric(ms.drop_last(), group, metric);
        if last_group_value(ms.drop_last(), group, metric) is Some {
            let j = choose|j: int| 0 <= j < ms.drop_last().len() && #[trigger] ms.drop_last()[j].metric@ == metric;
            assert(ms[j].metric@ == metric);
        }
        if group_key(ms.last()) == group && ms.last().metric@ == metric {
            assert(ms[ms.len() - 1].metric@ == metric);
        }
    }
}

/// One limit for each group key and metric of the records, as
/// [`is_function_plan`] describes.
fn function_rows(ms: &[TierBMeasurement], grouped: &NameMap<NameMap<u64>>) -> (rows: Vec<PlannedLimit>)
    requires
        groups_records(grouped@, ms@),
        forall|j: int| 0 <= j < ms@.len() ==> #[trigger] margin_slot_of(ms@[j].metric@) is Some,
    ensures
        is_function_plan(ms@, plan_views(rows@)),
{
    let groups = grouped.keys();
    let mut rows: Vec<PlannedLimit> = Vec::new();
    let mut gi: usize = 0;
    while gi < groups.len()
        invariant
            gi <= groups@.len(),
            groups_records(grouped@, ms@),
            forall|j: int| 0 <= j < ms@.len() ==> #[trigger] margin_slot_of(ms@[j].metric@) is Some,
            groups@.len() == grouped@.dom().len(),
            forall|a: int, b: int|
                0 <= a < b < groups@.len() ==> lex_less(#[trigger] groups@[a]@, #[trigger] groups@[b]@),
            forall|k: Seq<char>|
                grouped@.dom().contains(k) <==> exists|a: int|
                    0 <= a < groups@.len() && #[trigger] groups@[a]@ == k,
            forall|i: int, j: int|
                0 <= i < j < rows@.len() ==> pair_less(
                    origin_group(#[trigger] rows@[i]@),
                    origin_metric(rows@[i]@),
                    origin_group(#[trigger] rows@[j]@),
                    origin_metric(rows@[j]@),
                ),
            forall|i: int|
                0 <= i < rows@.len() ==> #[trigger] rows@[i]@ == function_row(
                    ms@,
                    origin_group(rows@[i]@),
                    origin_metric(rows@[i]@),
                ),
            forall|i: int, b: int|
                0 <= i < rows@.len() && gi <= b < groups@.len() ==> lex_less(
                    origin_group(#[trigger] rows@[i]@),
                    #[trigger] groups@[b]@,
                ),
            forall|g: Seq<char>, m: Seq<char>|
                (exists|a: int| 0 <= a < gi && #[trigger] groups@[a]@ == g)
                    && #[trigger] last_group_value(ms@, g, m) is Some <==> exists|i: int|
                    0 <= i < rows@.len() && origin_group(#[trigger] rows@[i]@) == g
                        && origin_metric(rows@[i]@) == m,
        decreases groups.len() - gi,
    {
        let g = &groups[gi];
        let ghost gv = g@;
        proof {
            assert(grouped@.dom().contains(gv));
        }
        let metrics_map = grouped.get(g.as_str()).unwrap();
        let metrics = metrics_map.keys();
        let parts = split_at_separator(g.as_str());
        let ghost start = rows@.len();
        let mut mi: usize = 0;
        while mi < metrics.len()
            invariant
                gi < groups@.len(),
                g@ == gv,
                gv == groups@[gi as int]@,
                grouped@.dom().contains(gv),
                *metrics_map == grouped@[gv],
                parts.0@ == split_key(gv).0,
                parts.1@ == split_key(gv).1,
                mi <= metrics@.len(),
                start <= rows@.len(),
                rows@.len() == start + mi,
                groups_records(grouped@, ms@),
                forall|j: int| 0 <= j < ms@.len() ==> #[trigger] margin_slot_of(ms@[j].metric@) is Some,
                forall|a: int, b: int|
                    0 <= a < b < groups@.len() ==> lex_less(#[trigger] groups@[a]@, #[trigger] groups@[b]@),
                forall|a: int, b: int|
                    0 <= a < b < metrics@.len() ==> lex_less(#[trigger] metrics@[a]@, #[trigger] metrics@[b]@),
                forall|m: Seq<char>|
                    metrics_map@.dom().contains(m) <==> exists|b: int|
                        0 <= b < metrics@.len() && #[trigger] metrics@[b]@ == m,
                forall|i: int, j: int|
                    0 <= i < j < rows@.len() ==> pair_less(
                        origin_group(#[trigger] rows@[i]@),
                        origin_metric(rows@[i]@),
                        origin_group(#[trigger] rows@[j]@),
                        origin_metric(rows@[j]@),
                    ),
                forall|i: int|
                    0 <= i < rows@.len() ==> #[trigger] rows@[i]@ == function_row(
                        ms@,
                        origin_group(rows@[i]@),
                        origin_metric(rows@[i]@),
                    ),
                forall|i: int, b: int|
                    0 <= i < start && gi <= b < groups@.len() ==> lex_less(
                        origin_group(#[trigger] rows@[i]@),
                        #[trigger] groups@[b]@,
                    ),
                forall|i: int|
                    start <= i < rows@.len() ==> origin_group(#[trigger] rows@[i]@) == gv
                        && origin_metric(rows@[i]@) == metrics@[i - start]@,
                forall|g2: Seq<char>, m: Seq<char>|
                    (exists|a: int| 0 <= a < gi && #[trigger] groups@[a]@ == g2)
                        && #[trigger] last_group_value(ms@, g2, m) is Some <==> exists|i: int|
                        0 <= i < start && origin_group(#[trigger] rows@[i]@) == g2
                            && origin_metric(rows@[i]@) == m,
            decreases metrics.len() - mi,
        {
            let m = &metrics[mi];
            let ghost mv = m@;
            proof {
                assert(metrics_map@.dom().contains(mv));
                assert(last_group_value(ms@, gv, mv) == Some(metrics_map@[mv]));
                lemma_last_group_value_metric(ms@, gv, mv);
            }
            let base = *metrics_map.get(m.as_str()).unwrap();
            let tier_b = match find_record_value(ms, parts.0.as_str(), parts.1.as_str(), m.as_str()) {
                Some(v) => v,
                None => 0,
            };
            let slot = margin_slot(m.as_str()).unwrap();
            let key = env_var_key(parts.0.as_str(), parts.1.as_str(), m.as_str());
            let row = PlannedLimit {
                key,
                slot,
                tier_b_value: tier_b,
                base_value: base,
                origin: LimitOrigin::Function {
                    group: g.clone(),
                    package: parts.0.clone(),
                    function: parts.1.clone(),
                    metric: m.clone(),
                },
            };
            proof {
                assert(row@ == function_row(ms@, gv, mv));
                assert forall|i: int| 0 <= i < rows@.len() implies pair_less(
                    origin_group(rows@[i]@),
                    origin_metric(rows@[i]@),
                    gv,
                    mv,
                ) by {
                    if i < start {
                        assert(lex_less(origin_group(rows@[i]@), groups@[gi as int]@));
                    } else {
                        assert(lex_less(metrics@[i - start]@, metrics@[mi as int]@));
                    }
                }
            }
            let ghost old_rows = rows@;
            rows.push(row);
            proof {
                assert forall|i: int| 0 <= i < old_rows.len() implies #[trigger] rows@[i] == old_rows[i] by {}
                assert forall|g2: Seq<char>, m2: Seq<char>|
                    (exists|a: int| 0 <= a < gi && #[trigger] groups@[a]@ == g2)
                        && #[trigger] last_group_value(ms@, g2, m2) is Some <==> exists|i: int|
                        0 <= i < start && origin_group(#[trigger] rows@[i]@) == g2
                            && origin_metric(rows@[i]@) == m2 by {
                    if exists|i: int|
                        0 <= i < start && origin_group(#[trigger] old_rows[i]@) == g2
                            && origin_metric(old_rows[i]@) == m2 {
                        let i = choose|i: int|
                            0 <= i < start && origin_group(#[trigger] old_rows[i]@) == g2
                                && origin_metric(old_rows[i]@) == m2;
                        assert(rows@[i] == old_rows[i]);
                    }
                    if exists|i: int|
                        0 <= i < start && origin_group(#[trigger] rows@[i]@) == g2
                            && origin_metric(rows@[i]@) == m2 {
                        let i = choose|i: int|
                            0 <= i < start && origin_group(#[trigger] rows@[i]@) == g2
                                && origin_metric(rows@[i]@) == m2;
                        assert(rows@[i] == old_rows[i]);
                        assert(origin_group(old_rows[i]@) == g2);
                    }
                }
            }
            mi = mi + 1;
        }
        proof {
            assert forall|i: int, b: int|
                0 <= i < rows@.len() && gi + 1 <= b < groups@.len() implies lex_less(
                    origin_group(#[trigger] rows@[i]@),
                    #[trigger] groups@[b]@,
                ) by {
                if i < start {
                } else {
                    assert(origin_group(rows@[i]@) == groups@[gi as int]@);
                    assert(lex_less(groups@[gi as int]@, groups@[b]@));
                }
            }
            assert forall|g2: Seq<char>, m: Seq<char>|
                (exists|a: int| 0 <= a < gi + 1 && #[trigger] groups@[a]@ == g2)
                    && #[trigger] last_group_value(ms@, g2, m) is Some <==> exists|i: int|
                    0 <= i < rows@.len() && origin_group(#[trigger] rows@[i]@) == g2
                        && origin_metric(rows@[i]@) == m by {
                if g2 == gv {
                    if last_group_value(ms@, g2, m) is Some {
                        assert(metrics_map@.dom().contains(m));
                        let b = choose|b: int| 0 <= b < metrics@.len() && #[trigger] metrics@[b]@ == m;
                        assert(origin_group(rows@[start + b]@) == g2);
                    }
                    if exists|i: int|
                        0 <= i < rows@.len() && origin_group(#[trigger] rows@[i]@) == g2
                            && origin_metric(rows@[i]@) == m {
                        let i = choose|i: int|
                            0 <= i < rows@.len() && origin_group(#[trigger] rows@[i]@) == g2
                                && origin_metric(rows@[i]@) == m;
                        if i < start {
                            assert(lex_less(origin_group(rows@[i]@), groups@[gi as int]@));
                            crate::name_map::lemma_lex_irreflexive(gv);
                        } else {
                            assert(metrics@[i - start]@ == m);
                            assert(metrics_map@.dom().contains(m));
                        }
                        assert(groups@[gi as int]@ == g2);
                    }
                } else {
                    if exists|a: int| 0 <= a < gi + 1 && #[trigger] groups@[a]@ == g2 {
                        let a = choose|a: int| 0 <= a < gi + 1 && #[trigger] groups@[a]@ == g2;
                        assert(a != gi);
                    }
                }
            }
        }
        gi = gi + 1;
    }
    proof {
        let r = plan_views(rows@);
        assert forall|g2: Seq<char>, m: Seq<char>|
            #[trigger] last_group_value(ms@, g2, m) is Some <==> exists|i: int|
                0 <= i < r.len() && origin_group(#[trigger] r[i]) == g2 && origin_metric(r[i]) == m by {
            if last_group_value(ms@, g2, m) is Some {
                lemma_last_group_value_present(ms@, g2, m);
                assert(grouped@.dom().contains(g2));
                let a = choose|a: int| 0 <= a < groups@.len() && #[trigger] groups@[a]@ == g2;
                assert(groups@[a]@ == g2);
                let i = choose|i: int|
                    0 <= i < rows@.len() && origin_group(#[trigger] rows@[i]@) == g2
                        && origin_metric(rows@[i]@) == m;
                assert(r[i] == rows@[i]@);
            }
            if exists|i: int| 0 <= i < r.len() && origin_group(#[trigger] r[i]) == g2 && origin_metric(r[i]) == m {
                let i = choose|i: int| 0 <= i < r.len() && origin_group(#[trigger] r[i]) == g2 && origin_metric(r[i]) == m;
                assert(r[i] == rows@[i]@);
                assert(origin_group(rows@[i]@) == g2);
            }
        }
        assert forall|i: int, j: int| 0 <= i < j < r.len() implies pair_less(
            origin_group(#[trigger] r[i]),
            origin_metric(r[i]),
            origin_group(#[trigger] r[j]),
            origin_metric(r[j]),
        ) by {
            assert(r[i] == rows@[i]@ && r[j] == rows@[j]@);
        }
        assert forall|i: int| 0 <= i < r.len() implies #[trigger] r[i] == function_row(
            ms@,
            origin_group(r[i]),
            origin_metric(r[i]),
        ) by {
            assert(r[i] == rows@[i]@);
        }
    }
    rows
}

// ---------------------------------------------------------------------------
// Debug rendering of names
// ---------------------------------------------------------------------------

/// The `Debug` rendering of a string: quoted, with escapes.
pub uninterp spec fn str_debug(text: Seq<char>) -> Seq<char>;

/// `text` holds only printable ASCII characters other than `"` and `\\`,
/// none of which `Debug` escapes.
pub open spec fn debug_plain(text: Seq<char>) -> bool {
    forall|i: int|
        0 <= i < text.len() ==> ' ' <= #[trigger] text[i] <= '~' && text[i] != '"' && text[i]
            != '\\'
}

/// `<str as Debug>::fmt` through `format!("{:?}", ..)`; its result is
/// the named [`str_debug`] of the text.  A text that needs no escape is
/// rendered as itself between double quotes.
#[verifier::external_body]
fn debug_str(text: &str) -> (r: String)
    ensures
        r@ == str_debug(text@),
        debug_plain(text@) ==> r@ == seq!['"'] + text@ + seq!['"'],
{
    format!("{:?}", text)
}

/// The items of a list rendered with `Debug` and separated by `, `.
pub open spec fn debug_items(items: Seq<Seq<char>>) -> Seq<char>
    decreases items.len(),
{
    if items.len() == 0 {
        Seq::empty()
    } else if items.len() == 1 {
        str_debug(items[0])
    } else {
        debug_items(items.drop_last()) + ", "@ + str_debug(items.last())
    }
}

/// The `Debug` rendering of a list of strings.
pub open spec fn debug_list(items: Seq<Seq<char>>) -> Seq<char> {
    "["@ + debug_items(items) + "]"@
}

fn push_debug_list(out: &mut String, items: &Vec<String>)
    ensures
        final(out)@ == old(out)@ + debug_list(items@.map_values(|s: String| s@)),
{
    let ghost views = items@.map_values(|s: String| s@);
    out.append("[");
    let ghost start = out@;
    let mut i: usize = 0;
    while i < items.len()
        invariant
            i <= items@.len(),
            views == items@.map_values(|s: String| s@),
            out@ == start + debug_items(views.take(i as int)),
        decreases items.len() - i,
    {
        if i > 0 {
            out.append(", ");
        }
        let d = debug_str(items[i].as_str());
        out.append(d.as_str());
        proof {
            assert(views.take(i + 1).drop_last() =~= views.take(i as int));
            assert(views.take(i + 1).last() == items@[i as int]@);
            if i == 0 {
                assert(views.take(1)[0] == items@[0]@);
            }
        }
        i = i + 1;
    }
    out.append("]");
    proof {
        assert(views.take(i as int) =~= views);
    }
}

// ---------------------------------------------------------------------------
// Scenario limits
// ---------------------------------------------------------------------------

/// The metric labels a scenario has limits for, in order.
pub open spec fn scenario_label(i: int) -> Seq<char> {
    if i == 0 {
        "CPU Instructions"@
    } else if i == 1 {
        "Memory Bytes"@
    } else if i == 2 {
        "Read Bytes"@
    } else {
        "Write Bytes"@
    }
}

/// The margin component of the `i`-th scenario label.
pub open spec fn scenario_slot(i: int) -> MarginSlot {
    if i == 0 {
        MarginSlot::Cpu
    } else if i == 1 {
        MarginSlot::Memory
    } else if i == 2 {
        MarginSlot::Read
    } else {
        MarginSlot::Write
    }
}

fn scenario_label_str(i: usize) -> (r: (&'static str, MarginSlot))
    requires
        i < 4,
    ensures
        r.0@ == scenario_label(i as int),
        r.1 == scenario_slot(i as int),
{
    if i == 0 {
        ("CPU Instructions", MarginSlot::Cpu)
    } else if i == 1 {
        ("Memory Bytes", MarginSlot::Memory)
    } else if i == 2 {
        ("Read Bytes", MarginSlot::Read)
    } else {
        ("Write Bytes", MarginSlot::Write)
    }
}

/// `a + b`, or `u64::MAX` when that overflows.
pub open spec fn saturating_sum(a: u64, b: u64) -> u64 {
    if a + b > u64::MAX {
        u64::MAX
    } else {
        (a + b) as u64
    }
}

/// The components that have no value for `label` under package `package`.
pub open spec fn missing_components(
    ms: Seq<TierBMeasurement>,
    package: Seq<char>,
    comps: Seq<Seq<char>>,
    label: Seq<char>,
) -> Seq<Seq<char>>
    decreases comps.len(),
{
    if comps.len() == 0 {
        Seq::empty()
    } else {
        let prev = missing_components(ms, package, comps.drop_last(), label);
        if last_record_value(ms, package, comps.last(), label) is None {
            prev.push(comps.last())
        } else {
            prev
        }
    }
}

/// The saturating sum of the components' values for `label`.
pub open spec fn component_total(
    ms: Seq<TierBMeasurement>,
    package: Seq<char>,
    comps: Seq<Seq<char>>,
    label: Seq<char>,
) -> u64
    decreases comps.len(),
{
    if comps.len() == 0 {
        0
    } else {
        saturating_sum(
            component_total(ms, package, comps.drop_last(), label),
            or_zero(last_record_value(ms, package, comps.last(), label)),
        )
    }
}

/// The message for scenario components without a value.
pub open spec fn scenario_missing_message(
    scenario: Seq<char>,
    package: Seq<char>,
    missing: Seq<Seq<char>>,
    label: Seq<char>,
) -> Seq<char> {
    "scenario "@ + scenario + " includes component(s) "@ + debug_list(missing) + " for metric \""@
        + label + "\" but the Tier B report has no value for "@ + package + "::"@ + debug_list(
        missing,
    ) + " [\""@ + label + "\"]; run `cargo budget-report` to refresh the report"@
}

/// The limits of the first `n` scenario labels of the scenario `index`
/// named `scenario` with components `comps`: for each label, an error when
/// some component has no value; no limit when the total is `0`; else one
/// limit on the saturating total.
pub open spec fn labels_plan(
    ms: Seq<TierBMeasurement>,
    index: nat,
    scenario: Seq<char>,
    comps: Seq<Seq<char>>,
    n: nat,
) -> Result<Seq<PlannedLimitView>, Seq<char>>
    decreases n,
{
    if n == 0 {
        Ok(Seq::empty())
    } else {
        match labels_plan(ms, index, scenario, comps, (n - 1) as nat) {
            Err(e) => Err(e),
            Ok(prev) => {
                let label = scenario_label(n - 1);
                let parts = split_key(scenario);
                let missing = missing_components(ms, parts.0, comps, label);
                let total = component_total(ms, parts.0, comps, label);
                if missing.len() > 0 {
                    Err(scenario_missing_message(scenario, parts.0, missing, label))
                } else if total == 0 {
                    Ok(prev)
                } else {
                    Ok(
                        prev.push(
                            PlannedLimitView {
                                key: scenario_key(parts.0, parts.1, label),
                                slot: scenario_slot(n - 1),
                                tier_b_value: total,
                                base_value: total,
                                origin: OriginView::Scenario { index, metric: label },
                            },
                        ),
                    )
                }
            },
        }
    }
}

/// The views of a list of names.
pub open spec fn name_views(v: Seq<String>) -> Seq<Seq<char>> {
    v.map_values(|s: String| s@)
}

/// The limits of all scenarios, in order (a scenario without components
/// has none), or the first error.
pub open spec fn scenario_plan(ms: Seq<TierBMeasurement>, scs: Seq<(String, Vec<String>)>) -> Result<
    Seq<PlannedLimitView>,
    Seq<char>,
>
    decreases scs.len(),
{
    if scs.len() == 0 {
        Ok(Seq::empty())
    } else {
        match scenario_plan(ms, scs.drop_last()) {
            Err(e) => Err(e),
            Ok(prev) => if scs.last().1@.len() == 0 {
                Ok(prev)
            } else {
                match labels_plan(
                    ms,
                    (scs.len() - 1) as nat,
                    scs.last().0@,
                    name_views(scs.last().1@),
                    4,
                ) {
                    Err(e) => Err(e),
                    Ok(rows) => Ok(prev + rows),
                }
            },
        }
    }
}

/// The components without a value and the saturating total for one label.
fn tally_components(
    ms: &[TierBMeasurement],
    package: &str,
    comps: &Vec<String>,
    label: &str,
) -> (r: (Vec<String>, u64))
    ensures
        name_views(r.0@) == missing_components(ms@, package@, name_views(comps@), label@),
        r.1 == component_total(ms@, package@, name_views(comps@), label@),
{
    let ghost cv = name_views(comps@);
    let mut missing: Vec<String> = Vec::new();
    let mut total: u64 = 0;
    let mut i: usize = 0;
    while i < comps.len()
        invariant
            i <= comps@.len(),
            cv == name_views(comps@),
            name_views(missing@) == missing_components(ms@, package@, cv.take(i as int), label@),
            total == component_total(ms@, package@, cv.take(i as int), label@),
        decreases comps.len() - i,
    {
        proof {
            assert(cv.take(i + 1).drop_last() =~= cv.take(i as int));
            assert(cv.take(i + 1).last() == comps@[i as int]@);
        }
        match find_record_value(ms, package, comps[i].as_str(), label) {
            Some(v) => {
                total = total.saturating_add(v);
            },
            None => {
                let ghost before = missing@;
                missing.push(comps[i].clone());
                proof {
                    assert(name_views(missing@) =~= name_views(before).push(comps@[i as int]@));
                }
            },
        }
        i = i + 1;
    }
    proof {
        assert(cv.take(i as int) =~= cv);
    }
    (missing, total)
}

/// The limits of all scenarios, as [`scenario_plan`] describes.
fn scenario_rows(ms: &[TierBMeasurement], scenarios: &[(String, Vec<String>)]) -> (r: Result<
    Vec<PlannedLimit>,
    String,
>)
    ensures
        match scenario_plan(ms@, scenarios@) {
            Ok(v) => r matches Ok(rows) && plan_views(rows@) == v,
            Err(e) => r matches Err(x) && x@ == e,
        },
{
    let mut rows: Vec<PlannedLimit> = Vec::new();
    let mut si: usize = 0;
    proof {
        assert(scenarios@.take(0) =~= Seq::<(String, Vec<String>)>::empty());
        assert(plan_views(rows@) =~= Seq::<PlannedLimitView>::empty());
    }
    while si < scenarios.len()
        invariant
            si <= scenarios@.len(),
            scenario_plan(ms@, scenarios@.take(si as int)) == Ok::<Seq<PlannedLimitView>, Seq<char>>(
                plan_views(rows@),
            ),
        decreases scenarios.len() - si,
    {
        let full = &scenarios[si].0;
        let comps = &scenarios[si].1;
        let ghost prefix = scenarios@.take(si + 1);
        proof {
            assert(prefix.drop_last() =~= scenarios@.take(si as int));
            assert(prefix.last() == scenarios@[si as int]);
        }
        if comps.len() > 0 {
            let parts = split_at_separator(full.as_str());
            let ghost start = plan_views(rows@);
            let ghost cv = name_views(comps@);
            let mut li: usize = 0;
            while li < 4
                invariant
                    li <= 4,
                    si < scenarios@.len(),
                    prefix == scenarios@.take(si + 1),
                    prefix.drop_last() == scenarios@.take(si as int),
                    prefix.last() == scenarios@[si as int],
                    *full == scenarios@[si as int].0,
                    *comps == scenarios@[si as int].1,
                    scenario_plan(ms@, scenarios@.take(si as int)) == Ok::<Seq<PlannedLimitView>, Seq<char>>(start),
                    comps@.len() > 0,
                    parts.0@ == split_key(full@).0,
                    parts.1@ == split_key(full@).1,
                    cv == name_views(comps@),
                    labels_plan(ms@, si as nat, full@, cv, li as nat) is Ok,
                    plan_views(rows@) == start + labels_plan(ms@, si as nat, full@, cv, li as nat)->Ok_0,
                decreases 4 - li,
            {
                let (label, slot) = scenario_label_str(li);
                let (missing, total) = tally_components(ms, parts.0.as_str(), comps, label);
                if missing.len() > 0 {
                    let mut m = String::new();
                    m.append("scenario ");
                    m.append(full.as_str());
                    m.append(" includes component(s) ");
                    push_debug_list(&mut m, &missing);
                    m.append(" for metric \"");
                    m.append(label);
                    m.append("\" but the Tier B report has no value for ");
                    m.append(parts.0.as_str());
                    m.append("::");
                    push_debug_list(&mut m, &missing);
                    m.append(" [\"");
                    m.append(label);
                    m.append("\"]; run `cargo budget-report` to refresh the report");
                    proof {
                        assert(m@ =~= scenario_missing_message(full@, parts.0@, name_views(missing@), label@));
                        assert(labels_plan(ms@, si as nat, full@, cv, (li + 1) as nat)
                            == Err::<Seq<PlannedLimitView>, Seq<char>>(m@));
                        lemma_labels_plan_error_stays(ms@, si as nat, full@, cv, (li + 1) as nat, 4);
                        assert(prefix.last().1@.len() != 0);
                        assert(scenario_plan(ms@, prefix) == Err::<Seq<PlannedLimitView>, Seq<char>>(m@));
                        lemma_scenario_plan_error_stays(ms@, scenarios@, si + 1);
                    }
                    return Err(m);
                }
                if total != 0 {
                    let key = env_var_scenario_key(parts.0.as_str(), parts.1.as_str(), label);
                    let row = PlannedLimit {
                        key,
                        slot,
                        tier_b_value: total,
                        base_value: total,
                        origin: LimitOrigin::Scenario { index: si, metric: label },
                    };
                    let ghost before = plan_views(rows@);
                    rows.push(row);
                    proof {
                        assert(plan_views(rows@) =~= before.push(row@));
                    }
                }
                proof {
                    let p = labels_plan(ms@, si as nat, full@, cv, li as nat)->Ok_0;
                    if total != 0 {
                        assert(plan_views(rows@) =~= start + p.push(
                            labels_plan(ms@, si as nat, full@, cv, (li + 1) as nat)->Ok_0.last(),
                        ));
                    }
                }
                li = li + 1;
            }
        }
        si = si + 1;
    }
    proof {
        assert(scenarios@.take(si as int) =~= scenarios@);
    }
    Ok(rows)
}

proof fn lemma_labels_plan_error_stays(
    ms: Seq<TierBMeasurement>,
    index: nat,
    scenario: Seq<char>,
    comps: Seq<Seq<char>>,
    n: nat,
    m: nat,
)
    requires
        labels_plan(ms, index, scenario, comps, n) is Err,
        n <= m,
    ensures
        labels_plan(ms, index, scenario, comps, m) == labels_plan(ms, index, scenario, comps, n),
    decreases m - n,
{
    if n < m {
        lemma_labels_plan_error_stays(ms, index, scenario, comps, n, (m - 1) as nat);
    }
}

proof fn lemma_scenario_plan_error_stays(
    ms: Seq<TierBMeasurement>,
    scs: Seq<(String, Vec<String>)>,
    k: int,
)
    requires
        0 <= k <= scs.len(),
        scenario_plan(ms, scs.take(k)) is Err,
    ensures
        scenario_plan(ms, scs) == scenario_plan(ms, scs.take(k)),
    decreases scs.len(),
{
    if k == scs.len() {
        assert(scs.take(k) =~= scs);
    } else {
        assert(scs.drop_last().take(k) =~= scs.take(k));
        lemma_scenario_plan_error_stays(ms, scs.drop_last(), k);
    }
}

/// One of the four metrics a scenario gets limits for.
pub open spec fn is_scenario_metric(label: Seq<char>) -> bool {
    label == "CPU Instructions"@ || label == "Memory Bytes"@ || label == "Read Bytes"@ || label
        == "Write Bytes"@
}

/// `row` is the limit of the scenario at `index` (named `scenario`, with
/// components `comps`) for `label`: keyed by the scenario's package and
/// name and the label, with the label's own margin component, on the
/// saturating sum of the components' values for the label.
pub open spec fn is_scenario_row(
    row: PlannedLimitView,
    ms: Seq<TierBMeasurement>,
    index: nat,
    scenario: Seq<char>,
    comps: Seq<Seq<char>>,
    label: Seq<char>,
) -> bool {
    &&& row.key == scenario_key(split_key(scenario).0, split_key(scenario).1, label)
    &&& margin_slot_of(label) == Some(row.slot)
    &&& row.tier_b_value == component_total(ms, split_key(scenario).0, comps, label)
    &&& row.base_value == row.tier_b_value
    &&& row.origin == (OriginView::Scenario { index, metric: label })
}

proof fn lemma_scenario_label(k: int)
    requires
        0 <= k < 4,
    ensures
        is_scenario_metric(scenario_label(k)),
        margin_slot_of(scenario_label(k)) == Some(scenario_slot(k)),
{
    reveal_strlit("CPU Instructions");
    reveal_strlit("Memory Bytes");
    reveal_strlit("Memory bytes");
    reveal_strlit("memory_bytes");
    reveal_strlit("Read Bytes");
    reveal_strlit("Write Bytes");
    assert("Memory Bytes"@[0] != "CPU Instructions"@[0]);
    assert("Read Bytes"@[0] != "CPU Instructions"@[0]);
    assert("Read Bytes"@[0] != "Memory Bytes"@[0]);
    assert("Read Bytes"@[0] != "Memory bytes"@[0]);
    assert("Read Bytes"@[0] != "memory_bytes"@[0]);
    assert("Write Bytes"@[0] != "CPU Instructions"@[0]);
    assert("Write Bytes"@[0] != "Memory Bytes"@[0]);
    assert("Write Bytes"@[0] != "Memory bytes"@[0]);
    assert("Write Bytes"@[0] != "memory_bytes"@[0]);
    assert("Write Bytes"@[0] != "Read Bytes"@[0]);
}

proof fn lemma_scenario_metric_index(label: Seq<char>) -> (k: int)
    requires
        is_scenario_metric(label),
    ensures
        0 <= k < 4,
        scenario_label(k) == label,
{
    if label == "CPU Instructions"@ {
        0
    } else if label == "Memory Bytes"@ {
        1
    } else if label == "Read Bytes"@ {
        2
    } else {
        3
    }
}

proof fn lemma_labels_plan_rows(
    ms: Seq<TierBMeasurement>,
    index: nat,
    scenario: Seq<char>,
    comps: Seq<Seq<char>>,
    n: nat,
)
    requires
        n <= 4,
        labels_plan(ms, index, scenario, comps, n) is Ok,
    ensures
        forall|k: int|
            0 <= k < n && component_total(ms, split_key(scenario).0, comps, #[trigger] scenario_label(k))
                != 0 ==> exists|j: int|
                0 <= j < labels_plan(ms, index, scenario, comps, n)->Ok_0.len() && is_scenario_row(
                    #[trigger] labels_plan(ms, index, scenario, comps, n)->Ok_0[j],
                    ms,
                    index,
                    scenario,
                    comps,
                    scenario_label(k),
                ),
        forall|j: int|
            0 <= j < labels_plan(ms, index, scenario, comps, n)->Ok_0.len() ==> exists|k: int|
                0 <= k < n && component_total(ms, split_key(scenario).0, comps, scenario_label(k))
                    != 0 && is_scenario_row(
                    #[trigger] labels_plan(ms, index, scenario, comps, n)->Ok_0[j],
                    ms,
                    index,
                    scenario,
                    comps,
                    #[trigger] scenario_label(k),
                ),
    decreases n,
{
    if n > 0 {
        let m = (n - 1) as nat;
        lemma_labels_plan_rows(ms, index, scenario, comps, m);
        lemma_scenario_label(m as int);
        let prev = labels_plan(ms, index, scenario, comps, m)->Ok_0;
        let rows = labels_plan(ms, index, scenario, comps, n)->Ok_0;
        let total = component_total(ms, split_key(scenario).0, comps, scenario_label(m as int));
        assert(rows.len() >= prev.len());
        assert forall|j: int| 0 <= j < prev.len() implies rows[j] == prev[j] by {}
        assert forall|k: int|
            0 <= k < n && component_total(ms, split_key(scenario).0, comps, #[trigger] scenario_label(k))
                != 0 implies exists|j: int|
                0 <= j < rows.len() && is_scenario_row(
                    #[trigger] rows[j],
                    ms,
                    index,
                    scenario,
                    comps,
                    scenario_label(k),
                ) by {
            if k < m {
                let j = choose|j: int|
                    0 <= j < prev.len() && is_scenario_row(
                        #[trigger] prev[j],
                        ms,
                        index,
                        scenario,
                        comps,
                        scenario_label(k),
                    );
                assert(rows[j] == prev[j]);
            } else {
                assert(rows == prev.push(rows.last()));
                assert(is_scenario_row(rows[rows.len() - 1], ms, index, scenario, comps, scenario_label(k)));
            }
        }
        assert forall|j: int| 0 <= j < rows.len() implies exists|k: int|
            0 <= k < n && component_total(ms, split_key(scenario).0, comps, scenario_label(k)) != 0
                && is_scenario_row(
                #[trigger] rows[j],
                ms,
                index,
                scenario,
                comps,
                #[trigger] scenario_label(k),
            ) by {
            if j < prev.len() {
                assert(rows[j] == prev[j]);
                let k = choose|k: int|
                    0 <= k < m && component_total(ms, split_key(scenario).0, comps, scenario_label(k))
                        != 0 && is_scenario_row(
                        #[trigger] prev[j],
                        ms,
                        index,
                        scenario,
                        comps,
                        #[trigger] scenario_label(k),
                    );
                assert(is_scenario_row(rows[j], ms, index, scenario, comps, scenario_label(k)));
            } else {
                assert(total != 0);
                assert(is_scenario_row(rows[j], ms, index, scenario, comps, scenario_label(m as int)));
            }
        }
    }
}

/// `row` is the limit of some scenario with components for one of the four
/// scenario metrics whose components sum to a nonzero value.
pub open spec fn planned_for_scenario(
    ms: Seq<TierBMeasurement>,
    scs: Seq<(String, Vec<String>)>,
    row: PlannedLimitView,
) -> bool {
    exists|i: int, label: Seq<char>|
        0 <= i < scs.len() && scs[i].1@.len() > 0 && is_scenario_metric(label) && component_total(
            ms,
            split_key(scs[i].0@).0,
            name_views(scs[i].1@),
            label,
        ) != 0 && #[trigger] is_scenario_row(
            row,
            ms,
            i as nat,
            scs[i].0@,
            name_views(scs[i].1@),
            label,
        )
}

/// The scenario limits hold, for every scenario with components and every
/// one of the four scenario metrics whose components sum to a nonzero
/// value, a limit keyed by the scenario and metric on that sum, with the
/// metric's own margin component; and they hold no other limit.
pub proof fn law_scenario_plan_rows(ms: Seq<TierBMeasurement>, scs: Seq<(String, Vec<String>)>)
    requires
        scenario_plan(ms, scs) is Ok,
    ensures
        forall|i: int, label: Seq<char>|
            0 <= i < scs.len() && scs[i].1@.len() > 0 && is_scenario_metric(label) && component_total(
                ms,
                split_key(scs[i].0@).0,
                name_views(scs[i].1@),
                label,
            ) != 0 ==> exists|j: int|
                0 <= j < scenario_plan(ms, scs)->Ok_0.len() && #[trigger] is_scenario_row(
                    scenario_plan(ms, scs)->Ok_0[j],
                    ms,
                    i as nat,
                    scs[i].0@,
                    name_views(scs[i].1@),
                    label,
                ),
        forall|j: int|
            0 <= j < scenario_plan(ms, scs)->Ok_0.len() ==> #[trigger] planned_for_scenario(
                ms,
                scs,
                scenario_plan(ms, scs)->Ok_0[j],
            ),
    decreases scs.len(),
{
    if scs.len() > 0 {
        let init = scs.drop_last();
        let last = (scs.len() - 1) as int;
        assert(scenario_plan(ms, init) is Ok);
        law_scenario_plan_rows(ms, init);
        let prev = scenario_plan(ms, init)->Ok_0;
        let sv = scenario_plan(ms, scs)->Ok_0;
        let comps = name_views(scs[last].1@);
        assert(scs.last() == scs[last]);
        if scs[last].1@.len() > 0 {
            lemma_labels_plan_rows(ms, last as nat, scs[last].0@, comps, 4);
        }
        let own = if scs[last].1@.len() > 0 {
            labels_plan(ms, last as nat, scs[last].0@, comps, 4)->Ok_0
        } else {
            Seq::<PlannedLimitView>::empty()
        };
        assert(sv =~= prev + own);
        assert forall|i: int, label: Seq<char>|
            0 <= i < scs.len() && scs[i].1@.len() > 0 && is_scenario_metric(label) && component_total(
                ms,
                split_key(scs[i].0@).0,
                name_views(scs[i].1@),
                label,
            ) != 0 implies exists|j: int|
                0 <= j < sv.len() && #[trigger] is_scenario_row(
                    sv[j],
                    ms,
                    i as nat,
                    scs[i].0@,
                    name_views(scs[i].1@),
                    label,
                ) by {
            if i < last {
                assert(init[i] == scs[i]);
                let j = choose|j: int|
                    0 <= j < prev.len() && #[trigger] is_scenario_row(
                        prev[j],
                        ms,
                        i as nat,
                        init[i].0@,
                        name_views(init[i].1@),
                        label,
                    );
                assert(sv[j] == prev[j]);
            } else {
                let k = lemma_scenario_metric_index(label);
                let j = choose|j: int|
                    0 <= j < own.len() && is_scenario_row(
                        #[trigger] own[j],
                        ms,
                        last as nat,
                        scs[last].0@,
                        comps,
                        scenario_label(k),
                    );
                assert(sv[prev.len() + j] == own[j]);
            }
        }
        assert forall|j: int| 0 <= j < sv.len() implies #[trigger] planned_for_scenario(
            ms,
            scs,
            sv[j],
        ) by {
            if j < prev.len() {
                assert(sv[j] == prev[j]);
                assert(planned_for_scenario(ms, init, prev[j]));
                let (i, label) = choose|i: int, label: Seq<char>|
                    0 <= i < init.len() && init[i].1@.len() > 0 && is_scenario_metric(label)
                        && component_total(ms, split_key(init[i].0@).0, name_views(init[i].1@), label)
                        != 0 && #[trigger] is_scenario_row(
                        prev[j],
                        ms,
                        i as nat,
                        init[i].0@,
                        name_views(init[i].1@),
                        label,
                    );
                assert(init[i] == scs[i]);
                assert(is_scenario_row(sv[j], ms, i as nat, scs[i].0@, name_views(scs[i].1@), label));
            } else {
                let jj = j - prev.len();
                assert(sv[j] == own[jj]);
                let k = choose|k: int|
                    0 <= k < 4 && component_total(ms, split_key(scs[last].0@).0, comps, scenario_label(k))
                        != 0 && is_scenario_row(
                        #[trigger] own[jj],
                        ms,
                        last as nat,
                        scs[last].0@,
                        comps,
                        #[trigger] scenario_label(k),
                    );
                lemma_scenario_label(k);
                assert(scs[last].1@.len() > 0);
                assert(is_scenario_row(
                    sv[j],
                    ms,
                    last as nat,
                    scs[last].0@,
                    name_views(scs[last].1@),
                    scenario_label(k),
                ));
            }
        }
    }
}

// ---------------------------------------------------------------------------
// Ordering by key
// ---------------------------------------------------------------------------

/// `x` placed into `sorted` right after the last element whose key does not
/// sort after `x`'s key.
pub open spec fn insert_by_key(sorted: Seq<PlannedLimitView>, x: PlannedLimitView) -> Seq<PlannedLimitView>
    decreases sorted.len(),
{
    if sorted.len() == 0 {
        seq![x]
    } else if lex_less(x.key, sorted.last().key) {
        insert_by_key(sorted.drop_last(), x).push(sorted.last())
    } else {
        sorted.push(x)
    }
}

/// `s` stably sorted by key: each element inserted in turn after the
/// elements whose keys do not sort after its own.
pub open spec fn sort_by_key(s: Seq<PlannedLimitView>) -> Seq<PlannedLimitView>
    decreases s.len(),
{
    if s.len() == 0 {
        Seq::empty()
    } else {
        insert_by_key(sort_by_key(s.drop_last()), s.last())
    }
}

proof fn lemma_insert_by_key_at(sorted: Seq<PlannedLimitView>, x: PlannedLimitView, p: int)
    requires
        0 <= p <= sorted.len(),
        forall|j: int| p <= j < sorted.len() ==> lex_less(x.key, #[trigger] sorted[j].key),
        p > 0 ==> !lex_less(x.key, sorted[p - 1].key),
    ensures
        insert_by_key(sorted, x) == sorted.insert(p, x),
    decreases sorted.len(),
{
    if sorted.len() == 0 {
        assert(sorted.insert(p, x) =~= seq![x]);
    } else if p == sorted.len() {
        assert(sorted.insert(p, x) =~= sorted.push(x));
    } else {
        assert(lex_less(x.key, sorted[sorted.len() - 1].key));
        lemma_insert_by_key_at(sorted.drop_last(), x, p);
        assert(sorted.drop_last().insert(p, x).push(sorted.last()) =~= sorted.insert(p, x));
    }
}

/// No key of `s` sorts before an earlier one.
pub open spec fn keys_ascend(s: Seq<PlannedLimitView>) -> bool {
    forall|i: int, j: int| 0 <= i < j < s.len() ==> !lex_less(#[trigger] s[j].key, #[trigger] s[i].key)
}

proof fn lemma_insert_by_key_position(sorted: Seq<PlannedLimitView>, x: PlannedLimitView) -> (p: int)
    ensures
        0 <= p <= sorted.len(),
        forall|j: int| p <= j < sorted.len() ==> lex_less(x.key, #[trigger] sorted[j].key),
        p > 0 ==> !lex_less(x.key, sorted[p - 1].key),
        insert_by_key(sorted, x) == sorted.insert(p, x),
    decreases sorted.len(),
{
    if sorted.len() == 0 {
        lemma_insert_by_key_at(sorted, x, 0);
        0
    } else if lex_less(x.key, sorted.last().key) {
        let q = lemma_insert_by_key_position(sorted.drop_last(), x);
        assert forall|j: int| q <= j < sorted.len() implies lex_less(x.key, #[trigger] sorted[j].key) by {
            if j < sorted.len() - 1 {
                assert(sorted[j] == sorted.drop_last()[j]);
            }
        }
        if q > 0 {
            assert(sorted[q - 1] == sorted.drop_last()[q - 1]);
        }
        lemma_insert_by_key_at(sorted, x, q);
        q
    } else {
        let p = sorted.len() as int;
        lemma_insert_by_key_at(sorted, x, p);
        p
    }
}

proof fn lemma_insert_keeps_keys_ascending(sorted: Seq<PlannedLimitView>, x: PlannedLimitView)
    requires
        keys_ascend(sorted),
    ensures
        keys_ascend(insert_by_key(sorted, x)),
        insert_by_key(sorted, x).len() == sorted.len() + 1,
{
    let p = lemma_insert_by_key_position(sorted, x);
    let r = sorted.insert(p, x);
    assert forall|i: int, j: int| 0 <= i < j < r.len() implies !lex_less(#[trigger] r[j].key, #[trigger] r[i].key) by {
        if j < p {
            assert(r[i] == sorted[i] && r[j] == sorted[j]);
        } else if i > p {
            assert(r[i] == sorted[i - 1] && r[j] == sorted[j - 1]);
        } else if i == p {
            assert(r[j] == sorted[j - 1]);
            assert(lex_less(x.key, sorted[j - 1].key));
            if lex_less(sorted[j - 1].key, x.key) {
                crate::name_map::lemma_lex_transitive(x.key, sorted[j - 1].key, x.key);
                crate::name_map::lemma_lex_irreflexive(x.key);
            }
        } else if j == p {
            assert(r[i] == sorted[i]);
            let last = sorted[p - 1].key;
            if lex_less(x.key, sorted[i].key) {
                if sorted[i].key != last {
                    crate::name_map::lemma_lex_total(sorted[i].key, last);
                    if i < p - 1 {
                        assert(!lex_less(sorted[p - 1].key, sorted[i].key));
                    }
                    crate::name_map::lemma_lex_transitive(x.key, sorted[i].key, last);
                }
            }
        } else {
            assert(r[i] == sorted[i] && r[j] == sorted[j - 1]);
            if i < j - 1 {
                assert(!lex_less(sorted[j - 1].key, sorted[i].key));
            } else {
                crate::name_map::lemma_lex_irreflexive(sorted[i].key);
            }
        }
    }
}

/// Sorting by key yields keys in ascending order and keeps every row: the
/// planned limits are written in key order.
pub proof fn law_sorted_by_key(s: Seq<PlannedLimitView>)
    ensures
        keys_ascend(sort_by_key(s)),
        sort_by_key(s).len() == s.len(),
    decreases s.len(),
{
    if s.len() > 0 {
        law_sorted_by_key(s.drop_last());
        lemma_insert_keeps_keys_ascending(sort_by_key(s.drop_last()), s.last());
    }
}

/// Sorting by key neither loses nor invents a row: every row of `s` is in
/// `sort_by_key(s)` and every row of `sort_by_key(s)` is in `s`.
pub proof fn law_sort_keeps_rows(s: Seq<PlannedLimitView>)
    ensures
        forall|i: int| 0 <= i < s.len() ==> sort_by_key(s).contains(#[trigger] s[i]),
        forall|j: int| 0 <= j < sort_by_key(s).len() ==> s.contains(#[trigger] sort_by_key(s)[j]),
    decreases s.len(),
{
    if s.len() > 0 {
        let init = s.drop_last();
        law_sort_keeps_rows(init);
        let sorted = sort_by_key(init);
        let p = lemma_insert_by_key_position(sorted, s.last());
        let r = sort_by_key(s);
        assert(r == sorted.insert(p, s.last()));
        assert forall|i: int| 0 <= i < s.len() implies r.contains(#[trigger] s[i]) by {
            if i == s.len() - 1 {
                assert(r[p] == s[i]);
            } else {
                assert(s[i] == init[i]);
                assert(sorted.contains(init[i]));
                let q = choose|q: int| 0 <= q < sorted.len() && sorted[q] == init[i];
                if q < p {
                    assert(r[q] == sorted[q]);
                } else {
                    assert(r[q + 1] == sorted[q]);
                }
            }
        }
        assert forall|j: int| 0 <= j < r.len() implies s.contains(#[trigger] r[j]) by {
            if j == p {
                assert(s[s.len() - 1] == r[j]);
            } else {
                let q = if j < p { j } else { j - 1 };
                assert(r[j] == sorted[q]);
                assert(init.contains(sorted[q]));
                let t = choose|t: int| 0 <= t < init.len() && init[t] == sorted[q];
                assert(s[t] == init[t]);
            }
        }
    }
}

/// In a plan built from records that all have a margin component: every
/// row applies the margin component of its own metric, and for every
/// scenario with components and every one of the four scenario metrics
/// whose components sum to a nonzero value there is a row keyed by the
/// scenario and metric on that sum.
pub proof fn law_plan_rows(
    ms: Seq<TierBMeasurement>,
    scs: Seq<(String, Vec<String>)>,
    fv: Seq<PlannedLimitView>,
    rows: Seq<PlannedLimitView>,
)
    requires
        forall|j: int| 0 <= j < ms.len() ==> #[trigger] margin_slot_of(ms[j].metric@) is Some,
        scenario_plan(ms, scs) is Ok,
        is_function_plan(ms, fv),
        rows == sort_by_key(fv + scenario_plan(ms, scs)->Ok_0),
    ensures
        forall|j: int|
            0 <= j < rows.len() ==> margin_slot_of(origin_metric(#[trigger] rows[j])) == Some(
                rows[j].slot,
            ),
        forall|i: int, label: Seq<char>|
            0 <= i < scs.len() && scs[i].1@.len() > 0 && is_scenario_metric(label) && component_total(
                ms,
                split_key(scs[i].0@).0,
                name_views(scs[i].1@),
                label,
            ) != 0 ==> exists|j: int|
                0 <= j < rows.len() && #[trigger] is_scenario_row(
                    rows[j],
                    ms,
                    i as nat,
                    scs[i].0@,
                    name_views(scs[i].1@),
                    label,
                ),
{
    let sv = scenario_plan(ms, scs)->Ok_0;
    let all = fv + sv;
    law_scenario_plan_rows(ms, scs);
    law_sort_keeps_rows(all);
    assert forall|j: int| 0 <= j < rows.len() implies margin_slot_of(
        origin_metric(#[trigger] rows[j]),
    ) == Some(rows[j].slot) by {
        assert(all.contains(rows[j]));
        let t = choose|t: int| 0 <= t < all.len() && all[t] == rows[j];
        if t < fv.len() {
            let row = fv[t];
            assert(all[t] == row);
            let g = origin_group(row);
            let m = origin_metric(row);
            assert(row == function_row(ms, g, m));
            assert(last_group_value(ms, g, m) is Some);
            lemma_last_group_value_metric(ms, g, m);
            let w = choose|w: int| 0 <= w < ms.len() && #[trigger] ms[w].metric@ == m;
            assert(margin_slot_of(ms[w].metric@) is Some);
        } else {
            let row = sv[t - fv.len()];
            assert(all[t] == row);
            assert(planned_for_scenario(ms, scs, row));
            let (i, label) = choose|i: int, label: Seq<char>|
                0 <= i < scs.len() && scs[i].1@.len() > 0 && is_scenario_metric(label)
                    && component_total(ms, split_key(scs[i].0@).0, name_views(scs[i].1@), label)
                    != 0 && #[trigger] is_scenario_row(
                    row,
                    ms,
                    i as nat,
                    scs[i].0@,
                    name_views(scs[i].1@),
                    label,
                );
        }
    }
    assert forall|i: int, label: Seq<char>|
        0 <= i < scs.len() && scs[i].1@.len() > 0 && is_scenario_metric(label) && component_total(
            ms,
            split_key(scs[i].0@).0,
            name_views(scs[i].1@),
            label,
        ) != 0 implies exists|j: int|
            0 <= j < rows.len() && #[trigger] is_scenario_row(
                rows[j],
                ms,
                i as nat,
                scs[i].0@,
                name_views(scs[i].1@),
                label,
            ) by {
        let j = choose|j: int|
            0 <= j < sv.len() && #[trigger] is_scenario_row(
                sv[j],
                ms,
                i as nat,
                scs[i].0@,
                name_views(scs[i].1@),
                label,
            );
        assert(all[fv.len() + j] == sv[j]);
        assert(rows.contains(all[fv.len() + j]));
        let q = choose|q: int| 0 <= q < rows.len() && rows[q] == all[fv.len() + j];
        assert(is_scenario_row(rows[q], ms, i as nat, scs[i].0@, name_views(scs[i].1@), label));
    }
}

/// The rows stably sorted by key, as [`sort_by_key`] describes.
fn sort_rows_by_key(rows: Vec<PlannedLimit>) -> (r: Vec<PlannedLimit>)
    ensures
        plan_views(r@) == sort_by_key(plan_views(rows@)),
{
    let ghost input = plan_views(rows@);
    let mut rest = rows;
    let mut out: Vec<PlannedLimit> = Vec::new();
    let ghost mut done: int = 0;
    proof {
        assert(input.take(0) =~= Seq::<PlannedLimitView>::empty());
        assert(plan_views(out@) =~= Seq::<PlannedLimitView>::empty());
        assert(plan_views(rest@) =~= input.skip(0));
    }
    while rest.len() > 0
        invariant
            0 <= done <= input.len(),
            plan_views(rest@) == input.skip(done),
            plan_views(out@) == sort_by_key(input.take(done)),
        decreases rest.len(),
    {
        let ghost rv = plan_views(rest@);
        let ghost old_rest = rest@;
        let x = rest.remove(0);
        proof {
            assert(x == old_rest[0]);
            assert(rv.len() == old_rest.len());
            assert(input.skip(done).len() == input.len() - done);
            assert(done < input.len());
            assert(rv[0] == old_rest[0]@);
            assert(input.skip(done)[0] == input[done]);
            assert(plan_views(rest@) =~= rv.drop_first());
            assert(x@ == input[done]);
            assert(input.skip(done).drop_first() =~= input.skip(done + 1));
        }
        let xk = chars_of(x.key.as_str());
        let mut p: usize = out.len();
        while p > 0 && lex_less_exec(&xk, &chars_of(out[p - 1].key.as_str()))
            invariant
                p <= out@.len(),
                xk@ == x.key@,
                forall|j: int| p <= j < out@.len() ==> lex_less(x.key@, #[trigger] out@[j].key@),
            decreases p,
        {
            p = p - 1;
        }
        let ghost sorted = plan_views(out@);
        proof {
            assert forall|j: int| p <= j < sorted.len() implies lex_less(x@.key, #[trigger] sorted[j].key) by {
                assert(sorted[j] == out@[j]@);
            }
            if p > 0 {
                assert(sorted[p - 1] == out@[p - 1]@);
            }
            lemma_insert_by_key_at(sorted, x@, p as int);
            assert(input.take(done + 1).drop_last() =~= input.take(done));
            assert(input.take(done + 1).last() == x@);
        }
        out.insert(p, x);
        proof {
            assert(plan_views(out@) =~= sorted.insert(p as int, input[done]));
            done = done + 1;
        }
    }
    proof {
        assert(input.skip(done).len() == 0);
        assert(input.take(done) =~= input);
    }
    out
}

// ---------------------------------------------------------------------------
// The plan
// ---------------------------------------------------------------------------

/// The message for a record whose metric has no margin component.
pub open spec fn unknown_metric_message(metric: Seq<char>) -> Seq<char> {
    "Tier B metric "@ + str_debug(metric)
        + " has no configured margin; supply --margin-cpu / --margin-memory / --margin-read / --margin-write or the [margin.*] section in budget.toml"@
}

/// Plans the Tier A limits of a Tier B report: one limit per group key
/// (`package::function`) and metric, applied to the value of its last
/// record, and one per scenario and metric whose components' values sum to
/// more than zero; all stably sorted by key.  The first record whose metric
/// has no margin component, or else the first scenario metric with a
/// component that has no value, is an error.
pub fn plan_derivation(measurements: &[TierBMeasurement], scenarios: &[(String, Vec<String>)]) -> (r: Result<
    Vec<PlannedLimit>,
    String,
>)
    ensures
        forall|k: int|
            0 <= k < measurements@.len() && margin_slot_of(measurements@[k].metric@) is None && (
            forall|j: int|
                0 <= j < k ==> #[trigger] margin_slot_of(measurements@[j].metric@) is Some) ==> (
            r matches Err(x) && x@ == unknown_metric_message(measurements@[k].metric@)),
        (forall|j: int|
            0 <= j < measurements@.len() ==> #[trigger] margin_slot_of(measurements@[j].metric@)
                is Some) ==> match scenario_plan(measurements@, scenarios@) {
            Err(e) => r matches Err(x) && x@ == e,
            Ok(sv) => r matches Ok(rows) && exists|fv: Seq<PlannedLimitView>|
                is_function_plan(measurements@, fv) && plan_views(rows@) == sort_by_key(fv + sv),
        },
        r matches Ok(rows) ==> forall|j: int|
            0 <= j < rows@.len() ==> margin_slot_of(origin_metric(#[trigger] plan_views(rows@)[j]))
                == Some(plan_views(rows@)[j].slot),
        r matches Ok(rows) ==> forall|i: int, label: Seq<char>|
            0 <= i < scenarios@.len() && scenarios@[i].1@.len() > 0 && is_scenario_metric(label)
                && component_total(
                measurements@,
                split_key(scenarios@[i].0@).0,
                name_views(scenarios@[i].1@),
                label,
            ) != 0 ==> exists|j: int|
                0 <= j < rows@.len() && #[trigger] is_scenario_row(
                    plan_views(rows@)[j],
                    measurements@,
                    i as nat,
                    scenarios@[i].0@,
                    name_views(scenarios@[i].1@),
                    label,
                ),
{
    let grouped = match group_by_function(measurements) {
        Ok(g) => g,
        Err(k) => {
            let mut m = String::new();
            m.append("Tier B metric ");
            let d = debug_str(measurements[k].metric.as_str());
            m.append(d.as_str());
            m.append(
                " has no configured margin; supply --margin-cpu / --margin-memory / --margin-read / --margin-write or the [margin.*] section in budget.toml",
            );
            proof {
                assert forall|k2: int|
                    0 <= k2 < measurements@.len() && margin_slot_of(measurements@[k2].metric@) is None
                        && (forall|j: int|
                        0 <= j < k2 ==> #[trigger] margin_slot_of(measurements@[j].metric@) is Some)
                        implies k2 == k by {
                    if k2 < k {
                        assert(margin_slot_of(measurements@[k2].metric@) is Some);
                    } else if k2 > k {
                        assert(margin_slot_of(measurements@[k as int].metric@) is Some);
                    }
                }
            }
            return Err(m);
        },
    };
    let function_part = function_rows(measurements, &grouped);
    let scenario_part = match scenario_rows(measurements, scenarios) {
        Ok(rows) => rows,
        Err(e) => return Err(e),
    };
    let ghost fv = plan_views(function_part@);
    let ghost sv = plan_views(scenario_part@);
    let mut all = function_part;
    let mut tail = scenario_part;
    all.append(&mut tail);
    proof {
        assert(plan_views(all@) =~= fv + sv);
    }
    let sorted = sort_rows_by_key(all);
    proof {
        law_plan_rows(measurements@, scenarios@, fv, plan_views(sorted@));
    }
    Ok(sorted)
}

} // verus!
