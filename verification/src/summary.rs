//! Summaries of measurements: averages rendered for display, and the
//! largest value per package and function.

use vstd::prelude::*;
use crate::measure::{format_with_commas_and_units, formatted_metric};
use crate::name_map::NameMap;

verus! {

/// The sum of `s`.
pub open spec fn seq_sum(s: Seq<u64>) -> nat
    decreases s.len(),
{
    if s.len() == 0 {
        0
    } else {
        seq_sum(s.drop_last()) + s.last() as nat
    }
}

/// `total / count`, or `0` when `count` is `0`.
pub open spec fn average(total: nat, count: nat) -> nat {
    if count == 0 {
        0
    } else {
        total / count
    }
}

/// The summary line of one function.
pub open spec fn resource_summary(cpu_avg: u64, mem_avg: u64, wasm_bytes: u64) -> Seq<char> {
    "CPU: "@ + formatted_metric(cpu_avg, "CPU Instructions"@) + ", Memory: "@ + formatted_metric(
        mem_avg,
        "Memory Bytes"@,
    ) + ", WASM: "@ + formatted_metric(wasm_bytes, "WASM Bytes"@)
}

fn sum_of(values: &[u64]) -> (r: u64)
    requires
        seq_sum(values@) <= u64::MAX,
    ensures
        r == seq_sum(values@),
{
    let mut total: u64 = 0;
    let mut i: usize = 0;
    while i < values.len()
        invariant
            i <= values@.len(),
            seq_sum(values@) <= u64::MAX,
            total == seq_sum(values@.take(i as int)),
        decreases values.len() - i,
    {
        proof {
            assert(values@.take(i + 1).drop_last() =~= values@.take(i as int));
            lemma_sum_prefix_bound(values@, i + 1);
        }
        total = total + values[i];
        i = i + 1;
    }
    assert(values@.take(i as int) =~= values@);
    total
}

proof fn lemma_sum_prefix_bound(s: Seq<u64>, n: int)
    requires
        0 <= n <= s.len(),
    ensures
        seq_sum(s.take(n)) <= seq_sum(s),
    decreases s.len(),
{
    if n < s.len() {
        assert(s.drop_last().take(n) =~= s.take(n));
        lemma_sum_prefix_bound(s.drop_last(), n);
    } else {
        assert(s.take(n) =~= s);
    }
}

/// Summarises one function's resource usage: the average CPU and memory
/// readings over `iteration_count` runs (`0` when there were none), and the
/// WASM size, each with thousands separators and its unit.
pub fn format_resource_summary(
    cpu_measurements: &[u64],
    memory_measurements: &[u64],
    iteration_count: usize,
    snapshot_buffer: u64,
) -> (s: String)
    requires
        seq_sum(cpu_measurements@) <= u64::MAX,
        seq_sum(memory_measurements@) <= u64::MAX,
    ensures
        s@ == resource_summary(
            average(seq_sum(cpu_measurements@), iteration_count as nat) as u64,
            average(seq_sum(memory_measurements@), iteration_count as nat) as u64,
            snapshot_buffer,
        ),
{
    let count = iteration_count as u64;
    let cpu_total = sum_of(cpu_measurements);
    let mem_total = sum_of(memory_measurements);
    let cpu_avg = if count == 0 {
        0
    } else {
        cpu_total / count
    };
    let mem_avg = if count == 0 {
        0
    } else {
        mem_total / count
    };
    let mut s = String::new();
    s.append("CPU: ");
    let cpu = format_with_commas_and_units(cpu_avg, "CPU Instructions");
    s.append(cpu.as_str());
    s.append(", Memory: ");
    let mem = format_with_commas_and_units(mem_avg, "Memory Bytes");
    s.append(mem.as_str());
    s.append(", WASM: ");
    let wasm = format_with_commas_and_units(snapshot_buffer, "WASM Bytes");
    s.append(wasm.as_str());
    s
}

// ---------------------------------------------------------------------------
// Largest value per package and function
// ---------------------------------------------------------------------------

/// Some of the first `n` records belongs to package `p`.
pub open spec fn has_package(data: Seq<(String, String, &str, u64)>, n: int, p: Seq<char>) -> bool {
    exists|i: int| 0 <= i < n && #[trigger] data[i].0@ == p
}

/// Record `e` belongs to package `p` and function `f`.
pub open spec fn record_of(e: (String, String, &str, u64), p: Seq<char>, f: Seq<char>) -> bool {
    e.0@ == p && e.1@ == f
}

/// Some of the first `n` records belongs to `p` and `f`.
pub open spec fn has_function(
    data: Seq<(String, String, &str, u64)>,
    n: int,
    p: Seq<char>,
    f: Seq<char>,
) -> bool {
    exists|i: int| 0 <= i < n && #[trigger] record_of(data[i], p, f)
}

/// `v` is the largest value among the first `n` records of `p` and `f`.
pub open spec fn is_largest(
    data: Seq<(String, String, &str, u64)>,
    n: int,
    p: Seq<char>,
    f: Seq<char>,
    v: u64,
) -> bool {
    &&& exists|i: int| 0 <= i < n && #[trigger] record_of(data[i], p, f) && data[i].3 == v
    &&& forall|i: int| 0 <= i < n && #[trigger] record_of(data[i], p, f) ==> data[i].3 <= v
}

/// `m` maps each package among the first `n` records to its functions, and
/// each of those to its largest value.
pub open spec fn summarises(
    m: Map<Seq<char>, NameMap<u64>>,
    data: Seq<(String, String, &str, u64)>,
    n: int,
) -> bool {
    &&& forall|p: Seq<char>| #[trigger] m.dom().contains(p) <==> has_package(data, n, p)
    &&& forall|p: Seq<char>, f: Seq<char>|
        m.dom().contains(p) ==> (#[trigger] m[p]@.dom().contains(f) <==> has_function(
            data,
            n,
            p,
            f,
        ))
    &&& forall|p: Seq<char>, f: Seq<char>|
        #[trigger] has_function(data, n, p, f) ==> is_largest(data, n, p, f, m[p]@[f])
}

/// Maps each package of `raw_data` to its functions and each function to
/// the largest value recorded for it (whatever the metric).  The three
/// indices are accepted and not used.
pub fn aggregate_measurements(
    package_index: usize,
    function_index: usize,
    metric_index: usize,
    raw_data: &[(String, String, &str, u64)],
) -> (r: NameMap<NameMap<u64>>)
    ensures
        summarises(r@, raw_data@, raw_data@.len() as int),
{
    let mut result: NameMap<NameMap<u64>> = NameMap::new();
    let mut k: usize = 0;
    while k < raw_data.len()
        invariant
            k <= raw_data@.len(),
            summarises(result@, raw_data@, k as int),
        decreases raw_data.len() - k,
    {
        let package = &raw_data[k].0;
        let function = &raw_data[k].1;
        let value = raw_data[k].3;
        let ghost before = result@;
        let ghost data = raw_data@;
        let ghost p0 = package@;
        let ghost f0 = function@;
        let mut functions = match result.remove(package.as_str()) {
            Some(m) => m,
            None => NameMap::new(),
        };
        let ghost fs_before = functions@;
        let current: u64 = match functions.get(function.as_str()) {
            Some(v) => *v,
            None => 0,
        };
        let largest = if current >= value {
            current
        } else {
            value
        };
        functions.insert(function.clone(), largest);
        let ghost fs_after = functions@;
        result.insert(package.clone(), functions);
        proof {
            let n = k as int;
            assert(record_of(data[n], p0, f0));
            assert(result@ == before.insert(p0, functions));
            assert forall|p: Seq<char>| #[trigger] result@.dom().contains(p) <==> has_package(
                data,
                n + 1,
                p,
            ) by {
                if has_package(data, n, p) {
                    let i = choose|i: int| 0 <= i < n && #[trigger] data[i].0@ == p;
                    assert(data[i].0@ == p);
                }
                if has_package(data, n + 1, p) && p != p0 {
                    let i = choose|i: int| 0 <= i < n + 1 && #[trigger] data[i].0@ == p;
                    assert(data[i].0@ == p);
                }
                assert(data[n].0@ == p0);
            }
            assert forall|p: Seq<char>, f: Seq<char>|
                result@.dom().contains(p) implies (#[trigger] result@[p]@.dom().contains(f)
                <==> has_function(data, n + 1, p, f)) by {
                if has_function(data, n, p, f) {
                    let i = choose|i: int| 0 <= i < n && #[trigger] record_of(data[i], p, f);
                    assert(record_of(data[i], p, f));
                    assert(data[i].0@ == p);
                }
                if has_function(data, n + 1, p, f) && !(p == p0 && f == f0) {
                    let i = choose|i: int| 0 <= i < n + 1 && #[trigger] record_of(data[i], p, f);
                    assert(record_of(data[i], p, f));
                    assert(data[i].0@ == p);
                }
                if p == p0 && before.dom().contains(p0) {
                    assert(fs_before == before[p0]@);
                }
            }
            assert forall|p: Seq<char>, f: Seq<char>| #[trigger]
                has_function(data, n + 1, p, f) implies is_largest(
                data,
                n + 1,
                p,
                f,
                result@[p]@[f],
            ) by {
                if p == p0 && f == f0 {
                    assert(result@[p]@[f] == largest);
                    if has_function(data, n, p, f) {
                        let i = choose|i: int| 0 <= i < n && #[trigger] record_of(data[i], p, f);
                        assert(record_of(data[i], p, f));
                        assert(data[i].0@ == p);
                        assert(fs_before == before[p0]@);
                        assert(fs_before.dom().contains(f0));
                        assert(current == before[p]@[f]);
                        assert(is_largest(data, n, p, f, current));
                    } else {
                        if before.dom().contains(p0) {
                            assert(fs_before == before[p0]@);
                        }
                        assert(!fs_before.dom().contains(f0));
                        assert(current == 0);
                    }
                } else {
                    assert(has_function(data, n, p, f)) by {
                        let i = choose|i: int| 0 <= i < n + 1 && #[trigger] record_of(data[i], p, f);
                        assert(i != n);
                    }
                    let i = choose|i: int| 0 <= i < n && #[trigger] record_of(data[i], p, f);
                    assert(record_of(data[i], p, f));
                    assert(data[i].0@ == p);
                    assert(is_largest(data, n, p, f, before[p]@[f]));
                    if p == p0 {
                        assert(fs_before == before[p0]@);
                        assert(result@[p]@[f] == fs_before[f]);
                    }
                    assert(result@[p]@[f] == before[p]@[f]);
                    assert(!record_of(data[n], p, f));
                }
            }
        }
        k = k + 1;
    }
    let _ = package_index;
    let _ = function_index;
    let _ = metric_index;
    result
}

} // verus!
