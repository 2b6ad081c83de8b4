//! Cost capabilities that report-producing types implement: CPU cost,
//! memory cost, optional limits, and a one-line JSON report entry.

use vstd::prelude::*;
use crate::text::{decimal, push_decimal};

verus! {

/// A type that can report its CPU instruction cost.
///
/// Its spec functions name what an implementation's methods return: a
/// verified implementation defines them and is held to them; for any other
/// they are left unspecified.
pub trait CpuCost {
    /// The CPU instruction cost this value reports.
    closed spec fn cpu_cost(&self) -> u64 {
        arbitrary()
    }

    /// The CPU instruction cost.
    fn cpu_instruction_cost(&self) -> (r: u64)
        ensures
            r == self.cpu_cost(),
    ;
}

/// A type that can report its memory byte cost.
///
/// Its spec functions name what an implementation's methods return: a
/// verified implementation defines them and is held to them; for any other
/// they are left unspecified.
pub trait MemoryCost {
    /// The memory byte cost this value reports.
    closed spec fn memory_cost(&self) -> u64 {
        arbitrary()
    }

    /// The memory byte cost.
    fn memory_bytes_cost(&self) -> (r: u64)
        ensures
            r == self.memory_cost(),
    ;
}

/// A metric is within its limit when no limit is set, or when it is strictly
/// below the limit.
pub open spec fn under_limit(cost: u64, limit: Option<u64>) -> bool {
    match limit {
        Some(l) => cost < l,
        None => true,
    }
}

/// Whether both costs are within their optional limits.
pub fn costs_within_limits(
    cpu: u64,
    memory: u64,
    cpu_limit: Option<u64>,
    memory_limit: Option<u64>,
) -> (r: bool)
    ensures
        r == (under_limit(cpu, cpu_limit) && under_limit(memory, memory_limit)),
{
    let cpu_ok = match cpu_limit {
        Some(limit) => cpu < limit,
        None => true,
    };
    let mem_ok = match memory_limit {
        Some(limit) => memory < limit,
        None => true,
    };
    cpu_ok && mem_ok
}

/// CPU and memory costs paired with optional upper bounds.
///
/// Its spec functions name what an implementation's methods return: a
/// verified implementation defines them and is held to them; for any other
/// they are left unspecified.
pub trait BudgetBounds: CpuCost + MemoryCost {
    /// A human-readable label identifying this measurement.
    fn label(&self) -> &str;

    /// The CPU bound this value reports.
    closed spec fn cpu_bound(&self) -> Option<u64> {
        arbitrary()
    }

    /// The memory bound this value reports.
    closed spec fn memory_bound(&self) -> Option<u64> {
        arbitrary()
    }

    /// Optional upper bound for the CPU instruction cost.
    fn cpu_limit(&self) -> (r: Option<u64>)
        ensures
            r == self.cpu_bound(),
    ;

    /// Optional upper bound for the memory byte cost.
    fn memory_limit(&self) -> (r: Option<u64>)
        ensures
            r == self.memory_bound(),
    ;

    /// `Ok(true)` when every configured limit is strictly above its cost
    /// (metrics without a limit always pass), `Ok(false)` otherwise.
    fn is_within_bounds(&self) -> (r: Result<bool, String>)
        default_ensures
            r == Ok::<bool, String>(
                under_limit(self.cpu_cost(), self.cpu_bound()) && under_limit(
                    self.memory_cost(),
                    self.memory_bound(),
                ),
            ),
    {
        let cpu_limit = self.cpu_limit();
        let memory_limit = self.memory_limit();
        let cpu = match cpu_limit {
            Some(_) => self.cpu_instruction_cost(),
            None => 0,
        };
        let memory = match memory_limit {
            Some(_) => self.memory_bytes_cost(),
            None => 0,
        };
        Ok(costs_within_limits(cpu, memory, cpu_limit, memory_limit))
    }
}

/// `{"function":"<f>","metric":"<m>","value":<v>}`, with the names inserted
/// verbatim.
pub open spec fn cost_entry_json(function: Seq<char>, metric: Seq<char>, value: u64) -> Seq<char> {
    "{\"function\":\""@ + function + "\",\"metric\":\""@ + metric + "\",\"value\":"@ + decimal(
        value as nat,
    ) + "}"@
}

/// Renders one report entry as a JSON object.
pub fn cost_entry_json_string(function: &str, metric: &str, value: u64) -> (s: String)
    ensures
        s@ == cost_entry_json(function@, metric@, value),
{
    let mut s = String::new();
    s.append("{\"function\":\"");
    s.append(function);
    s.append("\",\"metric\":\"");
    s.append(metric);
    s.append("\",\"value\":");
    push_decimal(&mut s, value);
    s.append("}");
    s
}

/// A type that can be formatted as a single cost-report entry.
///
/// Its spec functions name what an implementation's methods return: a
/// verified implementation defines them and is held to them; for any other
/// they are left unspecified.
pub trait CostReportable {
    /// The function name this entry reports.
    closed spec fn function_of(&self) -> Seq<char> {
        arbitrary()
    }

    /// The metric name this entry reports.
    closed spec fn metric_of(&self) -> Seq<char> {
        arbitrary()
    }

    /// The value this entry reports.
    closed spec fn value_of(&self) -> u64 {
        arbitrary()
    }

    /// The function name of this entry.
    fn function_name(&self) -> (r: &str)
        ensures
            r@ == self.function_of(),
    ;

    /// The metric name of this entry.
    fn metric_name(&self) -> (r: &str)
        ensures
            r@ == self.metric_of(),
    ;

    /// The measured metric value.
    fn metric_value(&self) -> (r: u64)
        ensures
            r == self.value_of(),
    ;

    /// The entry as a JSON object with `function`, `metric` and `value` keys.
    fn to_json(&self) -> (s: String)
        default_ensures
            s@ == cost_entry_json(self.function_of(), self.metric_of(), self.value_of()),
    {
        cost_entry_json_string(self.function_name(), self.metric_name(), self.metric_value())
    }
}

} // verus!
