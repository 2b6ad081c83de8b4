//! Cost measurement, budget assertion and resource reporting.

use vstd::prelude::*;
use crate::text::{decimal, group_thousands, seq_contains, push_decimal, push_decimal_grouped, str_contains, str_eq};

verus! {

// ---------------------------------------------------------------------------
// Metric names
// ---------------------------------------------------------------------------

/// How `CostMeasurer::value_for` answers a metric name.
#[derive(Debug, Clone, Copy, PartialEq, Eq)]
pub enum MetricSource {
    /// `"CPU Instructions"`: the CPU measurement.
    Cpu,
    /// `"Read Bytes"` or `"Write Bytes"`: the memory measurement.
    Memory,
    /// `"WASM Bytes"`: always zero locally.
    Wasm,
    /// Any other name.
    Unknown,
}

/// The source of the value reported for the metric called `name`.
pub open spec fn metric_source(name: Seq<char>) -> MetricSource {
    if name == "CPU Instructions"@ {
        MetricSource::Cpu
    } else if name == "Read Bytes"@ || name == "Write Bytes"@ {
        MetricSource::Memory
    } else if name == "WASM Bytes"@ {
        MetricSource::Wasm
    } else {
        MetricSource::Unknown
    }
}

/// Classifies a metric name (exact, case-sensitive match).
pub fn classify_metric(name: &str) -> (r: MetricSource)
    ensures
        r == metric_source(name@),
{
    if str_eq(name, "CPU Instructions") {
        MetricSource::Cpu
    } else if str_eq(name, "Read Bytes") || str_eq(name, "Write Bytes") {
        MetricSource::Memory
    } else if str_eq(name, "WASM Bytes") {
        MetricSource::Wasm
    } else {
        MetricSource::Unknown
    }
}

// ---------------------------------------------------------------------------
// CostMeasurer
// ---------------------------------------------------------------------------

/// Types that can report their resource consumption.
///
/// Its spec functions name what an implementation's methods return: a
/// verified implementation defines them and is held to them; for any other
/// they are left unspecified.
pub trait CostMeasurer {
    /// The CPU instructions this measurer reports.
    closed spec fn measured_cpu(&self) -> u64 {
        arbitrary()
    }

    /// The memory bytes this measurer reports.
    closed spec fn measured_memory(&self) -> u64 {
        arbitrary()
    }

    /// CPU instructions consumed by the most recent operation.
    fn cpu_instructions(&self) -> (r: u64)
        ensures
            r == self.measured_cpu(),
    ;

    /// Memory bytes consumed by the most recent operation.
    fn memory_bytes(&self) -> (r: u64)
        ensures
            r == self.measured_memory(),
    ;

    /// The measured value for the named metric: CPU for `"CPU
    /// Instructions"`, memory for `"Read Bytes"` and `"Write Bytes"`, `0` for
    /// `"WASM Bytes"`, and `None` for any other name.
    fn value_for(&self, metric: &str) -> (r: Option<u64>)
        default_ensures
            r == match metric_source(metric@) {
                MetricSource::Cpu => Some(self.measured_cpu()),
                MetricSource::Memory => Some(self.measured_memory()),
                MetricSource::Wasm => Some(0u64),
                MetricSource::Unknown => None,
            },
    {
        match classify_metric(metric) {
            MetricSource::Cpu => Some(self.cpu_instructions()),
            MetricSource::Memory => Some(self.memory_bytes()),
            MetricSource::Wasm => Some(0),
            MetricSource::Unknown => None,
        }
    }
}

// ---------------------------------------------------------------------------
// BudgetExceededError
// ---------------------------------------------------------------------------

/// Error returned when a budget limit is exceeded.
#[derive(Debug, Clone, PartialEq, Eq)]
pub struct BudgetExceededError {
    /// The name of the metric that exceeded its limit.
    pub metric: &'static str,
    /// The measured value that breached the limit.
    pub actual: u64,
    /// The configured upper bound that was violated.
    pub limit: u64,
}

/// `"<metric> exceeded limit: value=<actual>, limit=<limit>"`.
pub open spec fn exceeded_message(metric: Seq<char>, actual: u64, limit: u64) -> Seq<char> {
    metric + " exceeded limit: value="@ + decimal(actual as nat) + ", limit="@ + decimal(
        limit as nat,
    )
}

impl BudgetExceededError {
    /// Creates a new budget-exceeded error.
    pub fn new(metric: &'static str, actual: u64, limit: u64) -> (e: Self)
        ensures
            e.metric == metric,
            e.actual == actual,
            e.limit == limit,
    {
        BudgetExceededError { metric, actual, limit }
    }

    /// The human-readable message, e.g.
    /// `CPU Instructions exceeded limit: value=1500, limit=1000`.
    pub fn to_string(&self) -> (s: String)
        ensures
            s@ == exceeded_message(self.metric@, self.actual, self.limit),
    {
        let mut s = String::new();
        s.append(self.metric);
        s.append(" exceeded limit: value=");
        push_decimal(&mut s, self.actual);
        s.append(", limit=");
        push_decimal(&mut s, self.limit);
        s
    }
}

/// The outcome of checking `actual` against an exclusive `limit`.
pub open spec fn within_outcome(metric: &'static str, actual: u64, limit: u64) -> Result<
    (),
    BudgetExceededError,
> {
    if actual < limit {
        Ok(())
    } else {
        Err(BudgetExceededError { metric, actual, limit })
    }
}

/// `Ok` when `actual` is strictly below `limit`, otherwise the error naming
/// `metric`, `actual` and `limit`.
pub fn check_within(metric: &'static str, actual: u64, limit: u64) -> (r: Result<
    (),
    BudgetExceededError,
>)
    ensures
        r == within_outcome(metric, actual, limit),
{
    if actual < limit {
        Ok(())
    } else {
        Err(BudgetExceededError::new(metric, actual, limit))
    }
}

// ---------------------------------------------------------------------------
// BudgetAssert
// ---------------------------------------------------------------------------

/// Budget-limit checks built on a [`CostMeasurer`]; every measurer has them
/// through the blanket implementation.
pub trait BudgetAssert: CostMeasurer {
    /// `Ok` when the measured CPU instructions are strictly below `limit`.
    fn cpu_within(&self, limit: u64) -> (r: Result<(), BudgetExceededError>)
        ensures
            r == within_outcome("CPU Instructions", self.measured_cpu(), limit),
    {
        let actual = self.cpu_instructions();
        check_within("CPU Instructions", actual, limit)
    }

    /// `Ok` when the measured memory bytes are strictly below `limit`.
    fn memory_within(&self, limit: u64) -> (r: Result<(), BudgetExceededError>)
        ensures
            r == within_outcome("Memory Bytes", self.measured_memory(), limit),
    {
        let actual = self.memory_bytes();
        check_within("Memory Bytes", actual, limit)
    }

    /// CPU check first, then (only if it passed) the memory check.
    fn within_budget(&self, cpu_limit: u64, mem_limit: u64) -> (r: Result<(), BudgetExceededError>)
        ensures
            r == match within_outcome("CPU Instructions", self.measured_cpu(), cpu_limit) {
                Err(e) => Err(e),
                Ok(()) => within_outcome("Memory Bytes", self.measured_memory(), mem_limit),
            },
    {
        let c = self.cpu_within(cpu_limit);
        match c {
            Err(e) => Err(e),
            Ok(()) => self.memory_within(mem_limit),
        }
    }
}

impl<T: CostMeasurer> BudgetAssert for T {

}

// ---------------------------------------------------------------------------
// ResourceReport
// ---------------------------------------------------------------------------

/// A report of a single function's resource usage.
#[derive(Debug, Clone, PartialEq, Eq)]
pub struct ResourceReport {
    /// The Cargo package name.
    pub package: String,
    /// The exported function name.
    pub function: String,
    /// Measured CPU instructions.
    pub cpu_instructions: u64,
    /// Measured memory bytes.
    pub memory_bytes: u64,
    /// Size of the compiled WASM binary in bytes.
    pub wasm_bytes: u64,
}

/// Types that can produce a [`ResourceReport`].
pub trait ResourceReportable {
    /// Build a report for the given package and function.
    fn to_report(&self, package: &str, function: &str) -> ResourceReport;
}

// ---------------------------------------------------------------------------
// Formatting
// ---------------------------------------------------------------------------

/// `" B"` for metric names containing `Bytes` (case-sensitive), otherwise
/// `" inst."`.
pub open spec fn metric_unit(metric: Seq<char>) -> Seq<char> {
    if seq_contains(metric, "Bytes"@) {
        " B"@
    } else {
        " inst."@
    }
}

/// `value` with thousands separators followed by the unit of `metric`.
pub open spec fn formatted_metric(value: u64, metric: Seq<char>) -> Seq<char> {
    group_thousands(decimal(value as nat)) + metric_unit(metric)
}

/// Formats a value with thousands-separator commas and a unit suffix:
/// `" B"` when the metric name contains `Bytes`, otherwise `" inst."`.
pub fn format_metric(value: u64, metric: &str) -> (s: String)
    ensures
        s@ == formatted_metric(value, metric@),
{
    let mut s = String::new();
    push_decimal_grouped(&mut s, value);
    if str_contains(metric, "Bytes") {
        s.append(" B");
    } else {
        s.append(" inst.");
    }
    s
}

/// Same rendering as [`format_metric`], under the name the report tooling
/// uses.
pub fn format_with_commas_and_units(value: u64, metric: &str) -> (s: String)
    ensures
        s@ == formatted_metric(value, metric@),
{
    format_metric(value, metric)
}

} // verus!
