//! Budget assertions that combine a limit resolver with a resource
//! measurer.

use vstd::prelude::*;
use crate::text::{decimal, push_decimal};

verus! {

/// A strategy for resolving a budget limit to a concrete value; returning
/// `u64::MAX` means "no limit".
///
/// Its spec functions name what an implementation's methods return: a
/// verified implementation defines them and is held to them; for any other
/// they are left unspecified.
pub trait BudgetLimitResolver {
    /// The limit this resolver gives for the metric labelled `label`.
    closed spec fn limit_of(&self, label: Seq<char>) -> u64 {
        arbitrary()
    }

    /// Resolves the limit for the metric labelled `metric_label`.
    fn resolve(&self, metric_label: &str) -> (r: u64)
        ensures
            r == self.limit_of(metric_label@),
    ;
}

/// A source of resource-consumption figures, typically a Soroban host
/// environment.
///
/// Its spec functions name what an implementation's methods return: a
/// verified implementation defines them and is held to them; for any other
/// they are left unspecified.
pub trait ResourceMeasurer {
    /// The cost this measurer reports for `metric`.
    closed spec fn cost_of(&self, metric: BudgetMetricKind) -> u64 {
        arbitrary()
    }

    /// The label this measurer gives `metric`.
    closed spec fn label_of(&self, metric: BudgetMetricKind) -> Seq<char> {
        arbitrary()
    }

    /// The current CPU instruction count.
    fn cpu_instructions(&self) -> (r: u64)
        ensures
            r == self.cost_of(BudgetMetricKind::Cpu),
    ;

    /// The current memory byte count.
    fn memory_bytes(&self) -> (r: u64)
        ensures
            r == self.cost_of(BudgetMetricKind::Memory),
    ;

    /// The macro label associated with the given metric kind.
    fn metric_name_for(&self, metric: BudgetMetricKind) -> (r: &'static str)
        ensures
            r@ == self.label_of(metric),
    ;
}

/// The kinds of budget metrics that can be asserted against.
#[derive(Debug, Clone, Copy, PartialEq, Eq)]
pub enum BudgetMetricKind {
    /// CPU instruction cost, asserted by `#[budget_cpu_lt(N)]`.
    Cpu,
    /// Memory byte cost, asserted by `#[budget_mem_lt(N)]`.
    Memory,
}

/// The attribute macro that asserts `kind`.
pub open spec fn macro_name_of(kind: BudgetMetricKind) -> Seq<char> {
    match kind {
        BudgetMetricKind::Cpu => "budget_cpu_lt"@,
        BudgetMetricKind::Memory => "budget_mem_lt"@,
    }
}

/// The Soroban budget method that reads `kind`.
pub open spec fn method_name_of(kind: BudgetMetricKind) -> Seq<char> {
    match kind {
        BudgetMetricKind::Cpu => "cpu_instruction_cost"@,
        BudgetMetricKind::Memory => "memory_bytes_cost"@,
    }
}

/// How a breach of `kind` is described in the failure message.
pub open spec fn cost_description(kind: BudgetMetricKind) -> Seq<char> {
    match kind {
        BudgetMetricKind::Cpu => "CPU instruction cost"@,
        BudgetMetricKind::Memory => "Memory bytes cost"@,
    }
}

impl BudgetMetricKind {
    /// The attribute macro name for this metric kind.
    pub fn macro_name(self) -> (r: &'static str)
        ensures
            r@ == macro_name_of(self),
    {
        match self {
            BudgetMetricKind::Cpu => "budget_cpu_lt",
            BudgetMetricKind::Memory => "budget_mem_lt",
        }
    }

    /// The Soroban budget method name used to read this metric.
    pub fn method_name(self) -> (r: &'static str)
        ensures
            r@ == method_name_of(self),
    {
        match self {
            BudgetMetricKind::Cpu => "cpu_instruction_cost",
            BudgetMetricKind::Memory => "memory_bytes_cost",
        }
    }
}

/// The message of a failed budget assertion.
pub open spec fn overrun_message(kind: BudgetMetricKind, cost: u64, limit: u64) -> Seq<char> {
    cost_description(kind) + " "@ + decimal(cost as nat) + " exceeded limit "@ + decimal(
        limit as nat,
    )
        + " - local estimate, real network cost may differ significantly in either direction"@
}

/// The outcome of a budget assertion: it passes when the cost is strictly
/// below the limit, or when the limit is `u64::MAX` ("no limit").
pub open spec fn budget_verdict(kind: BudgetMetricKind, cost: u64, limit: u64) -> Result<
    (),
    Seq<char>,
> {
    if limit == u64::MAX || cost < limit {
        Ok(())
    } else {
        Err(overrun_message(kind, cost, limit))
    }
}

/// `Ok` when `cost < limit` or `limit` is `u64::MAX`, otherwise the failure
/// message.
pub fn judge_budget(kind: BudgetMetricKind, cost: u64, limit: u64) -> (r: Result<(), String>)
    ensures
        match r {
            Ok(()) => budget_verdict(kind, cost, limit) is Ok,
            Err(m) => budget_verdict(kind, cost, limit) == Err::<(), Seq<char>>(m@),
        },
{
    if limit == u64::MAX || cost < limit {
        return Ok(());
    }
    let mut m = String::new();
    match kind {
        BudgetMetricKind::Cpu => m.append("CPU instruction cost"),
        BudgetMetricKind::Memory => m.append("Memory bytes cost"),
    }
    m.append(" ");
    push_decimal(&mut m, cost);
    m.append(" exceeded limit ");
    push_decimal(&mut m, limit);
    m.append(" - local estimate, real network cost may differ significantly in either direction");
    Err(m)
}

/// A budget assertion: one metric kind and the resolver of its limit.
pub struct BudgetAssertion<R: BudgetLimitResolver> {
    resolver: R,
    metric: BudgetMetricKind,
}

impl<R: BudgetLimitResolver> BudgetAssertion<R> {
    /// The metric this assertion checks.
    pub closed spec fn kind(&self) -> BudgetMetricKind {
        self.metric
    }

    /// The resolver of this assertion's limit.
    pub closed spec fn resolver(&self) -> R {
        self.resolver
    }

    /// Creates a new budget assertion with the given resolver and metric.
    pub fn new(resolver: R, metric: BudgetMetricKind) -> (a: Self)
        ensures
            a.kind() == metric,
            a.resolver() == resolver,
    {
        BudgetAssertion { resolver, metric }
    }

    /// Resolves the limit (under the label `env` gives for the metric),
    /// reads the metric's own cost from `env`, and judges it: `Ok` when the
    /// cost is strictly below the limit (or the limit is `u64::MAX`),
    /// otherwise the failure message.
    pub fn check_within_budget<M: ResourceMeasurer>(&self, env: &M) -> (r: Result<(), String>)
        ensures
            match r {
                Ok(()) => budget_verdict(
                    self.kind(),
                    env.cost_of(self.kind()),
                    self.resolver().limit_of(env.label_of(self.kind())),
                ) is Ok,
                Err(m) => budget_verdict(
                    self.kind(),
                    env.cost_of(self.kind()),
                    self.resolver().limit_of(env.label_of(self.kind())),
                ) == Err::<(), Seq<char>>(m@),
            },
    {
        let label = env.metric_name_for(self.metric);
        let limit = self.resolver.resolve(label);
        let cost = match self.metric {
            BudgetMetricKind::Cpu => env.cpu_instructions(),
            BudgetMetricKind::Memory => env.memory_bytes(),
        };
        judge_budget(self.metric, cost, limit)
    }
}

} // verus!
