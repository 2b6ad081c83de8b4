//! Inclusive limit checks for simulated resource figures.

use vstd::prelude::*;
use crate::text::{decimal, push_decimal};

verus! {

/// `"<name> <value> exceeds limit <max>"`.
pub open spec fn exceeds_message(name: Seq<char>, value: u64, max: u64) -> Seq<char> {
    name + " "@ + decimal(value as nat) + " exceeds limit "@ + decimal(max as nat)
}

/// The outcome of an inclusive limit check: `value` may equal `max`.
pub open spec fn bounds_outcome(value: u64, max: u64, name: Seq<char>) -> Result<(), Seq<char>> {
    if value > max {
        Err(exceeds_message(name, value, max))
    } else {
        Ok(())
    }
}

/// `Ok` when `value <= max`, otherwise an error naming the metric, the
/// value and the limit.
pub fn check_bounds(value: u64, max: u64, name: &str) -> (r: Result<(), String>)
    ensures
        match r {
            Ok(()) => bounds_outcome(value, max, name@) is Ok,
            Err(m) => bounds_outcome(value, max, name@) == Err::<(), Seq<char>>(m@),
        },
{
    if value > max {
        let mut m = String::new();
        m.append(name);
        m.append(" ");
        push_decimal(&mut m, value);
        m.append(" exceeds limit ");
        push_decimal(&mut m, max);
        Err(m)
    } else {
        Ok(())
    }
}

/// Checks simulated CPU instructions against an inclusive limit.
pub fn check_cpu_instructions(instructions: u32, limit: u64) -> (r: Result<(), String>)
    ensures
        match r {
            Ok(()) => instructions <= limit,
            Err(m) => instructions > limit && m@ == exceeds_message(
                "CPU Instructions"@,
                instructions as u64,
                limit,
            ),
        },
{
    check_bounds(instructions as u64, limit, "CPU Instructions")
}

/// Checks simulated read bytes against an inclusive limit.
pub fn check_read_bytes(bytes: u32, limit: u64) -> (r: Result<(), String>)
    ensures
        match r {
            Ok(()) => bytes <= limit,
            Err(m) => bytes > limit && m@ == exceeds_message("Read Bytes"@, bytes as u64, limit),
        },
{
    check_bounds(bytes as u64, limit, "Read Bytes")
}

/// Checks simulated write bytes against an inclusive limit.
pub fn check_write_bytes(bytes: u32, limit: u64) -> (r: Result<(), String>)
    ensures
        match r {
            Ok(()) => bytes <= limit,
            Err(m) => bytes > limit && m@ == exceeds_message("Write Bytes"@, bytes as u64, limit),
        },
{
    check_bounds(bytes as u64, limit, "Write Bytes")
}

/// The limit a measured value was checked against and whether it passed:
/// `(None, None)` without a limit, else the limit and whether the value is
/// at most the limit (the limit is inclusive).
pub fn evaluate_check(value: u32, limit: Option<u64>) -> (r: (Option<u64>, Option<bool>))
    ensures
        r.0 == limit,
        match limit {
            Some(l) => r.1 == Some(value as u64 <= l),
            None => r.1 is None,
        },
{
    match limit {
        Some(l) => (Some(l), Some((value as u64) <= l)),
        None => (None, None),
    }
}

} // verus!
