//! What sums, minima and maxima promise.

use crate::error::Fault;
use crate::le64::{combined, Le64Op};
use crate::sum::{
    limited, limited_number, operand_kind, same_type, sum_step, NumberSum, Operand, Parameters,
    SumStepModel,
};
use vstd::prelude::*;

verus! {

/// A sum that is not brought to its limits is refused exactly where it lies
/// outside of them, and is exact otherwise.
pub proof fn a_sum_outside_its_limits_is_refused(sum: int, min: Option<int>, max: Option<int>)
    ensures
        limited(sum, min, max, false) == if (min is Some && sum < min->0) || (max is Some && sum
            > max->0) {
            Err::<int, Fault>(Fault::SumOutOfRange)
        } else {
            Ok(sum)
        },
{
}

/// A sum that is brought to its limits always succeeds, and lies within them
/// where they leave room.
pub proof fn a_clamped_sum_lies_within_its_limits(sum: int, min: Option<int>, max: Option<int>)
    ensures
        limited(sum, min, max, true) matches Ok(result) && (max is Some ==> result <= max->0) && ((
        min is Some && (max is Some ==> min->0 <= max->0)) ==> result >= min->0) && (((min is Some
            ==> sum >= min->0) && (max is Some ==> sum <= max->0)) ==> result == sum),
{
}

/// A sum of doubles that is not brought to its limits is refused exactly where
/// it compares as outside of them, and is exact otherwise. One that is brought to
/// them always succeeds, and is the sum, or a limit.
pub proof fn a_sum_of_doubles_keeps_to_its_limits(
    numbers: NumberSum,
    min: Option<u64>,
    max: Option<u64>,
)
    ensures
        limited_number(numbers, min, max, false) == if (min is Some && numbers.below_min) || (
        max is Some && numbers.above_max) {
            Err::<Operand, Fault>(Fault::SumOutOfRange)
        } else {
            Ok(Operand::Number(numbers.sum))
        },
        limited_number(numbers, min, max, true) matches Ok(Operand::Number(result)) && (result
            == numbers.sum || min == Some(result) || max == Some(result)),
{
}

/// A sum of 64-bit numbers does not depend on the order of its operands.
pub proof fn sums_come_in_any_order(a: u64, b: u64, c: u64)
    ensures
        combined(Le64Op::Sum, combined(Le64Op::Sum, a, b), c) == combined(
            Le64Op::Sum,
            combined(Le64Op::Sum, a, c),
            b,
        ),
        combined(Le64Op::Sum, a, b) == combined(Le64Op::Sum, b, a),
        a + b <= u64::MAX ==> combined(Le64Op::Sum, a, b) == a + b,
{
}

/// A minimum is the smaller of the two numbers, a maximum the greater one.
pub proof fn minimum_and_maximum_are_bounds(a: u64, b: u64)
    ensures
        combined(Le64Op::Min, a, b) <= a,
        combined(Le64Op::Min, a, b) <= b,
        combined(Le64Op::Max, a, b) >= a,
        combined(Le64Op::Max, a, b) >= b,
        combined(Le64Op::Min, a, b) == a || combined(Le64Op::Min, a, b) == b,
        combined(Le64Op::Max, a, b) == a || combined(Le64Op::Max, a, b) == b,
{
}

/// A minimum or maximum that is taken again changes nothing.
pub proof fn minimum_and_maximum_are_idempotent(a: u64, b: u64)
    ensures
        combined(Le64Op::Min, combined(Le64Op::Min, a, b), b) == combined(Le64Op::Min, a, b),
        combined(Le64Op::Max, combined(Le64Op::Max, a, b), b) == combined(Le64Op::Max, a, b),
{
}

/// Without limits, a big integer that is a 64-bit number is added to a 64-bit
/// number like one.
pub proof fn a_big_integer_adds_to_a_number(current: u64, x: int)
    requires
        0 <= x <= u64::MAX,
    ensures
        sum_step(
            Operand::KvU64(current),
            Parameters { operand: Operand::BigInt(x), min: None, max: None },
            false,
        ) == SumStepModel::Done(
            Ok::<Operand, Fault>(Operand::KvU64(combined(Le64Op::Sum, current, x as u64))),
        ),
{
}

/// Operands of two types are not added, but for a big integer to a 64-bit number.
pub proof fn operands_of_two_types_do_not_add(old: Operand, parameters: Parameters, clamp: bool)
    requires
        !same_type(old, parameters.operand),
        !(old is KvU64 && parameters.operand is BigInt),
    ensures
        sum_step(old, parameters, clamp) == SumStepModel::Done(
            Err::<Operand, Fault>(
                Fault::TypeMismatch(
                    "Cannot sum "@ + operand_kind(old) + " with "@ + operand_kind(
                        parameters.operand,
                    ),
                ),
            ),
        ),
{
}

} // verus!
