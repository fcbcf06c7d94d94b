//! The sum mutation: which operands go together, and the limits of a result.

use crate::bigint::{bigint_add, bigint_less, bigint_to_u64, signed_number};
use crate::bytes::copy_bytes;
use crate::error::{Fault, SqliteBackendError};
use crate::views::{opt_view, result_view};
use vstd::prelude::*;
use vstd::string::StringExecFns;

verus! {

/// A number that a sum mutation works on.
#[derive(Debug, PartialEq, Eq)]
pub enum SumOperand {
    /// An integer of any size, as its two's complement bytes, least significant
    /// first.
    BigInt(Vec<u8>),
    /// A double, as its bits.
    Number(u64),
    /// A 64-bit number of the store.
    KvU64(u64),
}

/// What a `SumOperand` stands for.
pub enum Operand {
    BigInt(int),
    Number(u64),
    KvU64(u64),
}

impl View for SumOperand {
    type V = Operand;

    open spec fn view(&self) -> Operand {
        match self {
            SumOperand::BigInt(bytes) => Operand::BigInt(signed_number(bytes@)),
            SumOperand::Number(bits) => Operand::Number(*bits),
            SumOperand::KvU64(n) => Operand::KvU64(*n),
        }
    }
}

/// The operand of a sum and the limits of its result.
pub struct SumParameters {
    pub operand: SumOperand,
    pub min: Option<SumOperand>,
    pub max: Option<SumOperand>,
}

/// What `SumParameters` stand for.
pub struct Parameters {
    pub operand: Operand,
    pub min: Option<Operand>,
    pub max: Option<Operand>,
}

impl View for SumParameters {
    type V = Parameters;

    open spec fn view(&self) -> Parameters {
        Parameters {
            operand: self.operand@,
            min: opt_view(self.min),
            max: opt_view(self.max),
        }
    }
}

/// The sum of two doubles, and how it and the limits compare. A limit that is
/// not there compares as `false`.
#[derive(Clone, Copy, Debug, PartialEq, Eq, Structural)]
pub struct NumberSum {
    /// The bits of the sum.
    pub sum: u64,
    /// Whether the sum is less than the lower limit.
    pub below_min: bool,
    /// Whether the sum is greater than the upper limit.
    pub above_max: bool,
    /// Whether the lower limit is greater than the upper one.
    pub min_above_max: bool,
}

/// What comes of a sum.
pub enum SumStep {
    /// The sum, or why there is none.
    Done(Result<SumOperand, SqliteBackendError>),
    /// Two doubles are to be added, and compared with these limits.
    AddNumbers { current: u64, operand: u64, min: Option<u64>, max: Option<u64> },
}

/// What a `SumStep` stands for.
pub enum SumStepModel {
    Done(Result<Operand, Fault>),
    AddNumbers { current: u64, operand: u64, min: Option<u64>, max: Option<u64> },
}

impl View for SumStep {
    type V = SumStepModel;

    open spec fn view(&self) -> SumStepModel {
        match self {
            SumStep::Done(result) => SumStepModel::Done(result_view(*result)),
            SumStep::AddNumbers { current, operand, min, max } => SumStepModel::AddNumbers {
                current: *current,
                operand: *operand,
                min: *min,
                max: *max,
            },
        }
    }
}

/// The name of an operand's type.
pub open spec fn operand_kind(operand: Operand) -> Seq<char> {
    match operand {
        Operand::BigInt(_) => "BigInt"@,
        Operand::Number(_) => "Number"@,
        Operand::KvU64(_) => "KvU64"@,
    }
}

/// Whether two operands are of one type.
pub open spec fn same_type(a: Operand, b: Operand) -> bool {
    match (a, b) {
        (Operand::BigInt(_), Operand::BigInt(_)) => true,
        (Operand::Number(_), Operand::Number(_)) => true,
        (Operand::KvU64(_), Operand::KvU64(_)) => true,
        _ => false,
    }
}

/// The parameters of a sum, of which each was read or could not be: all must
/// have been, and a limit must be of the operand's type.
pub open spec fn checked_parameters(
    operand: Result<Operand, Seq<char>>,
    min: Result<Option<Operand>, Seq<char>>,
    max: Result<Option<Operand>, Seq<char>>,
) -> Result<Parameters, Fault> {
    match (operand, min, max) {
        (Ok(operand), Ok(min), Ok(max)) => {
            if (min matches Some(m) && !same_type(m, operand)) || (max matches Some(m)
                && !same_type(m, operand)) {
                Err(
                    Fault::TypeMismatch(
                        "Min/max parameters have different types than the operand"@,
                    ),
                )
            } else {
                Ok(Parameters { operand, min, max })
            }
        },
        _ => Err(Fault::TypeMismatch("Some of the parameters are not valid V8 values"@)),
    }
}

/// A big integer added to a 64-bit number without limits counts as a 64-bit
/// number, where it is one.
pub open spec fn effective_operand(old: Operand, parameters: Parameters, clamp: bool) -> Operand {
    match (old, parameters.operand) {
        (Operand::KvU64(_), Operand::BigInt(x)) => {
            if parameters.min is None && parameters.max is None && !clamp && 0 <= x <= u64::MAX {
                Operand::KvU64(x as u64)
            } else {
                parameters.operand
            }
        },
        _ => parameters.operand,
    }
}

/// The limit that a parameter sets to big integers.
pub open spec fn bigint_limit(limit: Option<Operand>) -> Option<int> {
    match limit {
        Some(Operand::BigInt(x)) => Some(x),
        _ => None,
    }
}

/// The limit that a parameter sets to doubles.
pub open spec fn number_limit(limit: Option<Operand>) -> Option<u64> {
    match limit {
        Some(Operand::Number(x)) => Some(x),
        _ => None,
    }
}

/// `sum` held to its limits: brought to the nearer one where it may be, the
/// upper one last, and otherwise refused outside of them.
pub open spec fn limited(sum: int, min: Option<int>, max: Option<int>, clamp: bool) -> Result<
    int,
    Fault,
> {
    let low = min matches Some(m) && sum < m;
    let raised = if low {
        min->0
    } else {
        sum
    };
    let high = max matches Some(m) && raised > m;
    if (low || high) && !clamp {
        Err(Fault::SumOutOfRange)
    } else if high {
        Ok(max->0)
    } else {
        Ok(raised)
    }
}

/// `limited`, for doubles that were added and compared elsewhere.
pub open spec fn limited_number(
    numbers: NumberSum,
    min: Option<u64>,
    max: Option<u64>,
    clamp: bool,
) -> Result<Operand, Fault> {
    let low = min is Some && numbers.below_min;
    let high = max is Some && (if low {
        numbers.min_above_max
    } else {
        numbers.above_max
    });
    if (low || high) && !clamp {
        Err(Fault::SumOutOfRange)
    } else if high {
        Ok(Operand::Number(max->0))
    } else if low {
        Ok(Operand::Number(min->0))
    } else {
        Ok(Operand::Number(numbers.sum))
    }
}

/// The sum of 64-bit numbers, which wraps around.
pub open spec fn wrapped_sum(a: u64, b: u64) -> u64 {
    ((a + b) % 0x1_0000_0000_0000_0000) as u64
}

/// What comes of adding the operand to a stored value.
pub open spec fn sum_step(old: Operand, parameters: Parameters, clamp: bool) -> SumStepModel {
    let operand = effective_operand(old, parameters, clamp);
    match (old, operand) {
        (Operand::BigInt(a), Operand::BigInt(b)) => SumStepModel::Done(
            match limited(
                a + b,
                bigint_limit(parameters.min),
                bigint_limit(parameters.max),
                clamp,
            ) {
                Ok(sum) => Ok(Operand::BigInt(sum)),
                Err(fault) => Err(fault),
            },
        ),
        (Operand::Number(a), Operand::Number(b)) => SumStepModel::AddNumbers {
            current: a,
            operand: b,
            min: number_limit(parameters.min),
            max: number_limit(parameters.max),
        },
        (Operand::KvU64(a), Operand::KvU64(b)) => {
            if parameters.min is Some || parameters.max is Some {
                SumStepModel::Done(
                    Err(Fault::TypeMismatch("Cannot use min/max parameters with KvU64 operands"@)),
                )
            } else {
                SumStepModel::Done(Ok(Operand::KvU64(wrapped_sum(a, b))))
            }
        },
        _ => SumStepModel::Done(
            Err(
                Fault::TypeMismatch(
                    "Cannot sum "@ + operand_kind(old) + " with "@ + operand_kind(operand),
                ),
            ),
        ),
    }
}

impl SumOperand {
    /// The name of the operand's type.
    pub fn variant_name(&self) -> (name: &'static str)
        ensures
            name@ == operand_kind(self@),
    {
        match self {
            SumOperand::BigInt(_) => "BigInt",
            SumOperand::Number(_) => "Number",
            SumOperand::KvU64(_) => "KvU64",
        }
    }

    /// A copy of the operand.
    pub fn copy(&self) -> (copy: SumOperand)
        ensures
            copy@ == self@,
    {
        match self {
            SumOperand::BigInt(bytes) => SumOperand::BigInt(copy_bytes(bytes)),
            SumOperand::Number(bits) => SumOperand::Number(*bits),
            SumOperand::KvU64(n) => SumOperand::KvU64(*n),
        }
    }
}

fn is_same_type(limit: &Option<SumOperand>, operand: &SumOperand) -> (same: bool)
    ensures
        same == !(opt_view(*limit) matches Some(m) && !same_type(m, operand@)),
{
    match (limit, operand) {
        (None, _) => true,
        (Some(SumOperand::BigInt(_)), SumOperand::BigInt(_)) => true,
        (Some(SumOperand::Number(_)), SumOperand::Number(_)) => true,
        (Some(SumOperand::KvU64(_)), SumOperand::KvU64(_)) => true,
        _ => false,
    }
}

/// `checked_parameters`'s view of a limit that was read.
pub open spec fn limit_view(limit: Result<Option<SumOperand>, String>) -> Result<
    Option<Operand>,
    Seq<char>,
> {
    match limit {
        Ok(limit) => Ok(opt_view(limit)),
        Err(text) => Err(text@),
    }
}

/// Checks the parameters of a sum.
pub fn check_parameters(
    operand: Result<SumOperand, String>,
    min: Result<Option<SumOperand>, String>,
    max: Result<Option<SumOperand>, String>,
) -> (result: Result<SumParameters, SqliteBackendError>)
    ensures
        result_view(result) == checked_parameters(
            result_view(operand),
            limit_view(min),
            limit_view(max),
        ),
{
    match (operand, min, max) {
        (Ok(operand), Ok(min), Ok(max)) => {
            if !is_same_type(&min, &operand) || !is_same_type(&max, &operand) {
                Err(
                    SqliteBackendError::TypeMismatch(
                        "Min/max parameters have different types than the operand".to_owned(),
                    ),
                )
            } else {
                Ok(SumParameters { operand, min, max })
            }
        },
        _ => Err(
            SqliteBackendError::TypeMismatch(
                "Some of the parameters are not valid V8 values".to_owned(),
            ),
        ),
    }
}

fn limit_bigint(
    sum: Vec<u8>,
    min: &Option<SumOperand>,
    max: &Option<SumOperand>,
    clamp: bool,
) -> (result: Result<SumOperand, SqliteBackendError>)
    ensures
        result_view(result) == (match limited(
            signed_number(sum@),
            bigint_limit(opt_view(*min)),
            bigint_limit(opt_view(*max)),
            clamp,
        ) {
            Ok(sum) => Ok::<Operand, Fault>(Operand::BigInt(sum)),
            Err(fault) => Err(fault),
        }),
{
    let mut current = sum;
    if let Some(SumOperand::BigInt(min)) = min {
        if bigint_less(&current, min) {
            if !clamp {
                return Err(SqliteBackendError::SumOutOfRange);
            }
            current = copy_bytes(min);
        }
    }
    if let Some(SumOperand::BigInt(max)) = max {
        if bigint_less(max, &current) {
            if !clamp {
                return Err(SqliteBackendError::SumOutOfRange);
            }
            current = copy_bytes(max);
        }
    }
    Ok(SumOperand::BigInt(current))
}

fn limit_bits(limit: &Option<SumOperand>) -> (bits: Option<u64>)
    ensures
        bits == number_limit(opt_view(*limit)),
{
    match limit {
        Some(SumOperand::Number(bits)) => Some(*bits),
        _ => None,
    }
}

fn compatible_operand(old: &SumOperand, parameters: &SumParameters, clamp: bool) -> (operand:
    SumOperand)
    ensures
        operand@ == effective_operand(old@, parameters@, clamp),
{
    if let (SumOperand::KvU64(_), SumOperand::BigInt(x)) = (old, &parameters.operand) {
        if parameters.min.is_none() && parameters.max.is_none() && !clamp {
            if let Some(n) = bigint_to_u64(x) {
                return SumOperand::KvU64(n);
            }
        }
    }
    parameters.operand.copy()
}

/// Adds the operand to a stored value.
pub fn sum_values(old: &SumOperand, parameters: &SumParameters, clamp: bool) -> (step: SumStep)
    ensures
        step@ == sum_step(old@, parameters@, clamp),
{
    let operand = compatible_operand(old, parameters, clamp);
    match (old, &operand) {
        (SumOperand::BigInt(a), SumOperand::BigInt(b)) => {
            let sum = bigint_add(a, b);
            SumStep::Done(limit_bigint(sum, &parameters.min, &parameters.max, clamp))
        },
        (SumOperand::Number(a), SumOperand::Number(b)) => SumStep::AddNumbers {
            current: *a,
            operand: *b,
            min: limit_bits(&parameters.min),
            max: limit_bits(&parameters.max),
        },
        (SumOperand::KvU64(a), SumOperand::KvU64(b)) => {
            if parameters.min.is_some() || parameters.max.is_some() {
                SumStep::Done(
                    Err(
                        SqliteBackendError::TypeMismatch(
                            "Cannot use min/max parameters with KvU64 operands".to_owned(),
                        ),
                    ),
                )
            } else {
                SumStep::Done(Ok(SumOperand::KvU64(a.wrapping_add(*b))))
            }
        },
        _ => {
            let mut text = "Cannot sum ".to_owned();
            text.append(old.variant_name());
            text.append(" with ");
            text.append(operand.variant_name());
            SumStep::Done(Err(SqliteBackendError::TypeMismatch(text)))
        },
    }
}

/// Holds a sum of doubles to its limits.
pub fn limit_numbers(
    numbers: NumberSum,
    min: Option<u64>,
    max: Option<u64>,
    clamp: bool,
) -> (result: Result<SumOperand, SqliteBackendError>)
    ensures
        result_view(result) == limited_number(numbers, min, max, clamp),
{
    let mut current: u64 = numbers.sum;
    let mut above_max = numbers.above_max;
    if let Some(min) = min {
        if numbers.below_min {
            if !clamp {
                return Err(SqliteBackendError::SumOutOfRange);
            }
            current = min;
            above_max = numbers.min_above_max;
        }
    }
    if let Some(max) = max {
        if above_max {
            if !clamp {
                return Err(SqliteBackendError::SumOutOfRange);
            }
            current = max;
        }
    }
    Ok(SumOperand::Number(current))
}

} // verus!
