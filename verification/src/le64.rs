//! The mutations that combine two 64-bit numbers.

use crate::error::{Fault, SqliteBackendError};
use crate::sum::wrapped_sum;
use crate::value::{
    decode_value, decoded, encode_value_owned, encoded, well_encoded, KvValue, Value,
};
use crate::views::result_view;
use vstd::prelude::*;
use vstd::string::StringExecFns;

verus! {

/// How a mutation combines the stored number with its operand.
#[derive(Clone, Copy, Debug, PartialEq, Eq, Structural)]
pub enum Le64Op {
    /// The sum, which wraps around.
    Sum,
    /// The smaller of the two.
    Min,
    /// The greater of the two.
    Max,
}

/// The name by which error messages call the mutation.
pub open spec fn op_text(op: Le64Op) -> Seq<char> {
    match op {
        Le64Op::Sum => "sum"@,
        Le64Op::Min => "min"@,
        Le64Op::Max => "max"@,
    }
}

/// The stored number `a` combined with the operand `b`.
pub open spec fn combined(op: Le64Op, a: u64, b: u64) -> u64 {
    match op {
        Le64Op::Sum => wrapped_sum(a, b),
        Le64Op::Min => if b < a {
            b
        } else {
            a
        },
        Le64Op::Max => if b > a {
            b
        } else {
            a
        },
    }
}

/// The operand of a mutation, which must be a number.
pub open spec fn le64_operand(op: Le64Op, operand: Value) -> Result<u64, Fault> {
    match operand {
        Value::U64(n) => Ok(n),
        _ => Err(
            Fault::TypeMismatch(
                "Failed to perform '"@ + op_text(op) + "' mutation on a non-U64 operand"@,
            ),
        ),
    }
}

/// The number that a mutation stores: the operand where nothing was stored,
/// the combination where a number was, and an error where something else was.
pub open spec fn le64_stored(op: Le64Op, operand: u64, old: Option<(Seq<u8>, i64)>) -> Result<
    u64,
    Fault,
> {
    match old {
        None => Ok(operand),
        Some((bytes, encoding)) => match decoded(bytes, encoding) {
            None => Err(Fault::UnknownValueEncoding(encoding)),
            Some(Value::U64(current)) => Ok(combined(op, current, operand)),
            Some(_) => Err(
                Fault::TypeMismatch(
                    "Failed to perform '"@ + op_text(op)
                        + "' mutation on a non-U64 value in the database"@,
                ),
            ),
        },
    }
}

impl Le64Op {
    /// The name by which error messages call the mutation.
    pub fn name(&self) -> (name: &'static str)
        ensures
            name@ == op_text(*self),
    {
        match self {
            Le64Op::Sum => "sum",
            Le64Op::Min => "min",
            Le64Op::Max => "max",
        }
    }

    /// The stored number combined with the operand.
    pub fn combine(&self, current: u64, operand: u64) -> (stored: u64)
        ensures
            stored == combined(*self, current, operand),
    {
        match self {
            Le64Op::Sum => current.wrapping_add(operand),
            Le64Op::Min => if operand < current {
                operand
            } else {
                current
            },
            Le64Op::Max => if operand > current {
                operand
            } else {
                current
            },
        }
    }
}

/// The operand of a mutation.
pub fn number_operand(op: Le64Op, operand: &KvValue) -> (result: Result<u64, SqliteBackendError>)
    ensures
        result_view(result) == le64_operand(op, operand@),
{
    match operand {
        KvValue::U64(n) => Ok(*n),
        _ => {
            let mut text = "Failed to perform '".to_owned();
            text.append(op.name());
            text.append("' mutation on a non-U64 operand");
            Err(SqliteBackendError::TypeMismatch(text))
        },
    }
}

/// What a stored value and its encoding stand for.
pub open spec fn stored_view(stored: Option<(Vec<u8>, i64)>) -> Option<(Seq<u8>, i64)> {
    match stored {
        Some((bytes, encoding)) => Some((bytes@, encoding)),
        None => None,
    }
}

/// Mutates a stored number, which defaults to the operand if it doesn't exist:
/// the bytes and the encoding to store.
pub fn mutate_le64(op: Le64Op, operand: u64, old: Option<(Vec<u8>, i64)>) -> (result: Result<
    (Vec<u8>, i64),
    SqliteBackendError,
>)
    requires
        stored_view(old) matches Some((bytes, encoding)) ==> well_encoded(bytes, encoding),
    ensures
        match (result, le64_stored(op, operand, stored_view(old))) {
            (Ok(stored), Ok(n)) => (stored.0@, stored.1) == encoded(Value::U64(n)),
            (Err(e), Err(fault)) => e@ == fault,
            _ => false,
        },
{
    let new = match old {
        None => operand,
        Some((bytes, encoding)) => match decode_value(bytes, encoding) {
            None => {
                return Err(SqliteBackendError::UnknownValueEncoding(encoding));
            },
            Some(KvValue::U64(current)) => op.combine(current, operand),
            Some(_) => {
                let mut text = "Failed to perform '".to_owned();
                text.append(op.name());
                text.append("' mutation on a non-U64 value in the database");
                return Err(SqliteBackendError::TypeMismatch(text));
            },
        },
    };
    Ok(encode_value_owned(KvValue::U64(new)))
}

} // verus!
