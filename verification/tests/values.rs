use denokv_sqlite::bytes::{le64_decode, le64_encode};
use denokv_sqlite::clock::{to_unsigned, MAX_MILLIS, MIN_MILLIS};
use denokv_sqlite::decimal::push_decimal;
use denokv_sqlite::error::{
    after_commit, run_tx, sqlite_retry_loop, ErrorCode, RetryStep, SqliteBackendError,
    SqliteFailure, TxEnd, RETRY_DELAY_END_MS, RETRY_DELAY_MIN_MS,
};
use denokv_sqlite::le64::{mutate_le64, number_operand, Le64Op};
use denokv_sqlite::sum::{
    check_parameters, limit_numbers, sum_values, NumberSum, SumOperand, SumParameters, SumStep,
};
use denokv_sqlite::value::{
    decode_value, encode_value, encode_value_owned, KvValue, VALUE_ENCODING_BYTES,
    VALUE_ENCODING_LE64, VALUE_ENCODING_V8,
};
use denokv_sqlite::versionstamp::{
    same_versionstamp, version_to_versionstamp, versionstamped_key,
};
use num_bigint::BigInt;

fn busy() -> SqliteFailure {
    SqliteFailure { code: ErrorCode::DatabaseBusy, message: "database is locked".to_string() }
}

fn broken() -> SqliteFailure {
    SqliteFailure { code: ErrorCode::Other, message: "disk I/O error".to_string() }
}

fn big(n: i128) -> SumOperand {
    SumOperand::BigInt(BigInt::from(n).to_signed_bytes_le())
}

fn big_value(operand: &SumOperand) -> BigInt {
    match operand {
        SumOperand::BigInt(bytes) => BigInt::from_signed_bytes_le(bytes),
        _ => panic!("not a big integer"),
    }
}

fn parameters(
    operand: SumOperand,
    min: Option<SumOperand>,
    max: Option<SumOperand>,
) -> SumParameters {
    SumParameters { operand, min, max }
}

fn sum_of(old: SumOperand, parameters: SumParameters, clamp: bool) -> SumOperand {
    match sum_values(&old, &parameters, clamp) {
        SumStep::Done(Ok(sum)) => sum,
        _ => panic!("no sum"),
    }
}

fn sum_error(old: SumOperand, parameters: SumParameters, clamp: bool) -> String {
    match sum_values(&old, &parameters, clamp) {
        SumStep::Done(Err(e)) => e.message(),
        _ => panic!("no error"),
    }
}

#[test]
fn a_number_is_stored_in_eight_bytes() {
    let (bytes, encoding) = encode_value(&KvValue::U64(0x0102));
    assert_eq!(bytes, vec![2, 1, 0, 0, 0, 0, 0, 0]);
    assert_eq!(encoding, 2);
    assert_eq!(decode_value(bytes, encoding), Some(KvValue::U64(0x0102)));
}

#[test]
fn numbers_are_little_endian() {
    for n in [0, 1, 255, 256, 0x0123_4567_89ab_cdef, u64::MAX - 1, u64::MAX] {
        let bytes = le64_encode(n);
        assert_eq!(bytes, n.to_le_bytes().to_vec());
        assert_eq!(le64_decode(&bytes), n);
    }
}

#[test]
fn values_are_encoded_as_the_protocol_says() {
    assert_eq!(VALUE_ENCODING_V8, denokv_proto::VALUE_ENCODING_V8);
    assert_eq!(VALUE_ENCODING_LE64, denokv_proto::VALUE_ENCODING_LE64);
    assert_eq!(VALUE_ENCODING_BYTES, denokv_proto::VALUE_ENCODING_BYTES);
    let cases = vec![
        (KvValue::V8(vec![1, 2, 3]), denokv_proto::KvValue::V8(vec![1, 2, 3])),
        (KvValue::Bytes(vec![]), denokv_proto::KvValue::Bytes(vec![])),
        (KvValue::U64(u64::MAX), denokv_proto::KvValue::U64(u64::MAX)),
    ];
    for (ours, theirs) in cases {
        let (bytes, encoding) = encode_value(&ours);
        let (expected, expected_encoding) = denokv_proto::encode_value(&theirs);
        assert_eq!(bytes, expected.to_vec());
        assert_eq!(encoding, expected_encoding);
        let copy = ours.copy();
        assert_eq!(encode_value_owned(ours), (bytes.clone(), encoding));
        assert_eq!(decode_value(bytes, encoding), Some(copy));
    }
}

#[test]
fn an_unknown_encoding_does_not_decode() {
    for encoding in [0, 4, -1, i64::MAX] {
        assert_eq!(decode_value(vec![1], encoding), None);
        assert!(denokv_proto::decode_value(vec![1], encoding).is_none());
    }
}

#[test]
fn a_versionstamp_is_the_version_and_two_zeros() {
    assert_eq!(version_to_versionstamp(0x0102), [0, 0, 0, 0, 0, 0, 1, 2, 0, 0]);
    assert_eq!(version_to_versionstamp(-1), [255, 255, 255, 255, 255, 255, 255, 255, 0, 0]);
    assert_eq!(version_to_versionstamp(i64::MAX)[..8], i64::MAX.to_be_bytes());
}

#[test]
fn later_versions_have_greater_versionstamps() {
    for (earlier, later) in [(0, 1), (255, 256), (1, i64::MAX), (65535, 65536)] {
        assert!(version_to_versionstamp(earlier) < version_to_versionstamp(later));
        assert!(!same_versionstamp(
            &version_to_versionstamp(earlier),
            &version_to_versionstamp(later)
        ));
    }
    assert!(same_versionstamp(&version_to_versionstamp(7), &version_to_versionstamp(7)));
}

#[test]
fn a_suffixed_key_ends_in_the_versionstamp_in_hex() {
    let key = versionstamped_key(&vec![1, 2], 0xabc);
    let mut expected = vec![1, 2, 2];
    expected.extend_from_slice(b"0000000000000abc0000");
    expected.push(0);
    assert_eq!(key, expected);
    assert!(versionstamped_key(&vec![1], 9) < versionstamped_key(&vec![1], 10));
}

#[test]
fn numbers_are_written_in_decimal() {
    for n in [0, 7, 10, 100, 18_446_744_073_709_551_615] {
        let mut text = String::from("n=");
        push_decimal(&mut text, n);
        assert_eq!(text, format!("n={n}"));
    }
}

#[test]
fn errors_are_shown() {
    assert_eq!(SqliteBackendError::SqliteError(broken()).message(), "disk I/O error");
    assert_eq!(SqliteBackendError::GenericError("odd".to_string()).message(), "odd");
    assert_eq!(SqliteBackendError::DatabaseClosed.message(), "Database is closed.");
    assert_eq!(
        SqliteBackendError::WriteDisabled.message(),
        "Can not write to a read-only database."
    );
    assert_eq!(
        SqliteBackendError::UnknownValueEncoding(42).message(),
        "The value encoding 42 is unknown."
    );
    assert_eq!(
        SqliteBackendError::UnknownValueEncoding(i64::MIN).message(),
        "The value encoding -9223372036854775808 is unknown."
    );
    assert_eq!(SqliteBackendError::TypeMismatch("no".to_string()).message(), "no");
    assert_eq!(
        SqliteBackendError::SumOutOfRange.message(),
        "The result of a Sum operation would exceed its range limit"
    );
}

#[test]
fn only_a_busy_database_is_tried_again() {
    for _ in 0..200 {
        match sqlite_retry_loop::<u8>(Err(SqliteBackendError::SqliteError(busy()))) {
            RetryStep::Retry { delay_ms } => {
                assert!(delay_ms >= RETRY_DELAY_MIN_MS && delay_ms < RETRY_DELAY_END_MS);
            }
            RetryStep::Return(_) => panic!("given up"),
        }
    }
    assert!(matches!(sqlite_retry_loop(Ok(3)), RetryStep::Return(Ok(3))));
    assert!(matches!(
        sqlite_retry_loop::<u8>(Err(SqliteBackendError::SqliteError(broken()))),
        RetryStep::Return(Err(SqliteBackendError::SqliteError(_)))
    ));
    assert!(matches!(
        sqlite_retry_loop::<u8>(Err(SqliteBackendError::SumOutOfRange)),
        RetryStep::Return(Err(SqliteBackendError::SumOutOfRange))
    ));
}

#[test]
fn the_pauses_before_another_try_vary() {
    let mut seen = vec![];
    for _ in 0..400 {
        if let RetryStep::Retry { delay_ms } =
            sqlite_retry_loop::<u8>(Err(SqliteBackendError::SqliteError(busy())))
        {
            if !seen.contains(&delay_ms) {
                seen.push(delay_ms);
            }
        }
    }
    assert!(seen.len() > 1);
}

#[test]
fn a_transaction_is_committed_where_its_body_succeeds() {
    assert!(matches!(run_tx(Ok(1)), TxEnd::Commit(1)));
    assert!(matches!(
        run_tx::<u8>(Err(SqliteBackendError::WriteDisabled)),
        TxEnd::Rollback(SqliteBackendError::WriteDisabled)
    ));
    assert!(matches!(after_commit(1, Ok(())), Ok(1)));
    assert!(matches!(
        after_commit(1, Err(busy())),
        Err(SqliteBackendError::SqliteError(SqliteFailure { code: ErrorCode::DatabaseBusy, .. }))
    ));
}

#[test]
fn the_clock_has_the_range_of_chrono() {
    let first = chrono::DateTime::<chrono::Utc>::MIN_UTC.timestamp_millis();
    let last = chrono::DateTime::<chrono::Utc>::MAX_UTC.timestamp_millis();
    assert_eq!((first, last), (MIN_MILLIS, MAX_MILLIS));
    assert!(chrono::DateTime::from_timestamp_millis(MIN_MILLIS).is_some());
    assert!(chrono::DateTime::from_timestamp_millis(MIN_MILLIS - 1).is_none());
    assert!(chrono::DateTime::from_timestamp_millis(MAX_MILLIS).is_some());
    assert!(chrono::DateTime::from_timestamp_millis(MAX_MILLIS + 1).is_none());
}

#[test]
fn times_before_the_epoch_wrap_around() {
    for ms in [0, 1, i64::MAX, -1, -5000, i64::MIN] {
        assert_eq!(to_unsigned(ms), ms as u64);
    }
}

#[test]
fn stored_numbers_are_combined() {
    let stored = |n: u64| Some((n.to_le_bytes().to_vec(), VALUE_ENCODING_LE64));
    let result = |op: Le64Op, operand: u64, old| {
        let (bytes, encoding) = mutate_le64(op, operand, old).unwrap();
        assert_eq!(encoding, VALUE_ENCODING_LE64);
        le64_decode(&bytes)
    };
    assert_eq!(result(Le64Op::Sum, 3, stored(4)), 7);
    assert_eq!(result(Le64Op::Sum, 3, stored(u64::MAX)), 2);
    assert_eq!(result(Le64Op::Min, 3, stored(4)), 3);
    assert_eq!(result(Le64Op::Min, 5, stored(4)), 4);
    assert_eq!(result(Le64Op::Max, 3, stored(4)), 4);
    assert_eq!(result(Le64Op::Max, 5, stored(4)), 5);
    for op in [Le64Op::Sum, Le64Op::Min, Le64Op::Max] {
        assert_eq!(result(op, 9, None), 9);
    }
}

#[test]
fn numbers_combine_with_numbers_only() {
    assert_eq!(number_operand(Le64Op::Sum, &KvValue::U64(5)).unwrap(), 5);
    assert_eq!(
        number_operand(Le64Op::Min, &KvValue::Bytes(vec![1])).unwrap_err().message(),
        "Failed to perform 'min' mutation on a non-U64 operand"
    );
    assert_eq!(
        mutate_le64(Le64Op::Max, 1, Some((vec![1], VALUE_ENCODING_BYTES)))
            .unwrap_err()
            .message(),
        "Failed to perform 'max' mutation on a non-U64 value in the database"
    );
    assert!(matches!(
        mutate_le64(Le64Op::Sum, 1, Some((vec![1], 99))),
        Err(SqliteBackendError::UnknownValueEncoding(99))
    ));
}

#[test]
fn sums_of_numbers_come_in_any_order() {
    let sum = Le64Op::Sum;
    for (a, b, c) in [(1, 2, 3), (u64::MAX, 1, 5), (u64::MAX, u64::MAX, u64::MAX)] {
        assert_eq!(sum.combine(sum.combine(a, b), c), sum.combine(sum.combine(a, c), b));
    }
    assert_eq!(sum.combine(u64::MAX, 1), 0);
}

#[test]
fn minima_and_maxima_are_idempotent() {
    for (a, b) in [(1, 2), (2, 1), (3, 3)] {
        let min = Le64Op::Min.combine(a, b);
        let max = Le64Op::Max.combine(a, b);
        assert_eq!((min, max), (a.min(b), a.max(b)));
        assert_eq!(Le64Op::Min.combine(min, b), min);
        assert_eq!(Le64Op::Max.combine(max, b), max);
    }
}

#[test]
fn big_integers_are_added() {
    let wide = i128::MAX - 5;
    for (a, b) in [(1, 2), (-1, 1), (127, 1), (-128, -1), (wide, 5), (wide, -wide)] {
        let sum = sum_of(big(a), parameters(big(b), None, None), false);
        assert_eq!(big_value(&sum), BigInt::from(a) + BigInt::from(b));
    }
    let sum = sum_of(big(i128::MAX), parameters(big(i128::MAX), None, None), true);
    assert_eq!(big_value(&sum), BigInt::from(i128::MAX) * 2);
}

#[test]
fn a_sum_keeps_to_its_limits() {
    let with = |min, max| parameters(big(10), min, max);
    let exact = sum_of(big(5), with(Some(big(15)), Some(big(15))), false);
    assert_eq!(big_value(&exact), BigInt::from(15));
    for clamped in [false, true] {
        let low = with(Some(big(16)), None);
        let high = with(None, Some(big(14)));
        if clamped {
            assert_eq!(big_value(&sum_of(big(5), low, true)), BigInt::from(16));
            assert_eq!(big_value(&sum_of(big(5), high, true)), BigInt::from(14));
        } else {
            let text = SqliteBackendError::SumOutOfRange.message();
            assert_eq!(sum_error(big(5), low, false), text);
            assert_eq!(sum_error(big(5), high, false), text);
        }
    }
    let crossed = with(Some(big(20)), Some(big(10)));
    assert_eq!(big_value(&sum_of(big(5), crossed, true)), BigInt::from(10));
}

#[test]
fn a_big_integer_adds_to_a_stored_number() {
    let operand = |n| parameters(big(n), None, None);
    assert_eq!(
        sum_of(SumOperand::KvU64(7), operand(8), false),
        SumOperand::KvU64(15)
    );
    assert_eq!(
        sum_of(SumOperand::KvU64(7), operand(u64::MAX as i128), false),
        SumOperand::KvU64(6)
    );
    let refused = "Cannot sum KvU64 with BigInt";
    assert_eq!(sum_error(SumOperand::KvU64(7), operand(-1), false), refused);
    assert_eq!(sum_error(SumOperand::KvU64(7), operand(u64::MAX as i128 + 1), false), refused);
    assert_eq!(sum_error(SumOperand::KvU64(7), operand(8), true), refused);
    let limited = parameters(big(8), Some(big(0)), None);
    assert_eq!(sum_error(SumOperand::KvU64(7), limited, false), refused);
}

#[test]
fn operands_of_two_types_are_not_added() {
    assert_eq!(
        sum_error(big(1), parameters(SumOperand::Number(0), None, None), false),
        "Cannot sum BigInt with Number"
    );
    assert_eq!(
        sum_error(SumOperand::Number(0), parameters(SumOperand::KvU64(1), None, None), false),
        "Cannot sum Number with KvU64"
    );
    let limit = parameters(SumOperand::KvU64(1), Some(SumOperand::KvU64(0)), None);
    assert_eq!(
        sum_error(SumOperand::KvU64(1), limit, false),
        "Cannot use min/max parameters with KvU64 operands"
    );
    assert_eq!(
        sum_of(SumOperand::KvU64(2), parameters(SumOperand::KvU64(3), None, None), false),
        SumOperand::KvU64(5)
    );
}

#[test]
fn the_parameters_of_a_sum_are_checked() {
    let message = |operand, min, max| match check_parameters(operand, min, max) {
        Ok(_) => String::new(),
        Err(e) => e.message(),
    };
    let bad = || "bad".to_string();
    let unreadable = "Some of the parameters are not valid V8 values";
    assert_eq!(message(Err(bad()), Ok(None), Ok(None)), unreadable);
    assert_eq!(message(Ok(big(1)), Err(bad()), Ok(None)), unreadable);
    assert_eq!(message(Ok(big(1)), Ok(None), Err(bad())), unreadable);
    let types = "Min/max parameters have different types than the operand";
    assert_eq!(message(Ok(big(1)), Ok(Some(SumOperand::Number(0))), Ok(None)), types);
    assert_eq!(message(Ok(big(1)), Ok(None), Ok(Some(SumOperand::KvU64(0)))), types);
    assert_eq!(message(Ok(big(1)), Ok(Some(big(0))), Ok(Some(big(9)))), "");
}

#[test]
fn doubles_are_handed_on_with_their_limits() {
    let bits = |x: f64| x.to_bits();
    let limits = parameters(
        SumOperand::Number(bits(1.5)),
        Some(SumOperand::Number(bits(0.0))),
        Some(SumOperand::Number(bits(2.0))),
    );
    match sum_values(&SumOperand::Number(bits(2.5)), &limits, false) {
        SumStep::AddNumbers { current, operand, min, max } => {
            assert_eq!((current, operand), (bits(2.5), bits(1.5)));
            assert_eq!((min, max), (Some(bits(0.0)), Some(bits(2.0))));
        }
        SumStep::Done(_) => panic!("not handed on"),
    }
}

#[test]
fn a_sum_of_doubles_keeps_to_its_limits() {
    let bits = |x: f64| x.to_bits();
    let sum = |below_min, above_max, min_above_max| NumberSum {
        sum: bits(4.0),
        below_min,
        above_max,
        min_above_max,
    };
    let (min, max) = (Some(bits(1.0)), Some(bits(3.0)));
    let held = |numbers, min, max, clamp| limit_numbers(numbers, min, max, clamp).unwrap();
    assert_eq!(held(sum(false, false, false), min, max, false), SumOperand::Number(bits(4.0)));
    assert_eq!(held(sum(false, true, false), min, max, true), SumOperand::Number(bits(3.0)));
    assert_eq!(held(sum(true, false, false), min, max, true), SumOperand::Number(bits(1.0)));
    assert_eq!(held(sum(true, false, true), min, max, true), SumOperand::Number(bits(3.0)));
    assert_eq!(held(sum(true, true, true), None, None, false), SumOperand::Number(bits(4.0)));
    for numbers in [sum(true, false, false), sum(false, true, false)] {
        assert!(matches!(
            limit_numbers(numbers, min, max, false),
            Err(SqliteBackendError::SumOutOfRange)
        ));
    }
}
