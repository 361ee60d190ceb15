use sectools::arith::{check_arithmetic_safety, IntegerType};

#[test]
fn arith_type_names_parse_case_insensitively() {
    assert_eq!(IntegerType::from_str("u8"), Ok(IntegerType::U8));
    assert_eq!(IntegerType::from_str("I32"), Ok(IntegerType::I32));
    assert_eq!(IntegerType::from_str("U128"), Ok(IntegerType::U128));
    assert_eq!(IntegerType::from_str("i64"), Ok(IntegerType::I64));
    assert_eq!(
        IntegerType::from_str("bogus"),
        Err(
            "Invalid integer type specified. Choose from u8, i8, u16, i16, u32, i32, u64, i64, u128, i128."
        )
    );
}

#[test]
fn arith_addition_in_and_out_of_range() {
    assert_eq!(
        check_arithmetic_safety("100 + 27", &IntegerType::U8),
        "OK: 100 + 27 = 127"
    );
    assert_eq!(
        check_arithmetic_safety("200 + 100", &IntegerType::U8),
        "WARNING: Overflow detected for 200 + 100 as u8"
    );
}

#[test]
fn arith_subtraction_underflow() {
    assert_eq!(
        check_arithmetic_safety("0 - 1", &IntegerType::U8),
        "WARNING: Underflow detected for 0 - 1 as u8"
    );
    assert_eq!(
        check_arithmetic_safety("-128 - 1", &IntegerType::I8),
        "WARNING: Underflow detected for -128 - 1 as i8"
    );
    assert_eq!(
        check_arithmetic_safety("5 - 9", &IntegerType::I8),
        "OK: 5 - 9 = -4"
    );
}

#[test]
fn arith_multiplication_and_signs() {
    assert_eq!(
        check_arithmetic_safety("16 * 8", &IntegerType::I8),
        "WARNING: Overflow detected for 16 * 8 as i8"
    );
    assert_eq!(
        check_arithmetic_safety("7 * -3", &IntegerType::I32),
        "OK: 7 * -3 = -21"
    );
}

#[test]
fn arith_division_truncates_toward_zero() {
    assert_eq!(
        check_arithmetic_safety("10 / 3", &IntegerType::U32),
        "OK: 10 / 3 = 3"
    );
    assert_eq!(
        check_arithmetic_safety("-7 / 2", &IntegerType::I32),
        "OK: -7 / 2 = -3"
    );
    assert_eq!(
        check_arithmetic_safety("7 / -2", &IntegerType::I32),
        "OK: 7 / -2 = -3"
    );
}

#[test]
fn arith_division_hazards() {
    assert_eq!(
        check_arithmetic_safety("5 / 0", &IntegerType::I32),
        "ERROR: Division by zero detected in expression: 5 / 0"
    );
    assert_eq!(
        check_arithmetic_safety("-128 / -1", &IntegerType::I8),
        "WARNING: Division overflow/underflow detected for -128 / -1 as i8"
    );
}

#[test]
fn arith_malformed_and_invalid_input() {
    assert_eq!(
        check_arithmetic_safety("1 + 2 + 3", &IntegerType::I32),
        "WARN: Skipping malformed expression: 1 + 2 + 3"
    );
    assert_eq!(
        check_arithmetic_safety("abc + 1", &IntegerType::I32),
        "ERROR: Invalid operand 'abc' for type I32 in expression: abc + 1"
    );
    assert_eq!(
        check_arithmetic_safety("300 + 1", &IntegerType::U8),
        "ERROR: Invalid operand '300' for type U8 in expression: 300 + 1"
    );
    assert_eq!(
        check_arithmetic_safety("-1 + 1", &IntegerType::U8),
        "ERROR: Invalid operand '-1' for type U8 in expression: -1 + 1"
    );
    assert_eq!(
        check_arithmetic_safety("1 % 2", &IntegerType::I32),
        "ERROR: Unsupported operator '%' in expression: 1 % 2"
    );
}

#[test]
fn arith_sign_and_whitespace_normalization() {
    assert_eq!(
        check_arithmetic_safety("+5 + 2", &IntegerType::I32),
        "OK: 5 + 2 = 7"
    );
    assert_eq!(
        check_arithmetic_safety("  3   *  4 ", &IntegerType::I64),
        "OK: 3 * 4 = 12"
    );
}

#[test]
fn arith_widest_types() {
    assert_eq!(
        check_arithmetic_safety(
            "340282366920938463463374607431768211455 + 1",
            &IntegerType::U128
        ),
        "WARNING: Overflow detected for 340282366920938463463374607431768211455 + 1 as u128"
    );
    assert_eq!(
        check_arithmetic_safety(
            "-170141183460469231731687303715884105728 / -1",
            &IntegerType::I128
        ),
        "WARNING: Division overflow/underflow detected for -170141183460469231731687303715884105728 / -1 as i128"
    );
    assert_eq!(
        check_arithmetic_safety("-170141183460469231731687303715884105728 / 1", &IntegerType::I128),
        "OK: -170141183460469231731687303715884105728 / 1 = -170141183460469231731687303715884105728"
    );
}
