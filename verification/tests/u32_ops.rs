use miden_vm::process::{ExecutionError, Process};
use winter_rand_utils::rand_value;

const MIN_STACK_DEPTH: usize = 16;
const NUM_USER_OP_HELPERS: usize = 6;

fn process_with(inputs: &[u64]) -> Process {
    Process::new_dummy(&inputs.to_vec())
}

fn get_rand_values() -> (u32, u32, u32, u32) {
    let a = rand_value::<u64>() as u32;
    let b = rand_value::<u64>() as u32;
    let c = rand_value::<u64>() as u32;
    let d = rand_value::<u64>() as u32;
    (d, c, b, a)
}

fn build_expected(values: &[u32]) -> [u64; MIN_STACK_DEPTH] {
    let mut expected = [0u64; MIN_STACK_DEPTH];
    for (&value, result) in values.iter().zip(expected.iter_mut()) {
        *result = value as u64;
    }
    expected
}

fn build_expected_helper_registers(values: &[u32]) -> [u64; NUM_USER_OP_HELPERS] {
    let mut expected = [0u64; NUM_USER_OP_HELPERS];
    for (&value, result) in values.iter().zip(expected.iter_mut()) {
        *result = value as u64;
    }
    expected
}

fn split_u32_into_u16(value: u64) -> (u16, u16) {
    ((value >> 16) as u16, value as u16)
}

// CASTING OPERATIONS
// ------------------------------------------------------------------------------------------------

#[test]
fn op_u32split() {
    // --- test a random value ---------------------------------------------
    let a: u64 = rand_value::<u64>() % 18446744069414584321;
    let mut process = process_with(&[a]);
    let hi = a >> 32;
    let lo = (a as u32) as u64;

    process.op_u32split().unwrap();
    let mut expected = [0u64; 16];
    expected[0] = hi;
    expected[1] = lo;
    assert_eq!(expected, process.trace_state());

    // --- test the rest of the stack is not modified -----------------------
    let b: u64 = rand_value::<u64>() % 18446744069414584321;
    let mut process = process_with(&[a, b]);
    let hi = b >> 32;
    let lo = (b as u32) as u64;

    process.op_u32split().unwrap();
    let mut expected = [0u64; 16];
    expected[0] = hi;
    expected[1] = lo;
    expected[2] = a;
    assert_eq!(expected, process.trace_state());
}

#[test]
fn op_u32assert2() {
    // --- test random values ensuring other elements are still values are still intact -------
    let (a, b, c, d) = get_rand_values();
    let mut process = process_with(&[d as u64, c as u64, b as u64, a as u64]);

    process.op_u32assert2(0).unwrap();
    let expected = build_expected(&[a, b, c, d]);
    assert_eq!(expected, process.trace_state());
}

#[test]
fn op_u32assert2_both_invalid() {
    // Both values > u32::MAX (4294967296 = 2^32, 4294967297 = 2^32 + 1)
    let mut process = process_with(&[4294967297u64, 4294967296u64]);

    let result = process.op_u32assert2(123);
    assert!(result.is_err());

    if let Err(ExecutionError::NotU32Values { values, err_code }) = result {
        assert_eq!(err_code, 123);
        assert_eq!(values.len(), 2);
        // Values are collected in stack order: stack[0] (top) first, then stack[1]
        assert_eq!(values[0], 4294967296u64); // stack[0] = top value
        assert_eq!(values[1], 4294967297u64); // stack[1] = second value
    } else {
        panic!("Expected NotU32Values error");
    }
}

#[test]
fn op_u32assert2_second_invalid() {
    // First value valid, second invalid
    let mut process = process_with(&[4294967297u64, 1000u64]);

    let result = process.op_u32assert2(456);
    assert!(result.is_err());

    if let Err(ExecutionError::NotU32Values { values, err_code }) = result {
        assert_eq!(err_code, 456);
        assert_eq!(values.len(), 1);
        assert_eq!(values[0], 4294967297u64);
    } else {
        panic!("Expected NotU32Values error");
    }
}

#[test]
fn op_u32assert2_first_invalid() {
    // First value invalid, second valid
    let mut process = process_with(&[2000u64, 4294967296u64]);

    let result = process.op_u32assert2(789);
    assert!(result.is_err());

    if let Err(ExecutionError::NotU32Values { values, err_code }) = result {
        assert_eq!(err_code, 789);
        assert_eq!(values.len(), 1);
        assert_eq!(values[0], 4294967296u64);
    } else {
        panic!("Expected NotU32Values error");
    }
}

// ARITHMETIC OPERATIONS
// ------------------------------------------------------------------------------------------------

#[test]
fn op_u32add() {
    // --- test random values ---------------------------------------------
    let (a, b, c, d) = get_rand_values();
    let mut process = process_with(&[d as u64, c as u64, b as u64, a as u64]);

    let (result, over) = a.overflowing_add(b);

    process.op_u32add().unwrap();
    let expected = build_expected(&[over as u32, result, c, d]);
    assert_eq!(expected, process.trace_state());

    // --- test overflow --------------------------------------------------
    let a = u32::MAX - 1;
    let b = 2u32;

    let mut process = process_with(&[a as u64, b as u64]);
    let (result, over) = a.overflowing_add(b);
    let (b1, b0) = split_u32_into_u16(result.into());

    process.op_u32add().unwrap();
    let expected = build_expected(&[over as u32, result]);
    assert_eq!(expected, process.trace_state());

    let expected_helper_registers =
        build_expected_helper_registers(&[b0 as u32, b1 as u32, over as u32]);
    assert_eq!(expected_helper_registers, process.get_user_op_helpers());
}

#[test]
fn op_u32add3() {
    let a = rand_value::<u32>() as u64;
    let b = rand_value::<u32>() as u64;
    let c = rand_value::<u32>() as u64;
    let d = rand_value::<u32>() as u64;

    let mut process = process_with(&[d, c, b, a]);

    let result = a + b + c;
    let hi = (result >> 32) as u32;
    let lo = result as u32;
    assert!(hi <= 2);

    process.op_u32add3().unwrap();
    let expected = build_expected(&[hi, lo, d as u32]);
    assert_eq!(expected, process.trace_state());

    // --- test with minimum stack depth ----------------------------------
    let mut process = process_with(&[]);
    assert!(process.op_u32add3().is_ok());
}

#[test]
fn op_u32sub() {
    // --- test random values ---------------------------------------------
    let (a, b, c, d) = get_rand_values();
    let mut process = process_with(&[d as u64, c as u64, b as u64, a as u64]);
    let (result, under) = b.overflowing_sub(a);

    process.op_u32sub().unwrap();
    let expected = build_expected(&[under as u32, result, c, d]);
    assert_eq!(expected, process.trace_state());

    // --- test underflow -------------------------------------------------
    let a = 10u32;
    let b = 11u32;

    let mut process = process_with(&[a as u64, b as u64]);
    let (result, under) = a.overflowing_sub(b);

    process.op_u32sub().unwrap();
    let expected = build_expected(&[under as u32, result]);
    assert_eq!(expected, process.trace_state());
}

#[test]
fn op_u32mul() {
    let (a, b, c, d) = get_rand_values();
    let mut process = process_with(&[d as u64, c as u64, b as u64, a as u64]);
    let result = (a as u64) * (b as u64);
    let hi = (result >> 32) as u32;
    let lo = result as u32;

    process.op_u32mul().unwrap();
    let expected = build_expected(&[hi, lo, c, d]);
    assert_eq!(expected, process.trace_state());
}

#[test]
fn op_u32madd() {
    let (a, b, c, d) = get_rand_values();
    let mut process = process_with(&[d as u64, c as u64, b as u64, a as u64]);
    let result = (a as u64) * (b as u64) + (c as u64);
    let hi = (result >> 32) as u32;
    let lo = result as u32;

    process.op_u32madd().unwrap();
    let expected = build_expected(&[hi, lo, d]);
    assert_eq!(expected, process.trace_state());

    // --- test with minimum stack depth ----------------------------------
    let mut process = process_with(&[]);
    assert!(process.op_u32madd().is_ok());
}

#[test]
fn op_u32div() {
    let (a, b, c, d) = get_rand_values();
    let a = a.max(1);
    let mut process = process_with(&[d as u64, c as u64, b as u64, a as u64]);
    let q = b / a;
    let r = b % a;

    process.op_u32div().unwrap();
    let expected = build_expected(&[r, q, c, d]);
    assert_eq!(expected, process.trace_state());
}

// BITWISE OPERATIONS
// ------------------------------------------------------------------------------------------------

#[test]
fn op_u32and() {
    let (a, b, c, d) = get_rand_values();
    let mut process = process_with(&[d as u64, c as u64, b as u64, a as u64]);

    process.op_u32and().unwrap();
    let expected = build_expected(&[a & b, c, d]);
    assert_eq!(expected, process.trace_state());

    // --- test with minimum stack depth ----------------------------------
    let mut process = process_with(&[]);
    assert!(process.op_u32and().is_ok());
}

#[test]
fn op_u32xor() {
    let (a, b, c, d) = get_rand_values();
    let mut process = process_with(&[d as u64, c as u64, b as u64, a as u64]);

    process.op_u32xor().unwrap();
    let expected = build_expected(&[a ^ b, c, d]);
    assert_eq!(expected, process.trace_state());

    // --- test with minimum stack depth ----------------------------------
    let mut process = process_with(&[]);
    assert!(process.op_u32xor().is_ok());
}

// OWN CASES
// ------------------------------------------------------------------------------------------------

#[test]
fn u32div_by_zero_fails_and_leaves_the_state() {
    let mut process = process_with(&[7, 0]);
    let before = process.trace_state();
    assert_eq!(process.op_u32div(), Err(ExecutionError::DivideByZero { clk: 0 }));
    assert_eq!(before, process.trace_state());
}

#[test]
fn u32mul_sets_the_element_validity_helper() {
    // 2^32 - 1 squared has high half 2^32 - 2, so the helper is the inverse of 1
    let mut process = process_with(&[u32::MAX as u64, u32::MAX as u64]);
    process.op_u32mul().unwrap();
    let helpers = process.get_user_op_helpers();
    assert_eq!(helpers[4], 1);
    assert_eq!(helpers[5], 0);
    // high half 2^32 - 1 (from u32split of 2^64 - 2^32) gives a zero helper
    let mut process = process_with(&[18446744069414584320]);
    process.op_u32split().unwrap();
    assert_eq!(process.get_user_op_helpers()[4], 0);
    assert_eq!(process.trace_state()[0], u32::MAX as u64);
}

#[test]
fn u32split_helper_is_an_inverse() {
    let p: u128 = 18446744069414584321;
    let mut process = process_with(&[5u64 << 32]);
    process.op_u32split().unwrap();
    let m = process.get_user_op_helpers()[4] as u128;
    assert_eq!((m * (u32::MAX as u128 - 5)) % p, 1);
}

#[test]
fn range_checks_are_recorded() {
    let mut process = process_with(&[0x0001_0002, 0x0003_0004]);
    process.op_u32add().unwrap();
    let sum: u64 = 0x0001_0002 + 0x0003_0004;
    assert_eq!(process.range_checks, vec![(sum & 0xffff) as u16, (sum >> 16) as u16, 0, 0]);
}
