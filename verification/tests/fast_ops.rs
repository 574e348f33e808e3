use miden_vm::fast_ops::{FMP_MAX, FMP_MIN, FastProcessor};
use miden_vm::process::ExecutionError;
use miden_vm::memory::{Memory, MemoryError};

const P: u64 = 18446744069414584321;

#[test]
fn test_fmp_add() {
    // set the initial FMP to a different value than the default
    let initial_fmp = FMP_MIN + 4;
    let stack_inputs = vec![1u64, 2, 3];

    let mut processor = FastProcessor::new(&stack_inputs);
    processor.fmp = initial_fmp;

    processor.op_fmpadd();

    // Check that the top of the stack is the sum of the initial FMP and the top of the stack input
    let expected_top = initial_fmp + stack_inputs[2];
    assert_eq!(processor.stack_top(1)[0], expected_top);
}

#[test]
fn test_fmp_update() {
    // set the initial FMP to a different value than the default
    let initial_fmp = FMP_MIN + 4;
    let stack_inputs = vec![5u64];

    let mut processor = FastProcessor::new(&stack_inputs);
    processor.fmp = initial_fmp;

    processor.op_fmpupdate().unwrap();

    // Check that the FMP is updated correctly
    let expected_fmp = initial_fmp + stack_inputs[0];
    assert_eq!(processor.fmp, expected_fmp);

    // Check that the top of the stack is popped correctly
    assert_eq!(processor.stack_top(16), vec![0u64; 16]);
}

#[test]
fn test_fmp_update_fail() {
    // set the initial FMP to a value close to FMP_MAX
    let initial_fmp = FMP_MAX - 4;
    let stack_inputs = vec![5u64];

    let mut processor = FastProcessor::new(&stack_inputs);
    processor.fmp = initial_fmp;

    let err = processor.op_fmpupdate().unwrap_err();

    // Check that the error is due to the FMP exceeding FMP_MAX
    assert!(matches!(err, ExecutionError::InvalidFmpValue(_, _)));

    // set the initial FMP to a value close to FMP_MIN
    let initial_fmp = FMP_MIN + 4;
    let stack_inputs = vec![P - 5];

    let mut processor = FastProcessor::new(&stack_inputs);
    processor.fmp = initial_fmp;

    let err = processor.op_fmpupdate().unwrap_err();

    // Check that the error is due to the FMP being less than FMP_MIN
    assert!(matches!(err, ExecutionError::InvalidFmpValue(_, _)));
}

#[test]
fn test_assert() {
    // Case 1: the stack top is ONE
    {
        let stack_inputs = vec![1u64];
        let mut processor = FastProcessor::new(&stack_inputs);
        let result = processor.op_assert(0);

        // Check that the execution succeeds
        assert!(result.is_ok());
    }

    // Case 2: the stack top is not ONE
    {
        let stack_inputs = vec![0u64];
        let mut processor = FastProcessor::new(&stack_inputs);
        let err = processor.op_assert(0).unwrap_err();

        // Check that the error is due to a failed assertion
        assert!(matches!(err, ExecutionError::FailedAssertion { .. }));
    }
}

#[test]
fn field_ops_compute_in_the_field() {
    let mut p = FastProcessor::new(&vec![P - 1, 5]);
    p.op_add();
    assert_eq!(p.stack_top(1), vec![4]);
    let mut p = FastProcessor::new(&vec![3, 7]);
    p.op_mul();
    assert_eq!(p.stack_top(2), vec![21, 0]);
    let mut p = FastProcessor::new(&vec![7]);
    p.op_neg();
    assert_eq!(p.stack_top(1), vec![P - 7]);
    let mut p = FastProcessor::new(&vec![2]);
    p.op_inv().unwrap();
    assert_eq!(((p.stack_top(1)[0] as u128) * 2) % (P as u128), 1);
    let mut p = FastProcessor::new(&vec![0]);
    assert_eq!(p.op_inv(), Err(ExecutionError::DivideByZero { clk: 0 }));
    let mut p = FastProcessor::new(&vec![P - 1]);
    p.op_incr();
    assert_eq!(p.stack_top(1), vec![0]);
}

#[test]
fn boolean_ops_check_their_operands() {
    for (a, b) in [(0u64, 0u64), (0, 1), (1, 0), (1, 1)] {
        let mut p = FastProcessor::new(&vec![a, b]);
        p.op_and().unwrap();
        assert_eq!(p.stack_top(1), vec![a & b]);
        let mut p = FastProcessor::new(&vec![a, b]);
        p.op_or().unwrap();
        assert_eq!(p.stack_top(1), vec![a | b]);
    }
    let mut p = FastProcessor::new(&vec![1, 2]);
    assert_eq!(p.op_and(), Err(ExecutionError::NotBinaryValue { value: 2 }));
    let mut p = FastProcessor::new(&vec![1]);
    p.op_not().unwrap();
    assert_eq!(p.stack_top(1), vec![0]);
    let mut p = FastProcessor::new(&vec![3]);
    assert_eq!(p.op_not(), Err(ExecutionError::NotBinaryValue { value: 3 }));
}

#[test]
fn comparison_ops() {
    let mut p = FastProcessor::new(&vec![9, 9]);
    p.op_eq();
    assert_eq!(p.stack_top(1), vec![1]);
    let mut p = FastProcessor::new(&vec![9, 8]);
    p.op_eq();
    assert_eq!(p.stack_top(1), vec![0]);
    let mut p = FastProcessor::new(&vec![0]);
    p.op_eqz();
    assert_eq!(p.stack_top(1), vec![1]);
}

#[test]
fn expacc_computes_powers() {
    // b^5 with b = 3: three steps of expacc starting from [0, 3, 1, 5]
    let mut p = FastProcessor::new(&vec![5, 1, 3, 0]);
    for _ in 0..3 {
        p.op_expacc();
    }
    let top = p.stack_top(4);
    assert_eq!(top[2], 243);
    assert_eq!(top[3], 0);
}

#[test]
fn ext2mul_multiplies_extension_elements() {
    // stack [b1, b0, a1, a0] = [0, 3, 0, 2]: (2) * (3) = 6
    let mut p = FastProcessor::new(&vec![2, 0, 3, 0]);
    p.op_ext2mul();
    assert_eq!(p.stack_top(4), vec![0, 3, 0, 6]);
}

#[test]
fn stack_ops() {
    let mut p = FastProcessor::new(&(1..=16).collect::<Vec<u64>>());
    p.op_swap();
    assert_eq!(p.stack_top(2), vec![15, 16]);
    p.op_swap_double_word();
    assert_eq!(p.stack_top(9), vec![8, 7, 6, 5, 4, 3, 2, 1, 15]);
    p.dup_nth(2);
    assert_eq!(p.stack_top(1), vec![6]);
    p.op_pad();
    p.op_push(42);
    assert_eq!(p.stack_top(2), vec![42, 0]);
    p.op_sdepth();
    assert_eq!(p.stack_top(1), vec![19]);

    let mut p = FastProcessor::new(&vec![20, 10, 1]);
    p.op_cswap().unwrap();
    assert_eq!(p.stack_top(2), vec![20, 10]);
    let mut p = FastProcessor::new(&vec![20, 10, 0]);
    p.op_cswap().unwrap();
    assert_eq!(p.stack_top(2), vec![10, 20]);
    let mut p = FastProcessor::new(&vec![20, 10, 2]);
    assert_eq!(p.op_cswap(), Err(ExecutionError::NotBinaryValue { value: 2 }));

    let mut p = FastProcessor::new(&vec![8, 7, 6, 5, 4, 3, 2, 1, 1]);
    p.op_cswapw().unwrap();
    assert_eq!(p.stack_top(8), vec![5, 6, 7, 8, 1, 2, 3, 4]);
}

#[test]
fn system_ops() {
    let mut p = FastProcessor::new(&vec![]);
    assert_eq!(p.op_caller(), Err(ExecutionError::CallerNotInSyscall));
    p.in_syscall = true;
    p.caller_hash = [1, 2, 3, 4];
    p.op_caller().unwrap();
    assert_eq!(p.stack_top(4), vec![4, 3, 2, 1]);
    p.clk = 77;
    p.op_clk();
    assert_eq!(p.stack_top(1), vec![77]);
}

const MODULUS: u128 = 18446744069414584321;

fn fadd(a: u64, b: u64) -> u64 {
    ((a as u128 + b as u128) % MODULUS) as u64
}

fn fmul(a: u64, b: u64) -> u64 {
    ((a as u128 * b as u128) % MODULUS) as u64
}

fn fsub(a: u64, b: u64) -> u64 {
    ((a as u128 + MODULUS - b as u128) % MODULUS) as u64
}

/// (a0 + a1 x)(b0 + b1 x) with x^2 = x - 2.
fn qmul(a: (u64, u64), b: (u64, u64)) -> (u64, u64) {
    let a0b0 = fmul(a.0, b.0);
    let a1b1 = fmul(a.1, b.1);
    let c0 = fsub(a0b0, fmul(2, a1b1));
    let c1 = fadd(fadd(fmul(a.0, b.1), fmul(a.1, b.0)), a1b1);
    (c0, c1)
}

fn qadd(a: (u64, u64), b: (u64, u64)) -> (u64, u64) {
    (fadd(a.0, b.0), fadd(a.1, b.1))
}

#[test]
fn horner_eval_base_accumulates_eight_coefficients() {
    // stack, top first: c0..c7, then positions 8..12, alpha address, acc high, acc low
    let top_first: Vec<u64> = vec![3, 1, 4, 1, 5, 9, 2, 6, 0, 0, 0, 0, 0, 40, 7, 11];
    let inputs: Vec<u64> = top_first.iter().rev().cloned().collect();
    let mut p = FastProcessor::new(&inputs);
    let alpha = (5u64, 17u64);
    let mut memory = Memory::new();
    memory.write_word(40, [alpha.0, alpha.1, 99, 98]);
    assert_eq!(p.op_horner_eval_base(&memory, 0), Ok(()));
    let mut acc = (11u64, 7u64);
    for k in (0..8).rev() {
        acc = qadd((top_first[k], 0), qmul(alpha, acc));
    }
    let after = p.stack_top(16);
    assert_eq!(after[14], acc.1);
    assert_eq!(after[15], acc.0);
    assert_eq!(&after[0..14], &top_first[0..14]);
}

#[test]
fn horner_eval_ext_accumulates_four_coefficients() {
    let top_first: Vec<u64> = vec![3, 1, 4, 1, 5, 9, 2, 6, 0, 0, 0, 0, 0, 40, 7, 11];
    let inputs: Vec<u64> = top_first.iter().rev().cloned().collect();
    let mut p = FastProcessor::new(&inputs);
    let alpha = (MODULUS as u64 - 1, 3u64);
    let mut memory = Memory::new();
    memory.write_word(40, [alpha.0, alpha.1, 0, 0]);
    assert_eq!(p.op_horner_eval_ext(&memory, 0), Ok(()));
    let coef = |i: usize| (top_first[2 * i + 1], top_first[2 * i]);
    let mut acc = (11u64, 7u64);
    for i in (0..4).rev() {
        acc = qadd(coef(i), qmul(alpha, acc));
    }
    let after = p.stack_top(16);
    assert_eq!(after[14], acc.1);
    assert_eq!(after[15], acc.0);
}

#[test]
fn hperm_permutes_the_top_twelve() {
    let top_first: Vec<u64> = (1..=16).collect();
    let inputs: Vec<u64> = top_first.iter().rev().cloned().collect();
    let mut p = FastProcessor::new(&inputs);
    p.op_hperm();
    let mut state: [miden_crypto::Felt; 12] = core::array::from_fn(|j| miden_crypto::Felt::new(top_first[11 - j]));
    miden_crypto::hash::rpo::Rpo256::apply_permutation(&mut state);
    let after = p.stack_top(16);
    for j in 0..12 {
        assert_eq!(after[11 - j], state[j].as_canonical_u64());
    }
    assert_eq!(&after[12..16], &top_first[12..16]);
}

use miden_vm::fast_ops::{Continuation, ContinuationStack, JoinNode, SplitNode};

#[test]
fn split_takes_the_branch_its_condition_chooses() {
    let node = SplitNode { on_true: 7, on_false: 8 };
    let mut p = FastProcessor::new(&vec![5, 1]);
    let mut cs = ContinuationStack { stack: vec![] };
    assert!(p.start_split_node(&node, 3, &mut cs).is_ok());
    assert_eq!(cs.stack, vec![Continuation::FinishSplit(3), Continuation::StartNode(7)]);
    assert_eq!(p.stack_top(1)[0], 5);
    assert_eq!(p.clk, 1);

    let mut q = FastProcessor::new(&vec![0]);
    let mut cs = ContinuationStack { stack: vec![] };
    assert!(q.start_split_node(&node, 3, &mut cs).is_ok());
    assert_eq!(cs.stack, vec![Continuation::FinishSplit(3), Continuation::StartNode(8)]);

    let mut r = FastProcessor::new(&vec![2]);
    let mut cs = ContinuationStack { stack: vec![] };
    assert_eq!(r.start_split_node(&node, 3, &mut cs), Err(ExecutionError::NotBinaryValueIf { value: 2 }));
}

#[test]
fn join_schedules_both_children_then_its_end() {
    let node = JoinNode { first: 1, second: 2 };
    let mut p = FastProcessor::new(&vec![]);
    let mut cs = ContinuationStack { stack: vec![] };
    p.start_join_node(&node, 9, &mut cs);
    assert_eq!(
        cs.stack,
        vec![Continuation::FinishJoin(9), Continuation::StartNode(2), Continuation::StartNode(1)]
    );
    p.finish_join_node();
    p.finish_split_node();
    assert_eq!(p.clk, 3);
}

#[test]
fn horner_eval_reads_alpha_from_memory() {
    // alpha at an address never written reads as zero: the accumulator becomes the constant
    // coefficient
    let top_first: Vec<u64> = vec![3, 1, 4, 1, 5, 9, 2, 6, 0, 0, 0, 0, 0, 40, 7, 11];
    let inputs: Vec<u64> = top_first.iter().rev().cloned().collect();
    let mut p = FastProcessor::new(&inputs);
    assert_eq!(p.op_horner_eval_base(&Memory::new(), 0), Ok(()));
    let after = p.stack_top(16);
    assert_eq!((after[15], after[14]), (3, 0));
    // an unaligned address fails and leaves the stack as it is
    let mut top_first = top_first.clone();
    top_first[13] = 41;
    let inputs: Vec<u64> = top_first.iter().rev().cloned().collect();
    let mut p = FastProcessor::new(&inputs);
    p.clk = 9;
    assert_eq!(
        p.op_horner_eval_ext(&Memory::new(), 2),
        Err(ExecutionError::MemoryError(MemoryError::UnalignedWordAccess { addr: 41, ctx: 2, clk: 9 }))
    );
    assert_eq!(p.stack_top(16), top_first);
    // an address beyond 32 bits fails
    top_first[13] = 1u64 << 32;
    let inputs: Vec<u64> = top_first.iter().rev().cloned().collect();
    let mut p = FastProcessor::new(&inputs);
    assert_eq!(
        p.op_horner_eval_base(&Memory::new(), 0),
        Err(ExecutionError::MemoryError(MemoryError::AddressOutOfBounds { addr: 1u64 << 32 }))
    );
}
