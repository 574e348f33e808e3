use miden_vm::basic_block::batch_ops;
use miden_vm::operation::Operation;

fn op(code: u8) -> Operation {
    Operation { op_code: code, imm: None }
}

fn push(v: u64) -> Operation {
    Operation { op_code: 11, imm: Some(v) }
}

#[test]
fn a_lone_push_is_padded_and_its_value_takes_the_next_group() {
    let batches = batch_ops(vec![push(5)]);
    assert_eq!(batches.len(), 1);
    let b = &batches[0];
    assert_eq!(b.ops, vec![push(5), op(0)]);
    assert_eq!(b.num_groups, 2);
    assert_eq!(&b.indptr[0..3], &[0, 2, 2]);
    assert_eq!(b.padding[0], true);
    assert_eq!(b.groups[0], 11);
    assert_eq!(b.groups[1], 5);
}

#[test]
fn full_groups_close_and_batches_round_up_to_a_power_of_two() {
    let ops: Vec<Operation> = (1..=10).map(op).collect();
    let batches = batch_ops(ops.clone());
    assert_eq!(batches.len(), 1);
    let b = &batches[0];
    assert_eq!(b.num_groups, 2);
    assert_eq!(&b.indptr[0..3], &[0, 9, 10]);
    assert_eq!(b.ops, ops);
    let mut first: u64 = 0;
    for k in 0..9 {
        first |= ((k as u64) + 1) << (7 * k);
    }
    assert_eq!(b.groups[0], first);
    assert_eq!(b.groups[1], 10);
}

#[test]
fn a_push_never_ends_a_group() {
    let mut ops: Vec<Operation> = (1..=8).map(op).collect();
    ops.push(push(7));
    let batches = batch_ops(ops);
    let b = &batches[0];
    // the push would be the last of the first group, so it opens the second one, which is
    // padded after it; its value takes the third group, and an empty fourth rounds the count up
    assert_eq!(&b.indptr[0..5], &[0, 8, 10, 10, 11]);
    assert_eq!(b.padding[0], false);
    assert_eq!(b.padding[1], true);
    assert_eq!(b.padding[3], true);
    assert_eq!(b.ops[8], push(7));
    assert_eq!(b.ops[9], op(0));
    assert_eq!(b.groups[2], 7);
    assert_eq!(b.num_groups, 4);
}

#[test]
fn many_operations_spill_into_more_batches() {
    let ops: Vec<Operation> = (0..100).map(|k| op((k % 100) as u8 + 1)).collect();
    let batches = batch_ops(ops);
    assert_eq!(batches.len(), 2);
    assert_eq!(batches[0].num_groups, 8);
    assert_eq!(batches[0].ops.len(), 72);
    assert_eq!(batches[1].ops.len(), 28);
}

#[test]
fn immediates_sit_in_empty_groups_and_padding_is_counted() {
    let mut ops: Vec<Operation> = Vec::new();
    for k in 0..60u64 {
        if k % 3 == 0 {
            ops.push(push(1000 + k));
        } else {
            ops.push(op((k % 50) as u8 + 1));
        }
    }
    let batches = batch_ops(ops.clone());
    let mut raw_total = 0;
    for b in batches.iter() {
        let n = b.num_groups;
        for o in b.ops.iter() {
            if let Some(v) = o.imm {
                let held = (0..n).any(|h| b.indptr[h] == b.indptr[h + 1] && b.groups[h] == v);
                assert!(held, "immediate {} is not in an empty group", v);
            }
        }
        let padded = (0..n).filter(|&g| b.padding[g]).count();
        let raw = b.raw_ops().len();
        assert_eq!(b.ops.len(), raw + padded);
        assert!((n..8).all(|g| !b.padding[g]));
        raw_total += raw;
    }
    assert_eq!(raw_total, ops.len());
}
