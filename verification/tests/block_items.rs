use miden_vm::block_node::{BasicBlockNode, MastNodeErrorContext, OperationOrDecorator};
use miden_vm::operation::Operation;

fn op(code: u8) -> Operation {
    Operation { op_code: code, imm: None }
}

fn block() -> BasicBlockNode {
    let ops = vec![op(1), op(2), op(3)];
    let mut node = BasicBlockNode::new(ops, vec![(0, 10), (2, 11), (3, 12)]).unwrap();
    node.append_before_enter(&vec![1]);
    node.append_after_exit(&vec![2]);
    node
}

#[test]
fn items_interleave_decorators_with_operations() {
    let node = block();
    assert_eq!(
        node.iter(),
        vec![
            OperationOrDecorator::Decorator(1),
            OperationOrDecorator::Decorator(10),
            OperationOrDecorator::Operation(op(1)),
            OperationOrDecorator::Operation(op(2)),
            OperationOrDecorator::Decorator(11),
            OperationOrDecorator::Operation(op(3)),
            OperationOrDecorator::Decorator(12),
            OperationOrDecorator::Decorator(2),
        ]
    );
}

#[test]
fn assembly_op_covers_its_cycles() {
    let node = block();
    let mut cycles = vec![None; 13];
    cycles[11] = Some(2);
    cycles[12] = Some(1);
    assert_eq!(node.get_assembly_op(&cycles, Some(2)), Some(11));
    assert_eq!(node.get_assembly_op(&cycles, Some(3)), Some(11));
    assert_eq!(node.get_assembly_op(&cycles, Some(0)), None);
    assert_eq!(node.get_assembly_op(&cycles, None), Some(11));
    let none: Vec<Option<u8>> = vec![];
    assert_eq!(node.get_assembly_op(&none, None), None);
}

#[test]
fn decorators_stay_on_their_operations_after_padding() {
    let push = |v: u64| Operation { op_code: 11, imm: Some(v) };
    let mut ops: Vec<Operation> = Vec::new();
    for k in 0..7u8 {
        ops.push(op(20 + k));
    }
    ops.push(push(100));
    ops.push(push(101));
    for k in 0..6u8 {
        ops.push(op(40 + k));
    }
    ops.push(push(102));
    ops.push(push(103));
    assert_eq!(ops.len(), 17);
    let decorators: Vec<(usize, u32)> = (0..=17usize).map(|i| (i, 1000 + i as u32)).collect();
    let node = BasicBlockNode::new(ops.clone(), decorators.clone()).unwrap();
    let padded = node.operations();
    for (k, &(j, id)) in node.decorators.iter().enumerate() {
        assert_eq!(id, 1000 + k as u32);
        if k < 17 {
            assert_eq!(padded[j], ops[k], "decorator of operation {} moved to {}", k, j);
        } else {
            assert_eq!(j, padded.len());
        }
    }
    assert_eq!(node.decorators[16].0, 18);
    let mut it = node.raw_decorator_iter();
    let mut back = Vec::new();
    while let Some(d) = it.next() {
        back.push(d);
    }
    assert_eq!(back, decorators);
}
