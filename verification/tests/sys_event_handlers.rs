use miden_crypto::merkle::EmptySubtreeRoots;
use miden_vm::advice::{AdviceError, AdviceProvider};
use miden_vm::events::SystemEvent;
use miden_vm::memory::{Memory, ProcessState};
use miden_vm::sys_event_handlers::{SysEventError, handle_system_event};

const P: u64 = 18446744069414584321;

fn process(top: &[u64]) -> ProcessState {
    let mut stack = vec![0u64];
    stack.extend_from_slice(top);
    while stack.len() < 17 {
        stack.push(0);
    }
    ProcessState { stack, memory: Memory::new(), clk: 3, ctx: 0 }
}

#[test]
fn bit_counts() {
    let cases = [
        (SystemEvent::U32Clz, 1u64, 31u64),
        (SystemEvent::U32Ctz, 8, 3),
        (SystemEvent::U32Clo, 0xffff_0000, 16),
        (SystemEvent::U32Cto, 0b0111, 3),
    ];
    for (event, n, expected) in cases {
        let mut advice = AdviceProvider::new();
        handle_system_event(&process(&[n]), &mut advice, event).unwrap();
        assert_eq!(advice.stack, vec![expected]);
    }
    let mut advice = AdviceProvider::new();
    assert_eq!(
        handle_system_event(&process(&[1 << 32]), &mut advice, SystemEvent::U32Clz),
        Err(SysEventError::NotU32Value { value: 1 << 32 })
    );
}

#[test]
fn ilog2() {
    for (n, expected) in [(1u64, 0u64), (2, 1), (3, 1), (1024, 10), (P - 1, 63)] {
        let mut advice = AdviceProvider::new();
        handle_system_event(&process(&[n]), &mut advice, SystemEvent::ILog2).unwrap();
        assert_eq!(advice.stack, vec![expected]);
    }
    let mut advice = AdviceProvider::new();
    assert_eq!(
        handle_system_event(&process(&[0]), &mut advice, SystemEvent::ILog2),
        Err(SysEventError::LogArgumentZero { clk: 3 })
    );
}

#[test]
fn advice_map_round_trip() {
    let mut advice = AdviceProvider::new();
    let key = [1u64, 2, 3, 4];
    advice.insert_into_map(key, vec![10, 20, 30]).unwrap();
    // the same values again are accepted, other values are refused
    advice.insert_into_map(key, vec![10, 20, 30]).unwrap();
    assert_eq!(
        advice.insert_into_map(key, vec![1]),
        Err(AdviceError::MapKeyAlreadyPresent { key })
    );

    handle_system_event(&process(&key), &mut advice, SystemEvent::HasMapKey).unwrap();
    assert_eq!(advice.stack, vec![1]);
    handle_system_event(&process(&[9, 9, 9, 9]), &mut advice, SystemEvent::HasMapKey).unwrap();
    assert_eq!(advice.stack, vec![1, 0]);

    let mut advice2 = AdviceProvider::new();
    advice2.insert_into_map(key, vec![10, 20, 30]).unwrap();
    handle_system_event(&process(&key), &mut advice2, SystemEvent::MapValueToStackN).unwrap();
    // top last: the length, then the first value
    assert_eq!(advice2.stack, vec![30, 20, 10, 3]);
    assert_eq!(
        handle_system_event(&process(&[5, 5, 5, 5]), &mut advice2, SystemEvent::MapValueToStack),
        Err(SysEventError::Advice { err: AdviceError::MapKeyNotFound { key: [5, 5, 5, 5] }, clk: 3 })
    );
}

#[test]
fn mem_to_map_reads_memory() {
    let mut p = process(&[7, 7, 7, 7, 100, 106]);
    p.memory.write_word(100, [1, 2, 3, 4]);
    p.memory.write_word(104, [5, 6, 7, 8]);
    let mut advice = AdviceProvider::new();
    handle_system_event(&p, &mut advice, SystemEvent::MemToMap).unwrap();
    assert_eq!(advice.get_mapped_values(&[7, 7, 7, 7]), Some(&vec![1, 2, 3, 4, 5, 6]));
}

#[test]
fn hashing_events_insert_their_words() {
    let top: Vec<u64> = (1..=16).collect();
    let mut advice = AdviceProvider::new();
    handle_system_event(&process(&top), &mut advice, SystemEvent::HdwordToMap).unwrap();
    handle_system_event(&process(&top), &mut advice, SystemEvent::HqwordToMap).unwrap();
    handle_system_event(&process(&top), &mut advice, SystemEvent::HpermToMap).unwrap();
    assert_eq!(advice.map.len(), 3);
    assert_eq!(advice.map[0].1, vec![5, 6, 7, 8, 1, 2, 3, 4]);
    assert_eq!(advice.map[1].1, vec![13, 14, 15, 16, 9, 10, 11, 12, 5, 6, 7, 8, 1, 2, 3, 4]);
    assert_eq!(advice.map[2].1, vec![12, 11, 10, 9, 8, 7, 6, 5]);
    let word = |a: u64| miden_crypto::Word::new([a, a + 1, a + 2, a + 3].map(miden_crypto::Felt::new));
    let expected: [u64; 4] =
        miden_crypto::hash::rpo::Rpo256::merge_in_domain(&[word(5), word(1)], miden_crypto::Felt::new(0)).into();
    assert_eq!(advice.map[0].0, expected);
    let elements: Vec<miden_crypto::Felt> =
        [13u64, 14, 15, 16, 9, 10, 11, 12, 5, 6, 7, 8, 1, 2, 3, 4].iter().map(|v| miden_crypto::Felt::new(*v)).collect();
    let expected: [u64; 4] = miden_crypto::hash::rpo::Rpo256::hash_elements(&elements).into();
    assert_eq!(advice.map[1].0, expected);
}

#[test]
fn merkle_nodes_merge_and_lookup() {
    let left = [1u64, 2, 3, 4];
    let right = [5u64, 6, 7, 8];
    // stack: [RIGHT_ROOT, LEFT_ROOT]
    let mut top = right.to_vec();
    top.extend_from_slice(&left);
    let mut advice = AdviceProvider::new();
    handle_system_event(&process(&top), &mut advice, SystemEvent::MerkleNodeMerge).unwrap();
    let root = advice.merge_roots(left, right).unwrap();
    // depth 1, index 1: the right child of the new root
    let mut top = vec![1u64, 1];
    top.extend_from_slice(&root);
    handle_system_event(&process(&top), &mut advice, SystemEvent::MerkleNodeToStack).unwrap();
    assert_eq!(advice.stack, vec![8, 7, 6, 5]);
    // an index that does not fit the depth
    let mut top = vec![1u64, 2];
    top.extend_from_slice(&root);
    assert!(handle_system_event(&process(&top), &mut advice, SystemEvent::MerkleNodeToStack).is_err());
}

#[test]
fn ext2_inverse() {
    // a = 1 + 0x has inverse 1
    let mut advice = AdviceProvider::new();
    handle_system_event(&process(&[0, 1]), &mut advice, SystemEvent::Ext2Inv).unwrap();
    assert_eq!(advice.stack, vec![0, 1]);
    // a * a^-1 = 1 in the extension x^2 = x - 2
    let (a0, a1) = (3u128, 5u128);
    let mut advice = AdviceProvider::new();
    handle_system_event(&process(&[a1 as u64, a0 as u64]), &mut advice, SystemEvent::Ext2Inv).unwrap();
    let b1 = advice.stack[0] as u128;
    let b0 = advice.stack[1] as u128;
    let p = P as u128;
    let c0 = (a0 * b0 % p + 2 * (p - a1 * b1 % p)) % p;
    let c1 = ((a0 * b1) % p + (a1 * b0) % p + (a1 * b1) % p) % p;
    assert_eq!((c0, c1), (1, 0));
    let mut advice = AdviceProvider::new();
    assert_eq!(
        handle_system_event(&process(&[0, 0]), &mut advice, SystemEvent::Ext2Inv),
        Err(SysEventError::DivideByZero { clk: 3 })
    );
}

#[test]
fn new_advice_provider_holds_empty_trees() {
    let advice = AdviceProvider::new();
    let root: [u64; 4] = (*EmptySubtreeRoots::entry(2, 0)).into();
    let middle: [u64; 4] = (*EmptySubtreeRoots::entry(2, 1)).into();
    assert_eq!(advice.get_tree_node(root, 1, 1), Ok(middle));
    assert_eq!(advice.get_tree_node(root, 2, 3), Ok([0u64; 4]));
    let deep: [u64; 4] = (*EmptySubtreeRoots::entry(64, 0)).into();
    assert_eq!(advice.get_tree_node(deep, 64, 12345), Ok([0u64; 4]));
}
