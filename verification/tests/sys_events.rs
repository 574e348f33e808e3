use miden_vm::events::{EventId, SystemEvent};

#[test]
fn test_try_from() {
    // Last variant of the `SystemEvent` enum, used to derive the number of cases.
    let last_event = SystemEvent::HpermToMap;
    let last_event_id = last_event as u8;

    // Check that the event IDs are contiguous
    for id in 0..=last_event_id {
        let event_id = EventId::from_u64(id as u64);
        assert!(event_id.is_reserved());
        let event = SystemEvent::try_from(event_id).unwrap();
        assert_eq!(id, event as u8);
        assert_eq!(id, event.id());
    }

    // Creating from the next index results in an error.
    let invalid_event_id = EventId::from_u64((last_event_id + 1) as u64);
    SystemEvent::try_from(invalid_event_id).unwrap_err();
}

#[test]
fn system_event_ids_round_trip() {
    let events = [
        SystemEvent::MerkleNodeMerge,
        SystemEvent::MerkleNodeToStack,
        SystemEvent::MapValueToStack,
        SystemEvent::MapValueToStackN,
        SystemEvent::HasMapKey,
        SystemEvent::Ext2Inv,
        SystemEvent::U32Clz,
        SystemEvent::U32Ctz,
        SystemEvent::U32Clo,
        SystemEvent::U32Cto,
        SystemEvent::ILog2,
        SystemEvent::MemToMap,
        SystemEvent::HdwordToMap,
        SystemEvent::HdwordToMapWithDomain,
        SystemEvent::HqwordToMap,
        SystemEvent::HpermToMap,
    ];
    for e in events {
        assert_eq!(SystemEvent::try_from(e.event_id()), Ok(e));
    }
    assert_eq!(SystemEvent::HasMapKey.name(), "has_key_in_map");
    assert_eq!(SystemEvent::MapValueToStackN.name(), "map_value_to_stack_with_len");
    let big = EventId::from_u64(1000);
    assert!(!big.is_reserved());
    assert_eq!(SystemEvent::try_from(big), Err(big));
}

#[test]
fn event_id_reduces_modulo_the_field() {
    let p: u64 = 18446744069414584321;
    assert_eq!(EventId::from_u64(p).as_felt(), 0);
    assert_eq!(EventId::from_u64(p + 5).as_felt(), 5);
}
