use miden_vm::handlers::{
    AdviceMutation, EventError, LOWERBOUND_ARRAY_EVENT_ID, LOWERBOUND_ARRAY_EVENT_NAME,
    LOWERBOUND_KEY_VALUE_EVENT_ID, LOWERBOUND_KEY_VALUE_EVENT_NAME, SortedArrayError,
    handle_lowerbound_array, handle_lowerbound_key_value,
};
use miden_vm::events::EventId;
use miden_vm::memory::{Memory, MemoryError, ProcessState};

fn parse_word(s: &str) -> [u64; 4] {
    let v: Vec<u64> = s.split(',').map(|x| x.trim().parse().unwrap()).collect();
    [v[0], v[1], v[2], v[3]]
}

fn process_with(words: &[(u32, &str)], key: &str, start: u64, end: u64) -> ProcessState {
    let mut memory = Memory::new();
    for (addr, w) in words {
        memory.write_word(*addr, parse_word(w));
    }
    let k = parse_word(key);
    ProcessState {
        stack: vec![0, k[0], k[1], k[2], k[3], start, end, 0],
        memory,
        clk: 0,
        ctx: 0,
    }
}

/// The operand stack that `find_word` and `find_key_value` leave: the flag and the pointer that
/// the event handler pushed, over the range.
fn stack_after(result: Result<Vec<AdviceMutation>, EventError>, start: u64, end: u64) -> Vec<u64> {
    let mutations = result.unwrap();
    assert_eq!(mutations.len(), 1);
    match &mutations[0] {
        AdviceMutation::ExtendStack { values } => {
            assert_eq!(values.len(), 2);
            vec![values[0], values[1], start, end, 0]
        },
        _ => panic!("expected an advice stack extension"),
    }
}

const ARRAY: [(u32, &str); 3] = [
    (100, "8456,415,4922,593"),
    (104, "8675,5816,5458,2767"),
    (108, "3015,7211,2002,5143"),
];

const KEY_VALUES: [(u32, &str); 6] = [
    (100, "8456,415,4922,593"),
    (104, "8595,8794,8303,7256"),
    (108, "3348,6058,5470,2813"),
    (112, "3015,7211,2002,5143"),
    (116, "7513,7106,9944,7176"),
    (120, "4942,5573,1077,1968"),
];

#[test]
fn test_sorted_array_find_word() {
    // (word, was_value_found, value_ptr)
    let tests = [
        ("8413,5080,6742,354", 0, 100),
        ("8456,415,4922,593", 1, 100),
        ("4942,5573,1077,1968", 0, 104),
        ("8675,5816,5458,2767", 1, 104),
        ("3348,6058,5470,2813", 0, 108),
        ("3015,7211,2002,5143", 1, 108),
        ("1152,1526,2547,5314", 0, 112),
    ];

    for (key, was_key_found, key_ptr) in tests {
        let process = process_with(&ARRAY, key, 100, 112);
        let stack = stack_after(handle_lowerbound_array(&process), 100, 112);
        assert_eq!(stack, vec![was_key_found, key_ptr, 100, 112, 0], "testing {key}");
    }
}

#[test]
fn test_empty_sorted_array_find_word() {
    let process = process_with(&[], "8413,5080,6742,354", 100, 100);
    let stack = stack_after(handle_lowerbound_array(&process), 100, 100);
    assert_eq!(stack, vec![0, 100, 100, 100, 0]);
}

#[test]
fn test_unsorted_array_find_word_fails() {
    // these words are NOT in ascending order, must fail
    let words = [
        (100, "8675,5816,5458,2767"),
        (104, "8456,415,4922,593"),
        (108, "3015,7211,2002,5143"),
    ];
    let process = process_with(&words, "8675,5816,5458,2767", 100, 112);
    let err = handle_lowerbound_array(&process).expect_err("NotAscendingOrder");
    assert!(matches!(
        err,
        EventError::SortedArray(SortedArrayError::NotAscendingOrder { index: 104, .. })
    ));
}

#[test]
fn test_sorted_key_value_array_find_key() {
    // (word, was_value_found, value_ptr)
    let tests = [
        ("8413,5080,6742,354", 0, 100),  // less than smallest key
        ("8456,415,4922,593", 1, 100),   // smallest key
        ("4942,5573,1077,1968", 0, 108), // value, not a key
        ("8675,5816,5458,2767", 0, 108), // not a key
        ("3348,6058,5470,2813", 1, 108), // middle key
        ("3015,7211,2002,5143", 0, 116), // value,not a key
        ("1152,1526,2547,5314", 0, 116), // not a key
        ("7513,7106,9944,7176", 1, 116), // largest key
        ("8595,8794,8303,7256", 0, 124), // value, not a key
        ("1635,5897,3495,8402", 0, 124), // more than largest key
    ];

    for (key, was_key_found, key_ptr) in tests {
        let process = process_with(&KEY_VALUES, key, 100, 124);
        let stack = stack_after(handle_lowerbound_key_value(&process), 100, 124);
        assert_eq!(stack, vec![was_key_found, key_ptr, 100, 124, 0], "testing {key}");
    }
}

#[test]
fn test_empty_sorted_key_value_array_find_key() {
    let process = process_with(&[], "8413,5080,6742,354", 100, 100);
    let stack = stack_after(handle_lowerbound_key_value(&process), 100, 100);
    assert_eq!(stack, vec![0, 100, 100, 100, 0]);
}

#[test]
fn test_unsorted_key_value_find_key_fails() {
    // these keys are NOT in ascending order, must fail
    let words = [
        (100, "8675,5816,5458,2767"),
        (104, "4942,5573,1077,1968"),
        (108, "8456,415,4922,593"),
        (112, "3015,7211,2002,5143"),
        (116, "3015,7211,2002,5143"),
        (120, "8595,8794,8303,7256"),
    ];
    let process = process_with(&words, "8675,5816,5458,2767", 100, 124);
    let err = handle_lowerbound_key_value(&process).expect_err("NotAscendingOrder");
    assert!(matches!(
        err,
        EventError::SortedArray(SortedArrayError::NotAscendingOrder { index: 108, .. })
    ));
}

#[test]
fn test_misaligned_key_value_find_key_fails() {
    // last value is missing
    let words = [
        (100, "8456,415,4922,593"),
        (104, "8595,8794,8303,7256"),
        (108, "3348,6058,5470,2813"),
        (112, "3015,7211,2002,5143"),
        (116, "7513,7106,9944,7176"),
    ];
    let process = process_with(&words, "8675,5816,5458,2767", 100, 120);
    let err = handle_lowerbound_key_value(&process).expect_err("InvalidKeyValueRange");
    assert_eq!(
        err,
        EventError::SortedArray(SortedArrayError::InvalidKeyValueRange { size: 20 })
    );
}

#[test]
fn sorted_array_test_event_id() {
    let expected_event_id = EventId::from_name(LOWERBOUND_ARRAY_EVENT_NAME);
    assert_eq!(EventId::from_u64(LOWERBOUND_ARRAY_EVENT_ID), expected_event_id);

    let expected_event_id = EventId::from_name(LOWERBOUND_KEY_VALUE_EVENT_NAME);
    assert_eq!(EventId::from_u64(LOWERBOUND_KEY_VALUE_EVENT_ID), expected_event_id);
}

#[test]
fn lowerbound_rejects_bad_ranges() {
    let process = process_with(&ARRAY, "1,2,3,4", 102, 114);
    assert_eq!(
        handle_lowerbound_array(&process),
        Err(EventError::Memory(MemoryError::UnalignedWordAccess { addr: 102, ctx: 0, clk: 0 }))
    );
    let process = process_with(&ARRAY, "1,2,3,4", 100, 110);
    assert_eq!(
        handle_lowerbound_array(&process),
        Err(EventError::SortedArray(SortedArrayError::InvalidArrayRange { size: 10 }))
    );
    let process = process_with(&ARRAY, "1,2,3,4", 112, 100);
    assert_eq!(
        handle_lowerbound_array(&process),
        Err(EventError::Memory(MemoryError::InvalidMemoryRange { start_addr: 112, end_addr: 100 }))
    );
    let process = process_with(&ARRAY, "1,2,3,4", 1 << 33, 100);
    assert_eq!(
        handle_lowerbound_array(&process),
        Err(EventError::Memory(MemoryError::AddressOutOfBounds { addr: 1 << 33 }))
    );
}

#[test]
fn lowerbound_reads_unwritten_words_as_empty() {
    // the word at 104 was never written: it reads as the empty word, which is smaller than the
    // one before it
    let words = [(100, "1,1,1,1"), (108, "2,2,2,2")];
    let process = process_with(&words, "1,1,1,1", 100, 112);
    assert!(handle_lowerbound_array(&process).is_err());
}
