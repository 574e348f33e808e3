use miden_vm::events::EventId;
use miden_vm::handlers::{
    AdviceMutation, EventError, FALCON_DIV_EVENT_ID, FALCON_DIV_EVENT_NAME, FalconDivError,
    U64_DIV_EVENT_ID, U64_DIV_EVENT_NAME, U64DivError, handle_falcon_div, handle_u64_div,
};
use miden_vm::memory::{Memory, ProcessState};

fn process(stack: Vec<u64>) -> ProcessState {
    ProcessState { stack, memory: Memory::new(), clk: 0, ctx: 0 }
}

fn stack_values(r: Result<Vec<AdviceMutation>, EventError>) -> Vec<u64> {
    match r.unwrap().remove(0) {
        AdviceMutation::ExtendStack { values } => values,
        _ => panic!("expected an advice stack extension"),
    }
}

#[test]
fn u64_div_test_event_id() {
    let expected_event_id = EventId::from_name(U64_DIV_EVENT_NAME);
    assert_eq!(EventId::from_u64(U64_DIV_EVENT_ID), expected_event_id);
}

#[test]
fn falcon_div_test_event_id() {
    let expected_event_id = EventId::from_name(FALCON_DIV_EVENT_NAME);
    assert_eq!(EventId::from_u64(FALCON_DIV_EVENT_ID), expected_event_id);
}

#[test]
fn u64_div_pushes_quotient_and_remainder() {
    let a: u64 = 0x1234_5678_9abc_def0;
    let b: u64 = 0x0000_0001_0000_0003;
    let stack = vec![0, b >> 32, b & 0xffff_ffff, a >> 32, a & 0xffff_ffff];
    let values = stack_values(handle_u64_div(&process(stack)));
    let q = a / b;
    let r = a % b;
    assert_eq!(values, vec![r >> 32, r & 0xffff_ffff, q >> 32, q & 0xffff_ffff]);
}

#[test]
fn u64_div_errors() {
    assert_eq!(
        handle_u64_div(&process(vec![0, 0, 0, 1, 1])),
        Err(EventError::U64Div(U64DivError::DivideByZero))
    );
    assert_eq!(
        handle_u64_div(&process(vec![0, 1 << 32, 0, 1, 1])),
        Err(EventError::U64Div(U64DivError::NotU32Value { value: 1 << 32, position: "divisor_hi" }))
    );
    assert_eq!(
        handle_u64_div(&process(vec![0, 0, 1, 1, 1 << 33])),
        Err(EventError::U64Div(U64DivError::NotU32Value {
            value: 1 << 33,
            position: "dividend_lo"
        }))
    );
}

#[test]
fn falcon_div_pushes_quotient_and_remainder() {
    let a: u64 = 0xdead_beef_0123_4567;
    let values = stack_values(handle_falcon_div(&process(vec![0, a >> 32, a & 0xffff_ffff])));
    let q = a / 12289;
    assert_eq!(values, vec![a % 12289, q & 0xffff_ffff, q >> 32]);
    assert_eq!(
        handle_falcon_div(&process(vec![0, 1 << 32, 1 << 32])),
        Err(EventError::FalconDiv(FalconDivError::InputNotU32 {
            value: 1 << 32,
            position: "dividend_lo"
        }))
    );
}
