use miden_vm::fast_ops::FastProcessor;
use miden_vm::tracing::{NoopTracer, TraceCollector, Tracer};

#[test]
fn trace_collector_counts_and_orders_events() {
    let mut collector = TraceCollector::new();
    assert_eq!(collector.get_trace_count(7), 0);
    collector.on_trace(10, 7);
    collector.on_trace(12, 3);
    collector.on_trace(15, 7);
    assert_eq!(collector.get_trace_count(7), 2);
    assert_eq!(collector.get_trace_count(3), 1);
    assert_eq!(collector.get_trace_count(4), 0);
    assert_eq!(collector.get_execution_order(), &vec![(7, 10), (3, 12), (7, 15)]);
}

#[test]
fn noop_tracer_accepts_every_event() {
    let mut tracer = NoopTracer;
    let processor = FastProcessor::new(&vec![1, 2, 3]);
    tracer.increment_clk();
    tracer.increment_stack_size(&processor);
    tracer.decrement_stack_size();
    tracer.record_advice_pop_stack(5);
    tracer.record_memory_read_word([1, 2, 3, 4], 8);
    tracer.start_context();
    tracer.restore_context();
}
