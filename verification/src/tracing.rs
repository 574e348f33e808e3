//! Observers of execution: a tracer interface with a tracer that records nothing, and a
//! collector of the trace events that decorators emit.

use vstd::prelude::*;
use std::collections::BTreeMap;

use crate::fast_ops::FastProcessor;
use crate::memory::Word;

verus! {

broadcast use vstd::laws_cmp::group_laws_cmp, vstd::std_specs::btree::group_btree_axioms;

/// Receives the events of the fast processor that a trace generator needs.
pub trait Tracer {
    /// Records the state that a hasher permutation was applied to.
    fn record_hasher_permute(&mut self, hashed_state: [u64; 12]);

    /// Records an element read from memory at an address.
    fn record_memory_read_element(&mut self, element: u64, addr: u64);

    /// Records a word read from memory at an address.
    fn record_memory_read_word(&mut self, word: Word, addr: u64);

    /// Records a value popped from the advice stack.
    fn record_advice_pop_stack(&mut self, value: u64);

    /// Records a word popped from the advice stack.
    fn record_advice_pop_stack_word(&mut self, word: Word);

    /// Records two words popped from the advice stack.
    fn record_advice_pop_stack_dword(&mut self, words: [Word; 2]);

    /// Signals that the clock advanced.
    fn increment_clk(&mut self);

    /// Signals that the stack grew by one element.
    fn increment_stack_size(&mut self, processor: &FastProcessor);

    /// Signals that the stack shrank by one element.
    fn decrement_stack_size(&mut self);

    /// Signals the start of a new execution context.
    fn start_context(&mut self);

    /// Signals the end of an execution context.
    fn restore_context(&mut self);
}

/// A tracer that records nothing.
pub struct NoopTracer;

impl Tracer for NoopTracer {
    fn record_hasher_permute(&mut self, hashed_state: [u64; 12]) {
    }

    fn record_memory_read_element(&mut self, element: u64, addr: u64) {
    }

    fn record_memory_read_word(&mut self, word: Word, addr: u64) {
    }

    fn record_advice_pop_stack(&mut self, value: u64) {
    }

    fn record_advice_pop_stack_word(&mut self, word: Word) {
    }

    fn record_advice_pop_stack_dword(&mut self, words: [Word; 2]) {
    }

    fn increment_clk(&mut self) {
    }

    fn increment_stack_size(&mut self, processor: &FastProcessor) {
    }

    fn decrement_stack_size(&mut self) {
    }

    fn start_context(&mut self) {
    }

    fn restore_context(&mut self) {
    }
}

/// Counts the trace events that decorators emit and records the order in which they came.
pub struct TraceCollector {
    /// For each trace identifier, the number of times it was emitted.
    pub trace_counts: BTreeMap<u32, u32>,
    /// The trace identifiers in the order they were emitted, with their clock cycles.
    pub execution_order: Vec<(u32, u64)>,
}

/// The number of times a trace identifier was emitted, by the counts of a collector.
pub open spec fn count_of(counts: Map<u32, u32>, trace_id: u32) -> u32 {
    if counts.contains_key(trace_id) {
        counts[trace_id]
    } else {
        0
    }
}

impl TraceCollector {
    /// Returns a collector that has seen no trace event.
    pub fn new() -> (r: Self)
        ensures
            r.trace_counts@ == Map::<u32, u32>::empty(),
            r.execution_order@.len() == 0,
    {
        TraceCollector { trace_counts: BTreeMap::new(), execution_order: Vec::new() }
    }

    /// Returns the number of times a trace identifier was emitted.
    pub fn get_trace_count(&self, trace_id: u32) -> (r: u32)
        ensures
            r == count_of(self.trace_counts@, trace_id),
    {
        match self.trace_counts.get(&trace_id) {
            Some(c) => *c,
            None => 0,
        }
    }

    /// Returns the trace identifiers in the order they were emitted, with their clock cycles.
    pub fn get_execution_order(&self) -> (r: &Vec<(u32, u64)>)
        ensures
            r@ == self.execution_order@,
    {
        &self.execution_order
    }

    /// Records a trace event emitted at a clock cycle: its count goes up by one and it is
    /// appended to the execution order.
    pub fn on_trace(&mut self, clk: u64, trace_id: u32)
        requires
            count_of(old(self).trace_counts@, trace_id) < u32::MAX,
        ensures
            final(self).trace_counts@ == old(self).trace_counts@.insert(
                trace_id,
                (count_of(old(self).trace_counts@, trace_id) + 1) as u32,
            ),
            final(self).execution_order@ == old(self).execution_order@.push((trace_id, clk)),
    {
        let c = self.get_trace_count(trace_id);
        self.trace_counts.insert(trace_id, c + 1);
        self.execution_order.push((trace_id, clk));
    }
}

/// Every trace event counts once: after recording an event, its count is one more and the
/// counts of other identifiers are unchanged.
pub proof fn lemma_on_trace_counts(before: Map<u32, u32>, trace_id: u32, other: u32)
    requires
        count_of(before, trace_id) < u32::MAX,
    ensures
        count_of(before.insert(trace_id, (count_of(before, trace_id) + 1) as u32), trace_id)
            == count_of(before, trace_id) + 1,
        other != trace_id ==> count_of(
            before.insert(trace_id, (count_of(before, trace_id) + 1) as u32),
            other,
        ) == count_of(before, other),
{
}

/// The counts after recording the trace events `ids`, in order, on top of `counts`: each
/// event does what [`TraceCollector::on_trace`] does to the counts.
pub open spec fn counts_after(counts: Map<u32, u32>, ids: Seq<u32>) -> Map<u32, u32>
    decreases ids.len(),
{
    if ids.len() == 0 {
        counts
    } else {
        let c = counts_after(counts, ids.drop_last());
        c.insert(ids.last(), (count_of(c, ids.last()) + 1) as u32)
    }
}

/// The execution order after recording the trace events `events`, each an identifier with its
/// clock cycle, in order, on top of `order`: each event does what
/// [`TraceCollector::on_trace`] does to the order.
pub open spec fn order_after(order: Seq<(u32, u64)>, events: Seq<(u32, u64)>) -> Seq<(u32, u64)>
    decreases events.len(),
{
    if events.len() == 0 {
        order
    } else {
        order_after(order, events.drop_last()).push(events.last())
    }
}

/// A collector that starts empty records, as its execution order, exactly the events it was
/// given, in the order of the calls and with repetitions kept.
pub proof fn lemma_execution_order_sequence(events: Seq<(u32, u64)>)
    ensures
        order_after(Seq::empty(), events) == events,
    decreases events.len(),
{
    if events.len() > 0 {
        lemma_execution_order_sequence(events.drop_last());
        assert(events.drop_last().push(events.last()) =~= events);
    }
}

/// The number of times `x` occurs in `ids`.
pub open spec fn occurrences(ids: Seq<u32>, x: u32) -> nat
    decreases ids.len(),
{
    if ids.len() == 0 {
        0
    } else {
        occurrences(ids.drop_last(), x) + (if ids.last() == x { 1nat } else { 0nat })
    }
}

/// A collector that starts empty counts, for each trace identifier, exactly the events with
/// that identifier among those it recorded, as long as fewer than `u32::MAX` were recorded.
pub proof fn lemma_trace_counts_sequence(ids: Seq<u32>, x: u32)
    requires
        ids.len() < u32::MAX,
    ensures
        count_of(counts_after(Map::empty(), ids), x) == occurrences(ids, x),
        occurrences(ids, x) <= ids.len(),
    decreases ids.len(),
{
    if ids.len() > 0 {
        let init = ids.drop_last();
        lemma_trace_counts_sequence(init, x);
        lemma_trace_counts_sequence(init, ids.last());
        let c = counts_after(Map::empty(), init);
        lemma_on_trace_counts(c, ids.last(), x);
    }
}

} // verus!
