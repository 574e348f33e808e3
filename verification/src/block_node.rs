//! The basic block node of a MAST forest: its operation batches, its digest and its decorators.

use vstd::prelude::*;

use crate::basic_block::{
    all_batches_wf, batch_ops, batch_states, batching, concat_raw, lemma_pad_flags_len,
    lemma_raw_le_total, lemma_total_ops_bound, offsets_of, pad_flags, total_ops,
    lemma_offsets_of_facts, lemma_raw_plus_pads, group_pad_flags, batch_pad_flags, count_pads,
    offset_at,
};
use crate::op_batch::blank_state;
use crate::decorators::{
    DecoratorId, DecoratorList, DecoratorOpLinkIterator, RawDecoratorOpLinkIterator,
    adjust_decorators, adjust_list, decorators_valid, lemma_offsets_of_wf,
    lemma_raw_indexes_undo_adjust, pegged, raw_indexes,
};
use crate::felt::{P, ZERO};
use crate::hash::{hash_elements, rpo_hash_elements};
use crate::op_batch::{OpBatch, lemma_ip_monotone_all, raw_prefix, segment};
use crate::operation::{Operation, all_wf};

verus! {

/// Errors in building the nodes of a MAST forest.
#[derive(Clone, Copy, Debug, PartialEq, Eq)]
pub enum MastForestError {
    /// A basic block was given no operations.
    EmptyBasicBlock,
}

/// The group elements of a sequence of batches, eight per batch, in order.
pub open spec fn all_groups(batches: Seq<OpBatch>) -> Seq<u64>
    decreases batches.len(),
{
    if batches.len() == 0 {
        Seq::empty()
    } else {
        all_groups(batches.drop_last()) + batches.last().groups@
    }
}

/// The operations, padding included, of a sequence of batches, in order.
pub open spec fn all_ops(batches: Seq<OpBatch>) -> Seq<Operation>
    decreases batches.len(),
{
    if batches.len() == 0 {
        Seq::empty()
    } else {
        all_ops(batches.drop_last()) + batches.last().ops@
    }
}

/// Block for a linear sequence of operations (i.e., no branching or loops).
///
/// A basic block is composed of operation batches, operation batches are composed of operation
/// groups, operation groups encode the VM's operations and immediate values.
pub struct BasicBlockNode {
    /// The operations of the block, broken up into batches of up to 8 groups.
    pub op_batches: Vec<OpBatch>,
    /// The commitment to the block: the hash of the group elements of all batches.
    pub digest: [u64; 4],
    /// Decorators pegged to the indexes of the padded operations.
    pub decorators: DecoratorList,
    /// Decorators executed before the block.
    pub before_enter: Vec<DecoratorId>,
    /// Decorators executed after the block.
    pub after_exit: Vec<DecoratorId>,
}

impl BasicBlockNode {
    /// The structural invariant of a block: at least one batch, all of them well formed, and
    /// few enough operations to index them with room to spare.
    pub open spec fn wf(&self) -> bool {
        &&& self.op_batches@.len() > 0
        &&& all_batches_wf(self.op_batches@)
        &&& 2 * total_ops(self.op_batches@) <= usize::MAX
        &&& 8 * self.op_batches@.len() <= usize::MAX
    }

    /// The operations of the block without padding, in program order.
    pub open spec fn raw_ops_spec(&self) -> Seq<Operation> {
        concat_raw(self.op_batches@)
    }

    /// The padding offsets of the operations of the block.
    pub open spec fn offsets_spec(&self) -> Seq<usize> {
        offsets_of(pad_flags(self.op_batches@))
    }

    /// Returns a new block holding the given operations, with decorators given against the
    /// unpadded operations; fails on an empty operation list.
    ///
    /// The decorators are moved to the indexes of their operations among the padded ones.
    pub fn new(operations: Vec<Operation>, decorators: DecoratorList) -> (r: Result<
        Self,
        MastForestError,
    >)
        requires
            all_wf(operations@),
            decorators_valid(decorators@, operations@.len() as int),
            144 * operations@.len() <= usize::MAX,
        ensures
            operations@.len() == 0 <==> r is Err,
            r is Err ==> r == Err::<Self, MastForestError>(MastForestError::EmptyBasicBlock),
            r matches Ok(node) ==> {
                &&& node.wf()
                &&& node.raw_ops_spec() == operations@
                &&& batch_states(node.op_batches@) == batching(
                    operations@,
                    0,
                    blank_state(),
                    Seq::empty(),
                )
                &&& node.digest@ == rpo_hash_elements(all_groups(node.op_batches@))
                &&& node.decorators@ == adjust_list(node.offsets_spec(), decorators@)
                &&& node.before_enter@.len() == 0
                &&& node.after_exit@.len() == 0
            },
    {
        if operations.len() == 0 {
            return Err(MastForestError::EmptyBasicBlock);
        }
        let ghost ops = operations@;
        let (op_batches, digest) = batch_and_hash_ops(operations);
        proof {
            lemma_total_ops_bound(op_batches@);
            lemma_raw_le_total(op_batches@);
            lemma_pad_flags_len(op_batches@);
            assert forall|k: int| 0 <= k < decorators@.len() implies (#[trigger] decorators@[k]).0
                <= total_ops(op_batches@) by {
                assert(decorators@[k].0 <= ops.len());
            }
        }
        let reflowed = adjust_decorators(decorators, &op_batches);
        Ok(BasicBlockNode {
            op_batches,
            digest,
            decorators: reflowed,
            before_enter: Vec::new(),
            after_exit: Vec::new(),
        })
    }

    /// Returns a new block from values that are assumed to be correct, such as deserialized
    /// ones: the decorators and the digest are taken as they are.
    pub fn new_unsafe(operations: Vec<Operation>, decorators: DecoratorList, digest: [u64; 4]) -> (r:
        Self)
        requires
            operations@.len() > 0,
            all_wf(operations@),
        ensures
            all_batches_wf(r.op_batches@),
            r.raw_ops_spec() == operations@,
            batch_states(r.op_batches@) == batching(operations@, 0, blank_state(), Seq::empty()),
            r.decorators@ == decorators@,
            r.digest == digest,
            r.before_enter@.len() == 0,
            r.after_exit@.len() == 0,
    {
        let op_batches = batch_ops(operations);
        BasicBlockNode {
            op_batches,
            digest,
            decorators,
            before_enter: Vec::new(),
            after_exit: Vec::new(),
        }
    }

    /// Returns the operation batches of this block.
    pub fn op_batches(&self) -> (r: &Vec<OpBatch>)
        ensures
            r@ == self.op_batches@,
    {
        &self.op_batches
    }

    /// Returns the number of operation batches of this block.
    pub fn num_op_batches(&self) -> (r: usize)
        ensures
            r == self.op_batches@.len(),
    {
        self.op_batches.len()
    }

    /// Returns the total number of operation groups of this block: 8 for every batch but the
    /// last, whose number of groups is a power of two.
    pub fn num_op_groups(&self) -> (r: usize)
        requires
            self.wf(),
        ensures
            r == 8 * (self.op_batches@.len() - 1) + self.op_batches@.last().num_groups,
    {
        let n = self.op_batches.len();
        let last = self.op_batches[n - 1].num_groups();
        assert(self.op_batches@[n - 1].wf());
        (n - 1) * 8 + last
    }

    /// Returns the number of operations, padding included, of this block.
    pub fn num_operations(&self) -> (r: u32)
        requires
            self.wf(),
            total_ops(self.op_batches@) <= u32::MAX,
        ensures
            r == total_ops(self.op_batches@),
    {
        let n = self.op_batches.len();
        let mut sum: usize = 0;
        let mut i: usize = 0;
        while i < n
            invariant
                n == self.op_batches@.len(),
                0 <= i <= n,
                sum == total_ops(self.op_batches@.take(i as int)),
                total_ops(self.op_batches@) <= u32::MAX,
            decreases n - i,
        {
            proof {
                crate::basic_block::lemma_total_ops_step(self.op_batches@, i as int);
            }
            sum = sum + self.op_batches[i].ops.len();
            i = i + 1;
        }
        assert(self.op_batches@.take(n as int) =~= self.op_batches@);
        sum as u32
    }

    /// Returns the operations of this block, padding included, in order.
    pub fn operations(&self) -> (r: Vec<Operation>)
        ensures
            r@ == all_ops(self.op_batches@),
    {
        let mut r: Vec<Operation> = Vec::new();
        let n = self.op_batches.len();
        let mut i: usize = 0;
        while i < n
            invariant
                n == self.op_batches@.len(),
                0 <= i <= n,
                r@ == all_ops(self.op_batches@.take(i as int)),
            decreases n - i,
        {
            let b = &self.op_batches[i];
            let ghost base = r@;
            let mut k: usize = 0;
            while k < b.ops.len()
                invariant
                    0 <= k <= b.ops@.len(),
                    r@ == base + b.ops@.take(k as int),
                decreases b.ops@.len() - k,
            {
                r.push(b.ops[k]);
                assert(b.ops@.take(k + 1) =~= b.ops@.take(k as int).push(b.ops@[k as int]));
                k = k + 1;
            }
            proof {
                let t = self.op_batches@.take(i + 1);
                assert(t.drop_last() =~= self.op_batches@.take(i as int));
                assert(b.ops@.take(b.ops@.len() as int) =~= b.ops@);
            }
            i = i + 1;
        }
        assert(self.op_batches@.take(n as int) =~= self.op_batches@);
        r
    }

    /// Returns the operations of this block without padding, in order.
    pub fn raw_operations(&self) -> (r: Vec<Operation>)
        requires
            all_batches_wf(self.op_batches@),
        ensures
            r@ == self.raw_ops_spec(),
    {
        let mut r: Vec<Operation> = Vec::new();
        let n = self.op_batches.len();
        let mut i: usize = 0;
        while i < n
            invariant
                n == self.op_batches@.len(),
                all_batches_wf(self.op_batches@),
                0 <= i <= n,
                r@ == concat_raw(self.op_batches@.take(i as int)),
            decreases n - i,
        {
            assert(self.op_batches@[i as int].wf());
            let mut raw = self.op_batches[i].raw_ops();
            r.append(&mut raw);
            proof {
                let t = self.op_batches@.take(i + 1);
                assert(t.drop_last() =~= self.op_batches@.take(i as int));
            }
            i = i + 1;
        }
        assert(self.op_batches@.take(n as int) =~= self.op_batches@);
        r
    }

    /// Returns the number of operations and op-indexed decorators of this block.
    pub fn num_operations_and_decorators(&self) -> (r: u32)
        requires
            self.wf(),
            total_ops(self.op_batches@) + self.decorators@.len() <= u32::MAX,
        ensures
            r == total_ops(self.op_batches@) + self.decorators@.len(),
    {
        let n = self.num_operations();
        let d = self.decorators.len();
        n + d as u32
    }

    /// Returns an iterator over the op-indexed decorators of this block, with indexes into the
    /// padded operations; unlike [`BasicBlockNode::decorators`] it leaves out the
    /// `before_enter` and `after_exit` decorators.
    pub fn indexed_decorator_iter(&self) -> (r: DecoratorOpLinkIterator<'_>)
        requires
            self.wf(),
            total_ops(self.op_batches@) <= u32::MAX,
        ensures
            r.wf(),
            r.remaining() == self.decorators@,
    {
        let total = self.num_operations() as usize;
        let r = DecoratorOpLinkIterator::new(&[], self.decorators.as_slice(), &[], total);
        assert(pegged(Seq::<DecoratorId>::empty(), 0, 0) =~= Seq::empty());
        assert(pegged(Seq::<DecoratorId>::empty(), 0, total) =~= Seq::empty());
        assert(r.remaining() =~= self.decorators@);
        r
    }

    /// Returns an iterator over all decorators of this block, in program order, with indexes
    /// into the padded operations: `before_enter` decorators at 0, op-indexed decorators at their
    /// index, and `after_exit` decorators at the number of operations.
    pub fn decorators(&self) -> (r: DecoratorOpLinkIterator<'_>)
        requires
            self.wf(),
            total_ops(self.op_batches@) <= u32::MAX,
        ensures
            r.wf(),
            r.remaining() == pegged(self.before_enter@, 0, 0) + self.decorators@ + pegged(
                self.after_exit@,
                0,
                total_ops(self.op_batches@) as usize,
            ),
    {
        let total = self.num_operations() as usize;
        DecoratorOpLinkIterator::new(
            self.before_enter.as_slice(),
            self.decorators.as_slice(),
            self.after_exit.as_slice(),
            total,
        )
    }

    /// Returns an iterator over all decorators of this block, in program order, with indexes
    /// into the raw (unpadded) operations.
    pub fn raw_decorator_iter(&self) -> (r: RawDecoratorOpLinkIterator<'_>)
        requires
            self.wf(),
        ensures
            r.wf(),
            r.remaining() == pegged(self.before_enter@, 0, 0) + raw_indexes(
                self.offsets_spec(),
                0,
                self.decorators@,
            ) + pegged(self.after_exit@, 0, r.total_ops),
            r.total_ops == self.raw_ops_spec().len(),
    {
        proof {
            lemma_raw_plus_pads(self.op_batches@);
            lemma_pad_flags_len(self.op_batches@);
        }
        RawDecoratorOpLinkIterator::new(
            self.before_enter.as_slice(),
            self.decorators.as_slice(),
            self.after_exit.as_slice(),
            &self.op_batches,
        )
    }

    /// Replaces the op-indexed decorators of this block.
    pub fn set_decorators(&mut self, decorator_list: DecoratorList)
        ensures
            final(self).decorators@ == decorator_list@,
            final(self).op_batches@ == old(self).op_batches@,
            final(self).digest == old(self).digest,
            final(self).before_enter@ == old(self).before_enter@,
            final(self).after_exit@ == old(self).after_exit@,
    {
        self.decorators = decorator_list;
    }

    /// Returns the commitment to this block.
    pub fn digest(&self) -> (r: [u64; 4])
        ensures
            r == self.digest,
    {
        self.digest
    }

    /// Returns the decorators executed before this block.
    pub fn before_enter(&self) -> (r: &Vec<DecoratorId>)
        ensures
            r@ == self.before_enter@,
    {
        &self.before_enter
    }

    /// Returns the decorators executed after this block.
    pub fn after_exit(&self) -> (r: &Vec<DecoratorId>)
        ensures
            r@ == self.after_exit@,
    {
        &self.after_exit
    }

    /// Appends decorators to be executed before this block.
    pub fn append_before_enter(&mut self, decorator_ids: &Vec<DecoratorId>)
        ensures
            final(self).before_enter@ == old(self).before_enter@ + decorator_ids@,
            final(self).after_exit@ == old(self).after_exit@,
            final(self).decorators@ == old(self).decorators@,
            final(self).op_batches@ == old(self).op_batches@,
            final(self).digest == old(self).digest,
    {
        let mut i: usize = 0;
        let ghost start = self.before_enter@;
        while i < decorator_ids.len()
            invariant
                0 <= i <= decorator_ids@.len(),
                self.before_enter@ == start + decorator_ids@.take(i as int),
                self.after_exit@ == old(self).after_exit@,
                self.decorators@ == old(self).decorators@,
                self.op_batches@ == old(self).op_batches@,
                self.digest == old(self).digest,
            decreases decorator_ids@.len() - i,
        {
            self.before_enter.push(decorator_ids[i]);
            assert(decorator_ids@.take(i + 1) =~= decorator_ids@.take(i as int).push(decorator_ids@[i as int]));
            i = i + 1;
        }
        assert(decorator_ids@.take(decorator_ids@.len() as int) =~= decorator_ids@);
    }

    /// Appends decorators to be executed after this block.
    pub fn append_after_exit(&mut self, decorator_ids: &Vec<DecoratorId>)
        ensures
            final(self).after_exit@ == old(self).after_exit@ + decorator_ids@,
            final(self).before_enter@ == old(self).before_enter@,
            final(self).decorators@ == old(self).decorators@,
            final(self).op_batches@ == old(self).op_batches@,
            final(self).digest == old(self).digest,
    {
        let mut i: usize = 0;
        let ghost start = self.after_exit@;
        while i < decorator_ids.len()
            invariant
                0 <= i <= decorator_ids@.len(),
                self.after_exit@ == start + decorator_ids@.take(i as int),
                self.before_enter@ == old(self).before_enter@,
                self.decorators@ == old(self).decorators@,
                self.op_batches@ == old(self).op_batches@,
                self.digest == old(self).digest,
            decreases decorator_ids@.len() - i,
        {
            self.after_exit.push(decorator_ids[i]);
            assert(decorator_ids@.take(i + 1) =~= decorator_ids@.take(i as int).push(decorator_ids@[i as int]));
            i = i + 1;
        }
        assert(decorator_ids@.take(decorator_ids@.len() as int) =~= decorator_ids@);
    }

    /// Removes all decorators of this block.
    pub fn remove_decorators(&mut self)
        ensures
            final(self).decorators@.len() == 0,
            final(self).before_enter@.len() == 0,
            final(self).after_exit@.len() == 0,
            final(self).op_batches@ == old(self).op_batches@,
            final(self).digest == old(self).digest,
    {
        self.decorators.truncate(0);
        self.before_enter.truncate(0);
        self.after_exit.truncate(0);
    }

    /// The domain of basic blocks in the hashing of control blocks.
    pub fn domain(&self) -> (r: u64)
        ensures
            r == ZERO,
    {
        ZERO
    }

    /// A basic block has no children.
    pub fn has_children(&self) -> (r: bool)
        ensures
            !r,
    {
        false
    }
}

/// An operation of a block or a decorator attached to it, in the order of execution.
#[derive(Clone, Copy, Debug, PartialEq, Eq)]
pub enum OperationOrDecorator {
    Operation(Operation),
    Decorator(DecoratorId),
}

/// Decorators as items.
pub open spec fn decorator_items(ids: Seq<DecoratorId>) -> Seq<OperationOrDecorator> {
    ids.map_values(|id: DecoratorId| OperationOrDecorator::Decorator(id))
}

/// The operations of a block from position `op_index` on, each preceded by the decorators
/// pegged to it, from position `next` of the decorator list on. A decorator is emitted when it
/// is the next one of the list and pegged to the current position; decorators pegged just past
/// the last operation come last.
pub open spec fn interleave(
    ops: Seq<Operation>,
    decs: Seq<(usize, DecoratorId)>,
    op_index: nat,
    next: nat,
) -> Seq<OperationOrDecorator>
    decreases ops.len() - op_index, decs.len() - next,
{
    if next < decs.len() && decs[next as int].0 == op_index {
        seq![OperationOrDecorator::Decorator(decs[next as int].1)] + interleave(ops, decs, op_index, next + 1)
    } else if op_index < ops.len() {
        seq![OperationOrDecorator::Operation(ops[op_index as int])] + interleave(ops, decs, op_index + 1, next)
    } else {
        Seq::empty()
    }
}

impl BasicBlockNode {
    /// The items of this block in execution order: the decorators before it, its operations
    /// (padding included) with their decorators, and the decorators after it.
    pub open spec fn items(&self) -> Seq<OperationOrDecorator> {
        decorator_items(self.before_enter@) + interleave(all_ops(self.op_batches@), self.decorators@, 0, 0)
            + decorator_items(self.after_exit@)
    }

    /// Returns the items of this block in execution order.
    pub fn iter(&self) -> (r: Vec<OperationOrDecorator>)
        ensures
            r@ == self.items(),
    {
        let mut r: Vec<OperationOrDecorator> = Vec::new();
        let mut i: usize = 0;
        while i < self.before_enter.len()
            invariant
                i <= self.before_enter@.len(),
                r@ == decorator_items(self.before_enter@.take(i as int)),
            decreases self.before_enter.len() - i,
        {
            r.push(OperationOrDecorator::Decorator(self.before_enter[i]));
            assert(self.before_enter@.take(i + 1) =~= self.before_enter@.take(i as int).push(self.before_enter@[i as int]));
            assert(decorator_items(self.before_enter@.take(i + 1)) =~= decorator_items(self.before_enter@.take(i as int)).push(OperationOrDecorator::Decorator(self.before_enter@[i as int])));
            i = i + 1;
        }
        assert(self.before_enter@.take(i as int) =~= self.before_enter@);
        let ghost head = r@;
        let ops = self.operations();
        let decs = &self.decorators;
        let mut op_index: usize = 0;
        let mut next: usize = 0;
        assert(head + interleave(ops@, decs@, 0, 0) =~= r@ + interleave(ops@, decs@, 0, 0));
        loop
            invariant
                op_index <= ops@.len(),
                next <= decs@.len(),
                ops@ == all_ops(self.op_batches@),
                head == decorator_items(self.before_enter@),
                head + interleave(ops@, decs@, 0, 0) == r@ + interleave(ops@, decs@, op_index as nat, next as nat),
            ensures
                r@ == head + interleave(ops@, decs@, 0, 0),
            decreases ops@.len() - op_index + decs@.len() - next,
        {
            if next < decs.len() && decs[next].0 == op_index {
                let ghost rest = interleave(ops@, decs@, op_index as nat, (next + 1) as nat);
                let ghost before = r@;
                let item = OperationOrDecorator::Decorator(decs[next].1);
                r.push(item);
                assert(before + (seq![item] + rest) =~= r@ + rest);
                next = next + 1;
            } else if op_index < ops.len() {
                let ghost rest = interleave(ops@, decs@, (op_index + 1) as nat, next as nat);
                let ghost before = r@;
                let item = OperationOrDecorator::Operation(ops[op_index]);
                r.push(item);
                assert(before + (seq![item] + rest) =~= r@ + rest);
                op_index = op_index + 1;
            } else {
                assert(interleave(ops@, decs@, op_index as nat, next as nat) =~= Seq::<OperationOrDecorator>::empty());
                assert(r@ + Seq::<OperationOrDecorator>::empty() =~= r@);
                break;
            }
        }
        let ghost mid = r@;
        let mut j: usize = 0;
        while j < self.after_exit.len()
            invariant
                j <= self.after_exit@.len(),
                r@ == mid + decorator_items(self.after_exit@.take(j as int)),
            decreases self.after_exit.len() - j,
        {
            r.push(OperationOrDecorator::Decorator(self.after_exit[j]));
            assert(self.after_exit@.take(j + 1) =~= self.after_exit@.take(j as int).push(self.after_exit@[j as int]));
            assert(decorator_items(self.after_exit@.take(j + 1)) =~= decorator_items(self.after_exit@.take(j as int)).push(OperationOrDecorator::Decorator(self.after_exit@[j as int])));
            assert(r@ =~= mid + decorator_items(self.after_exit@.take(j + 1)));
            j = j + 1;
        }
        assert(self.after_exit@.take(j as int) =~= self.after_exit@);
        r
    }
}

/// The number of cycles of the assembly instruction that decorator `id` records, if the
/// decorator table `asm_op_cycles` says it is an assembly-op decorator.
pub open spec fn asm_cycles(asm_op_cycles: Seq<Option<u8>>, id: DecoratorId) -> Option<u8> {
    if id < asm_op_cycles.len() {
        asm_op_cycles[id as int]
    } else {
        None
    }
}

/// The first of the decorator links whose decorator is an assembly op that covers the operation
/// at `target` (it starts at or before it and spans it with its cycles), or, with no target,
/// the first assembly op.
pub open spec fn first_assembly_op(
    links: Seq<(usize, DecoratorId)>,
    asm_op_cycles: Seq<Option<u8>>,
    target: Option<usize>,
) -> Option<DecoratorId>
    decreases links.len(),
{
    if links.len() == 0 {
        None
    } else {
        let (op_idx, id) = links[0];
        let found = match asm_cycles(asm_op_cycles, id) {
            None => false,
            Some(cycles) => match target {
                None => true,
                Some(t) => op_idx <= t && t < op_idx + cycles,
            },
        };
        if found {
            Some(id)
        } else {
            first_assembly_op(links.drop_first(), asm_op_cycles, target)
        }
    }
}

/// What the error reporting of the processor asks of a node: its decorators, with the index of
/// the operation each runs before, and the assembly-op decorator of an operation.
pub trait MastNodeErrorContext {
    /// The decorators of this node, in program order, with the index of the operation each
    /// runs before.
    spec fn decorator_links(&self) -> Seq<(usize, DecoratorId)>;

    /// Whether this node is well formed enough to list its decorators.
    spec fn node_wf(&self) -> bool;

    /// Returns an iterator over the decorators of this node, in program order.
    fn decorators(&self) -> (r: DecoratorOpLinkIterator<'_>)
        requires
            self.node_wf(),
        ensures
            r.wf(),
            r.remaining() == self.decorator_links(),
    ;

    /// Returns the assembly-op decorator that covers the operation at `target_op_idx`, or with
    /// no index the first one; `asm_op_cycles[id]` gives the number of cycles of decorator `id`
    /// when it is an assembly op.
    fn get_assembly_op(&self, asm_op_cycles: &Vec<Option<u8>>, target_op_idx: Option<usize>) -> (r: Option<DecoratorId>)
        requires
            self.node_wf(),
        ensures
            r == first_assembly_op(self.decorator_links(), asm_op_cycles@, target_op_idx),
    {
        let mut it = self.decorators();
        let ghost all = it.remaining();
        loop
            invariant
                it.wf(),
                all == self.decorator_links(),
                first_assembly_op(all, asm_op_cycles@, target_op_idx) == first_assembly_op(
                    it.remaining(),
                    asm_op_cycles@,
                    target_op_idx,
                ),
            decreases it.remaining().len(),
        {
            match it.next() {
                None => {
                    return None;
                },
                Some((op_idx, id)) => {
                    let cycles = if (id as usize) < asm_op_cycles.len() {
                        asm_op_cycles[id as usize]
                    } else {
                        None
                    };
                    match cycles {
                        None => {},
                        Some(c) => {
                            let found = match target_op_idx {
                                None => true,
                                Some(t) => op_idx <= t && t - op_idx < c as usize,
                            };
                            if found {
                                return Some(id);
                            }
                        },
                    }
                },
            }
        }
    }
}

impl MastNodeErrorContext for BasicBlockNode {
    open spec fn decorator_links(&self) -> Seq<(usize, DecoratorId)> {
        pegged(self.before_enter@, 0, 0) + self.decorators@ + pegged(
            self.after_exit@,
            0,
            total_ops(self.op_batches@) as usize,
        )
    }

    open spec fn node_wf(&self) -> bool {
        self.wf() && total_ops(self.op_batches@) <= u32::MAX
    }

    fn decorators(&self) -> (r: DecoratorOpLinkIterator<'_>) {
        BasicBlockNode::decorators(self)
    }
}

/// Groups the operations into batches and hashes the group elements of all batches.
fn batch_and_hash_ops(ops: Vec<Operation>) -> (r: (Vec<OpBatch>, [u64; 4]))
    requires
        all_wf(ops@),
    ensures
        all_batches_wf(r.0@),
        concat_raw(r.0@) == ops@,
        r.0@.len() <= ops@.len(),
        batch_states(r.0@) == batching(ops@, 0, blank_state(), Seq::empty()),
        r.1@ == rpo_hash_elements(all_groups(r.0@)),
{
    let batches = batch_ops(ops);
    let mut groups: Vec<u64> = Vec::new();
    let n = batches.len();
    let mut i: usize = 0;
    while i < n
        invariant
            n == batches@.len(),
            all_batches_wf(batches@),
            0 <= i <= n,
            groups@ == all_groups(batches@.take(i as int)),
            forall|k: int| 0 <= k < groups@.len() ==> #[trigger] groups@[k] < P,
        decreases n - i,
    {
        let b = &batches[i];
        assert(b.wf());
        let ghost base = groups@;
        let mut g: usize = 0;
        while g < 8
            invariant
                b.wf(),
                0 <= g <= 8,
                groups@ == base + b.groups@.take(g as int),
                forall|k: int| 0 <= k < groups@.len() ==> #[trigger] groups@[k] < P,
            decreases 8 - g,
        {
            groups.push(b.groups[g]);
            assert(b.groups@.take(g + 1) =~= b.groups@.take(g as int).push(b.groups@[g as int]));
            g = g + 1;
        }
        proof {
            let t = batches@.take(i + 1);
            assert(t.drop_last() =~= batches@.take(i as int));
            assert(b.groups@.take(8) =~= b.groups@);
        }
        i = i + 1;
    }
    assert(batches@.take(n as int) =~= batches@);
    let digest = hash_elements(&groups);
    (batches, digest)
}

// LAWS
// ================================================================================================

/// The operations among the first `n` of `ops` whose padding flag is not set, in order.
pub open spec fn unpadded(ops: Seq<Operation>, flags: Seq<bool>, n: int) -> Seq<Operation>
    decreases n,
{
    if n <= 0 {
        Seq::empty()
    } else {
        unpadded(ops, flags, n - 1) + (if flags[n - 1] {
            Seq::empty()
        } else {
            seq![ops[n - 1]]
        })
    }
}

/// The `i`-th unpadded operation sits at position `i` plus its padding offset.
proof fn lemma_unpadded_positions(ops: Seq<Operation>, flags: Seq<bool>, n: int)
    requires
        0 <= n <= flags.len(),
        n <= ops.len(),
        flags.len() <= usize::MAX,
    ensures
        unpadded(ops, flags, n).len() + 1 == offsets_of(flags.take(n)).len(),
        forall|i: int| 0 <= i < unpadded(ops, flags, n).len() ==> {
            &&& i + #[trigger] offsets_of(flags.take(n))[i] < n
            &&& ops[i + offsets_of(flags.take(n))[i]] == unpadded(ops, flags, n)[i]
        },
    decreases n,
{
    lemma_offsets_of_facts(flags.take(n));
    if n > 0 {
        lemma_unpadded_positions(ops, flags, n - 1);
        let f = flags.take(n);
        assert(f.drop_last() =~= flags.take(n - 1));
        assert(f.last() == flags[n - 1]);
        lemma_offsets_of_facts(flags.take(n - 1));
        let r0 = unpadded(ops, flags, n - 1);
        let o0 = offsets_of(flags.take(n - 1));
        let o = offsets_of(f);
        if flags[n - 1] {
            assert(unpadded(ops, flags, n) =~= r0);
            assert forall|i: int| 0 <= i < r0.len() implies o[i] == o0[i] by {}
        } else {
            assert(unpadded(ops, flags, n) =~= r0.push(ops[n - 1]));
            assert(o =~= o0.push(count_pads(f) as usize));
            assert(o0[o0.len() - 1] == count_pads(flags.take(n - 1)));
        }
    }
}

/// Unpadding the first `n` operations looks only at the first `n` operations and flags.
proof fn lemma_unpadded_prefix(ops: Seq<Operation>, flags: Seq<bool>, ops2: Seq<Operation>, flags2: Seq<bool>, n: int)
    requires
        0 <= n,
        n <= ops.len(),
        n <= ops2.len(),
        n <= flags.len(),
        n <= flags2.len(),
        forall|j: int| 0 <= j < n ==> ops[j] == ops2[j] && flags[j] == flags2[j],
    ensures
        unpadded(ops, flags, n) == unpadded(ops2, flags2, n),
    decreases n,
{
    if n > 0 {
        lemma_unpadded_prefix(ops, flags, ops2, flags2, n - 1);
    }
}

/// Unpadding two runs of flags one after the other.
proof fn lemma_unpadded_append(ops: Seq<Operation>, f: Seq<bool>, g: Seq<bool>, k: int)
    requires
        0 <= k <= g.len(),
        f.len() + k <= ops.len(),
    ensures
        unpadded(ops, f + g, f.len() + k) == unpadded(ops, f, f.len() as int) + unpadded(
            ops.skip(f.len() as int),
            g,
            k,
        ),
    decreases k,
{
    if k > 0 {
        lemma_unpadded_append(ops, f, g, k - 1);
        assert((f + g)[f.len() + k - 1] == g[k - 1]);
        assert(ops.skip(f.len() as int)[k - 1] == ops[f.len() + k - 1]);
    } else {
        lemma_unpadded_prefix(ops, f + g, ops, f, f.len() as int);
    }
}

/// Unpadding a group drops its last operation if it is padded.
proof fn lemma_unpadded_group(x: Seq<Operation>, len: int, padded: bool, k: int)
    requires
        0 <= k <= len <= x.len(),
    ensures
        unpadded(x, group_pad_flags(len, padded), k) == x.take(
            if padded && k == len && k > 0 { k - 1 } else { k },
        ),
    decreases k,
{
    if k > 0 {
        lemma_unpadded_group(x, len, padded, k - 1);
        assert(group_pad_flags(len, padded)[k - 1] == (padded && k == len));
        assert(x.take(k) =~= x.take(k - 1).push(x[k - 1]));
        if padded && k == len && k > 0 {
            assert(unpadded(x, group_pad_flags(len, padded), k) =~= x.take(k - 1));
        } else {
            assert(unpadded(x, group_pad_flags(len, padded), k) =~= x.take(k));
        }
    } else {
        assert(x.take(0) =~= Seq::<Operation>::empty());
    }
}

/// The raw operations of the first `n` groups of a well-formed batch are its operations up to
/// the end of group `n - 1` without the padding ones.
proof fn lemma_batch_unpadded(b: OpBatch, n: int)
    requires
        b.wf(),
        0 <= n <= b.num_groups,
    ensures
        batch_pad_flags(b, n).len() == b.indptr@[n],
        raw_prefix(b.ops@, b.indptr@, b.padding@, n) == unpadded(
            b.ops@,
            batch_pad_flags(b, n),
            b.indptr@[n] as int,
        ),
    decreases n,
{
    lemma_ip_monotone_all(b.indptr@, b.num_groups as int);
    if n > 0 {
        lemma_batch_unpadded(b, n - 1);
        let m = b.indptr@[n - 1] as int;
        let len = b.indptr@[n] - b.indptr@[n - 1];
        assert(b.indptr@[n - 1] <= b.indptr@[n]);
        assert(b.indptr@[n] <= b.indptr@[b.num_groups as int]);
        let f = batch_pad_flags(b, n - 1);
        let g = group_pad_flags(len, b.padding@[n - 1]);
        lemma_unpadded_append(b.ops@, f, g, len);
        lemma_unpadded_group(b.ops@.skip(m), len, b.padding@[n - 1], len);
        assert(b.ops@.skip(m).take(if b.padding@[n - 1] { len - 1 } else { len }) =~= segment(
            b.ops@,
            b.indptr@,
            b.padding@,
            n - 1,
        ));
    }
}

/// The raw operations of a sequence of well-formed batches are their operations without the
/// padding ones.
#[verifier::rlimit(50)]
proof fn lemma_raw_unpadded(batches: Seq<OpBatch>)
    requires
        all_batches_wf(batches),
    ensures
        all_ops(batches).len() == pad_flags(batches).len(),
        concat_raw(batches) == unpadded(all_ops(batches), pad_flags(batches), pad_flags(batches).len() as int),
    decreases batches.len(),
{
    lemma_pad_flags_len(batches);
    if batches.len() > 0 {
        let init = batches.drop_last();
        assert(all_batches_wf(init)) by {
            assert forall|i: int| 0 <= i < init.len() implies (#[trigger] init[i]).wf() by {
                assert(init[i] == batches[i]);
            }
        }
        lemma_raw_unpadded(init);
        lemma_pad_flags_len(init);
        let b = batches.last();
        assert(b == batches[batches.len() - 1]);
        lemma_batch_unpadded(b, b.num_groups as int);
        let all = all_ops(batches);
        let f = pad_flags(init);
        let g = batch_pad_flags(b, b.num_groups as int);
        assert(all.skip(f.len() as int) =~= b.ops@);
        lemma_unpadded_append(all, f, g, g.len() as int);
        lemma_unpadded_prefix(all, f, all_ops(init), f, f.len() as int);
    }
}

/// Moving decorators to the padded operations keeps each on the operation it was attached to:
/// the padded index of a decorator of a raw operation holds that operation, and a decorator
/// at the end of the raw operations goes to the end of the padded ones.
pub proof fn lemma_decorators_stay_on_operations(
    node: BasicBlockNode,
    operations: Seq<Operation>,
    decorators: Seq<(usize, DecoratorId)>,
)
    requires
        node.wf(),
        node.raw_ops_spec() == operations,
        decorators_valid(decorators, operations.len() as int),
        node.decorators@ == adjust_list(node.offsets_spec(), decorators),
    ensures
        forall|k: int| 0 <= k < decorators.len() && decorators[k].0 < operations.len() ==> {
            &&& (#[trigger] node.decorators@[k]).0 < all_ops(node.op_batches@).len()
            &&& all_ops(node.op_batches@)[node.decorators@[k].0 as int] == operations[decorators[k].0 as int]
        },
        forall|k: int| 0 <= k < decorators.len() && decorators[k].0 == operations.len() ==> (
            #[trigger] node.decorators@[k]).0 == all_ops(node.op_batches@).len(),
{
    let flags = pad_flags(node.op_batches@);
    let all = all_ops(node.op_batches@);
    lemma_pad_flags_len(node.op_batches@);
    lemma_raw_unpadded(node.op_batches@);
    lemma_raw_plus_pads(node.op_batches@);
    lemma_offsets_of_facts(flags);
    assert(flags.take(flags.len() as int) =~= flags);
    lemma_unpadded_positions(all, flags, flags.len() as int);
    let o = node.offsets_spec();
    assert forall|k: int| 0 <= k < decorators.len() && decorators[k].0 < operations.len() implies {
        &&& (#[trigger] node.decorators@[k]).0 < all.len()
        &&& all[node.decorators@[k].0 as int] == operations[decorators[k].0 as int]
    } by {
        let i = decorators[k].0 as int;
        assert(i + o[i] < all.len());
        assert(offset_at(o, i) == o[i]);
    }
    assert forall|k: int| 0 <= k < decorators.len() && decorators[k].0 == operations.len() implies (
        #[trigger] node.decorators@[k]).0 == all.len() by {
        let i = decorators[k].0 as int;
        assert(offset_at(o, i) == o[i]);
        assert(o[o.len() - 1] == count_pads(flags));
    }
}


/// The raw decorator iterator of a block built by [`BasicBlockNode::new`] gives back the
/// decorators that the block was built with: adjusting them to the padded operations and
/// walking them back to raw indexes is the identity, for decorator lists in ascending order
/// whose indexes are at most the number of operations.
pub proof fn lemma_block_decorators_round_trip(
    node: BasicBlockNode,
    operations: Seq<Operation>,
    decorators: Seq<(usize, DecoratorId)>,
)
    requires
        node.wf(),
        operations.len() > 0,
        node.raw_ops_spec() == operations,
        decorators_valid(decorators, operations.len() as int),
        node.decorators@ == adjust_list(node.offsets_spec(), decorators),
    ensures
        raw_indexes(node.offsets_spec(), 0, node.decorators@) == decorators,
{
    lemma_pad_flags_len(node.op_batches@);
    lemma_offsets_of_wf(pad_flags(node.op_batches@));
    lemma_offsets_of_facts(pad_flags(node.op_batches@));
    lemma_raw_plus_pads(node.op_batches@);
    lemma_raw_le_total(node.op_batches@);
    assert(decorators_valid(decorators, node.offsets_spec().len() as int)) by {
        assert forall|i: int| 0 <= i < decorators.len() implies #[trigger] decorators[i].0
            <= node.offsets_spec().len() by {
            assert(decorators[i].0 <= operations.len());
        }
    }
    if decorators.len() > 0 {
        assert(decorators[0].0 <= operations.len());
    }
    lemma_raw_indexes_undo_adjust(node.offsets_spec(), 0, decorators);
}

} // verus!
