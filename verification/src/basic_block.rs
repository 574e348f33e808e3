//! Basic blocks: linear sequences of operations split into batches, with the decorators that
//! are attached to operation indexes.

use vstd::prelude::*;

use crate::op_batch::{
    AccState, BatchState, OpBatch, OpBatchAccumulator, add_op_state, batch_of, blank_state,
    lemma_empty_acc_raw, lemma_ip_monotone_all, raw_prefix, state_accepts, imm_inv,
    immediates_in_empty_groups, lemma_imm_add, lemma_imm_batch, lemma_imm_blank,
};
use crate::operation::{Operation, all_wf};

verus! {

// BATCHING
// ================================================================================================

/// The raw operations of a sequence of batches, in program order.
pub open spec fn concat_raw(batches: Seq<OpBatch>) -> Seq<Operation>
    decreases batches.len(),
{
    if batches.len() == 0 {
        Seq::empty()
    } else {
        concat_raw(batches.drop_last()) + batches.last().raw_ops_spec()
    }
}

/// Every batch of the sequence is well formed.
pub open spec fn all_batches_wf(batches: Seq<OpBatch>) -> bool {
    forall|i: int| 0 <= i < batches.len() ==> (#[trigger] batches[i]).wf()
}

/// The states of a sequence of batches.
pub open spec fn batch_states(batches: Seq<OpBatch>) -> Seq<BatchState> {
    batches.map_values(|b: OpBatch| b.state())
}

/// The batches that batching the operations from position `i` on adds to the batches `done`,
/// with the accumulator in state `acc`: each operation goes into the accumulator, which first
/// becomes a batch of its own when it has no room for it; the last accumulator becomes a batch
/// if it holds any operation.
pub open spec fn batching(ops: Seq<Operation>, i: int, acc: AccState, done: Seq<BatchState>) -> Seq<
    BatchState,
>
    decreases ops.len() - i,
{
    if i >= ops.len() {
        if acc.ops.len() > 0 {
            done.push(batch_of(acc))
        } else {
            done
        }
    } else {
        let op = ops[i];
        if state_accepts(acc, op) {
            batching(ops, i + 1, add_op_state(acc, op), done)
        } else {
            batching(ops, i + 1, add_op_state(blank_state(), op), done.push(batch_of(acc)))
        }
    }
}

/// Batching keeps every immediate value in a group that holds no operation, in every batch it
/// makes.
proof fn lemma_batching_imm(ops: Seq<Operation>, i: int, acc: AccState, done: Seq<BatchState>)
    requires
        imm_inv(acc),
        forall|k: int| 0 <= k < done.len() ==> immediates_in_empty_groups(#[trigger] done[k]),
    ensures
        forall|k: int|
            0 <= k < batching(ops, i, acc, done).len() ==> immediates_in_empty_groups(
                #[trigger] batching(ops, i, acc, done)[k],
            ),
    decreases ops.len() - i,
{
    if i >= ops.len() {
        if acc.ops.len() > 0 {
            lemma_imm_batch(acc);
            let r = done.push(batch_of(acc));
            assert(batching(ops, i, acc, done) == r);
            assert forall|k: int| 0 <= k < r.len() implies immediates_in_empty_groups(#[trigger] r[k]) by {
                if k < done.len() {
                    assert(r[k] == done[k]);
                }
            }
        } else {
            assert(batching(ops, i, acc, done) == done);
        }
    } else {
        let op = ops[i];
        if state_accepts(acc, op) {
            lemma_imm_add(acc, op);
            lemma_batching_imm(ops, i + 1, add_op_state(acc, op), done);
            assert(batching(ops, i, acc, done) == batching(ops, i + 1, add_op_state(acc, op), done));
        } else {
            lemma_imm_batch(acc);
            lemma_imm_blank();
            lemma_imm_add(blank_state(), op);
            let d = done.push(batch_of(acc));
            assert forall|k: int| 0 <= k < d.len() implies immediates_in_empty_groups(#[trigger] d[k]) by {
                if k < done.len() {
                    assert(d[k] == done[k]);
                }
            }
            lemma_batching_imm(ops, i + 1, add_op_state(blank_state(), op), d);
            assert(batching(ops, i, acc, done) == batching(ops, i + 1, add_op_state(blank_state(), op), d));
        }
    }
}

/// In every batch that batching a sequence of operations makes, each immediate value of an
/// operation is held by a group that holds no operation.
pub proof fn lemma_batching_immediates(ops: Seq<Operation>)
    ensures
        forall|k: int|
            0 <= k < batching(ops, 0, blank_state(), Seq::empty()).len() ==> immediates_in_empty_groups(
                #[trigger] batching(ops, 0, blank_state(), Seq::empty())[k],
            ),
{
    lemma_imm_blank();
    lemma_batching_imm(ops, 0, blank_state(), Seq::empty());
}

/// Groups the provided operations into batches of up to 8 groups of up to 9 operations each.
///
/// Reading the raw operations of the batches back, in order, gives the operations that were
/// batched.
pub fn batch_ops(ops: Vec<Operation>) -> (r: Vec<OpBatch>)
    requires
        all_wf(ops@),
    ensures
        all_batches_wf(r@),
        concat_raw(r@) == ops@,
        r@.len() <= ops@.len(),
        batch_states(r@) == batching(ops@, 0, blank_state(), Seq::empty()),
        forall|k: int| 0 <= k < r@.len() ==> immediates_in_empty_groups(#[trigger] r@[k].state()),
{
    let mut batches: Vec<OpBatch> = Vec::new();
    let mut acc = OpBatchAccumulator::new();
    let mut i: usize = 0;
    assert(batch_states(batches@) =~= Seq::<BatchState>::empty());
    while i < ops.len()
        invariant
            all_wf(ops@),
            0 <= i <= ops.len(),
            acc.inv(),
            all_batches_wf(batches@),
            concat_raw(batches@) + acc.raw() == ops@.take(i as int),
            batches@.len() + (if acc.ops@.len() > 0 { 1int } else { 0int }) <= i,
            acc.ops@.len() == 0 ==> acc.op_idx == 0 && acc.next_group_idx == 1,
            batching(ops@, 0, blank_state(), Seq::empty()) == batching(
                ops@,
                i as int,
                acc.state(),
                batch_states(batches@),
            ),
        decreases ops.len() - i,
    {
        let op = ops[i];
        assert(op.wf());
        let ghost before = acc.state();
        let ghost done = batch_states(batches@);
        if !acc.can_accept_op(op) {
            let ghost old_batches = batches@;
            let ghost acc_raw = acc.raw();
            let batch = acc.into_batch();
            acc = OpBatchAccumulator::new();
            batches.push(batch);
            proof {
                assert(batches@.drop_last() == old_batches);
                assert(concat_raw(batches@) == concat_raw(old_batches) + acc_raw);
                assert(batch_states(batches@) =~= done.push(batch_of(before)));
            }
        }
        let ghost before_raw = acc.raw();
        acc.add_op(op);
        proof {
            assert(ops@.take(i + 1) =~= ops@.take(i as int).push(op));
        }
        i = i + 1;
    }
    if !acc.is_empty() {
        let ghost old_batches = batches@;
        let ghost acc_raw = acc.raw();
        let ghost before = acc.state();
        let batch = acc.into_batch();
        batches.push(batch);
        proof {
            assert(batches@.drop_last() == old_batches);
            assert(batch_states(batches@) =~= batch_states(old_batches).push(batch_of(before)));
        }
    } else {
        proof {
            lemma_empty_acc_raw(acc);
        }
    }
    assert(ops@.take(ops.len() as int) =~= ops@);
    proof {
        lemma_batching_immediates(ops@);
        assert forall|k: int| 0 <= k < batches@.len() implies immediates_in_empty_groups(
            #[trigger] batches@[k].state(),
        ) by {
            assert(batch_states(batches@)[k] == batches@[k].state());
        }
    }
    batches
}

/// A well-formed batch holds at most 72 operations.
pub proof fn lemma_batch_ops_bound(b: OpBatch)
    requires
        b.wf(),
    ensures
        b.ops@.len() <= 72,
{
    lemma_indptr_bound(b, b.num_groups as int);
}

/// The start of group `g` of a well-formed batch is at most `9 g`.
proof fn lemma_indptr_bound(b: OpBatch, g: int)
    requires
        b.wf(),
        0 <= g <= b.num_groups,
    ensures
        b.indptr@[g] <= 9 * g,
    decreases g,
{
    if g > 0 {
        lemma_indptr_bound(b, g - 1);
        assert(b.indptr@[g - 1] <= b.indptr@[g]);
    }
}

/// A sequence of well-formed batches holds at most 72 operations per batch.
pub proof fn lemma_total_ops_bound(batches: Seq<OpBatch>)
    requires
        all_batches_wf(batches),
    ensures
        total_ops(batches) <= 72 * batches.len(),
    decreases batches.len(),
{
    if batches.len() > 0 {
        let init = batches.drop_last();
        assert(all_batches_wf(init)) by {
            assert forall|i: int| 0 <= i < init.len() implies (#[trigger] init[i]).wf() by {
                assert(init[i] == batches[i]);
            }
        }
        lemma_total_ops_bound(init);
        assert(batches.last() == batches[batches.len() - 1]);
        lemma_batch_ops_bound(batches.last());
    }
}

/// The raw operations of the first `n` groups of a well-formed batch are no more than the
/// operations before the end of group `n - 1`.
proof fn lemma_raw_prefix_len(b: OpBatch, n: int)
    requires
        b.wf(),
        0 <= n <= b.num_groups,
    ensures
        raw_prefix(b.ops@, b.indptr@, b.padding@, n).len() <= b.indptr@[n],
    decreases n,
{
    if n > 0 {
        lemma_raw_prefix_len(b, n - 1);
        assert(b.indptr@[n - 1] <= b.indptr@[n]);
        lemma_ip_monotone_all(b.indptr@, b.num_groups as int);
    }
}

/// A sequence of well-formed batches has no more raw operations than operations.
pub proof fn lemma_raw_le_total(batches: Seq<OpBatch>)
    requires
        all_batches_wf(batches),
    ensures
        concat_raw(batches).len() <= total_ops(batches),
    decreases batches.len(),
{
    if batches.len() > 0 {
        let init = batches.drop_last();
        assert(all_batches_wf(init)) by {
            assert forall|i: int| 0 <= i < init.len() implies (#[trigger] init[i]).wf() by {
                assert(init[i] == batches[i]);
            }
        }
        lemma_raw_le_total(init);
        assert(batches.last() == batches[batches.len() - 1]);
        let b = batches.last();
        lemma_raw_prefix_len(b, b.num_groups as int);
    }
}

/// The padding flags of two sequences, counted together.
pub proof fn lemma_count_pads_append(a: Seq<bool>, b: Seq<bool>)
    ensures
        count_pads(a + b) == count_pads(a) + count_pads(b),
    decreases b.len(),
{
    if b.len() > 0 {
        lemma_count_pads_append(a, b.drop_last());
        assert((a + b).drop_last() =~= a + b.drop_last());
        assert((a + b).last() == b.last());
    } else {
        assert(a + b =~= a);
    }
}

/// A group of `len` operations has one padding flag set if it is padded and not empty.
proof fn lemma_group_pads(len: int, padded: bool)
    requires
        len >= 0,
    ensures
        count_pads(group_pad_flags(len, padded)) == (if padded && len > 0 { 1int } else { 0int }),
{
    let f = group_pad_flags(len, padded);
    if len > 0 {
        let init = f.drop_last();
        assert forall|k: int| 0 <= k < init.len() implies !#[trigger] init[k] by {}
        lemma_no_pads(init);
    } else {
        assert(f.len() == 0);
    }
}

/// A sequence with no flag set counts no padding.
proof fn lemma_no_pads(f: Seq<bool>)
    requires
        forall|k: int| 0 <= k < f.len() ==> !#[trigger] f[k],
    ensures
        count_pads(f) == 0,
    decreases f.len(),
{
    if f.len() > 0 {
        lemma_no_pads(f.drop_last());
    }
}

/// In the first `n` groups of a well-formed batch, the raw operations and the padding `Noop`s
/// together are all the operations.
proof fn lemma_batch_raw_plus_pads(b: OpBatch, n: int)
    requires
        b.wf(),
        0 <= n <= b.num_groups,
    ensures
        raw_prefix(b.ops@, b.indptr@, b.padding@, n).len() + count_pads(batch_pad_flags(b, n)) == b.indptr@[n],
    decreases n,
{
    if n > 0 {
        lemma_batch_raw_plus_pads(b, n - 1);
        let len = b.indptr@[n] - b.indptr@[n - 1];
        assert(b.indptr@[n - 1] <= b.indptr@[n]);
        lemma_count_pads_append(batch_pad_flags(b, n - 1), group_pad_flags(len, b.padding@[n - 1]));
        lemma_group_pads(len, b.padding@[n - 1]);
        lemma_ip_monotone_all(b.indptr@, b.num_groups as int);
    }
}

/// The padding flags of the first `n` groups of a well-formed batch count its padded groups.
proof fn lemma_batch_flags_count(b: OpBatch, n: int)
    requires
        b.wf(),
        0 <= n <= b.num_groups,
    ensures
        count_pads(batch_pad_flags(b, n)) == count_pads(b.padding@.take(n)),
    decreases n,
{
    if n > 0 {
        lemma_batch_flags_count(b, n - 1);
        let len = b.indptr@[n] - b.indptr@[n - 1];
        assert(b.indptr@[n - 1] <= b.indptr@[n]);
        lemma_count_pads_append(batch_pad_flags(b, n - 1), group_pad_flags(len, b.padding@[n - 1]));
        lemma_group_pads(len, b.padding@[n - 1]);
        assert(b.padding@.take(n).drop_last() =~= b.padding@.take(n - 1));
    }
}

/// A well-formed batch holds its raw operations and one padding `Noop` for each padded group.
pub proof fn lemma_batch_ops_count(b: OpBatch)
    requires
        b.wf(),
    ensures
        b.ops@.len() == b.raw_ops_spec().len() + count_pads(b.padding@.take(b.num_groups as int)),
{
    lemma_batch_raw_plus_pads(b, b.num_groups as int);
    lemma_batch_flags_count(b, b.num_groups as int);
}

/// In a sequence of well-formed batches, the raw operations and the padding `Noop`s together
/// are all the operations.
pub proof fn lemma_raw_plus_pads(batches: Seq<OpBatch>)
    requires
        all_batches_wf(batches),
    ensures
        concat_raw(batches).len() + count_pads(pad_flags(batches)) == total_ops(batches),
    decreases batches.len(),
{
    if batches.len() > 0 {
        let init = batches.drop_last();
        assert(all_batches_wf(init)) by {
            assert forall|i: int| 0 <= i < init.len() implies (#[trigger] init[i]).wf() by {
                assert(init[i] == batches[i]);
            }
        }
        lemma_raw_plus_pads(init);
        assert(batches.last() == batches[batches.len() - 1]);
        let b = batches.last();
        lemma_batch_raw_plus_pads(b, b.num_groups as int);
        lemma_count_pads_append(pad_flags(init), batch_pad_flags(b, b.num_groups as int));
    }
}

// PADDING OFFSETS
// ================================================================================================

/// The padding flags of one group of `len` operations: only its last operation can be a padding
/// `Noop`, and it is one when the group is padded.
pub open spec fn group_pad_flags(len: int, padded: bool) -> Seq<bool> {
    Seq::new(len as nat, |k: int| padded && k == len - 1)
}

/// The padding flags of the operations of the first `n` groups of a batch.
pub open spec fn batch_pad_flags(b: OpBatch, n: int) -> Seq<bool>
    decreases n,
{
    if n <= 0 {
        Seq::empty()
    } else {
        batch_pad_flags(b, n - 1) + group_pad_flags(
            b.indptr@[n] - b.indptr@[n - 1],
            b.padding@[n - 1],
        )
    }
}

/// The padding flags of all operations of a sequence of batches: one flag per operation,
/// marking the padding `Noop`s.
pub open spec fn pad_flags(batches: Seq<OpBatch>) -> Seq<bool>
    decreases batches.len(),
{
    if batches.len() == 0 {
        Seq::empty()
    } else {
        pad_flags(batches.drop_last()) + batch_pad_flags(
            batches.last(),
            batches.last().num_groups as int,
        )
    }
}

/// The number of set flags.
pub open spec fn count_pads(flags: Seq<bool>) -> nat
    decreases flags.len(),
{
    if flags.len() == 0 {
        0
    } else {
        count_pads(flags.drop_last()) + (if flags.last() { 1nat } else { 0nat })
    }
}

/// The number of operations, padding included, of a sequence of batches.
pub open spec fn total_ops(batches: Seq<OpBatch>) -> nat
    decreases batches.len(),
{
    if batches.len() == 0 {
        0
    } else {
        total_ops(batches.drop_last()) + batches.last().ops@.len()
    }
}

/// The padding offsets of the raw operations of a padded sequence whose padding flags are
/// `flags`: for the `i`-th operation that is not padding, the number of padding `Noop`s before
/// it, so that `i` plus its offset is its position among the padded operations; and one last
/// entry, for the index one past the last raw operation, holding the number of all padding
/// `Noop`s.
pub open spec fn offsets_of(flags: Seq<bool>) -> Seq<usize>
    decreases flags.len(),
{
    if flags.len() == 0 {
        seq![0usize]
    } else {
        let o = offsets_of(flags.drop_last());
        if flags.last() {
            o.update(o.len() - 1, count_pads(flags) as usize)
        } else {
            o.push(count_pads(flags) as usize)
        }
    }
}

/// The offsets hold one entry per raw operation and one more; the last is the number of
/// padding flags; they never decrease; and each raw index plus its offset is at most the
/// number of flags.
pub proof fn lemma_offsets_of_facts(flags: Seq<bool>)
    requires
        flags.len() <= usize::MAX,
    ensures
        offsets_of(flags).len() == flags.len() - count_pads(flags) + 1,
        offsets_of(flags).last() == count_pads(flags),
        forall|k: int| 0 <= k < offsets_of(flags).len() ==> k + #[trigger] offsets_of(flags)[k] <= flags.len(),
        forall|i: int, j: int| 0 <= i <= j < offsets_of(flags).len() ==> #[trigger] offsets_of(flags)[i]
            <= #[trigger] offsets_of(flags)[j],
    decreases flags.len(),
{
    lemma_count_pads_bound(flags);
    if flags.len() > 0 {
        let f0 = flags.drop_last();
        lemma_offsets_of_facts(f0);
        lemma_count_pads_bound(f0);
        let o = offsets_of(f0);
        let c = count_pads(f0);
        assert(o[o.len() - 1] == c);
        if flags.last() {
            let o2 = o.update(o.len() - 1, (c + 1) as usize);
            assert(offsets_of(flags) == o2);
            assert forall|i: int, j: int| 0 <= i <= j < o2.len() implies #[trigger] o2[i] <= #[trigger] o2[j] by {
                if j < o.len() - 1 {
                    assert(o[i] <= o[j]);
                } else {
                    assert(o[i] <= o[o.len() - 1]);
                }
            }
            assert forall|k: int| 0 <= k < o2.len() implies k + #[trigger] o2[k] <= flags.len() by {
                if k < o.len() - 1 {
                    assert(k + o[k] <= f0.len());
                }
            }
        } else {
            let o2 = o.push(c as usize);
            assert(offsets_of(flags) == o2);
            assert forall|i: int, j: int| 0 <= i <= j < o2.len() implies #[trigger] o2[i] <= #[trigger] o2[j] by {
                if j < o.len() {
                    assert(o[i] <= o[j]);
                } else if i < o.len() {
                    assert(o[i] <= o[o.len() - 1]);
                }
            }
            assert forall|k: int| 0 <= k < o2.len() implies k + #[trigger] o2[k] <= flags.len() by {
                if k < o.len() {
                    assert(k + o[k] <= f0.len());
                }
            }
        }
    }
}

/// For the raw operations of a sequence of batches, the number of padding `Noop`s before each
/// of them, and the number of all padding `Noop`s.
pub struct DecoratorPaddingOffsets(pub Vec<usize>);

impl DecoratorPaddingOffsets {
    /// Computes the padding offsets of the raw operations of the given batches.
    #[verifier::rlimit(30)]
    pub fn new(op_batches: &Vec<OpBatch>) -> (r: Self)
        requires
            all_batches_wf(op_batches@),
            total_ops(op_batches@) <= usize::MAX,
        ensures
            r.0@ == offsets_of(pad_flags(op_batches@)),
    {
        let mut offsets: Vec<usize> = Vec::new();
        offsets.push(0);
        let mut acc: usize = 0;
        let ghost mut flags: Seq<bool> = Seq::empty();
        let mut bi: usize = 0;
        proof {
            lemma_pad_flags_len(op_batches@);
            assert(offsets@ =~= offsets_of(flags));
        }
        while bi < op_batches.len()
            invariant
                all_batches_wf(op_batches@),
                total_ops(op_batches@) <= usize::MAX,
                pad_flags(op_batches@).len() == total_ops(op_batches@),
                0 <= bi <= op_batches.len(),
                flags == pad_flags(op_batches@.take(bi as int)),
                flags.len() == total_ops(op_batches@.take(bi as int)),
                offsets@ == offsets_of(flags),
                acc == count_pads(flags),
                acc <= flags.len(),
            decreases op_batches.len() - bi,
        {
            let b = &op_batches[bi];
            assert(b.wf());
            let ghost base = flags;
            proof {
                lemma_total_ops_step(op_batches@, bi as int);
                lemma_ip_monotone_all(b.indptr@, b.num_groups as int);
            }
            let n = b.num_groups;
            let mut g: usize = 0;
            while g < n
                invariant
                    b.wf(),
                    n == b.num_groups,
                    0 <= g <= n,
                    forall|h: int| 0 <= h <= n ==> #[trigger] b.indptr@[h] <= b.indptr@[n as int],
                    flags == base + batch_pad_flags(*b, g as int),
                    flags.len() == base.len() + b.indptr@[g as int],
                    base.len() + b.ops@.len() <= usize::MAX,
                    offsets@ == offsets_of(flags),
                    acc == count_pads(flags),
                    acc <= flags.len(),
                decreases n - g,
            {
                let start = b.indptr[g];
                let end = b.indptr[g + 1];
                assert(b.indptr@[g as int] <= b.indptr@[g + 1]);
                let len = end - start;
                let padded = b.padding[g];
                let ghost mid = flags;
                let mut k: usize = 0;
                while k < len
                    invariant
                        0 <= k <= len,
                        len == b.indptr@[g + 1] - b.indptr@[g as int],
                        padded == b.padding@[g as int],
                        flags == mid + group_pad_flags(len as int, padded).take(k as int),
                        mid.len() + len <= usize::MAX,
                        offsets@ == offsets_of(flags),
                        acc == count_pads(flags),
                        acc <= flags.len(),
                    decreases len - k,
                {
                    let is_pad = padded && k == len - 1;
                    let ghost prev = flags;
                    proof {
                        flags = flags.push(is_pad);
                        assert(flags.drop_last() == prev);
                        assert(group_pad_flags(len as int, padded).take(k + 1) =~= group_pad_flags(
                            len as int,
                            padded,
                        ).take(k as int).push(is_pad));
                        assert(flags =~= mid + group_pad_flags(len as int, padded).take(k + 1));
                        lemma_offsets_of_facts(prev);
                    }
                    if is_pad {
                        acc = acc + 1;
                        let last = offsets.len() - 1;
                        offsets.set(last, acc);
                    } else {
                        offsets.push(acc);
                    }
                    k = k + 1;
                }
                proof {
                    assert(group_pad_flags(len as int, padded).take(len as int) =~= group_pad_flags(
                        len as int,
                        padded,
                    ));
                    assert(flags =~= base + batch_pad_flags(*b, g + 1));
                }
                g = g + 1;
            }
            proof {
                let t = op_batches@.take(bi + 1);
                assert(t.drop_last() =~= op_batches@.take(bi as int));
                assert(t.last() == *b);
            }
            bi = bi + 1;
        }
        assert(op_batches@.take(op_batches.len() as int) =~= op_batches@);
        DecoratorPaddingOffsets(offsets)
    }

    /// The padding offset of the raw operation at `index`; an index one past the last entry
    /// gets the offset of the last entry.
    pub fn index(&self, index: usize) -> (r: usize)
        requires
            0 < self.0@.len(),
            index <= self.0@.len(),
        ensures
            r == offset_at(self.0@, index as int),
    {
        if index == self.0.len() {
            self.0[index - 1]
        } else {
            self.0[index]
        }
    }
}

/// The padding offset of operation `i` in `offsets`, with the one-past-the-end index sharing
/// the offset of the last operation.
pub open spec fn offset_at(offsets: Seq<usize>, i: int) -> int {
    if i == offsets.len() {
        offsets[i - 1] as int
    } else {
        offsets[i] as int
    }
}

/// No more flags are set than there are flags.
pub proof fn lemma_count_pads_bound(flags: Seq<bool>)
    ensures
        count_pads(flags) <= flags.len(),
    decreases flags.len(),
{
    if flags.len() > 0 {
        lemma_count_pads_bound(flags.drop_last());
    }
}

/// The flags of the first `n` groups of a well-formed batch are one per operation before the
/// end of group `n - 1`.
proof fn lemma_batch_flags_len(b: OpBatch, n: int)
    requires
        b.wf(),
        0 <= n <= b.num_groups,
    ensures
        batch_pad_flags(b, n).len() == b.indptr@[n],
    decreases n,
{
    if n > 0 {
        lemma_batch_flags_len(b, n - 1);
        assert(b.indptr@[n - 1] <= b.indptr@[n]);
    }
}

/// A sequence of well-formed batches has one padding flag per operation.
pub proof fn lemma_pad_flags_len(batches: Seq<OpBatch>)
    requires
        all_batches_wf(batches),
    ensures
        pad_flags(batches).len() == total_ops(batches),
    decreases batches.len(),
{
    if batches.len() > 0 {
        let init = batches.drop_last();
        assert(all_batches_wf(init)) by {
            assert forall|i: int| 0 <= i < init.len() implies (#[trigger] init[i]).wf() by {
                assert(init[i] == batches[i]);
            }
        }
        lemma_pad_flags_len(init);
        assert(batches.last() == batches[batches.len() - 1]);
        lemma_batch_flags_len(batches.last(), batches.last().num_groups as int);
    }
}

/// The operations of a prefix of batches, one batch longer.
pub proof fn lemma_total_ops_step(batches: Seq<OpBatch>, i: int)
    requires
        0 <= i < batches.len(),
    ensures
        total_ops(batches.take(i + 1)) == total_ops(batches.take(i)) + batches[i].ops@.len(),
        total_ops(batches.take(i + 1)) <= total_ops(batches),
{
    let t = batches.take(i + 1);
    assert(t.drop_last() =~= batches.take(i));
    lemma_total_ops_prefix(batches, i + 1);
}

/// A prefix of batches has no more operations than the whole sequence.
proof fn lemma_total_ops_prefix(batches: Seq<OpBatch>, i: int)
    requires
        0 <= i <= batches.len(),
    ensures
        total_ops(batches.take(i)) <= total_ops(batches),
    decreases batches.len(),
{
    if i < batches.len() {
        let init = batches.drop_last();
        assert(batches.take(i) =~= init.take(i));
        lemma_total_ops_prefix(init, i);
    } else {
        assert(batches.take(i) =~= batches);
    }
}

} // verus!
