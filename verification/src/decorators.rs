//! Decorators attached to the operations of a basic block, and the iterators that hand them out
//! against padded or raw (unpadded) operation indexes.

use vstd::prelude::*;

use crate::basic_block::{
    DecoratorPaddingOffsets, all_batches_wf, concat_raw, count_pads, lemma_count_pads_bound,
    lemma_offsets_of_facts, lemma_raw_plus_pads, offset_at, lemma_pad_flags_len, offsets_of,
    pad_flags, total_ops,
};
use crate::op_batch::OpBatch;

verus! {

/// The identifier of a decorator in a MAST forest.
pub type DecoratorId = u32;

/// Decorators pegged to operation indexes: `(op_idx, id)` runs `id` before the operation at
/// `op_idx`; an index equal to the number of operations runs it at the end of the block.
pub type DecoratorList = Vec<(usize, DecoratorId)>;

/// The decorator indexes are in ascending order and none is past the end of `n` operations.
pub open spec fn decorators_valid(decorators: Seq<(usize, DecoratorId)>, n: int) -> bool {
    &&& forall|i: int, j: int| 0 <= i <= j < decorators.len() ==> #[trigger] decorators[i].0 <= #[trigger] decorators[j].0
    &&& forall|i: int| 0 <= i < decorators.len() ==> #[trigger] decorators[i].0 <= n
}

/// Checks that a decorator list is in ascending order of operation index and that its last
/// index is at most the number of operations.
pub fn validate_decorators(operations_len: usize, decorators: &DecoratorList) -> (r: bool)
    ensures
        r == decorators_valid(decorators@, operations_len as int),
{
    let n = decorators.len();
    if n == 0 {
        return true;
    }
    let mut i: usize = 0;
    while i + 1 < n
        invariant
            n == decorators@.len(),
            n > 0,
            0 <= i < n,
            forall|a: int, b: int| 0 <= a <= b <= i ==> #[trigger] decorators@[a].0 <= #[trigger] decorators@[b].0,
        decreases n - i,
    {
        if decorators[i + 1].0 < decorators[i].0 {
            return false;
        }
        i = i + 1;
    }
    let last = decorators[n - 1].0;
    if operations_len >= last {
        assert forall|k: int| 0 <= k < n implies #[trigger] decorators@[k].0 <= operations_len by {
            assert(decorators@[k].0 <= decorators@[n - 1].0);
        }
        true
    } else {
        false
    }
}

// INDEX ADJUSTMENT
// ================================================================================================

/// The padded index of the operation at raw index `i`: `i` plus its padding offset.
pub open spec fn adjust_index(offsets: Seq<usize>, i: int) -> int {
    i + offset_at(offsets, i)
}

/// Each decorator moved from its raw index to its padded index.
pub open spec fn adjust_list(offsets: Seq<usize>, decorators: Seq<(usize, DecoratorId)>) -> Seq<
    (usize, DecoratorId),
> {
    Seq::new(
        decorators.len(),
        |k: int| (adjust_index(offsets, decorators[k].0 as int) as usize, decorators[k].1),
    )
}

/// Padding offsets as computed from some padding flags: they never decrease, and each index
/// plus its offset, plus one, fits in a `usize`.
pub open spec fn offsets_wf(offsets: Seq<usize>) -> bool {
    &&& forall|i: int, j: int| 0 <= i <= j < offsets.len() ==> #[trigger] offsets[i] <= #[trigger] offsets[j]
    &&& forall|k: int| 0 <= k < offsets.len() ==> k + 1 + #[trigger] offsets[k] <= usize::MAX
}

/// Offsets computed from padding flags are well formed and not empty.
pub proof fn lemma_offsets_of_wf(flags: Seq<bool>)
    requires
        flags.len() < usize::MAX,
    ensures
        offsets_wf(offsets_of(flags)),
        offsets_of(flags).len() > 0,
{
    lemma_offsets_of_facts(flags);
    lemma_count_pads_bound(flags);
    let o = offsets_of(flags);
    assert forall|k: int| 0 <= k < o.len() implies k + 1 + #[trigger] o[k] <= usize::MAX by {
        assert(k + o[k] <= flags.len());
    }
}

/// Makes a decorator list padding-aware: each raw operation index is moved to the index of the
/// same operation in the padded batches.
pub fn adjust_decorators(decorators: DecoratorList, op_batches: &Vec<OpBatch>) -> (r: DecoratorList)
    requires
        all_batches_wf(op_batches@),
        2 * total_ops(op_batches@) <= usize::MAX,
        forall|k: int|
            0 <= k < decorators@.len() ==> (#[trigger] decorators@[k]).0 <= concat_raw(op_batches@).len(),
    ensures
        r@ == adjust_list(offsets_of(pad_flags(op_batches@)), decorators@),
{
    let padding_offsets = DecoratorPaddingOffsets::new(op_batches);
    proof {
        lemma_pad_flags_len(op_batches@);
        lemma_offsets_of_wf(pad_flags(op_batches@));
        lemma_offsets_of_facts(pad_flags(op_batches@));
        lemma_raw_plus_pads(op_batches@);
    }
    let ghost offsets = padding_offsets.0@;
    let mut r: DecoratorList = Vec::new();
    let mut k: usize = 0;
    while k < decorators.len()
        invariant
            padding_offsets.0@ == offsets,
            offsets == offsets_of(pad_flags(op_batches@)),
            offsets.len() == concat_raw(op_batches@).len() + 1,
            offsets_wf(offsets),
            forall|j: int|
                0 <= j < decorators@.len() ==> (#[trigger] decorators@[j]).0 <= concat_raw(op_batches@).len(),
            0 <= k <= decorators.len(),
            r@ == adjust_list(offsets, decorators@).take(k as int),
        decreases decorators.len() - k,
    {
        let (op_idx, id) = decorators[k];
        assert(decorators@[k as int].0 < offsets.len());
        let off = padding_offsets.index(op_idx);
        assert(op_idx + 1 + offsets[op_idx as int] <= usize::MAX);
        let item: (usize, DecoratorId) = (op_idx + off, id);
        r.push(item);
        proof {
            assert(adjust_list(offsets, decorators@).take(k + 1) =~= adjust_list(
                offsets,
                decorators@,
            ).take(k as int).push(item));
        }
        k = k + 1;
    }
    assert(adjust_list(offsets, decorators@).take(decorators.len() as int) =~= adjust_list(
        offsets,
        decorators@,
    ));
    r
}

// DECORATOR ITERATION
// ================================================================================================

/// The segments of a decorator iterator: `before_enter` decorators, op-indexed decorators,
/// `after_exit` decorators, and exhaustion.
#[derive(Clone, Copy, Debug, PartialEq, Eq, Structural)]
pub enum Segment {
    Before,
    Middle,
    After,
    Done,
}

/// The decorators of `ids` from position `from` on, all pegged to operation `pos`.
pub open spec fn pegged(ids: Seq<DecoratorId>, from: int, pos: usize) -> Seq<(usize, DecoratorId)> {
    Seq::new((ids.len() - from) as nat, |k: int| (pos, ids[from + k]))
}

/// Iterator through the decorator list of a basic block, with indexes that match the padded
/// representation of the block: `before_enter` decorators are pegged to operation 0 and
/// `after_exit` decorators to the number of operations.
pub struct DecoratorOpLinkIterator<'a> {
    pub before: &'a [DecoratorId],
    pub before_pos: usize,
    pub middle: &'a [(usize, DecoratorId)],
    pub middle_pos: usize,
    pub after: &'a [DecoratorId],
    pub after_pos: usize,
    pub total_ops: usize,
    pub seg: Segment,
}

impl<'a> DecoratorOpLinkIterator<'a> {
    /// The positions are within their lists.
    pub open spec fn wf(&self) -> bool {
        &&& self.before_pos <= self.before@.len()
        &&& self.middle_pos <= self.middle@.len()
        &&& self.after_pos <= self.after@.len()
    }

    /// The decorators this iterator has yet to hand out, in order.
    pub open spec fn remaining(&self) -> Seq<(usize, DecoratorId)> {
        let before = if self.seg == Segment::Before {
            pegged(self.before@, self.before_pos as int, 0)
        } else {
            Seq::empty()
        };
        let middle = if self.seg == Segment::Before || self.seg == Segment::Middle {
            self.middle@.subrange(self.middle_pos as int, self.middle@.len() as int)
        } else {
            Seq::empty()
        };
        let after = if self.seg != Segment::Done {
            pegged(self.after@, self.after_pos as int, self.total_ops)
        } else {
            Seq::empty()
        };
        before + middle + after
    }

    /// Returns an iterator over the given `before_enter`, op-indexed and `after_exit`
    /// decorators of a block of `total_operations` operations.
    pub fn new(
        before_enter: &'a [DecoratorId],
        decorators: &'a [(usize, DecoratorId)],
        after_exit: &'a [DecoratorId],
        total_operations: usize,
    ) -> (r: Self)
        ensures
            r.wf(),
            r.before@ == before_enter@,
            r.middle@ == decorators@,
            r.after@ == after_exit@,
            r.before_pos == 0,
            r.middle_pos == 0,
            r.after_pos == 0,
            r.total_ops == total_operations,
            r.seg == Segment::Before,
            r.remaining() == pegged(before_enter@, 0, 0) + decorators@ + pegged(
                after_exit@,
                0,
                total_operations,
            ),
    {
        let r = DecoratorOpLinkIterator {
            before: before_enter,
            before_pos: 0,
            middle: decorators,
            middle_pos: 0,
            after: after_exit,
            after_pos: 0,
            total_ops: total_operations,
            seg: Segment::Before,
        };
        assert(decorators@.subrange(0, decorators@.len() as int) =~= decorators@);
        r
    }

    /// Returns the next decorator, with the index of the operation it runs before.
    #[verifier::rlimit(40)]
    pub fn next(&mut self) -> (r: Option<(usize, DecoratorId)>)
        requires
            old(self).wf(),
        ensures
            final(self).wf(),
            old(self).remaining().len() == 0 ==> r is None && final(self).remaining().len() == 0,
            old(self).remaining().len() > 0 ==> r == Some(old(self).remaining()[0])
                && final(self).remaining() == old(self).remaining().drop_first(),
    {
        let ghost rem = self.remaining();
        if self.seg == Segment::Before {
            if self.before_pos < self.before.len() {
                let id = self.before[self.before_pos];
                self.before_pos = self.before_pos + 1;
                proof {
                    assert(pegged(self.before@, self.before_pos as int, 0) =~= pegged(
                        self.before@,
                        self.before_pos - 1,
                        0,
                    ).drop_first());
                    assert(self.remaining() =~= rem.drop_first());
                }
                return Some((0, id));
            }
            self.seg = Segment::Middle;
            assert(self.remaining() =~= rem);
        }
        if self.seg == Segment::Middle {
            if self.middle_pos < self.middle.len() {
                let d = self.middle[self.middle_pos];
                self.middle_pos = self.middle_pos + 1;
                proof {
                    assert(self.remaining() =~= rem.drop_first());
                }
                return Some(d);
            }
            self.seg = Segment::After;
            assert(self.remaining() =~= rem);
        }
        if self.seg == Segment::After {
            if self.after_pos < self.after.len() {
                let id = self.after[self.after_pos];
                self.after_pos = self.after_pos + 1;
                proof {
                    assert(self.remaining() =~= rem.drop_first());
                }
                return Some((self.total_ops, id));
            }
            self.seg = Segment::Done;
            assert(self.remaining() =~= rem);
        }
        None
    }

    /// Returns the next decorator only if it runs before the operation at `pos`: `before_enter`
    /// decorators run before operation 0 and `after_exit` decorators at `total_ops`.
    pub fn next_filtered(&mut self, pos: usize) -> (r: Option<(usize, DecoratorId)>)
        requires
            old(self).wf(),
        ensures
            final(self).wf(),
            old(self).remaining().len() > 0 && old(self).remaining()[0].0 == pos ==> r == Some(
                old(self).remaining()[0],
            ) && final(self).remaining() == old(self).remaining().drop_first(),
            !(old(self).remaining().len() > 0 && old(self).remaining()[0].0 == pos) ==> r is None
                && final(self).remaining() == old(self).remaining(),
    {
        let ghost rem = self.remaining();
        let should_yield: bool;
        if self.seg == Segment::Before {
            if self.before_pos < self.before.len() {
                return if pos == 0 { self.next() } else { None };
            }
            self.seg = Segment::Middle;
            assert(self.remaining() =~= rem);
        }
        if self.seg == Segment::Middle {
            if self.middle_pos < self.middle.len() {
                assert(rem[0] == self.middle@[self.middle_pos as int]);
                return if pos == self.middle[self.middle_pos].0 { self.next() } else { None };
            }
            self.seg = Segment::After;
            assert(self.remaining() =~= rem);
        }
        if self.seg == Segment::After {
            if self.after_pos < self.after.len() {
                return if pos == self.total_ops { self.next() } else { None };
            }
            self.seg = Segment::Done;
            assert(self.remaining() =~= rem);
        }
        None
    }

    /// The number of decorators this iterator has yet to hand out.
    pub fn len(&self) -> (r: usize)
        requires
            self.wf(),
            self.before@.len() + self.middle@.len() + self.after@.len() <= usize::MAX,
        ensures
            r == self.remaining().len(),
    {
        let b = if self.seg == Segment::Before { self.before.len() - self.before_pos } else { 0 };
        let m = if self.seg == Segment::Before || self.seg == Segment::Middle {
            self.middle.len() - self.middle_pos
        } else {
            0
        };
        let a = if self.seg != Segment::Done { self.after.len() - self.after_pos } else { 0 };
        b + m + a
    }
}

// RAW DECORATOR ITERATION
// ================================================================================================

/// The first index from `probe` on whose padded index reaches `adjusted`, or the number of
/// offsets if none does.
pub open spec fn probe_stop(offsets: Seq<usize>, probe: int, adjusted: int) -> int
    decreases offsets.len() - probe,
{
    if probe >= offsets.len() || adjust_index(offsets, probe) >= adjusted {
        probe
    } else {
        probe_stop(offsets, probe + 1, adjusted)
    }
}

/// The raw indexes that a walk from `probe` gives to decorators with the given padded indexes.
pub open spec fn raw_indexes(offsets: Seq<usize>, probe: int, adjusted: Seq<(usize, DecoratorId)>) -> Seq<
    (usize, DecoratorId),
>
    decreases adjusted.len(),
{
    if adjusted.len() == 0 {
        Seq::empty()
    } else {
        let p = probe_stop(offsets, probe, adjusted[0].0 as int);
        seq![(p as usize, adjusted[0].1)] + raw_indexes(offsets, p, adjusted.drop_first())
    }
}

/// Iterator through the decorators of a basic block with indexes that match the raw (unpadded)
/// operations of the block: it removes the padding that [`adjust_decorators`] added.
pub struct RawDecoratorOpLinkIterator<'a> {
    pub before: &'a [DecoratorId],
    pub before_pos: usize,
    pub middle: &'a [(usize, DecoratorId)],
    pub middle_pos: usize,
    pub after: &'a [DecoratorId],
    pub after_pos: usize,
    /// The padding offsets, indexable by raw operation index.
    pub padding_offsets: DecoratorPaddingOffsets,
    /// The number of raw operations.
    pub total_ops: usize,
    pub seg: Segment,
    /// The running raw index candidate.
    pub probe: usize,
}

impl<'a> RawDecoratorOpLinkIterator<'a> {
    /// The positions are within their lists, the offsets are well formed and the probe is at
    /// most their number.
    pub open spec fn wf(&self) -> bool {
        &&& self.before_pos <= self.before@.len()
        &&& self.middle_pos <= self.middle@.len()
        &&& self.after_pos <= self.after@.len()
        &&& offsets_wf(self.padding_offsets.0@)
        &&& self.probe <= self.padding_offsets.0@.len()
    }

    /// The decorators this iterator has yet to hand out, in order.
    pub open spec fn remaining(&self) -> Seq<(usize, DecoratorId)> {
        let before = if self.seg == Segment::Before {
            pegged(self.before@, self.before_pos as int, 0)
        } else {
            Seq::empty()
        };
        let middle = if self.seg == Segment::Before || self.seg == Segment::Middle {
            raw_indexes(
                self.padding_offsets.0@,
                self.probe as int,
                self.middle@.subrange(self.middle_pos as int, self.middle@.len() as int),
            )
        } else {
            Seq::empty()
        };
        let after = if self.seg != Segment::Done {
            pegged(self.after@, self.after_pos as int, self.total_ops)
        } else {
            Seq::empty()
        };
        before + middle + after
    }

    /// Returns an iterator over the given `before_enter`, op-indexed (with padded indexes) and
    /// `after_exit` decorators of a block made of the given batches.
    pub fn new(
        before_enter: &'a [DecoratorId],
        decorators: &'a [(usize, DecoratorId)],
        after_exit: &'a [DecoratorId],
        op_batches: &'a Vec<OpBatch>,
    ) -> (r: Self)
        requires
            all_batches_wf(op_batches@),
            2 * total_ops(op_batches@) <= usize::MAX,
        ensures
            r.wf(),
            r.padding_offsets.0@ == offsets_of(pad_flags(op_batches@)),
            r.total_ops == pad_flags(op_batches@).len() - count_pads(pad_flags(op_batches@)),
            r.remaining() == pegged(before_enter@, 0, 0) + raw_indexes(
                offsets_of(pad_flags(op_batches@)),
                0,
                decorators@,
            ) + pegged(after_exit@, 0, r.total_ops),
    {
        let padding_offsets = DecoratorPaddingOffsets::new(op_batches);
        let ghost flags = pad_flags(op_batches@);
        proof {
            lemma_pad_flags_len(op_batches@);
            lemma_offsets_of_wf(flags);
            lemma_offsets_of_facts(flags);
            lemma_count_pads_bound(flags);
        }
        let n = padding_offsets.0.len();
        let total_ops = n - 1;
        let r = RawDecoratorOpLinkIterator {
            before: before_enter,
            before_pos: 0,
            middle: decorators,
            middle_pos: 0,
            after: after_exit,
            after_pos: 0,
            padding_offsets,
            total_ops,
            seg: Segment::Before,
            probe: 0,
        };
        assert(decorators@.subrange(0, decorators@.len() as int) =~= decorators@);
        r
    }

    /// The padded index of the operation at raw index `i`.
    pub fn f(&self, i: usize) -> (r: usize)
        requires
            self.wf(),
            i <= self.padding_offsets.0@.len(),
            0 < self.padding_offsets.0@.len(),
        ensures
            r == adjust_index(self.padding_offsets.0@, i as int),
    {
        let off = self.padding_offsets.index(i);
        proof {
            let o = self.padding_offsets.0@;
            if i < o.len() {
                assert(i + 1 + o[i as int] <= usize::MAX);
            } else {
                assert(i - 1 + 1 + o[i - 1] <= usize::MAX);
            }
        }
        i + off
    }

    /// Returns the next decorator, with the raw index of the operation it runs before.
    #[verifier::rlimit(40)]
    pub fn next(&mut self) -> (r: Option<(usize, DecoratorId)>)
        requires
            old(self).wf(),
        ensures
            final(self).wf(),
            old(self).remaining().len() == 0 ==> r is None && final(self).remaining().len() == 0,
            old(self).remaining().len() > 0 ==> r == Some(old(self).remaining()[0])
                && final(self).remaining() == old(self).remaining().drop_first(),
    {
        let ghost rem = self.remaining();
        if self.seg == Segment::Before {
            if self.before_pos < self.before.len() {
                let id = self.before[self.before_pos];
                self.before_pos = self.before_pos + 1;
                proof {
                    assert(pegged(self.before@, self.before_pos as int, 0) =~= pegged(
                        self.before@,
                        self.before_pos - 1,
                        0,
                    ).drop_first());
                    assert(self.remaining() =~= rem.drop_first());
                }
                return Some((0, id));
            }
            self.seg = Segment::Middle;
            assert(self.remaining() =~= rem);
        }
        if self.seg == Segment::Middle {
            if self.middle_pos < self.middle.len() {
                let (adjusted_idx, id) = self.middle[self.middle_pos];
                let ghost rest = self.middle@.subrange(
                    self.middle_pos as int,
                    self.middle@.len() as int,
                );
                let ghost stop = probe_stop(self.padding_offsets.0@, self.probe as int, adjusted_idx as int);
                let n = self.padding_offsets.0.len();
                let mut probe = self.probe;
                while probe < n && self.f(probe) < adjusted_idx
                    invariant
                        self.wf(),
                        probe <= n,
                        n == self.padding_offsets.0@.len(),
                        probe_stop(self.padding_offsets.0@, probe as int, adjusted_idx as int)
                            == stop,
                    decreases n - probe,
                {
                    probe = probe + 1;
                }
                self.probe = probe;
                let original_idx = probe;
                self.middle_pos = self.middle_pos + 1;
                proof {
                    assert(rest[0] == (adjusted_idx, id));
                    assert(rest.drop_first() =~= self.middle@.subrange(
                        self.middle_pos as int,
                        self.middle@.len() as int,
                    ));
                    assert(self.remaining() =~= rem.drop_first());
                }
                return Some((original_idx, id));
            }
            self.seg = Segment::After;
            assert(self.remaining() =~= rem);
        }
        if self.seg == Segment::After {
            if self.after_pos < self.after.len() {
                let id = self.after[self.after_pos];
                self.after_pos = self.after_pos + 1;
                proof {
                    assert(self.remaining() =~= rem.drop_first());
                }
                return Some((self.total_ops, id));
            }
            self.seg = Segment::Done;
            assert(self.remaining() =~= rem);
        }
        None
    }
}

// LAWS
// ================================================================================================

/// Padded indexes strictly increase with raw indexes.
pub proof fn lemma_adjust_strictly_increasing(offsets: Seq<usize>, i: int, j: int)
    requires
        offsets_wf(offsets),
        0 < offsets.len(),
        0 <= i < j <= offsets.len(),
    ensures
        adjust_index(offsets, i) < adjust_index(offsets, j),
{
    if j < offsets.len() {
        assert(offsets[i] <= offsets[j]);
    } else {
        assert(offsets[i] <= offsets[offsets.len() - 1]);
    }
}

/// Walking from a probe at or before raw index `i` to the padded index of `i` stops at `i`.
pub proof fn lemma_probe_finds(offsets: Seq<usize>, probe: int, i: int)
    requires
        offsets_wf(offsets),
        0 < offsets.len(),
        0 <= probe <= i <= offsets.len(),
    ensures
        probe_stop(offsets, probe, adjust_index(offsets, i)) == i,
    decreases i - probe,
{
    if probe < i {
        lemma_adjust_strictly_increasing(offsets, probe, i);
        lemma_probe_finds(offsets, probe + 1, i);
    }
}

/// Iterating the raw indexes of a decorator list that was made padding-aware gives back the
/// decorator list itself: the raw iterator removes exactly the padding that the adjustment
/// added, for a list in ascending order whose indexes are at most the number of operations.
pub proof fn lemma_raw_indexes_undo_adjust(
    offsets: Seq<usize>,
    probe: int,
    decorators: Seq<(usize, DecoratorId)>,
)
    requires
        offsets_wf(offsets),
        0 < offsets.len(),
        decorators_valid(decorators, offsets.len() as int),
        0 <= probe,
        decorators.len() > 0 ==> probe <= decorators[0].0,
    ensures
        raw_indexes(offsets, probe, adjust_list(offsets, decorators)) == decorators,
    decreases decorators.len(),
{
    let adjusted = adjust_list(offsets, decorators);
    if decorators.len() > 0 {
        let i = decorators[0].0 as int;
        lemma_probe_finds(offsets, probe, i);
        assert(adjusted[0].0 as int == adjust_index(offsets, i));
        let rest = decorators.drop_first();
        assert(adjusted.drop_first() =~= adjust_list(offsets, rest));
        assert(decorators_valid(rest, offsets.len() as int)) by {
            assert forall|a: int, b: int| 0 <= a <= b < rest.len() implies #[trigger] rest[a].0
                <= #[trigger] rest[b].0 by {
                assert(decorators[a + 1].0 <= decorators[b + 1].0);
            }
            assert forall|a: int| 0 <= a < rest.len() implies #[trigger] rest[a].0 <= offsets.len() by {
                assert(decorators[a + 1].0 <= offsets.len());
            }
        }
        if rest.len() > 0 {
            assert(decorators[0].0 <= decorators[1].0);
        }
        lemma_raw_indexes_undo_adjust(offsets, i, rest);
        assert(raw_indexes(offsets, probe, adjusted) =~= decorators);
    } else {
        assert(adjusted =~= decorators);
    }
}

} // verus!
