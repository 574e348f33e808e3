//! Operation batches: up to 8 groups of up to 9 operations (or one immediate value) each, and
//! the accumulator that builds them.

use vstd::prelude::*;
use vstd::arithmetic::power2::{pow2, lemma2_to64, lemma2_to64_rest, lemma_pow2_adds, lemma_pow2_strictly_increases, lemma_pow2_pos};
use vstd::bits::lemma_u64_shl_is_mul;

use crate::felt::{P, from_u64};
use crate::operation::{Operation, all_wf, OP_BITS};

use crate::basic_block::{count_pads, lemma_batch_ops_count};

verus! {

/// Maximum number of operations per group.
pub const GROUP_SIZE: usize = 9usize;

/// Maximum number of groups per batch.
pub const BATCH_SIZE: usize = 8usize;

/// An index into the operations of a batch that no group can start at.
pub const INVALID_IDX: usize = 73usize;

// SPECIFICATION
// ================================================================================================

/// The field element that encodes a sequence of opcodes: the `k`-th opcode occupies bits
/// `7k .. 7k + 7`.
pub open spec fn encode(ops: Seq<Operation>) -> nat
    decreases ops.len(),
{
    if ops.len() == 0 {
        0
    } else {
        encode(ops.drop_last()) + (ops.last().op_code as nat) * pow2((7 * (ops.len() - 1)) as nat)
    }
}

/// The operations of group `g` without its padding `Noop`, if it has one.
pub open spec fn segment(ops: Seq<Operation>, indptr: Seq<usize>, padding: Seq<bool>, g: int) -> Seq<
    Operation,
> {
    ops.subrange(indptr[g] as int, indptr[g + 1] - (if padding[g] { 1int } else { 0int }))
}

/// The operations of the first `n` groups, without padding `Noop`s.
pub open spec fn raw_prefix(ops: Seq<Operation>, indptr: Seq<usize>, padding: Seq<bool>, n: int) -> Seq<
    Operation,
>
    decreases n,
{
    if n <= 0 {
        Seq::empty()
    } else {
        raw_prefix(ops, indptr, padding, n - 1) + segment(ops, indptr, padding, n - 1)
    }
}

/// The group bounds of the first `n` groups are ordered, start at 0, and each group holds at
/// most `GROUP_SIZE` operations; a padded group ends in a `Noop`.
pub open spec fn groups_wf(ops: Seq<Operation>, indptr: Seq<usize>, padding: Seq<bool>, n: int) -> bool {
    &&& indptr[0] == 0
    &&& forall|g: int|
        0 <= g < n ==> {
            &&& #[trigger] indptr[g] <= indptr[g + 1]
            &&& indptr[g + 1] - indptr[g] <= GROUP_SIZE
        }
    &&& indptr[n] <= ops.len()
    &&& forall|g: int|
        0 <= g < n && #[trigger] padding[g] ==> indptr[g] < indptr[g + 1] && ops[indptr[g + 1] - 1].is_noop()
}

/// The first `n` groups are complete: their bounds are well formed, every non-empty one is
/// encoded by its group element and does not end in an operation carrying an immediate value,
/// and every group element is a field element.
pub open spec fn closed_groups(
    ops: Seq<Operation>,
    indptr: Seq<usize>,
    padding: Seq<bool>,
    groups: Seq<u64>,
    n: int,
) -> bool {
    &&& all_wf(ops)
    &&& groups_wf(ops, indptr, padding, n)
    &&& forall|g: int|
        0 <= g < n && #[trigger] indptr[g] < indptr[g + 1] ==> {
            &&& groups[g] == encode(ops.subrange(indptr[g] as int, indptr[g + 1] as int))
            &&& ops[indptr[g + 1] - 1].imm is None
        }
    &&& forall|g: int| 0 <= g < BATCH_SIZE ==> #[trigger] groups[g] < P
}

/// `n` is one of the batch sizes the VM executes: a power of two no larger than `BATCH_SIZE`.
pub open spec fn is_batch_size(n: int) -> bool {
    n == 1 || n == 2 || n == 4 || n == 8
}

// OPERATION BATCH
// ================================================================================================

/// A batch of operations in a span block.
///
/// An operation batch consists of up to 8 operation groups, with each group containing up to 9
/// operations or a single immediate value.
#[derive(Clone, Debug)]
pub struct OpBatch {
    /// The operations of this batch, including padding `Noop`s.
    pub ops: Vec<Operation>,
    /// The `i`-th group is `ops[indptr[i]..indptr[i + 1]]`; groups holding an immediate value
    /// are empty ranges.
    pub indptr: [usize; 9],
    /// Whether each group ends in a padding `Noop`.
    pub padding: [bool; 8],
    /// The field element of each group: its encoded opcodes or its immediate value.
    pub groups: [u64; 8],
    /// Number of groups in this batch.
    pub num_groups: usize,
}

impl OpBatch {
    /// The structural invariant of a batch: its number of groups is a power of two, its group
    /// bounds are well formed and end at the end of `ops`, every non-empty group ends in an
    /// operation without an immediate and is encoded by its group element, and every group
    /// element is a field element.
    pub open spec fn wf(&self) -> bool {
        let n = self.num_groups as int;
        &&& is_batch_size(n)
        &&& closed_groups(self.ops@, self.indptr@, self.padding@, self.groups@, n)
        &&& self.indptr@[n] == self.ops@.len()
    }

    /// The state of this batch.
    pub open spec fn state(&self) -> BatchState {
        BatchState {
            ops: self.ops@,
            indptr: self.indptr@,
            padding: self.padding@,
            groups: self.groups@,
            num_groups: self.num_groups,
        }
    }

    /// The operations of this batch without padding `Noop`s, in program order.
    pub open spec fn raw_ops_spec(&self) -> Seq<Operation> {
        raw_prefix(self.ops@, self.indptr@, self.padding@, self.num_groups as int)
    }

    /// Returns the operations of this batch, including padding `Noop`s.
    pub fn ops(&self) -> (r: &Vec<Operation>)
        ensures
            r@ == self.ops@,
    {
        &self.ops
    }

    /// Returns the operation groups of this batch, each as a field element.
    pub fn groups(&self) -> (r: &[u64; 8])
        ensures
            r@ == self.groups@,
    {
        &self.groups
    }

    /// Returns the bounds of the groups in the operations of this batch.
    pub fn indptr(&self) -> (r: &[usize; 9])
        ensures
            r@ == self.indptr@,
    {
        &self.indptr
    }

    /// Returns whether each group of this batch ends in a padding `Noop`.
    pub fn padding(&self) -> (r: &[bool; 8])
        ensures
            r@ == self.padding@,
    {
        &self.padding
    }

    /// Returns the operations of this batch without padding `Noop`s, in program order; the
    /// operations of the batch are these and one padding `Noop` per padded group.
    pub fn raw_ops(&self) -> (r: Vec<Operation>)
        requires
            self.wf(),
        ensures
            r@ == self.raw_ops_spec(),
            self.ops@.len() == r@.len() + count_pads(self.padding@.take(self.num_groups as int)),
    {
        proof {
            lemma_batch_ops_count(*self);
        }
        let mut r: Vec<Operation> = Vec::new();
        let n = self.num_groups;
        let mut g: usize = 0;
        while g < n
            invariant
                self.wf(),
                n == self.num_groups,
                0 <= g <= n,
                r@ == raw_prefix(self.ops@, self.indptr@, self.padding@, g as int),
            decreases n - g,
        {
            let start = self.indptr[g];
            let padded: usize = if self.padding[g] { 1 } else { 0 };
            assert(self.indptr@[g as int] <= self.indptr@[g + 1]);
            proof {
                lemma_ip_monotone_all(self.indptr@, n as int);
            }
            let end = self.indptr[g + 1] - padded;
            let mut k = start;
            while k < end
                invariant
                    self.wf(),
                    n == self.num_groups,
                    0 <= g < n,
                    start == self.indptr@[g as int],
                    end == self.indptr@[g + 1] - (if self.padding@[g as int] { 1int } else { 0int }),
                    start <= k <= end,
                    end <= self.ops@.len(),
                    r@ == raw_prefix(self.ops@, self.indptr@, self.padding@, g as int)
                        + self.ops@.subrange(start as int, k as int),
                decreases end - k,
            {
                r.push(self.ops[k]);
                assert(self.ops@.subrange(start as int, k + 1) =~= self.ops@.subrange(
                    start as int,
                    k as int,
                ).push(self.ops@[k as int]));
                k = k + 1;
            }
            g = g + 1;
        }
        r
    }

    /// Returns the end index of each group in the operations of this batch.
    pub fn end_indices(&self) -> (r: [usize; 8])
        ensures
            forall|g: int| 0 <= g < BATCH_SIZE ==> #[trigger] r@[g] == self.indptr@[g + 1],
    {
        let mut r = [0usize; 8];
        let mut g: usize = 0;
        while g < BATCH_SIZE
            invariant
                0 <= g <= BATCH_SIZE,
                r@.len() == BATCH_SIZE,
                forall|h: int| 0 <= h < g ==> #[trigger] r@[h] == self.indptr@[h + 1],
            decreases BATCH_SIZE - g,
        {
            r[g] = self.indptr[g + 1];
            g = g + 1;
        }
        r
    }

    /// Returns the operations of each group of this batch, including padding `Noop`s; groups
    /// holding immediate values are empty.
    pub fn group_chunks(&self) -> (r: Vec<Vec<Operation>>)
        requires
            self.wf(),
        ensures
            r@.len() == self.num_groups,
            forall|g: int|
                0 <= g < self.num_groups ==> #[trigger] r@[g]@ == self.ops@.subrange(
                    self.indptr@[g] as int,
                    self.indptr@[g + 1] as int,
                ),
    {
        let mut r: Vec<Vec<Operation>> = Vec::new();
        let n = self.num_groups;
        proof {
            lemma_ip_monotone_all(self.indptr@, n as int);
        }
        let mut g: usize = 0;
        while g < n
            invariant
                self.wf(),
                n == self.num_groups,
                0 <= g <= n,
                r@.len() == g,
                forall|g: int| 0 <= g <= n ==> #[trigger] self.indptr@[g] <= self.indptr@[n as int],
                forall|h: int|
                    0 <= h < g ==> #[trigger] r@[h]@ == self.ops@.subrange(
                        self.indptr@[h] as int,
                        self.indptr@[h + 1] as int,
                    ),
            decreases n - g,
        {
            let start = self.indptr[g];
            let end = self.indptr[g + 1];
            assert(self.indptr@[g as int] <= self.indptr@[g + 1]);
            let mut chunk: Vec<Operation> = Vec::new();
            let mut k = start;
            while k < end
                invariant
                    start <= k <= end,
                    end <= self.ops@.len(),
                    chunk@ == self.ops@.subrange(start as int, k as int),
                decreases end - k,
            {
                chunk.push(self.ops[k]);
                assert(self.ops@.subrange(start as int, k + 1) =~= self.ops@.subrange(
                    start as int,
                    k as int,
                ).push(self.ops@[k as int]));
                k = k + 1;
            }
            r.push(chunk);
            g = g + 1;
        }
        r
    }

    /// Returns the number of groups in this batch.
    pub fn num_groups(&self) -> (r: usize)
        ensures
            r == self.num_groups,
    {
        self.num_groups
    }
}


// LEMMAS
// ================================================================================================

/// Appending an operation adds its opcode shifted into the next free 7-bit slot.
pub proof fn lemma_encode_push(s: Seq<Operation>, op: Operation)
    ensures
        encode(s.push(op)) == encode(s) + (op.op_code as nat) * pow2((7 * s.len()) as nat),
{
    assert(s.push(op).drop_last() =~= s);
}

/// The encoding of `k` well-formed operations fits in `7k` bits.
pub proof fn lemma_encode_bound(s: Seq<Operation>)
    requires
        all_wf(s),
    ensures
        encode(s) < pow2((7 * s.len()) as nat),
    decreases s.len(),
{
    if s.len() == 0 {
        lemma2_to64();
    } else {
        let t = s.drop_last();
        assert(all_wf(t)) by {
            assert forall|i: int| 0 <= i < t.len() implies (#[trigger] t[i]).wf() by {
                assert(t[i] == s[i]);
            }
        }
        lemma_encode_bound(t);
        let e = (7 * t.len()) as nat;
        assert(s.last().wf());
        lemma_pow2_adds(e, 7);
        lemma2_to64();
        assert((s.last().op_code as nat) * pow2(e) <= 127 * pow2(e)) by (nonlinear_arith)
            requires
                s.last().op_code < 128,
        ;
        assert((7 * s.len()) as nat == e + 7);
    }
}

/// Or-ing an opcode into the next free slot of a partially filled group is addition.
proof fn lemma_or_shift(g: u64, c: u64, k: u64)
    requires
        k <= 8,
        c < 128,
        g < pow2((7 * k) as nat),
    ensures
        (g | (c << (7 * k) as u64)) == g + c * pow2((7 * k) as nat),
        g + c * pow2((7 * k) as nat) < pow2((7 * k + 7) as nat),
        g + c * pow2((7 * k) as nat) <= u64::MAX,
{
    let s: u64 = (7 * k) as u64;
    lemma2_to64();
    lemma2_to64_rest();
    if s < 56 {
        lemma_pow2_strictly_increases(s as nat, 56);
    }
    assert(c * pow2(s as nat) <= 127 * pow2(56)) by (nonlinear_arith)
        requires
            c < 128,
            pow2(s as nat) <= pow2(56),
    ;
    assert(1 * pow2(s as nat) <= u64::MAX);
    lemma_u64_shl_is_mul(c, s);
    lemma_u64_shl_is_mul(1, s);
    assert((g | (c << s)) == g + (c << s)) by (bit_vector)
        requires
            g < (1u64 << s),
            c < 128,
            s <= 56,
    ;
    lemma_pow2_adds(s as nat, 7);
    assert(g + c * pow2(s as nat) < pow2(s as nat) * 128) by (nonlinear_arith)
        requires
            g < pow2(s as nat),
            c < 128,
    ;
}

/// The raw operations of the first `n` groups depend only on the operations before the end of
/// group `n - 1` and on the bounds and padding of those groups.
pub proof fn lemma_raw_prefix_frame(
    ops1: Seq<Operation>,
    ops2: Seq<Operation>,
    indptr1: Seq<usize>,
    indptr2: Seq<usize>,
    pad1: Seq<bool>,
    pad2: Seq<bool>,
    n: int,
)
    requires
        0 <= n,
        n < indptr1.len(),
        n < indptr2.len(),
        n <= pad1.len(),
        n <= pad2.len(),
        forall|g: int| 0 <= g <= n ==> indptr1[g] == indptr2[g],
        forall|g: int| 0 <= g < n ==> pad1[g] == pad2[g],
        forall|g: int| 0 <= g < n ==> #[trigger] indptr1[g] <= indptr1[g + 1],
        forall|g: int| 0 <= g < n && #[trigger] pad1[g] ==> indptr1[g] < indptr1[g + 1],
        indptr1[n] <= ops1.len(),
        indptr1[n] <= ops2.len(),
        ops1.subrange(0, indptr1[n] as int) == ops2.subrange(0, indptr1[n] as int),
    ensures
        raw_prefix(ops1, indptr1, pad1, n) == raw_prefix(ops2, indptr2, pad2, n),
    decreases n,
{
    if n > 0 {
        let m = n - 1;
        assert(indptr1[m] <= indptr1[n]);
        let top = indptr1[n] as int;
        assert forall|k: int| 0 <= k < top implies #[trigger] ops1[k] == ops2[k] by {
            assert(ops1.subrange(0, top)[k] == ops1[k]);
            assert(ops2.subrange(0, top)[k] == ops2[k]);
        }
        assert(ops1.subrange(0, indptr1[m] as int) =~= ops2.subrange(0, indptr1[m] as int));
        lemma_raw_prefix_frame(ops1, ops2, indptr1, indptr2, pad1, pad2, m);
        let hi = indptr1[n] - (if pad1[m] { 1int } else { 0int });
        assert(ops1.subrange(indptr1[m] as int, hi) =~= ops2.subrange(indptr2[m] as int, hi));
    }
}


/// The raw operations do not change over a run of empty, unpadded groups.
pub proof fn lemma_raw_prefix_empty_groups(
    ops: Seq<Operation>,
    indptr: Seq<usize>,
    padding: Seq<bool>,
    a: int,
    b: int,
)
    requires
        0 <= a <= b,
        b < indptr.len(),
        b <= padding.len(),
        indptr[b] <= ops.len(),
        forall|g: int| a <= g < b ==> #[trigger] indptr[g] == indptr[g + 1] && !padding[g],
    ensures
        raw_prefix(ops, indptr, padding, b) == raw_prefix(ops, indptr, padding, a),
    decreases b - a,
{
    if b > a {
        lemma_raw_prefix_empty_groups(ops, indptr, padding, a, b - 1);
        assert(indptr[b - 1] == indptr[b] && !padding[b - 1]);
        assert(segment(ops, indptr, padding, b - 1) =~= Seq::empty());
        assert(raw_prefix(ops, indptr, padding, b) =~= raw_prefix(ops, indptr, padding, b - 1));
    }
}

/// The relation between an accumulator state before and after closing its current group `gi`
/// (padding it if needed, recording its element, and fixing the bounds of the groups that
/// follow it up to `ng`).
pub open spec fn close_rel(
    ops0: Seq<Operation>,
    ip0: Seq<usize>,
    pad0: Seq<bool>,
    groups0: Seq<u64>,
    group: u64,
    op_idx: int,
    gi: int,
    ng: int,
    ops1: Seq<Operation>,
    ip1: Seq<usize>,
    pad1: Seq<bool>,
    groups1: Seq<u64>,
) -> bool {
    let needed = op_idx == 0 || (ops0.len() > 0 && ops0.last().imm is Some);
    &&& 0 <= gi < ng <= BATCH_SIZE
    &&& ip0.len() == 9
    &&& pad0.len() == 8
    &&& groups0.len() == 8
    &&& 0 <= op_idx <= GROUP_SIZE
    &&& closed_groups(ops0, ip0, pad0, groups0, gi)
    &&& ip0[gi] <= 9 * gi
    &&& ops0.len() == ip0[gi] + op_idx
    &&& group == encode(ops0.subrange(ip0[gi] as int, ops0.len() as int))
    &&& (op_idx == GROUP_SIZE ==> ops0.last().imm is None)
    &&& (forall|g: int| gi <= g < BATCH_SIZE ==> !(#[trigger] pad0[g]))
    &&& ops1 == (if needed { ops0.push(Operation { op_code: 0, imm: None }) } else { ops0 })
    &&& pad1 == (if needed { pad0.update(gi, true) } else { pad0 })
    &&& groups1 == groups0.update(gi, group)
    &&& ip1.len() == 9
    &&& (forall|g: int| 0 <= g < 9 && gi < g <= ng ==> #[trigger] ip1[g] == ops1.len())
    &&& (forall|g: int| 0 <= g < 9 && !(gi < g <= ng) ==> #[trigger] ip1[g] == ip0[g])
}

/// The facts about the current group that closing it relies on.
proof fn lemma_close_current(
    ops0: Seq<Operation>,
    ip0: Seq<usize>,
    pad0: Seq<bool>,
    groups0: Seq<u64>,
    group: u64,
    op_idx: int,
    gi: int,
    ng: int,
    ops1: Seq<Operation>,
    ip1: Seq<usize>,
    pad1: Seq<bool>,
    groups1: Seq<u64>,
)
    requires
        close_rel(ops0, ip0, pad0, groups0, group, op_idx, gi, ng, ops1, ip1, pad1, groups1),
    ensures
        all_wf(ops1),
        ops1.subrange(0, ip0[gi] as int) == ops0.subrange(0, ip0[gi] as int),
        group == encode(ops1.subrange(ip0[gi] as int, ops1.len() as int)),
        group < P,
        ops1.len() - ip0[gi] <= GROUP_SIZE,
        ops1.len() > ip0[gi],
        ops1.last().imm is None,
        pad1[gi] ==> ops1.last().is_noop(),
        segment(ops1, ip1, pad1, gi) == ops0.subrange(ip0[gi] as int, ops0.len() as int),
{
    let needed = op_idx == 0 || (ops0.len() > 0 && ops0.last().imm is Some);
    let noop = Operation { op_code: 0, imm: None };
    let start = ip0[gi] as int;
    let seg0 = ops0.subrange(start, ops0.len() as int);
    let seg1 = ops1.subrange(start, ops1.len() as int);
    assert(ops1.subrange(0, start) =~= ops0.subrange(0, start));
    assert(all_wf(ops1)) by {
        assert forall|i: int| 0 <= i < ops1.len() implies (#[trigger] ops1[i]).wf() by {
            if i < ops0.len() {
                assert(ops1[i] == ops0[i]);
            }
        }
    }
    assert(all_wf(seg0)) by {
        assert forall|i: int| 0 <= i < seg0.len() implies (#[trigger] seg0[i]).wf() by {
            assert(seg0[i] == ops0[start + i]);
        }
    }
    lemma_encode_bound(seg0);
    if needed {
        assert(seg1 =~= seg0.push(noop));
        lemma_encode_push(seg0, noop);
        assert(encode(seg1) == encode(seg0) + 0 * pow2((7 * seg0.len()) as nat));
        assert(encode(seg1) == encode(seg0));
        assert(op_idx < GROUP_SIZE);
    } else {
        assert(seg1 =~= seg0);
    }
    lemma2_to64_rest();
    if op_idx < 9 {
        lemma_pow2_strictly_increases((7 * op_idx) as nat, 63);
    }
    assert(ip1[gi] == ip0[gi]);
    assert(segment(ops1, ip1, pad1, gi) =~= seg0);
}

/// Closing the current group leaves `ng` complete groups.
proof fn lemma_close_wf(
    ops0: Seq<Operation>,
    ip0: Seq<usize>,
    pad0: Seq<bool>,
    groups0: Seq<u64>,
    group: u64,
    op_idx: int,
    gi: int,
    ng: int,
    ops1: Seq<Operation>,
    ip1: Seq<usize>,
    pad1: Seq<bool>,
    groups1: Seq<u64>,
)
    requires
        close_rel(ops0, ip0, pad0, groups0, group, op_idx, gi, ng, ops1, ip1, pad1, groups1),
    ensures
        closed_groups(ops1, ip1, pad1, groups1, ng),
        ip1[ng] == ops1.len(),
        ops1.len() <= 9 * ng,
        pad1.len() == 8,
        forall|g: int| ng <= g < BATCH_SIZE ==> pad1[g] == pad0[g],
{
    lemma_close_current(ops0, ip0, pad0, groups0, group, op_idx, gi, ng, ops1, ip1, pad1, groups1);
    lemma_ip_monotone_all(ip0, gi);
    assert(groups_wf(ops1, ip1, pad1, ng)) by {
        assert forall|g: int| 0 <= g < ng implies {
            &&& #[trigger] ip1[g] <= ip1[g + 1]
            &&& ip1[g + 1] - ip1[g] <= GROUP_SIZE
        } by {
            if g < gi {
                assert(ip0[g] <= ip0[g + 1]);
            }
        }
        assert forall|g: int| 0 <= g < ng && #[trigger] pad1[g] implies ip1[g] < ip1[g + 1]
            && ops1[ip1[g + 1] - 1].is_noop() by {
            if g < gi {
                assert(pad0[g]);
                assert(ip0[g] < ip0[g + 1]);
                assert(ip0[g + 1] <= ip0[gi]);
                assert(ops1.subrange(0, ip0[gi] as int)[ip0[g + 1] - 1] == ops0.subrange(0, ip0[gi] as int)[ip0[g + 1] - 1]);
            }
        }
    }
    assert forall|g: int|
        0 <= g < ng && #[trigger] ip1[g] < ip1[g + 1] implies {
            &&& groups1[g] == encode(ops1.subrange(ip1[g] as int, ip1[g + 1] as int))
            &&& ops1[ip1[g + 1] - 1].imm is None
        } by {
        if g < gi {
            assert(ip0[g] < ip0[g + 1]);
            assert(ip0[g + 1] <= ip0[gi]);
            assert(ops1.subrange(ip1[g] as int, ip1[g + 1] as int) =~= ops0.subrange(
                ip0[g] as int,
                ip0[g + 1] as int,
            )) by {
                assert forall|k: int| ip0[g] <= k < ip0[g + 1] implies #[trigger] ops1[k] == ops0[k] by {
                    assert(ops1.subrange(0, ip0[gi] as int)[k] == ops0.subrange(0, ip0[gi] as int)[k]);
                }
            }
            assert(ops1.subrange(0, ip0[gi] as int)[ip0[g + 1] - 1] == ops0.subrange(0, ip0[gi] as int)[ip0[g + 1] - 1]);
        } else if g == gi {
            assert(ip1[g] == ip0[gi]);
        }
    }
    assert forall|g: int| 0 <= g < BATCH_SIZE implies #[trigger] groups1[g] < P by {
        if g != gi {
            assert(groups1[g] == groups0[g]);
        }
    }
}

/// Closing the current group keeps the raw operations of the accumulator.
proof fn lemma_close_raw(
    ops0: Seq<Operation>,
    ip0: Seq<usize>,
    pad0: Seq<bool>,
    groups0: Seq<u64>,
    group: u64,
    op_idx: int,
    gi: int,
    ng: int,
    ops1: Seq<Operation>,
    ip1: Seq<usize>,
    pad1: Seq<bool>,
    groups1: Seq<u64>,
)
    requires
        close_rel(ops0, ip0, pad0, groups0, group, op_idx, gi, ng, ops1, ip1, pad1, groups1),
    ensures
        raw_prefix(ops1, ip1, pad1, ng) == raw_prefix(ops0, ip0, pad0, gi) + ops0.subrange(
            ip0[gi] as int,
            ops0.len() as int,
        ),
{
    lemma_close_current(ops0, ip0, pad0, groups0, group, op_idx, gi, ng, ops1, ip1, pad1, groups1);
    lemma_ip_monotone_all(ip0, gi);
    assert forall|g: int| 0 <= g < gi && #[trigger] pad1[g] implies ip1[g] < ip1[g + 1] by {
        assert(pad0[g]);
    }
    lemma_raw_prefix_frame(ops1, ops0, ip1, ip0, pad1, pad0, gi);
    assert(raw_prefix(ops1, ip1, pad1, gi + 1) == raw_prefix(ops1, ip1, pad1, gi) + segment(ops1, ip1, pad1, gi));
    lemma_raw_prefix_empty_groups(ops1, ip1, pad1, gi + 1, ng);
}

/// Complete groups stay complete when nothing they are made of changes: the operations before
/// their end, their bounds, padding and elements.
proof fn lemma_closed_groups_frame(
    ops1: Seq<Operation>,
    ip1: Seq<usize>,
    pad1: Seq<bool>,
    groups1: Seq<u64>,
    ops2: Seq<Operation>,
    ip2: Seq<usize>,
    pad2: Seq<bool>,
    groups2: Seq<u64>,
    n: int,
)
    requires
        0 <= n,
        n < ip1.len(),
        n < ip2.len(),
        closed_groups(ops1, ip1, pad1, groups1, n),
        all_wf(ops2),
        forall|g: int| 0 <= g <= n ==> ip1[g] == ip2[g],
        forall|g: int| 0 <= g < n ==> pad1[g] == pad2[g] && groups1[g] == groups2[g],
        forall|g: int| 0 <= g < BATCH_SIZE ==> #[trigger] groups2[g] < P,
        ip1[n] <= ops2.len(),
        ops2.subrange(0, ip1[n] as int) == ops1.subrange(0, ip1[n] as int),
    ensures
        closed_groups(ops2, ip2, pad2, groups2, n),
{
    lemma_ip_monotone_all(ip1, n);
    let top = ip1[n] as int;
    assert forall|k: int| 0 <= k < top implies #[trigger] ops2[k] == ops1[k] by {
        assert(ops2.subrange(0, top)[k] == ops1.subrange(0, top)[k]);
    }
    assert(groups_wf(ops2, ip2, pad2, n)) by {
        assert forall|g: int| 0 <= g < n implies {
            &&& #[trigger] ip2[g] <= ip2[g + 1]
            &&& ip2[g + 1] - ip2[g] <= GROUP_SIZE
        } by {
            assert(ip1[g] <= ip1[g + 1]);
        }
        assert forall|g: int| 0 <= g < n && #[trigger] pad2[g] implies ip2[g] < ip2[g + 1]
            && ops2[ip2[g + 1] - 1].is_noop() by {
            assert(pad1[g]);
            assert(ip1[g] < ip1[g + 1]);
            assert(ip1[g + 1] <= ip1[n]);
        }
    }
    assert forall|g: int|
        0 <= g < n && #[trigger] ip2[g] < ip2[g + 1] implies {
            &&& groups2[g] == encode(ops2.subrange(ip2[g] as int, ip2[g + 1] as int))
            &&& ops2[ip2[g + 1] - 1].imm is None
        } by {
        assert(ip1[g] < ip1[g + 1]);
        assert(ip1[g + 1] <= ip1[n]);
        assert(ops2.subrange(ip2[g] as int, ip2[g + 1] as int) =~= ops1.subrange(
            ip1[g] as int,
            ip1[g + 1] as int,
        ));
    }
}

/// A value below `2^(7k)` for `k <= 9` is a field element.
proof fn lemma_group_is_felt(group: int, k: int)
    requires
        0 <= k <= GROUP_SIZE,
        0 <= group < pow2((7 * k) as nat),
    ensures
        group < P,
{
    lemma2_to64_rest();
    if k < 9 {
        lemma_pow2_strictly_increases((7 * k) as nat, 63);
    }
}

/// Group bounds that increase step by step increase over any range.
proof fn lemma_ip_monotone(ip: Seq<usize>, a: int, b: int, n: int)
    requires
        0 <= a <= b <= n,
        forall|g: int| 0 <= g < n ==> #[trigger] ip[g] <= ip[g + 1],
    ensures
        ip[a] <= ip[b],
    decreases b - a,
{
    if a < b {
        lemma_ip_monotone(ip, a, b - 1, n);
        assert(ip[b - 1] <= ip[b]);
    }
}

/// Every group bound up to `n` is at most the bound of group `n`.
pub proof fn lemma_ip_monotone_all(ip: Seq<usize>, n: int)
    requires
        0 <= n,
        forall|g: int| 0 <= g < n ==> #[trigger] ip[g] <= ip[g + 1],
    ensures
        forall|g: int| 0 <= g <= n ==> #[trigger] ip[g] <= ip[n],
{
    assert forall|g: int| 0 <= g <= n implies #[trigger] ip[g] <= ip[n] by {
        lemma_ip_monotone(ip, g, n, n);
    }
}


// OPERATION BATCH ACCUMULATOR
// ================================================================================================

/// The state of an accumulator, as values.
pub struct AccState {
    pub ops: Seq<Operation>,
    pub indptr: Seq<usize>,
    pub padding: Seq<bool>,
    pub groups: Seq<u64>,
    pub group: u64,
    pub op_idx: usize,
    pub group_idx: usize,
    pub next_group_idx: usize,
}

/// The state of a batch, as values.
pub struct BatchState {
    pub ops: Seq<Operation>,
    pub indptr: Seq<usize>,
    pub padding: Seq<bool>,
    pub groups: Seq<u64>,
    pub num_groups: usize,
}

/// The state of a blank accumulator.
pub open spec fn blank_state() -> AccState {
    AccState {
        ops: Seq::empty(),
        indptr: Seq::new(9, |g: int| 0usize),
        padding: Seq::new(8, |g: int| false),
        groups: Seq::new(8, |g: int| 0u64),
        group: 0,
        op_idx: 0,
        group_idx: 0,
        next_group_idx: 1,
    }
}

/// Whether closing the current group needs a padding `Noop`: the group is empty or ends in an
/// operation carrying an immediate value.
pub open spec fn state_needs_padding(s: AccState) -> bool {
    s.op_idx == 0 || (s.ops.len() > 0 && s.ops.last().imm is Some)
}

/// The state after the opcode of `op` is appended to the current group.
pub open spec fn push_state(s: AccState, op: Operation) -> AccState {
    AccState {
        ops: s.ops.push(op),
        group: (s.group + (op.op_code as nat) * pow2((7 * s.op_idx) as nat)) as u64,
        op_idx: (s.op_idx + 1) as usize,
        ..s
    }
}

/// The state after the current group is padded with a `Noop` where it needs one.
pub open spec fn pad_state(s: AccState) -> AccState {
    if state_needs_padding(s) {
        AccState {
            ops: s.ops.push(Operation { op_code: 0, imm: None }),
            padding: s.padding.update(s.group_idx as int, true),
            op_idx: (s.op_idx + 1) as usize,
            ..s
        }
    } else {
        s
    }
}

/// The group bounds after the group after the current one, and the groups holding immediate
/// values before it, are recorded to start at the end of the operations.
pub open spec fn record_bounds(s: AccState) -> Seq<usize> {
    Seq::new(
        9,
        |g: int|
            if s.group_idx < g <= s.next_group_idx {
                s.ops.len() as usize
            } else {
                s.indptr[g]
            },
    )
}

/// The state after the current group is closed: padded, its element stored, the bounds
/// recorded, and the next free group made current.
pub open spec fn finalize_state(s: AccState) -> AccState {
    let p = pad_state(s);
    AccState {
        groups: p.groups.update(p.group_idx as int, p.group),
        indptr: record_bounds(p),
        group: 0,
        op_idx: 0,
        group_idx: p.next_group_idx,
        next_group_idx: (p.next_group_idx + 1) as usize,
        ..p
    }
}

/// The state after `op` is added: a full group is closed first; an operation with an immediate
/// value never ends a group, and its value takes the next free group.
pub open spec fn add_op_state(s: AccState, op: Operation) -> AccState {
    let s1 = if s.op_idx == GROUP_SIZE {
        finalize_state(s)
    } else {
        s
    };
    let s2 = match op.imm {
        Some(imm) => {
            let t = if s1.op_idx == GROUP_SIZE - 1 {
                finalize_state(s1)
            } else {
                s1
            };
            AccState {
                groups: t.groups.update(t.next_group_idx as int, imm),
                indptr: t.indptr.update(t.next_group_idx as int, INVALID_IDX),
                next_group_idx: (t.next_group_idx + 1) as usize,
                ..t
            }
        },
        None => s1,
    };
    push_state(s2, op)
}

/// The state after empty groups are closed until `target` groups are in use.
pub open spec fn fill_groups(s: AccState, target: int) -> AccState
    decreases target - s.next_group_idx,
{
    if s.next_group_idx >= target || s.next_group_idx >= BATCH_SIZE {
        s
    } else {
        fill_groups(finalize_state(s), target)
    }
}

/// The batch an accumulator in state `s` becomes: empty groups are added up to a power of two,
/// then the current group is stored, padded, and its bounds recorded.
pub open spec fn batch_of(s: AccState) -> BatchState {
    let f = fill_groups(s, next_power_of_two_spec(s.next_group_idx as int));
    let g = if f.group != 0 || f.op_idx != 0 {
        f.groups.update(f.group_idx as int, f.group)
    } else {
        f.groups
    };
    let p = pad_state(f);
    BatchState {
        ops: p.ops,
        indptr: record_bounds(p),
        padding: p.padding,
        groups: g,
        num_groups: p.next_group_idx,
    }
}

// ROOM IN A BATCH
// ------------------------------------------------------------------------------------------------

/// An accumulator has room for an operation exactly when adding it keeps the batch within its
/// `BATCH_SIZE` groups: the groups that the operation, a group it may have to close first, and
/// its immediate value take all fit. So a batch is never closed while it can still take the
/// next operation.
pub proof fn lemma_state_accepts_iff_fits(s: AccState, op: Operation)
    requires
        s.op_idx <= GROUP_SIZE,
        s.next_group_idx <= BATCH_SIZE,
    ensures
        state_accepts(s, op) <==> add_op_state(s, op).next_group_idx <= BATCH_SIZE,
{
}

/// An accumulator accepts an operation exactly when adding it keeps the batch within its
/// `BATCH_SIZE` groups.
pub proof fn lemma_accepts_iff_fits(acc: OpBatchAccumulator, op: Operation)
    requires
        acc.op_idx <= GROUP_SIZE,
        acc.next_group_idx <= BATCH_SIZE,
    ensures
        acc.accepts(op) <==> add_op_state(acc.state(), op).next_group_idx <= BATCH_SIZE,
{
    lemma_state_accepts_iff_fits(acc.state(), op);
}

// IMMEDIATE VALUES
// ------------------------------------------------------------------------------------------------

/// Group `h` of an accumulator in state `s` holds the value `v` as an immediate: it is one of
/// the groups taken for immediate values after the current one, or a closed group whose range
/// of operations is empty.
pub open spec fn held_at(s: AccState, h: int, v: u64) -> bool {
    ||| (s.group_idx < h < s.next_group_idx && s.groups[h] == v)
    ||| (0 <= h < s.group_idx && s.indptr[h] == s.indptr[h + 1] && s.groups[h] == v)
}

/// Every immediate value of an operation of an accumulator in state `s` is held by a group
/// that holds no operation.
pub open spec fn imm_inv(s: AccState) -> bool {
    &&& s.group_idx < s.next_group_idx <= BATCH_SIZE
    &&& s.indptr.len() == 9
    &&& s.groups.len() == 8
    &&& forall|j: int|
        0 <= j < s.ops.len() && (#[trigger] s.ops[j]).imm is Some ==> exists|h: int| held_at(
            s,
            h,
            s.ops[j].imm->Some_0,
        )
}

/// Group `h` of a batch holds the value `v` and no operation.
pub open spec fn empty_group_holds(b: BatchState, h: int, v: u64) -> bool {
    0 <= h < b.num_groups && b.indptr[h] == b.indptr[h + 1] && b.groups[h] == v
}

/// Every immediate value of an operation of the batch is held by one of its groups, and that
/// group holds no operation.
pub open spec fn immediates_in_empty_groups(b: BatchState) -> bool {
    forall|j: int|
        0 <= j < b.ops.len() && (#[trigger] b.ops[j]).imm is Some ==> exists|h: int| empty_group_holds(
            b,
            h,
            b.ops[j].imm->Some_0,
        )
}

/// A blank accumulator holds no immediate value.
pub proof fn lemma_imm_blank()
    ensures
        imm_inv(blank_state()),
{
}

/// Closing the current group keeps every immediate value in a group that holds no operation.
pub proof fn lemma_imm_finalize(s: AccState)
    requires
        imm_inv(s),
        s.next_group_idx < BATCH_SIZE,
    ensures
        imm_inv(finalize_state(s)),
{
    let p = pad_state(s);
    let f = finalize_state(s);
    assert forall|j: int| 0 <= j < f.ops.len() && (#[trigger] f.ops[j]).imm is Some implies exists|h: int| held_at(
        f,
        h,
        f.ops[j].imm->Some_0,
    ) by {
        assert(j < s.ops.len());
        assert(f.ops[j] == s.ops[j]);
        let v = s.ops[j].imm->Some_0;
        let h = choose|h: int| held_at(s, h, v);
        assert(held_at(f, h, v));
    }
}

/// Adding an operation the accumulator has room for keeps every immediate value in a group
/// that holds no operation.
pub proof fn lemma_imm_add(s: AccState, op: Operation)
    requires
        imm_inv(s),
        state_accepts(s, op),
    ensures
        imm_inv(add_op_state(s, op)),
{
    let s1 = if s.op_idx == GROUP_SIZE {
        lemma_imm_finalize(s);
        finalize_state(s)
    } else {
        s
    };
    match op.imm {
        Some(imm) => {
            let t = if s1.op_idx == GROUP_SIZE - 1 {
                lemma_imm_finalize(s1);
                finalize_state(s1)
            } else {
                s1
            };
            let u = AccState {
                groups: t.groups.update(t.next_group_idx as int, imm),
                indptr: t.indptr.update(t.next_group_idx as int, INVALID_IDX),
                next_group_idx: (t.next_group_idx + 1) as usize,
                ..t
            };
            assert(t.next_group_idx < BATCH_SIZE);
            assert(imm_inv(u)) by {
                assert forall|j: int| 0 <= j < u.ops.len() && (#[trigger] u.ops[j]).imm is Some implies exists|h: int| held_at(
                    u,
                    h,
                    u.ops[j].imm->Some_0,
                ) by {
                    let v = t.ops[j].imm->Some_0;
                    let h = choose|h: int| held_at(t, h, v);
                    assert(held_at(u, h, v));
                }
            }
            let w = push_state(u, op);
            assert forall|j: int| 0 <= j < w.ops.len() && (#[trigger] w.ops[j]).imm is Some implies exists|h: int| held_at(
                w,
                h,
                w.ops[j].imm->Some_0,
            ) by {
                if j < u.ops.len() {
                    assert(w.ops[j] == u.ops[j]);
                    let v = u.ops[j].imm->Some_0;
                    let h = choose|h: int| held_at(u, h, v);
                    assert(held_at(w, h, v));
                } else {
                    assert(w.ops[j] == op);
                    assert(held_at(w, t.next_group_idx as int, imm));
                }
            }
            assert(add_op_state(s, op) == w);
        },
        None => {
            let w = push_state(s1, op);
            assert forall|j: int| 0 <= j < w.ops.len() && (#[trigger] w.ops[j]).imm is Some implies exists|h: int| held_at(
                w,
                h,
                w.ops[j].imm->Some_0,
            ) by {
                assert(j < s1.ops.len());
                assert(w.ops[j] == s1.ops[j]);
                let v = s1.ops[j].imm->Some_0;
                let h = choose|h: int| held_at(s1, h, v);
                assert(held_at(w, h, v));
            }
            assert(add_op_state(s, op) == w);
        },
    }
}

/// Closing empty groups keeps every immediate value in a group that holds no operation.
pub proof fn lemma_imm_fill(s: AccState, target: int)
    requires
        imm_inv(s),
    ensures
        imm_inv(fill_groups(s, target)),
    decreases target - s.next_group_idx,
{
    if !(s.next_group_idx >= target || s.next_group_idx >= BATCH_SIZE) {
        lemma_imm_finalize(s);
        lemma_imm_fill(finalize_state(s), target);
    }
}

/// In the batch an accumulator becomes, every immediate value of an operation is held by a
/// group that holds no operation.
pub proof fn lemma_imm_batch(s: AccState)
    requires
        imm_inv(s),
    ensures
        immediates_in_empty_groups(batch_of(s)),
{
    let f = fill_groups(s, next_power_of_two_spec(s.next_group_idx as int));
    lemma_imm_fill(s, next_power_of_two_spec(s.next_group_idx as int));
    let p = pad_state(f);
    let b = batch_of(s);
    assert forall|j: int| 0 <= j < b.ops.len() && (#[trigger] b.ops[j]).imm is Some implies exists|h: int| empty_group_holds(
        b,
        h,
        b.ops[j].imm->Some_0,
    ) by {
        assert(j < f.ops.len());
        assert(b.ops[j] == f.ops[j]);
        let v = f.ops[j].imm->Some_0;
        let h = choose|h: int| held_at(f, h, v);
        assert(empty_group_holds(b, h, v));
    }
}

/// Whether an accumulator in state `s` has room for `op`.
pub open spec fn state_accepts(s: AccState, op: Operation) -> bool {
    if op.imm is Some {
        if s.op_idx < GROUP_SIZE - 1 {
            s.next_group_idx < BATCH_SIZE
        } else {
            s.next_group_idx + 1 < BATCH_SIZE
        }
    } else {
        s.op_idx < GROUP_SIZE || s.next_group_idx < BATCH_SIZE
    }
}

/// An accumulator used in construction of operation batches.
pub struct OpBatchAccumulator {
    /// The operations of this batch, including padding `Noop`s.
    pub ops: Vec<Operation>,
    /// The bounds of the groups in `ops`; groups holding an immediate value are marked with
    /// `INVALID_IDX` until the group that precedes them is closed.
    pub indptr: [usize; 9],
    /// Whether each group ends in a padding `Noop`.
    pub padding: [bool; 8],
    /// The field element of each group.
    pub groups: [u64; 8],
    /// The encoded opcodes of the current group.
    pub group: u64,
    /// Index of the next opcode in the current group.
    pub op_idx: usize,
    /// Index of the current group in the batch.
    pub group_idx: usize,
    /// Index of the next free group in the batch.
    pub next_group_idx: usize,
}

impl OpBatchAccumulator {
    /// The invariant of an accumulator: the groups before the current one are complete, the
    /// current group holds `op_idx` operations encoded by `group`, the groups between the
    /// current one and the next free one hold immediate values, and no group from the current
    /// one on is padded or (but for the immediate values) recorded yet.
    #[verifier::opaque]
    pub open spec fn inv(&self) -> bool {
        let ops = self.ops@;
        let ip = self.indptr@;
        let gi = self.group_idx as int;
        let ng = self.next_group_idx as int;
        &&& 0 <= gi < ng <= BATCH_SIZE
        &&& self.op_idx <= GROUP_SIZE
        &&& closed_groups(ops, ip, self.padding@, self.groups@, gi)
        &&& ip[gi] <= 9 * gi
        &&& ops.len() == ip[gi] + self.op_idx
        &&& forall|g: int| gi < g < ng ==> #[trigger] ip[g] == INVALID_IDX
        &&& self.group == encode(ops.subrange(ip[gi] as int, ops.len() as int))
        &&& self.group < pow2((7 * self.op_idx) as nat)
        &&& (self.op_idx == GROUP_SIZE ==> ops.last().imm is None)
        &&& forall|g: int| gi <= g < BATCH_SIZE ==> !(#[trigger] self.padding@[g])
        &&& self.groups@[gi] == 0
        &&& forall|g: int| ng <= g < BATCH_SIZE ==> #[trigger] self.groups@[g] == 0
    }

    /// The state of this accumulator.
    pub open spec fn state(&self) -> AccState {
        AccState {
            ops: self.ops@,
            indptr: self.indptr@,
            padding: self.padding@,
            groups: self.groups@,
            group: self.group,
            op_idx: self.op_idx,
            group_idx: self.group_idx,
            next_group_idx: self.next_group_idx,
        }
    }

    /// The operations added to this accumulator so far, in order.
    pub open spec fn raw(&self) -> Seq<Operation> {
        raw_prefix(self.ops@, self.indptr@, self.padding@, self.group_idx as int) + self.ops@.subrange(
            self.indptr@[self.group_idx as int] as int,
            self.ops@.len() as int,
        )
    }

    /// Whether the accumulator has room for `op`: a group slot for the operation and, if it
    /// carries an immediate value, a group for that value; an operation with an immediate
    /// value cannot be the last one in a group.
    pub open spec fn accepts(&self, op: Operation) -> bool {
        if op.imm is Some {
            if self.op_idx < GROUP_SIZE - 1 {
                self.next_group_idx < BATCH_SIZE
            } else {
                self.next_group_idx + 1 < BATCH_SIZE
            }
        } else {
            self.op_idx < GROUP_SIZE || self.next_group_idx < BATCH_SIZE
        }
    }

    /// Returns a blank accumulator.
    pub fn new() -> (r: Self)
        ensures
            r.inv(),
            r.raw() == Seq::<Operation>::empty(),
            r.ops@.len() == 0,
            r.op_idx == 0,
            r.group_idx == 0,
            r.next_group_idx == 1,
            r.state() == blank_state(),
    {
        let r = OpBatchAccumulator {
            ops: Vec::new(),
            indptr: [0usize; 9],
            padding: [false; 8],
            groups: [0u64; 8],
            group: 0,
            op_idx: 0,
            group_idx: 0,
            next_group_idx: 1,
        };
        assert(r.ops@.subrange(0, 0) =~= Seq::<Operation>::empty());
        proof {
            lemma2_to64();
            reveal(OpBatchAccumulator::inv);
            assert(r.indptr@ =~= Seq::new(9, |g: int| 0usize));
            assert(r.padding@ =~= Seq::new(8, |g: int| false));
            assert(r.groups@ =~= Seq::new(8, |g: int| 0u64));
            assert(r.ops@ =~= Seq::<Operation>::empty());
        }
        r
    }

    /// Returns true if this accumulator does not contain any operations.
    pub fn is_empty(&self) -> (r: bool)
        ensures
            r == (self.ops@.len() == 0),
    {
        self.ops.len() == 0
    }

    /// Returns true if this accumulator can accept the specified operation.
    ///
    /// An accumulator may not be able accept an operation when there is no more space in the
    /// batch, when there is no space for the immediate value carried by the operation, or when
    /// the alignment rules require that the operation overflows into the next group and then
    /// there is no space for the operation or its immediate value.
    pub fn can_accept_op(&self, op: Operation) -> (r: bool)
        ensures
            r == self.accepts(op),
    {
        if op.imm_value().is_some() {
            if self.op_idx < GROUP_SIZE - 1 {
                self.next_group_idx < BATCH_SIZE
            } else {
                self.next_group_idx < BATCH_SIZE - 1
            }
        } else {
            self.op_idx < GROUP_SIZE || self.next_group_idx < BATCH_SIZE
        }
    }

    /// Adds the opcode to the current group and increments the op index pointer.
    fn push_op(&mut self, op: Operation)
        requires
            old(self).op_idx < GROUP_SIZE,
            op.wf(),
            old(self).group < pow2((7 * old(self).op_idx) as nat),
            old(self).ops@.len() < 72,
        ensures
            final(self).ops@ == old(self).ops@.push(op),
            final(self).op_idx == old(self).op_idx + 1,
            final(self).group == old(self).group + (op.op_code as nat) * pow2(
                (7 * old(self).op_idx) as nat,
            ),
            final(self).group < pow2((7 * final(self).op_idx) as nat),
            final(self).indptr == old(self).indptr,
            final(self).padding == old(self).padding,
            final(self).groups == old(self).groups,
            final(self).group_idx == old(self).group_idx,
            final(self).next_group_idx == old(self).next_group_idx,
            final(self).state() == push_state(old(self).state(), op),
    {
        let opcode = op.op_code() as u64;
        proof {
            lemma_or_shift(self.group, opcode, self.op_idx as u64);
        }
        self.group = self.group | (opcode << (OP_BITS * self.op_idx as u64));
        self.ops.push(op);
        self.op_idx = self.op_idx + 1;
    }

    /// Pads the current group with a `Noop` if it is empty or ends in an operation carrying
    /// an immediate value.
    fn pad_if_needed(&mut self)
        requires
            old(self).op_idx <= GROUP_SIZE,
            old(self).op_idx == GROUP_SIZE ==> old(self).ops@.last().imm is None,
            old(self).group_idx < BATCH_SIZE,
            old(self).group < pow2((7 * old(self).op_idx) as nat),
            old(self).ops@.len() <= 9 * old(self).group_idx + old(self).op_idx,
            old(self).op_idx > 0 ==> old(self).ops@.len() > 0,
        ensures
            ({
                let needed = old(self).op_idx == 0 || (old(self).ops@.len() > 0
                    && old(self).ops@.last().imm is Some);
                &&& final(self).ops@ == (if needed {
                    old(self).ops@.push(Operation { op_code: 0, imm: None })
                } else {
                    old(self).ops@
                })
                &&& final(self).padding@ == (if needed {
                    old(self).padding@.update(old(self).group_idx as int, true)
                } else {
                    old(self).padding@
                })
                &&& final(self).op_idx == (if needed { old(self).op_idx + 1 } else { old(self).op_idx as int })
            }),
            final(self).group == old(self).group,
            final(self).indptr == old(self).indptr,
            final(self).groups == old(self).groups,
            final(self).group_idx == old(self).group_idx,
            final(self).next_group_idx == old(self).next_group_idx,
            final(self).state() == pad_state(old(self).state()),
    {
        let n = self.ops.len();
        if self.op_idx == 0 || (n > 0 && self.ops[n - 1].imm_value().is_some()) {
            let noop = Operation::noop();
            self.push_op(noop);
            assert((0 as nat) * pow2((7 * old(self).op_idx) as nat) == 0);
            self.padding[self.group_idx] = true;
        }
    }

    /// Records the start of the group after the current one and of the groups holding the
    /// immediate values of the current group.
    fn finalize_indptr(&mut self)
        requires
            old(self).group_idx < old(self).next_group_idx <= BATCH_SIZE,
            old(self).ops@.len() < INVALID_IDX,
            old(self).indptr@[old(self).group_idx as int] != INVALID_IDX,
            forall|g: int|
                old(self).group_idx < g < old(self).next_group_idx ==> #[trigger] old(
                    self,
                ).indptr@[g] == INVALID_IDX,
        ensures
            forall|g: int|
                0 <= g < 9 && old(self).group_idx < g <= old(self).next_group_idx
                    ==> #[trigger] final(self).indptr@[g] == old(self).ops@.len(),
            forall|g: int|
                0 <= g < 9 && !(old(self).group_idx < g <= old(self).next_group_idx)
                    ==> #[trigger] final(self).indptr@[g] == old(self).indptr@[g],
            final(self).ops == old(self).ops,
            final(self).padding == old(self).padding,
            final(self).groups == old(self).groups,
            final(self).group == old(self).group,
            final(self).op_idx == old(self).op_idx,
            final(self).group_idx == old(self).group_idx,
            final(self).next_group_idx == old(self).next_group_idx,
            final(self).indptr@ == record_bounds(old(self).state()),
    {
        let len = self.ops.len();
        self.indptr[self.next_group_idx] = len;
        let mut uninit_group_idx = self.next_group_idx - 1;
        while uninit_group_idx >= self.group_idx && self.indptr[uninit_group_idx] == INVALID_IDX
            invariant
                self.group_idx <= uninit_group_idx < self.next_group_idx,
                self.group_idx == old(self).group_idx,
                self.next_group_idx == old(self).next_group_idx,
                self.next_group_idx <= BATCH_SIZE,
                len == old(self).ops@.len(),
                self.ops == old(self).ops,
                self.padding == old(self).padding,
                self.groups == old(self).groups,
                self.group == old(self).group,
                self.op_idx == old(self).op_idx,
                old(self).indptr@[old(self).group_idx as int] != INVALID_IDX,
                forall|g: int|
                    old(self).group_idx < g < old(self).next_group_idx ==> #[trigger] old(
                        self,
                    ).indptr@[g] == INVALID_IDX,
                forall|g: int|
                    0 <= g < 9 && uninit_group_idx < g <= self.next_group_idx
                        ==> #[trigger] self.indptr@[g] == len,
                forall|g: int|
                    0 <= g < 9 && !(uninit_group_idx < g <= self.next_group_idx)
                        ==> #[trigger] self.indptr@[g] == old(self).indptr@[g],
            decreases uninit_group_idx,
        {
            self.indptr[uninit_group_idx] = len;
            assert(uninit_group_idx > self.group_idx);
            uninit_group_idx = uninit_group_idx - 1;
        }
        assert(uninit_group_idx == self.group_idx || !(uninit_group_idx >= self.group_idx));
        assert(self.indptr@ =~= record_bounds(old(self).state()));
    }

    /// Whether closing the current group needs a padding `Noop`: the group is empty or ends in
    /// an operation carrying an immediate value.
    pub open spec fn needs_padding(&self) -> bool {
        self.op_idx == 0 || (self.ops@.len() > 0 && self.ops@.last().imm is Some)
    }

    /// Saves the current group into the group array, advances the current and next group
    /// pointers, and resets the group content.
    pub fn finalize_op_group(&mut self)
        requires
            old(self).inv(),
            old(self).next_group_idx < BATCH_SIZE,
        ensures
            final(self).inv(),
            final(self).raw() == old(self).raw(),
            final(self).ops@ == (if old(self).needs_padding() {
                old(self).ops@.push(Operation { op_code: 0, imm: None })
            } else {
                old(self).ops@
            }),
            final(self).group_idx == old(self).next_group_idx,
            final(self).next_group_idx == old(self).next_group_idx + 1,
            final(self).op_idx == 0,
            final(self).state() == finalize_state(old(self).state()),
    {
        let ghost a = *self;
        proof {
            lemma_inv_bounds(*self);
            lemma_group_is_felt(self.group as int, self.op_idx as int);
        }
        self.pad_if_needed();
        let ghost p = self.state();
        let g = from_u64(self.group);
        self.groups[self.group_idx] = g;
        self.finalize_indptr();
        let ghost m = *self;
        self.group_idx = self.next_group_idx;
        self.next_group_idx = self.group_idx + 1;
        self.op_idx = 0;
        self.group = 0;
        proof {
            lemma_finalize_step(a, m, *self);
            assert(g == p.group);
            assert(self.groups@ =~= p.groups.update(p.group_idx as int, p.group));
            assert(record_bounds(m.state()) =~= record_bounds(p));
        }
    }

    /// Adds the specified operation to this accumulator.
    ///
    /// A full group is closed first; an operation carrying an immediate value never ends a
    /// group, and its value takes the next free group.
    pub fn add_op(&mut self, op: Operation)
        requires
            old(self).inv(),
            op.wf(),
            old(self).accepts(op),
        ensures
            final(self).inv(),
            final(self).raw() == old(self).raw().push(op),
            old(self).ops@.len() < final(self).ops@.len() <= old(self).ops@.len() + 2,
            final(self).ops@.subrange(0, old(self).ops@.len() as int) == old(self).ops@,
            final(self).ops@.last() == op,
            final(self).state() == add_op_state(old(self).state(), op),
    {
        let ghost ops_start = self.ops@;
        proof {
            lemma_inv_bounds(*self);
        }
        if self.op_idx == GROUP_SIZE {
            self.finalize_op_group();
            assert(self.ops@ == ops_start);
        }
        if let Some(imm) = op.imm_value() {
            if self.op_idx == GROUP_SIZE - 1 {
                self.finalize_op_group();
            }
            let ghost before = *self;
            proof {
                lemma_inv_bounds(*self);
            }
            let ng = self.next_group_idx;
            self.groups[ng] = imm;
            self.indptr[ng] = INVALID_IDX;
            self.next_group_idx = ng + 1;
            proof {
                lemma_insert_imm(before, *self);
                assert(self.state() =~= AccState {
                    groups: before.state().groups.update(ng as int, imm),
                    indptr: before.state().indptr.update(ng as int, INVALID_IDX),
                    next_group_idx: (ng + 1) as usize,
                    ..before.state()
                });
            }
        }
        let ghost before = *self;
        proof {
            lemma_inv_bounds(*self);
        }
        assert(self.ops@.subrange(0, ops_start.len() as int) == ops_start);
        self.push_op(op);
        proof {
            lemma_push_keeps_inv(before, *self, op);
            assert(self.ops@.subrange(0, ops_start.len() as int) =~= ops_start) by {
                assert(before.ops@.subrange(0, ops_start.len() as int) == ops_start);
            }
        }
    }
}

/// No group from the current one on is padded.
proof fn lemma_inv_padding(acc: OpBatchAccumulator, g: int)
    requires
        acc.inv(),
        acc.group_idx <= g < BATCH_SIZE,
    ensures
        !acc.padding@[g],
{
    reveal(OpBatchAccumulator::inv);
}

impl OpBatchAccumulator {
    /// Converts the accumulator into an [OpBatch].
    ///
    /// The number of groups is padded to the next power of two with empty groups, each holding
    /// a single padding `Noop`.
    #[verifier::rlimit(40)]
    pub fn into_batch(self) -> (r: OpBatch)
        requires
            self.inv(),
        ensures
            r.wf(),
            r.raw_ops_spec() == self.raw(),
            r.num_groups as int == next_power_of_two_spec(self.next_group_idx as int),
            r.state() == batch_of(self.state()),
            forall|g: int| r.num_groups <= g < BATCH_SIZE ==> !(#[trigger] r.padding@[g]),
            r.ops@.len() == self.raw().len() + count_pads(r.padding@.take(r.num_groups as int)),
            imm_inv(self.state()) ==> immediates_in_empty_groups(r.state()),
    {
        let mut acc = self;
        proof {
            lemma_inv_bounds(acc);
        }
        let num_groups = acc.next_group_idx;
        let target_num_groups = next_power_of_two(num_groups);
        let mut i = num_groups;
        while i < target_num_groups
            invariant
                acc.inv(),
                acc.raw() == self.raw(),
                acc.next_group_idx == i,
                num_groups <= i <= target_num_groups,
                target_num_groups <= BATCH_SIZE,
                target_num_groups as int == next_power_of_two_spec(self.next_group_idx as int),
                fill_groups(self.state(), target_num_groups as int) == fill_groups(
                    acc.state(),
                    target_num_groups as int,
                ),
            decreases target_num_groups - i,
        {
            acc.finalize_op_group();
            i = i + 1;
        }
        let ghost a = acc;
        proof {
            lemma_inv_bounds(acc);
            lemma_group_is_felt(acc.group as int, acc.op_idx as int);
            lemma_inv_current_group(acc);
            assert(acc.state() == fill_groups(self.state(), target_num_groups as int));
        }
        if acc.group != 0 || acc.op_idx != 0 {
            let g = from_u64(acc.group);
            acc.groups[acc.group_idx] = g;
        } else {
            assert(acc.groups@ =~= acc.groups@.update(acc.group_idx as int, acc.group));
        }
        let ghost gi = a.group_idx;
        assert forall|g: int| gi <= g < BATCH_SIZE implies !(#[trigger] a.padding@[g]) by {
            lemma_inv_padding(a, g);
        }
        assert(acc.padding@ == a.padding@);
        assert(acc.group_idx == a.group_idx);
        acc.pad_if_needed();
        acc.finalize_indptr();
        assert(forall|g: int| gi < g < BATCH_SIZE ==> !(#[trigger] acc.padding@[g]));
        let r = OpBatch {
            ops: acc.ops,
            indptr: acc.indptr,
            padding: acc.padding,
            groups: acc.groups,
            num_groups: acc.next_group_idx,
        };
        proof {
            lemma_close_batch(a, r);
            assert(r.state() =~= batch_of(self.state()));
            lemma_batch_ops_count(r);
            if imm_inv(self.state()) {
                lemma_imm_batch(self.state());
            }
        }
        r
    }
}

/// The smallest power of two that is at least `n`, for `n` up to `BATCH_SIZE`.
pub open spec fn next_power_of_two_spec(n: int) -> int {
    if n <= 1 {
        1
    } else if n <= 2 {
        2
    } else if n <= 4 {
        4
    } else {
        8
    }
}

/// Returns the smallest power of two that is at least `n`.
fn next_power_of_two(n: usize) -> (r: usize)
    requires
        n <= BATCH_SIZE,
    ensures
        r as int == next_power_of_two_spec(n as int),
        is_batch_size(r as int),
        n <= r,
{
    if n <= 1 {
        1
    } else if n <= 2 {
        2
    } else if n <= 4 {
        4
    } else {
        8
    }
}

/// The element of the current group of an accumulator is still zero when the group is empty.
proof fn lemma_inv_current_group(a: OpBatchAccumulator)
    requires
        a.inv(),
    ensures
        a.groups@[a.group_idx as int] == 0,
        a.op_idx == 0 ==> a.group == 0,
{
    reveal(OpBatchAccumulator::inv);
    if a.op_idx == 0 {
        let ops = a.ops@;
        assert(ops.subrange(a.indptr@[a.group_idx as int] as int, ops.len() as int) =~= Seq::<
            Operation,
        >::empty());
    }
}

/// Closing the last group of an accumulator yields a well-formed batch with the same raw
/// operations.
#[verifier::rlimit(50)]
proof fn lemma_close_batch(a: OpBatchAccumulator, r: OpBatch)
    requires
        a.inv(),
        is_batch_size(a.next_group_idx as int),
        r.ops@ == (if a.needs_padding() {
            a.ops@.push(Operation { op_code: 0, imm: None })
        } else {
            a.ops@
        }),
        r.padding@ == (if a.needs_padding() {
            a.padding@.update(a.group_idx as int, true)
        } else {
            a.padding@
        }),
        r.groups@ == a.groups@.update(a.group_idx as int, a.group),
        forall|g: int|
            0 <= g < 9 && a.group_idx < g <= a.next_group_idx ==> #[trigger] r.indptr@[g]
                == r.ops@.len(),
        forall|g: int|
            0 <= g < 9 && !(a.group_idx < g <= a.next_group_idx) ==> #[trigger] r.indptr@[g]
                == a.indptr@[g],
        r.num_groups == a.next_group_idx,
    ensures
        r.wf(),
        r.raw_ops_spec() == a.raw(),
{
    reveal(OpBatchAccumulator::inv);
    let gi = a.group_idx as int;
    let ng = a.next_group_idx as int;
    assert(close_rel(
        a.ops@,
        a.indptr@,
        a.padding@,
        a.groups@,
        a.group,
        a.op_idx as int,
        gi,
        ng,
        r.ops@,
        r.indptr@,
        r.padding@,
        r.groups@,
    ));
    lemma_close_wf(
        a.ops@,
        a.indptr@,
        a.padding@,
        a.groups@,
        a.group,
        a.op_idx as int,
        gi,
        ng,
        r.ops@,
        r.indptr@,
        r.padding@,
        r.groups@,
    );
    lemma_close_raw(
        a.ops@,
        a.indptr@,
        a.padding@,
        a.groups@,
        a.group,
        a.op_idx as int,
        gi,
        ng,
        r.ops@,
        r.indptr@,
        r.padding@,
        r.groups@,
    );
}

/// An accumulator without operations has no raw operations.
pub proof fn lemma_empty_acc_raw(a: OpBatchAccumulator)
    requires
        a.inv(),
        a.ops@.len() == 0,
    ensures
        a.raw() == Seq::<Operation>::empty(),
{
    reveal(OpBatchAccumulator::inv);
    let gi = a.group_idx as int;
    lemma_ip_monotone_all(a.indptr@, gi);
    assert forall|g: int| 0 <= g < gi implies #[trigger] a.indptr@[g] == a.indptr@[g + 1]
        && !a.padding@[g] by {
        assert(a.indptr@[g + 1] <= a.indptr@[gi]);
    }
    lemma_raw_prefix_empty_groups(a.ops@, a.indptr@, a.padding@, 0, gi);
    assert(a.ops@.subrange(a.indptr@[gi] as int, 0) =~= Seq::<Operation>::empty());
}

/// The bounds that the invariant of an accumulator puts on its counters.
proof fn lemma_inv_bounds(a: OpBatchAccumulator)
    requires
        a.inv(),
    ensures
        a.op_idx <= GROUP_SIZE,
        a.group_idx < a.next_group_idx <= BATCH_SIZE,
        a.ops@.len() <= 9 * a.group_idx + a.op_idx,
        a.group < pow2((7 * a.op_idx) as nat),
        a.op_idx == GROUP_SIZE ==> a.ops@.last().imm is None,
        a.op_idx > 0 ==> a.ops@.len() > 0,
        a.indptr@[a.group_idx as int] <= 9 * a.group_idx,
        forall|g: int| a.group_idx < g < a.next_group_idx ==> #[trigger] a.indptr@[g] == INVALID_IDX,
{
    reveal(OpBatchAccumulator::inv);
}

/// Closing the current group of an accumulator (padding it if needed, recording its element and
/// fixing the bounds that follow it) and moving to the next free group keeps the invariant and
/// the raw operations.
#[verifier::rlimit(50)]
proof fn lemma_finalize_step(a: OpBatchAccumulator, m: OpBatchAccumulator, b: OpBatchAccumulator)
    requires
        a.inv(),
        a.next_group_idx < BATCH_SIZE,
        m.ops@ == (if a.needs_padding() {
            a.ops@.push(Operation { op_code: 0, imm: None })
        } else {
            a.ops@
        }),
        m.padding@ == (if a.needs_padding() {
            a.padding@.update(a.group_idx as int, true)
        } else {
            a.padding@
        }),
        m.groups@ == a.groups@.update(a.group_idx as int, a.group),
        forall|g: int|
            0 <= g < 9 && a.group_idx < g <= a.next_group_idx ==> #[trigger] m.indptr@[g]
                == m.ops@.len(),
        forall|g: int|
            0 <= g < 9 && !(a.group_idx < g <= a.next_group_idx) ==> #[trigger] m.indptr@[g]
                == a.indptr@[g],
        b.ops == m.ops,
        b.indptr == m.indptr,
        b.padding == m.padding,
        b.groups == m.groups,
        b.group_idx == a.next_group_idx,
        b.next_group_idx == a.next_group_idx + 1,
        b.op_idx == 0,
        b.group == 0,
    ensures
        b.inv(),
        b.raw() == a.raw(),
{
    reveal(OpBatchAccumulator::inv);
    let gi = a.group_idx as int;
    let ng = a.next_group_idx as int;
    assert(close_rel(
        a.ops@,
        a.indptr@,
        a.padding@,
        a.groups@,
        a.group,
        a.op_idx as int,
        gi,
        ng,
        m.ops@,
        m.indptr@,
        m.padding@,
        m.groups@,
    ));
    lemma_close_wf(
        a.ops@,
        a.indptr@,
        a.padding@,
        a.groups@,
        a.group,
        a.op_idx as int,
        gi,
        ng,
        m.ops@,
        m.indptr@,
        m.padding@,
        m.groups@,
    );
    lemma_close_raw(
        a.ops@,
        a.indptr@,
        a.padding@,
        a.groups@,
        a.group,
        a.op_idx as int,
        gi,
        ng,
        m.ops@,
        m.indptr@,
        m.padding@,
        m.groups@,
    );
    lemma2_to64();
    assert(b.ops@.subrange(b.ops@.len() as int, b.ops@.len() as int) =~= Seq::<Operation>::empty());
}

/// Storing an immediate value in the next free group keeps the invariant and the raw operations
/// of an accumulator.
proof fn lemma_insert_imm(a: OpBatchAccumulator, b: OpBatchAccumulator)
    requires
        a.inv(),
        a.next_group_idx < BATCH_SIZE,
        a.op_idx < GROUP_SIZE - 1,
        b.ops == a.ops,
        b.padding == a.padding,
        b.group == a.group,
        b.op_idx == a.op_idx,
        b.group_idx == a.group_idx,
        b.next_group_idx == a.next_group_idx + 1,
        b.indptr@ == a.indptr@.update(a.next_group_idx as int, INVALID_IDX),
        b.groups@[a.next_group_idx as int] < P,
        b.groups@ == a.groups@.update(a.next_group_idx as int, b.groups@[a.next_group_idx as int]),
    ensures
        b.inv(),
        b.raw() == a.raw(),
        b.op_idx < GROUP_SIZE - 1,
{
    reveal(OpBatchAccumulator::inv);
    let gi = a.group_idx as int;
    assert forall|g: int| 0 <= g < BATCH_SIZE implies #[trigger] b.groups@[g] < P by {
        if g != a.next_group_idx as int {
            assert(b.groups@[g] == a.groups@[g]);
        }
    }
    lemma_closed_groups_frame(
        a.ops@,
        a.indptr@,
        a.padding@,
        a.groups@,
        b.ops@,
        b.indptr@,
        b.padding@,
        b.groups@,
        gi,
    );
    lemma_ip_monotone_all(a.indptr@, gi);
    assert forall|g: int| 0 <= g < gi && #[trigger] a.padding@[g] implies a.indptr@[g] < a.indptr@[
        g + 1] by {}
    lemma_raw_prefix_frame(a.ops@, b.ops@, a.indptr@, b.indptr@, a.padding@, b.padding@, gi);
}

/// Pushing an operation into a group with room for it keeps the invariant and appends the
/// operation to the raw operations of an accumulator.
#[verifier::rlimit(50)]
proof fn lemma_push_keeps_inv(a: OpBatchAccumulator, b: OpBatchAccumulator, op: Operation)
    requires
        a.inv(),
        op.wf(),
        a.op_idx < GROUP_SIZE,
        op.imm is Some ==> a.op_idx < GROUP_SIZE - 1,
        b.ops@ == a.ops@.push(op),
        b.op_idx == a.op_idx + 1,
        b.group == a.group + (op.op_code as nat) * pow2((7 * a.op_idx) as nat),
        b.group < pow2((7 * b.op_idx) as nat),
        b.indptr == a.indptr,
        b.padding == a.padding,
        b.groups == a.groups,
        b.group_idx == a.group_idx,
        b.next_group_idx == a.next_group_idx,
    ensures
        b.inv(),
        b.raw() == a.raw().push(op),
        b.ops@.last() == op,
{
    reveal(OpBatchAccumulator::inv);
    let gi = a.group_idx as int;
    let start = a.indptr@[gi] as int;
    assert(all_wf(b.ops@)) by {
        assert forall|i: int| 0 <= i < b.ops@.len() implies (#[trigger] b.ops@[i]).wf() by {
            if i < a.ops@.len() {
                assert(b.ops@[i] == a.ops@[i]);
            }
        }
    }
    assert(b.ops@.subrange(0, start) =~= a.ops@.subrange(0, start));
    lemma_closed_groups_frame(
        a.ops@,
        a.indptr@,
        a.padding@,
        a.groups@,
        b.ops@,
        b.indptr@,
        b.padding@,
        b.groups@,
        gi,
    );
    let seg = a.ops@.subrange(start, a.ops@.len() as int);
    assert(b.ops@.subrange(start, b.ops@.len() as int) =~= seg.push(op));
    lemma_encode_push(seg, op);
    lemma_ip_monotone_all(a.indptr@, gi);
    assert forall|g: int| 0 <= g < gi && #[trigger] a.padding@[g] implies a.indptr@[g] < a.indptr@[
        g + 1] by {}
    lemma_raw_prefix_frame(a.ops@, b.ops@, a.indptr@, b.indptr@, a.padding@, b.padding@, gi);
}

} // verus!
