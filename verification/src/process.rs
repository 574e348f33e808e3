//! The part of the processor state that u32 operations read and write: the operand stack, the
//! clock, the decoder's user-operation helper registers and the values sent to the range
//! checker.

use vstd::prelude::*;

use crate::felt::{P, is_felt};
use crate::felt::felt_inv;
use crate::memory::MemoryError;

verus! {

/// Minimum depth of the operand stack.
pub const MIN_STACK_DEPTH: usize = 16usize;

/// Number of user-operation helper registers of the decoder.
pub const NUM_USER_OP_HELPERS: usize = 6usize;

/// Largest 32-bit value.
pub const U32_MAX: u64 = 4294967295u64;

/// Errors raised by the execution of operations.
#[derive(Clone, Debug, PartialEq, Eq)]
pub enum ExecutionError {
    /// Operands that an operation requires to be 32-bit values are not, listed from the top of
    /// the stack down, with the error code of the operation.
    NotU32Values { values: Vec<u64>, err_code: u64 },
    /// A division by zero at the given clock cycle.
    DivideByZero { clk: u32 },
    /// An assertion failed at the given clock cycle, with the given error code.
    FailedAssertion { clk: u32, err_code: u64 },
    /// The free memory pointer would leave its range: its value and the refused one.
    InvalidFmpValue(u64, u64),
    /// An operand that must be 0 or 1 is not.
    NotBinaryValue { value: u64 },
    /// The condition of a split is neither 0 nor 1.
    NotBinaryValueIf { value: u64 },
    /// The caller hash was asked for outside a syscall.
    CallerNotInSyscall,
    /// A memory access failed.
    MemoryError(MemoryError),
}

/// `s` padded at the bottom with zeros up to the minimum stack depth.
pub open spec fn pad_to_min(s: Seq<u64>) -> Seq<u64> {
    if s.len() >= MIN_STACK_DEPTH {
        s
    } else {
        s + Seq::new((MIN_STACK_DEPTH - s.len()) as nat, |i: int| 0u64)
    }
}

/// The stack after an operation that consumes its top `k` elements and pushes `top`.
pub open spec fn after_op(s: Seq<u64>, k: int, top: Seq<u64>) -> Seq<u64> {
    pad_to_min(top + s.skip(k))
}

/// The low 16 bits of `v`.
pub open spec fn lo16(v: int) -> int {
    v % 65536
}

/// Bits 16 to 31 of `v`.
pub open spec fn hi16(v: int) -> int {
    (v / 65536) % 65536
}

/// The helper registers that range checks of `lo` and `hi` leave in the decoder: the four
/// 16-bit limbs, then the element-validity helper `m`, then zero.
pub open spec fn range_helpers(lo: int, hi: int, m: int) -> Seq<u64> {
    seq![lo16(lo) as u64, hi16(lo) as u64, lo16(hi) as u64, hi16(hi) as u64, m as u64, 0u64]
}

/// The element-validity helper for `hi`: the inverse of `2^32 - 1 - hi` when that is not zero,
/// and zero otherwise.
pub open spec fn validity_helper(hi: int, m: int) -> bool {
    if hi == U32_MAX {
        m == 0
    } else {
        is_felt(m) && (m * (U32_MAX - hi)) % (P as int) == 1
    }
}

/// The processor state that u32 operations work on.
pub struct Process {
    /// The operand stack, top first.
    pub stack: Vec<u64>,
    /// The clock cycle.
    pub clk: u32,
    /// The decoder's user-operation helper registers.
    pub helpers: [u64; 6],
    /// The values sent to the range checker, in order.
    pub range_checks: Vec<u16>,
}

impl Process {
    /// The stack is at least `MIN_STACK_DEPTH` deep and holds field elements.
    pub open spec fn wf(&self) -> bool {
        &&& self.stack@.len() >= MIN_STACK_DEPTH
        &&& forall|i: int| 0 <= i < self.stack@.len() ==> #[trigger] self.stack@[i] < P
    }

    /// The effect of range-checking `lo` and `hi`: their 16-bit limbs are sent to the range
    /// checker and left in the helper registers.
    pub open spec fn range_checked(&self, old: &Process, lo: int, hi: int, check_validity: bool) -> bool {
        &&& self.range_checks@ == old.range_checks@ + seq![
            lo16(lo) as u16,
            hi16(lo) as u16,
            lo16(hi) as u16,
            hi16(hi) as u16,
        ]
        &&& self.helpers@.subrange(0, 4) == range_helpers(lo, hi, 0).subrange(0, 4)
        &&& self.helpers@[5] == 0
        &&& if check_validity {
            validity_helper(hi, self.helpers@[4] as int)
        } else {
            self.helpers@[4] == 0
        }
    }

    /// Returns a process whose stack holds the given values, the last one on top, over zeros.
    pub fn new_dummy(stack_inputs: &Vec<u64>) -> (r: Self)
        requires
            forall|i: int| 0 <= i < stack_inputs@.len() ==> #[trigger] stack_inputs@[i] < P,
            stack_inputs@.len() < usize::MAX - MIN_STACK_DEPTH,
        ensures
            r.wf(),
            r.stack@ == pad_to_min(stack_inputs@.reverse()),
            r.clk == 0,
            r.helpers@ == seq![0u64, 0, 0, 0, 0, 0],
            r.range_checks@.len() == 0,
    {
        let mut stack: Vec<u64> = Vec::new();
        let n = stack_inputs.len();
        let mut i: usize = 0;
        while i < n
            invariant
                n == stack_inputs@.len(),
                0 <= i <= n,
                stack@ == stack_inputs@.reverse().take(i as int),
            decreases n - i,
        {
            stack.push(stack_inputs[n - 1 - i]);
            assert(stack_inputs@.reverse().take(i + 1) =~= stack_inputs@.reverse().take(i as int).push(
                stack_inputs@[n - 1 - i],
            ));
            i = i + 1;
        }
        assert(stack_inputs@.reverse().take(n as int) =~= stack_inputs@.reverse());
        let ghost full = stack@;
        while stack.len() < MIN_STACK_DEPTH
            invariant
                full.len() <= stack@.len(),
                stack@.len() <= (if full.len() >= MIN_STACK_DEPTH { full.len() as int } else { MIN_STACK_DEPTH as int }),
                stack@ == full + Seq::new((stack@.len() - full.len()) as nat, |i: int| 0u64),
            decreases MIN_STACK_DEPTH - stack@.len(),
        {
            let ghost prev = stack@;
            stack.push(0);
            assert(stack@ =~= full + Seq::new((stack@.len() - full.len()) as nat, |i: int| 0u64));
        }
        proof {
            if full.len() >= MIN_STACK_DEPTH {
                assert(stack@ =~= full);
            } else {
                assert(stack@ =~= pad_to_min(full));
            }
        }
        let r = Process { stack, clk: 0, helpers: [0u64; 6], range_checks: Vec::new() };
        assert(r.helpers@ =~= seq![0u64, 0, 0, 0, 0, 0]);
        r
    }

    /// Returns the top `MIN_STACK_DEPTH` elements of the stack, top first.
    pub fn trace_state(&self) -> (r: [u64; 16])
        requires
            self.wf(),
        ensures
            r@ == self.stack@.take(16),
    {
        let mut r = [0u64; 16];
        let mut i: usize = 0;
        while i < 16
            invariant
                self.wf(),
                0 <= i <= 16,
                r@.len() == 16,
                forall|j: int| 0 <= j < i ==> #[trigger] r@[j] == self.stack@[j],
            decreases 16 - i,
        {
            r[i] = self.stack[i];
            i = i + 1;
        }
        assert(r@ =~= self.stack@.take(16));
        r
    }

    /// Returns the user-operation helper registers of the decoder.
    pub fn get_user_op_helpers(&self) -> (r: [u64; 6])
        ensures
            r == self.helpers,
    {
        self.helpers
    }

    /// Replaces the top `k` elements of the stack by `top`, padding the stack with zeros at the
    /// bottom up to its minimum depth.
    fn replace_top(&mut self, k: usize, top: Vec<u64>)
        requires
            old(self).wf(),
            k <= MIN_STACK_DEPTH,
            top@.len() <= 2,
            top@.len() <= k + 1,
            forall|i: int| 0 <= i < top@.len() ==> #[trigger] top@[i] < P,
        ensures
            final(self).wf(),
            final(self).stack@ == after_op(old(self).stack@, k as int, top@),
            final(self).clk == old(self).clk,
            final(self).helpers == old(self).helpers,
            final(self).range_checks == old(self).range_checks,
    {
        let mut stack = top;
        let ghost t = stack@;
        let n = self.stack.len();
        let mut i = k;
        while i < n
            invariant
                self.wf(),
                n == self.stack@.len(),
                k <= i <= n,
                stack@ == t + self.stack@.subrange(k as int, i as int),
                forall|j: int| 0 <= j < t.len() ==> #[trigger] t[j] < P,
                t.len() <= 2,
            decreases n - i,
        {
            stack.push(self.stack[i]);
            assert(self.stack@.subrange(k as int, i + 1) =~= self.stack@.subrange(k as int, i as int).push(
                self.stack@[i as int],
            ));
            i = i + 1;
        }
        let ghost full = stack@;
        assert(full =~= t + self.stack@.skip(k as int));
        while stack.len() < MIN_STACK_DEPTH
            invariant
                full.len() <= stack@.len(),
                stack@.len() <= (if full.len() >= MIN_STACK_DEPTH { full.len() as int } else { MIN_STACK_DEPTH as int }),
                stack@ == full + Seq::new((stack@.len() - full.len()) as nat, |i: int| 0u64),
            decreases MIN_STACK_DEPTH - stack@.len(),
        {
            stack.push(0);
            assert(stack@ =~= full + Seq::new((stack@.len() - full.len()) as nat, |i: int| 0u64));
        }
        proof {
            if full.len() >= MIN_STACK_DEPTH {
                assert(stack@ =~= full);
            } else {
                assert(stack@ =~= pad_to_min(full));
            }
            assert forall|j: int| 0 <= j < stack@.len() implies #[trigger] stack@[j] < P by {
                if j < t.len() {
                } else if j < full.len() {
                    assert(full[j] == self.stack@[k + j - t.len()]);
                }
            }
        }
        self.stack = stack;
    }

    /// Adds 16-bit range checks for the high and low 16-bit limbs of two field elements holding
    /// 32-bit values, and leaves the limbs in the decoder's helper registers; when
    /// `check_element_validity` is set, a fifth helper holds the inverse of `2^32 - 1 - hi`
    /// (or zero), which enforces that `hi` is not `2^32 - 1`.
    pub fn add_range_checks(&mut self, lo: u64, hi: u64, check_element_validity: bool)
        requires
            lo <= U32_MAX,
            hi <= U32_MAX,
        ensures
            final(self).range_checked(old(self), lo as int, hi as int, check_element_validity),
            final(self).stack == old(self).stack,
            final(self).clk == old(self).clk,
    {
        let t0 = (lo % 65536) as u16;
        let t1 = (lo / 65536) as u16;
        let t2 = (hi % 65536) as u16;
        let t3 = (hi / 65536) as u16;
        self.range_checks.push(t0);
        self.range_checks.push(t1);
        self.range_checks.push(t2);
        self.range_checks.push(t3);
        let mut m: u64 = 0;
        if check_element_validity {
            let d = U32_MAX - hi;
            if d != 0 {
                m = felt_inv(d);
                assert((m as int) * (d as int) == (d as int) * (m as int)) by (nonlinear_arith);
            }
        }
        self.helpers = [t0 as u64, t1 as u64, t2 as u64, t3 as u64, m, 0];
        proof {
            assert(lo / 65536 < 65536);
            assert(hi / 65536 < 65536);
            assert(self.helpers@.subrange(0, 4) =~= range_helpers(lo as int, hi as int, 0).subrange(0, 4));
            assert(self.range_checks@ =~= old(self).range_checks@ + seq![
                lo16(lo as int) as u16,
                hi16(lo as int) as u16,
                lo16(hi as int) as u16,
                hi16(hi as int) as u16,
            ]);
        }
    }
}

/// The operands among the top `n` of the stack that are not 32-bit values, top first.
pub open spec fn not_u32(s: Seq<u64>, n: int) -> Seq<u64>
    decreases n,
{
    if n <= 0 {
        Seq::empty()
    } else {
        not_u32(s, n - 1) + (if s[n - 1] > U32_MAX { seq![s[n - 1]] } else { Seq::empty() })
    }
}

/// When none of the top `n` operands fails to be a 32-bit value, all of them are.
pub proof fn lemma_not_u32_empty(s: Seq<u64>, n: int)
    requires
        0 <= n <= s.len(),
        not_u32(s, n).len() == 0,
    ensures
        forall|i: int| 0 <= i < n ==> #[trigger] s[i] <= U32_MAX,
    decreases n,
{
    if n > 0 {
        lemma_not_u32_empty(s, n - 1);
    }
}

/// `r` is the error raised for the given operands that are not 32-bit values.
pub open spec fn is_not_u32_error(r: Result<(), ExecutionError>, values: Seq<u64>, err_code: u64) -> bool {
    match r {
        Err(ExecutionError::NotU32Values { values: v, err_code: c }) => v@ == values && c == err_code,
        _ => false,
    }
}

/// The two states agree.
pub open spec fn same_state(a: &Process, b: &Process) -> bool {
    &&& a.stack@ == b.stack@
    &&& a.clk == b.clk
    &&& a.helpers == b.helpers
    &&& a.range_checks@ == b.range_checks@
}

/// `v` split into its high and low 32-bit halves.
pub open spec fn hi32(v: int) -> int {
    v / 4294967296
}

pub open spec fn lo32(v: int) -> int {
    v % 4294967296
}

impl Process {
    /// Checks that the top `n` elements of the stack are 32-bit values.
    fn require_u32_operands(&self, n: usize, err_code: u64) -> (r: Result<(), ExecutionError>)
        requires
            self.wf(),
            n <= 3,
        ensures
            r is Ok <==> not_u32(self.stack@, n as int).len() == 0,
            r is Err ==> is_not_u32_error(r, not_u32(self.stack@, n as int), err_code),
            r is Ok ==> forall|i: int| 0 <= i < n ==> #[trigger] self.stack@[i] <= U32_MAX,
    {
        let mut invalid: Vec<u64> = Vec::new();
        let mut i: usize = 0;
        while i < n
            invariant
                self.wf(),
                n <= 3,
                0 <= i <= n,
                invalid@ == not_u32(self.stack@, i as int),
            decreases n - i,
        {
            let v = self.stack[i];
            if v > U32_MAX {
                invalid.push(v);
            }
            proof {
                assert(invalid@ =~= not_u32(self.stack@, i + 1));
            }
            i = i + 1;
        }
        if invalid.len() == 0 {
            proof {
                lemma_not_u32_empty(self.stack@, n as int);
            }
            Ok(())
        } else {
            Err(ExecutionError::NotU32Values { values: invalid, err_code })
        }
    }

    /// Pops the top element, splits it into its low and high 32-bit halves, and pushes the low
    /// and then the high half.
    pub fn op_u32split(&mut self) -> (r: Result<(), ExecutionError>)
        requires
            old(self).wf(),
        ensures
            r is Ok,
            final(self).wf(),
            ({
                let a = old(self).stack@[0] as int;
                &&& final(self).stack@ == after_op(old(self).stack@, 1, seq![hi32(a) as u64, lo32(a) as u64])
                &&& final(self).range_checked(old(self), lo32(a), hi32(a), true)
            }),
            final(self).clk == old(self).clk,
    {
        let a = self.stack[0];
        let hi = a / 4294967296;
        let lo = a % 4294967296;
        self.add_range_checks(lo, hi, true);
        let mut top: Vec<u64> = Vec::new();
        top.push(hi);
        top.push(lo);
        self.replace_top(1, top);
        assert(top@ =~= seq![hi, lo]);
        Ok(())
    }

    /// Checks that the top two elements are 32-bit values, leaving the stack as it is; fails
    /// with the given error code otherwise.
    pub fn op_u32assert2(&mut self, err_code: u64) -> (r: Result<(), ExecutionError>)
        requires
            old(self).wf(),
        ensures
            final(self).wf(),
            r is Ok <==> not_u32(old(self).stack@, 2).len() == 0,
            r is Err ==> is_not_u32_error(r, not_u32(old(self).stack@, 2), err_code) && same_state(
                final(self),
                old(self),
            ),
            r is Ok ==> final(self).stack@ == old(self).stack@ && final(self).range_checked(
                old(self),
                old(self).stack@[1] as int,
                old(self).stack@[0] as int,
                false,
            ),
            final(self).clk == old(self).clk,
    {
        let c = self.require_u32_operands(2, err_code);
        if c.is_err() {
            return c;
        }
        let b = self.stack[0];
        let a = self.stack[1];
        self.add_range_checks(a, b, false);
        Ok(())
    }

    /// Pops two 32-bit values, adds them, and pushes the low and then the high half of the sum.
    pub fn op_u32add(&mut self) -> (r: Result<(), ExecutionError>)
        requires
            old(self).wf(),
        ensures
            final(self).wf(),
            r is Ok <==> not_u32(old(self).stack@, 2).len() == 0,
            r is Err ==> is_not_u32_error(r, not_u32(old(self).stack@, 2), 0) && same_state(
                final(self),
                old(self),
            ),
            r is Ok ==> {
                let sum = old(self).stack@[0] + old(self).stack@[1];
                &&& final(self).stack@ == after_op(old(self).stack@, 2, seq![hi32(sum) as u64, lo32(sum) as u64])
                &&& final(self).range_checked(old(self), lo32(sum), hi32(sum), false)
            },
            final(self).clk == old(self).clk,
    {
        let c = self.require_u32_operands(2, 0);
        if c.is_err() {
            return c;
        }
        let b = self.stack[0];
        let a = self.stack[1];
        let result = a + b;
        let hi = result / 4294967296;
        let lo = result % 4294967296;
        self.add_range_checks(lo, hi, false);
        let mut top: Vec<u64> = Vec::new();
        top.push(hi);
        top.push(lo);
        self.replace_top(2, top);
        assert(top@ =~= seq![hi, lo]);
        Ok(())
    }

    /// Pops three 32-bit values, adds them, and pushes the low and then the high half of the
    /// sum.
    pub fn op_u32add3(&mut self) -> (r: Result<(), ExecutionError>)
        requires
            old(self).wf(),
        ensures
            final(self).wf(),
            r is Ok <==> not_u32(old(self).stack@, 3).len() == 0,
            r is Err ==> is_not_u32_error(r, not_u32(old(self).stack@, 3), 0) && same_state(
                final(self),
                old(self),
            ),
            r is Ok ==> {
                let sum = old(self).stack@[0] + old(self).stack@[1] + old(self).stack@[2];
                &&& final(self).stack@ == after_op(old(self).stack@, 3, seq![hi32(sum) as u64, lo32(sum) as u64])
                &&& final(self).range_checked(old(self), lo32(sum), hi32(sum), false)
            },
            final(self).clk == old(self).clk,
    {
        let ch = self.require_u32_operands(3, 0);
        if ch.is_err() {
            return ch;
        }
        let c = self.stack[0];
        let b = self.stack[1];
        let a = self.stack[2];
        let result = a + b + c;
        let hi = result / 4294967296;
        let lo = result % 4294967296;
        self.add_range_checks(lo, hi, false);
        let mut top: Vec<u64> = Vec::new();
        top.push(hi);
        top.push(lo);
        self.replace_top(3, top);
        assert(top@ =~= seq![hi, lo]);
        Ok(())
    }

    /// Pops two 32-bit values `b` (top) and `a`, and pushes `a - b` modulo `2^32` and then a
    /// flag that is 1 when the subtraction underflowed.
    pub fn op_u32sub(&mut self) -> (r: Result<(), ExecutionError>)
        requires
            old(self).wf(),
        ensures
            final(self).wf(),
            r is Ok <==> not_u32(old(self).stack@, 2).len() == 0,
            r is Err ==> is_not_u32_error(r, not_u32(old(self).stack@, 2), 0) && same_state(
                final(self),
                old(self),
            ),
            r is Ok ==> {
                let b = old(self).stack@[0] as int;
                let a = old(self).stack@[1] as int;
                let d: int = if a < b { 1 } else { 0 };
                let c = lo32(a - b);
                &&& final(self).stack@ == after_op(old(self).stack@, 2, seq![d as u64, c as u64])
                &&& final(self).range_checked(old(self), c, 0, false)
            },
            final(self).clk == old(self).clk,
    {
        let ch = self.require_u32_operands(2, 0);
        if ch.is_err() {
            return ch;
        }
        let b = self.stack[0];
        let a = self.stack[1];
        let d: u64;
        let c: u64;
        if a >= b {
            d = 0;
            c = a - b;
        } else {
            d = 1;
            assert(b - a <= 4294967295);
            c = 4294967296 - (b - a);
            assert(lo32(a - b) == c) by {
                vstd::arithmetic::div_mod::lemma_mod_add_multiples_vanish((a - b) as int, 4294967296);
                vstd::arithmetic::div_mod::lemma_small_mod(c as nat, 4294967296);
            }
        }
        self.add_range_checks(c, 0, false);
        let mut top: Vec<u64> = Vec::new();
        top.push(d);
        top.push(c);
        self.replace_top(2, top);
        assert(top@ =~= seq![d, c]);
        Ok(())
    }

    /// Pops two 32-bit values, multiplies them, and pushes the low and then the high half of the
    /// product.
    pub fn op_u32mul(&mut self) -> (r: Result<(), ExecutionError>)
        requires
            old(self).wf(),
        ensures
            final(self).wf(),
            r is Ok <==> not_u32(old(self).stack@, 2).len() == 0,
            r is Err ==> is_not_u32_error(r, not_u32(old(self).stack@, 2), 0) && same_state(
                final(self),
                old(self),
            ),
            r is Ok ==> {
                let prod = old(self).stack@[0] * old(self).stack@[1];
                &&& final(self).stack@ == after_op(old(self).stack@, 2, seq![hi32(prod) as u64, lo32(prod) as u64])
                &&& final(self).range_checked(old(self), lo32(prod), hi32(prod), true)
            },
            final(self).clk == old(self).clk,
    {
        let ch = self.require_u32_operands(2, 0);
        if ch.is_err() {
            return ch;
        }
        let b = self.stack[0];
        let a = self.stack[1];
        assert(a * b <= 4294967295 * 4294967295) by (nonlinear_arith)
            requires
                a <= 4294967295,
                b <= 4294967295,
        ;
        let result = a * b;
        let hi = result / 4294967296;
        let lo = result % 4294967296;
        self.add_range_checks(lo, hi, true);
        let mut top: Vec<u64> = Vec::new();
        top.push(hi);
        top.push(lo);
        self.replace_top(2, top);
        assert(top@ =~= seq![hi, lo]);
        assert((a as int) * (b as int) == (b as int) * (a as int)) by (nonlinear_arith);
        Ok(())
    }

    /// Pops three 32-bit values `b` (top), `a` and `c`, and pushes the low and then the high
    /// half of `a * b + c`.
    pub fn op_u32madd(&mut self) -> (r: Result<(), ExecutionError>)
        requires
            old(self).wf(),
        ensures
            final(self).wf(),
            r is Ok <==> not_u32(old(self).stack@, 3).len() == 0,
            r is Err ==> is_not_u32_error(r, not_u32(old(self).stack@, 3), 0) && same_state(
                final(self),
                old(self),
            ),
            r is Ok ==> {
                let v = old(self).stack@[1] * old(self).stack@[0] + old(self).stack@[2];
                &&& final(self).stack@ == after_op(old(self).stack@, 3, seq![hi32(v) as u64, lo32(v) as u64])
                &&& final(self).range_checked(old(self), lo32(v), hi32(v), true)
            },
            final(self).clk == old(self).clk,
    {
        let ch = self.require_u32_operands(3, 0);
        if ch.is_err() {
            return ch;
        }
        let b = self.stack[0];
        let a = self.stack[1];
        let c = self.stack[2];
        assert(a * b + c <= 4294967295 * 4294967295 + 4294967295) by (nonlinear_arith)
            requires
                a <= 4294967295,
                b <= 4294967295,
                c <= 4294967295,
        ;
        let result = a * b + c;
        let hi = result / 4294967296;
        let lo = result % 4294967296;
        self.add_range_checks(lo, hi, true);
        let mut top: Vec<u64> = Vec::new();
        top.push(hi);
        top.push(lo);
        self.replace_top(3, top);
        assert(top@ =~= seq![hi, lo]);
        Ok(())
    }

    /// Pops two 32-bit values `b` (top) and `a`, and pushes the quotient and then the remainder
    /// of `a / b`; fails when `b` is zero.
    pub fn op_u32div(&mut self) -> (r: Result<(), ExecutionError>)
        requires
            old(self).wf(),
        ensures
            final(self).wf(),
            r is Ok <==> not_u32(old(self).stack@, 2).len() == 0 && old(self).stack@[0] != 0,
            not_u32(old(self).stack@, 2).len() != 0 ==> is_not_u32_error(
                r,
                not_u32(old(self).stack@, 2),
                0,
            ) && same_state(final(self), old(self)),
            not_u32(old(self).stack@, 2).len() == 0 && old(self).stack@[0] == 0 ==> r == Err::<
                (),
                ExecutionError,
            >(ExecutionError::DivideByZero { clk: old(self).clk }) && same_state(
                final(self),
                old(self),
            ),
            r is Ok ==> {
                let b = old(self).stack@[0] as int;
                let a = old(self).stack@[1] as int;
                let q = a / b;
                let rem = a % b;
                &&& final(self).stack@ == after_op(old(self).stack@, 2, seq![rem as u64, q as u64])
                &&& final(self).range_checked(old(self), a - q, b - rem - 1, false)
            },
            final(self).clk == old(self).clk,
    {
        let ch = self.require_u32_operands(2, 0);
        if ch.is_err() {
            return ch;
        }
        let b = self.stack[0];
        let a = self.stack[1];
        if b == 0 {
            return Err(ExecutionError::DivideByZero { clk: self.clk });
        }
        let q = a / b;
        let r = a % b;
        assert(q <= a) by {
            vstd::arithmetic::div_mod::lemma_div_is_ordered_by_denominator(a as int, 1, b as int);
        }
        self.add_range_checks(a - q, b - r - 1, false);
        let mut top: Vec<u64> = Vec::new();
        top.push(r);
        top.push(q);
        self.replace_top(2, top);
        assert(top@ =~= seq![r, q]);
        Ok(())
    }

    /// Pops two 32-bit values and pushes their bitwise AND.
    pub fn op_u32and(&mut self) -> (r: Result<(), ExecutionError>)
        requires
            old(self).wf(),
        ensures
            final(self).wf(),
            r is Ok <==> not_u32(old(self).stack@, 2).len() == 0,
            r is Err ==> is_not_u32_error(r, not_u32(old(self).stack@, 2), 0) && same_state(
                final(self),
                old(self),
            ),
            r is Ok ==> final(self).stack@ == after_op(
                old(self).stack@,
                2,
                seq![old(self).stack@[1] & old(self).stack@[0]],
            ) && final(self).range_checks@ == old(self).range_checks@ && final(self).helpers
                == old(self).helpers,
            final(self).clk == old(self).clk,
    {
        let ch = self.require_u32_operands(2, 0);
        if ch.is_err() {
            return ch;
        }
        let b = self.stack[0];
        let a = self.stack[1];
        let result = a & b;
        assert(result <= a) by (bit_vector)
            requires
                result == a & b,
        ;
        let mut top: Vec<u64> = Vec::new();
        top.push(result);
        self.replace_top(2, top);
        assert(top@ =~= seq![result]);
        Ok(())
    }

    /// Pops two 32-bit values and pushes their bitwise XOR.
    pub fn op_u32xor(&mut self) -> (r: Result<(), ExecutionError>)
        requires
            old(self).wf(),
        ensures
            final(self).wf(),
            r is Ok <==> not_u32(old(self).stack@, 2).len() == 0,
            r is Err ==> is_not_u32_error(r, not_u32(old(self).stack@, 2), 0) && same_state(
                final(self),
                old(self),
            ),
            r is Ok ==> final(self).stack@ == after_op(
                old(self).stack@,
                2,
                seq![old(self).stack@[1] ^ old(self).stack@[0]],
            ) && final(self).range_checks@ == old(self).range_checks@ && final(self).helpers
                == old(self).helpers,
            final(self).clk == old(self).clk,
    {
        let ch = self.require_u32_operands(2, 0);
        if ch.is_err() {
            return ch;
        }
        let b = self.stack[0];
        let a = self.stack[1];
        let result = a ^ b;
        assert(result <= 4294967295) by (bit_vector)
            requires
                result == a ^ b,
                a <= 4294967295,
                b <= 4294967295,
        ;
        let mut top: Vec<u64> = Vec::new();
        top.push(result);
        self.replace_top(2, top);
        assert(top@ =~= seq![result]);
        Ok(())
    }
}

} // verus!
