//! Field, stack and system operations of the fast processor, on a model of its operand stack
//! and system registers.

use vstd::prelude::*;

use crate::felt::{
    P, add_spec, felt_add, felt_mul, felt_neg, felt_sub, is_felt, mul_spec, neg_spec, sub_spec,
};
use crate::felt::{felt_inv, inverse_of};
use crate::hash::{rpo_permutation_of, rpo_permute};
use crate::process::{ExecutionError, MIN_STACK_DEPTH};
use crate::memory::{Memory, Word, lemma_word_at_felts, read_word_result, words_are_felts};

verus! {

/// Lowest value of the free memory pointer.
pub const FMP_MIN: u64 = 1073741824u64;

/// Highest value of the free memory pointer.
pub const FMP_MAX: u64 = 3221225471u64;

/// `s` with zeros added at the bottom up to the minimum stack depth.
pub open spec fn pad_bottom(s: Seq<u64>) -> Seq<u64> {
    if s.len() >= MIN_STACK_DEPTH {
        s
    } else {
        Seq::new((MIN_STACK_DEPTH - s.len()) as nat, |i: int| 0u64) + s
    }
}

/// The element at position `i` from the top of a stack stored bottom first.
pub open spec fn at(s: Seq<u64>, i: int) -> u64 {
    s[s.len() - 1 - i]
}

/// The stack after its top element is dropped.
pub open spec fn dropped(s: Seq<u64>) -> Seq<u64> {
    pad_bottom(s.drop_last())
}

/// The stack with the element at position `i` from the top replaced.
pub open spec fn set_at(s: Seq<u64>, i: int, v: u64) -> Seq<u64> {
    s.update(s.len() - 1 - i, v)
}

/// The stack with the elements at positions `i` and `j` from the top swapped.
pub open spec fn swapped(s: Seq<u64>, i: int, j: int) -> Seq<u64> {
    set_at(set_at(s, i, at(s, j)), j, at(s, i))
}

/// Swapping two positions of a stack moves their elements and leaves the others.
pub proof fn lemma_at_swapped(s: Seq<u64>, i: int, j: int)
    requires
        0 <= i < s.len(),
        0 <= j < s.len(),
        i != j,
    ensures
        swapped(s, i, j).len() == s.len(),
        at(swapped(s, i, j), i) == at(s, j),
        at(swapped(s, i, j), j) == at(s, i),
        forall|x: int| 0 <= x < s.len() && x != i && x != j ==> #[trigger] at(swapped(s, i, j), x) == at(s, x),
{
}

/// The processor registers that these operations read and write.
pub struct FastProcessor {
    /// The operand stack, bottom first: its last element is the top.
    pub stack: Vec<u64>,
    /// The free memory pointer.
    pub fmp: u64,
    /// The clock cycle.
    pub clk: u32,
    /// Whether the processor executes a syscall.
    pub in_syscall: bool,
    /// The hash of the procedure that made the current call.
    pub caller_hash: [u64; 4],
}

impl FastProcessor {
    /// The stack is at least `MIN_STACK_DEPTH` deep and holds field elements.
    pub open spec fn wf(&self) -> bool {
        &&& self.stack@.len() >= MIN_STACK_DEPTH
        &&& self.stack@.len() < usize::MAX
        &&& forall|i: int| 0 <= i < self.stack@.len() ==> #[trigger] self.stack@[i] < P
        &&& self.fmp < P
        &&& forall|i: int| 0 <= i < 4 ==> #[trigger] self.caller_hash@[i] < P
    }

    /// The registers other than the stack are those of `other`.
    pub open spec fn same_registers(&self, other: &FastProcessor) -> bool {
        &&& self.fmp == other.fmp
        &&& self.clk == other.clk
        &&& self.in_syscall == other.in_syscall
        &&& self.caller_hash == other.caller_hash
    }

    /// Returns a processor whose stack holds the given values, the last one on top, over zeros,
    /// with the free memory pointer at its lowest value.
    pub fn new(stack_inputs: &Vec<u64>) -> (r: Self)
        requires
            forall|i: int| 0 <= i < stack_inputs@.len() ==> #[trigger] stack_inputs@[i] < P,
            stack_inputs@.len() < usize::MAX - MIN_STACK_DEPTH,
        ensures
            r.wf(),
            r.stack@ == pad_bottom(stack_inputs@),
            r.fmp == FMP_MIN,
            r.clk == 0,
            !r.in_syscall,
    {
        let mut stack: Vec<u64> = Vec::new();
        let n = stack_inputs.len();
        let pad: usize = if n < MIN_STACK_DEPTH { MIN_STACK_DEPTH - n } else { 0 };
        let mut i: usize = 0;
        while i < pad
            invariant
                0 <= i <= pad,
                stack@ == Seq::new(i as nat, |k: int| 0u64),
            decreases pad - i,
        {
            stack.push(0);
            assert(stack@ =~= Seq::new((i + 1) as nat, |k: int| 0u64));
            i = i + 1;
        }
        let mut j: usize = 0;
        while j < n
            invariant
                n == stack_inputs@.len(),
                0 <= j <= n,
                stack@ == Seq::new(pad as nat, |k: int| 0u64) + stack_inputs@.take(j as int),
            decreases n - j,
        {
            stack.push(stack_inputs[j]);
            assert(stack_inputs@.take(j + 1) =~= stack_inputs@.take(j as int).push(stack_inputs@[j as int]));
            j = j + 1;
        }
        proof {
            assert(stack_inputs@.take(n as int) =~= stack_inputs@);
            if n >= MIN_STACK_DEPTH {
                assert(stack@ =~= stack_inputs@);
            } else {
                assert(stack@ =~= pad_bottom(stack_inputs@));
            }
        }
        FastProcessor { stack, fmp: FMP_MIN, clk: 0, in_syscall: false, caller_hash: [0u64; 4] }
    }

    /// Returns the element at position `i` from the top of the stack.
    pub fn get(&self, i: usize) -> (r: u64)
        requires
            self.wf(),
            i < self.stack@.len(),
        ensures
            r == at(self.stack@, i as int),
    {
        self.stack[self.stack.len() - 1 - i]
    }

    /// Replaces the element at position `i` from the top of the stack.
    fn set(&mut self, i: usize, v: u64)
        requires
            old(self).wf(),
            i < old(self).stack@.len(),
            v < P,
        ensures
            final(self).wf(),
            final(self).stack@ == set_at(old(self).stack@, i as int, v),
            final(self).same_registers(old(self)),
    {
        let n = self.stack.len();
        self.stack.set(n - 1 - i, v);
    }

    /// Drops the top of the stack, pulling a zero in at the bottom at the minimum depth.
    fn decrement_size(&mut self)
        requires
            old(self).wf(),
        ensures
            final(self).wf(),
            final(self).stack@ == dropped(old(self).stack@),
            final(self).same_registers(old(self)),
    {
        self.stack.pop();
        if self.stack.len() < MIN_STACK_DEPTH {
            self.stack.insert(0, 0);
            assert(self.stack@ =~= Seq::new(1, |i: int| 0u64) + old(self).stack@.drop_last());
        }
    }

    /// Pushes a value onto the stack.
    fn push(&mut self, v: u64)
        requires
            old(self).wf(),
            old(self).stack@.len() + 1 < usize::MAX,
            v < P,
        ensures
            final(self).wf(),
            final(self).stack@ == old(self).stack@.push(v),
            final(self).same_registers(old(self)),
    {
        self.stack.push(v);
    }

    /// Swaps the elements at positions `i` and `j` from the top of the stack.
    fn swap(&mut self, i: usize, j: usize)
        requires
            old(self).wf(),
            i < old(self).stack@.len(),
            j < old(self).stack@.len(),
        ensures
            final(self).wf(),
            final(self).stack@ == swapped(old(self).stack@, i as int, j as int),
            final(self).same_registers(old(self)),
    {
        let a = self.get(i);
        let b = self.get(j);
        self.set(i, b);
        self.set(j, a);
    }

    // FIELD OPERATIONS
    // --------------------------------------------------------------------------------------------

    /// Pops two elements, adds them, and pushes the sum.
    pub fn op_add(&mut self)
        requires
            old(self).wf(),
        ensures
            final(self).wf(),
            final(self).stack@ == set_at(
                dropped(old(self).stack@),
                0,
                add_spec(at(old(self).stack@, 1) as int, at(old(self).stack@, 0) as int) as u64,
            ),
            final(self).same_registers(old(self)),
    {
        let b = self.get(0);
        let a = self.get(1);
        self.decrement_size();
        let r = felt_add(a, b);
        self.set(0, r);
    }

    /// Replaces the top element by its additive inverse.
    pub fn op_neg(&mut self)
        requires
            old(self).wf(),
        ensures
            final(self).wf(),
            final(self).stack@ == set_at(old(self).stack@, 0, neg_spec(at(old(self).stack@, 0) as int) as u64),
            final(self).same_registers(old(self)),
    {
        let a = self.get(0);
        let r = felt_neg(a);
        self.set(0, r);
    }

    /// Pops two elements, multiplies them, and pushes the product.
    pub fn op_mul(&mut self)
        requires
            old(self).wf(),
        ensures
            final(self).wf(),
            final(self).stack@ == set_at(
                dropped(old(self).stack@),
                0,
                mul_spec(at(old(self).stack@, 1) as int, at(old(self).stack@, 0) as int) as u64,
            ),
            final(self).same_registers(old(self)),
    {
        let b = self.get(0);
        let a = self.get(1);
        self.decrement_size();
        let r = felt_mul(a, b);
        self.set(0, r);
    }

    /// Replaces the top element by its multiplicative inverse; fails on zero.
    pub fn op_inv(&mut self) -> (r: Result<(), ExecutionError>)
        requires
            old(self).wf(),
        ensures
            final(self).wf(),
            final(self).same_registers(old(self)),
            at(old(self).stack@, 0) == 0 ==> r == Err::<(), ExecutionError>(
                ExecutionError::DivideByZero { clk: old(self).clk },
            ) && final(self).stack@ == old(self).stack@,
            at(old(self).stack@, 0) != 0 ==> r is Ok && final(self).stack@ == set_at(
                old(self).stack@,
                0,
                inverse_of(at(old(self).stack@, 0)),
            ),
    {
        let top = self.get(0);
        if top == 0 {
            return Err(ExecutionError::DivideByZero { clk: self.clk });
        }
        let inv = felt_inv(top);
        self.set(0, inv);
        Ok(())
    }

    /// Adds one to the top element.
    pub fn op_incr(&mut self)
        requires
            old(self).wf(),
        ensures
            final(self).wf(),
            final(self).stack@ == set_at(old(self).stack@, 0, add_spec(at(old(self).stack@, 0) as int, 1) as u64),
            final(self).same_registers(old(self)),
    {
        let a = self.get(0);
        let r = felt_add(a, 1);
        self.set(0, r);
    }

    /// Pops two binary elements and pushes their boolean AND; fails, with the stack already
    /// shrunk, when either is not binary.
    pub fn op_and(&mut self) -> (r: Result<(), ExecutionError>)
        requires
            old(self).wf(),
        ensures
            final(self).wf(),
            final(self).same_registers(old(self)),
            ({
                let b = at(old(self).stack@, 0);
                let a = at(old(self).stack@, 1);
                if b > 1 {
                    r == Err::<(), ExecutionError>(ExecutionError::NotBinaryValue { value: b })
                        && final(self).stack@ == dropped(old(self).stack@)
                } else if a > 1 {
                    r == Err::<(), ExecutionError>(ExecutionError::NotBinaryValue { value: a })
                        && final(self).stack@ == dropped(old(self).stack@)
                } else {
                    r is Ok && final(self).stack@ == set_at(
                        dropped(old(self).stack@),
                        0,
                        if a == 1 && b == 1 { 1u64 } else { 0u64 },
                    )
                }
            }),
    {
        let b = self.get(0);
        let a = self.get(1);
        self.decrement_size();
        if b > 1 {
            return Err(ExecutionError::NotBinaryValue { value: b });
        }
        if a > 1 {
            return Err(ExecutionError::NotBinaryValue { value: a });
        }
        let v: u64 = if a == 1 && b == 1 { 1 } else { 0 };
        self.set(0, v);
        Ok(())
    }

    /// Pops two binary elements and pushes their boolean OR; fails, with the stack already
    /// shrunk, when either is not binary.
    pub fn op_or(&mut self) -> (r: Result<(), ExecutionError>)
        requires
            old(self).wf(),
        ensures
            final(self).wf(),
            final(self).same_registers(old(self)),
            ({
                let b = at(old(self).stack@, 0);
                let a = at(old(self).stack@, 1);
                if b > 1 {
                    r == Err::<(), ExecutionError>(ExecutionError::NotBinaryValue { value: b })
                        && final(self).stack@ == dropped(old(self).stack@)
                } else if a > 1 {
                    r == Err::<(), ExecutionError>(ExecutionError::NotBinaryValue { value: a })
                        && final(self).stack@ == dropped(old(self).stack@)
                } else {
                    r is Ok && final(self).stack@ == set_at(
                        dropped(old(self).stack@),
                        0,
                        if a == 1 || b == 1 { 1u64 } else { 0u64 },
                    )
                }
            }),
    {
        let b = self.get(0);
        let a = self.get(1);
        self.decrement_size();
        if b > 1 {
            return Err(ExecutionError::NotBinaryValue { value: b });
        }
        if a > 1 {
            return Err(ExecutionError::NotBinaryValue { value: a });
        }
        let v: u64 = if a == 1 || b == 1 { 1 } else { 0 };
        self.set(0, v);
        Ok(())
    }

    /// Replaces a binary top element by its boolean NOT; fails otherwise.
    pub fn op_not(&mut self) -> (r: Result<(), ExecutionError>)
        requires
            old(self).wf(),
        ensures
            final(self).wf(),
            final(self).same_registers(old(self)),
            ({
                let a = at(old(self).stack@, 0);
                if a > 1 {
                    r == Err::<(), ExecutionError>(ExecutionError::NotBinaryValue { value: a })
                        && final(self).stack@ == old(self).stack@
                } else {
                    r is Ok && final(self).stack@ == set_at(old(self).stack@, 0, (1 - a) as u64)
                }
            }),
    {
        let a = self.get(0);
        if a == 0 {
            self.set(0, 1);
        } else if a == 1 {
            self.set(0, 0);
        } else {
            return Err(ExecutionError::NotBinaryValue { value: a });
        }
        Ok(())
    }

    /// Pops two elements and pushes 1 if they are equal, 0 otherwise.
    pub fn op_eq(&mut self)
        requires
            old(self).wf(),
        ensures
            final(self).wf(),
            final(self).stack@ == set_at(
                dropped(old(self).stack@),
                0,
                if at(old(self).stack@, 0) == at(old(self).stack@, 1) { 1u64 } else { 0u64 },
            ),
            final(self).same_registers(old(self)),
    {
        let b = self.get(0);
        let a = self.get(1);
        self.decrement_size();
        let v: u64 = if a == b { 1 } else { 0 };
        self.set(0, v);
    }

    /// Replaces the top element by 1 if it is zero, and by 0 otherwise.
    pub fn op_eqz(&mut self)
        requires
            old(self).wf(),
        ensures
            final(self).wf(),
            final(self).stack@ == set_at(
                old(self).stack@,
                0,
                if at(old(self).stack@, 0) == 0 { 1u64 } else { 0u64 },
            ),
            final(self).same_registers(old(self)),
    {
        let a = self.get(0);
        let v: u64 = if a == 0 { 1 } else { 0 };
        self.set(0, v);
    }

    /// One step of exponentiation by squaring on `[bit, base, acc, exp, ...]`: the stack becomes
    /// `[exp & 1, base^2, acc * (base if exp is odd, else 1), exp >> 1, ...]`.
    pub fn op_expacc(&mut self)
        requires
            old(self).wf(),
        ensures
            final(self).wf(),
            final(self).same_registers(old(self)),
            ({
                let s = old(self).stack@;
                let base = at(s, 1) as int;
                let acc = at(s, 2) as int;
                let exp = at(s, 3);
                let upd: int = if exp % 2 == 1 { base } else { 1 };
                final(self).stack@ == set_at(
                    set_at(
                        set_at(set_at(s, 0, (exp % 2) as u64), 1, mul_spec(base, base) as u64),
                        2,
                        mul_spec(acc, upd) as u64,
                    ),
                    3,
                    (exp / 2) as u64,
                )
            }),
    {
        let base = self.get(1);
        let acc = self.get(2);
        let exp = self.get(3);
        let new_exp = exp / 2;
        let exp_lsb = exp % 2;
        let upd: u64 = if exp_lsb == 1 { base } else { 1 };
        let new_acc = felt_mul(acc, upd);
        let new_base = felt_mul(base, base);
        self.set(0, exp_lsb);
        self.set(1, new_base);
        self.set(2, new_acc);
        self.set(3, new_exp);
    }

    /// Multiplies two elements of the quadratic extension field on `[b1, b0, a1, a0, ...]`:
    /// positions 2 and 3 receive `c1 = (b0 + b1)(a1 + a0) - b0 a0` and
    /// `c0 = b0 a0 - 2 b1 a1`, and the top two are left as they are.
    pub fn op_ext2mul(&mut self)
        requires
            old(self).wf(),
        ensures
            final(self).wf(),
            final(self).same_registers(old(self)),
            ({
                let s = old(self).stack@;
                let b1 = at(s, 0) as int;
                let b0 = at(s, 1) as int;
                let a1 = at(s, 2) as int;
                let a0 = at(s, 3) as int;
                let b0a0 = mul_spec(b0, a0);
                final(self).stack@ == set_at(
                    set_at(
                        s,
                        2,
                        sub_spec(mul_spec(add_spec(b0, b1), add_spec(a1, a0)), b0a0) as u64,
                    ),
                    3,
                    sub_spec(b0a0, mul_spec(mul_spec(2, b1), a1)) as u64,
                )
            }),
    {
        let b1 = self.get(0);
        let b0 = self.get(1);
        let a1 = self.get(2);
        let a0 = self.get(3);
        let b0_times_a0 = felt_mul(b0, a0);
        let c1 = felt_sub(felt_mul(felt_add(b0, b1), felt_add(a1, a0)), b0_times_a0);
        let c0 = felt_sub(b0_times_a0, felt_mul(felt_mul(2, b1), a1));
        self.set(2, c1);
        self.set(3, c0);
    }

    // STACK OPERATIONS
    // --------------------------------------------------------------------------------------------

    /// Pushes an element onto the stack.
    pub fn op_push(&mut self, element: u64)
        requires
            old(self).wf(),
            old(self).stack@.len() + 1 < usize::MAX,
            element < P,
        ensures
            final(self).wf(),
            final(self).stack@ == old(self).stack@.push(element),
            final(self).same_registers(old(self)),
    {
        self.push(element);
    }

    /// Pushes a zero onto the stack.
    pub fn op_pad(&mut self)
        requires
            old(self).wf(),
            old(self).stack@.len() + 1 < usize::MAX,
        ensures
            final(self).wf(),
            final(self).stack@ == old(self).stack@.push(0),
            final(self).same_registers(old(self)),
    {
        self.push(0);
    }

    /// Swaps the top two elements.
    pub fn op_swap(&mut self)
        requires
            old(self).wf(),
        ensures
            final(self).wf(),
            final(self).stack@ == swapped(old(self).stack@, 0, 1),
            final(self).same_registers(old(self)),
    {
        self.swap(0, 1);
    }

    /// Swaps the top two double words: positions 0 to 7 with positions 8 to 15.
    pub fn op_swap_double_word(&mut self)
        requires
            old(self).wf(),
        ensures
            final(self).wf(),
            final(self).same_registers(old(self)),
            final(self).stack@.len() == old(self).stack@.len(),
            forall|i: int| 0 <= i < 8 ==> #[trigger] at(final(self).stack@, i) == at(old(self).stack@, i + 8),
            forall|i: int| 8 <= i < 16 ==> #[trigger] at(final(self).stack@, i) == at(old(self).stack@, i - 8),
            forall|i: int| 16 <= i < old(self).stack@.len() ==> #[trigger] at(final(self).stack@, i) == at(old(self).stack@, i),
    {
        let mut k: usize = 0;
        while k < 8
            invariant
                self.wf(),
                self.same_registers(old(self)),
                0 <= k <= 8,
                self.stack@.len() == old(self).stack@.len(),
                forall|i: int| 0 <= i < k ==> #[trigger] at(self.stack@, i) == at(old(self).stack@, i + 8),
                forall|i: int| 8 <= i < 8 + k ==> #[trigger] at(self.stack@, i) == at(old(self).stack@, i - 8),
                forall|i: int| k <= i < 8 ==> #[trigger] at(self.stack@, i) == at(old(self).stack@, i),
                forall|i: int| 8 + k <= i < old(self).stack@.len() ==> #[trigger] at(self.stack@, i) == at(old(self).stack@, i),
            decreases 8 - k,
        {
            let ghost before = self.stack@;
            self.swap(k, k + 8);
            proof {
                lemma_at_swapped(before, k as int, k + 8);
            }
            k = k + 1;
        }
    }

    /// Pushes a copy of the element at position `n` from the top.
    pub fn dup_nth(&mut self, n: usize)
        requires
            old(self).wf(),
            n < old(self).stack@.len(),
            old(self).stack@.len() + 1 < usize::MAX,
        ensures
            final(self).wf(),
            final(self).stack@ == old(self).stack@.push(at(old(self).stack@, n as int)),
            final(self).same_registers(old(self)),
    {
        let v = self.get(n);
        self.push(v);
    }

    /// Pops a binary condition; when it is 1 the next two elements are swapped. Fails, with the
    /// condition already popped, when it is not binary.
    pub fn op_cswap(&mut self) -> (r: Result<(), ExecutionError>)
        requires
            old(self).wf(),
        ensures
            final(self).wf(),
            final(self).same_registers(old(self)),
            ({
                let c = at(old(self).stack@, 0);
                let d = dropped(old(self).stack@);
                if c == 0 {
                    r is Ok && final(self).stack@ == d
                } else if c == 1 {
                    r is Ok && final(self).stack@ == swapped(d, 0, 1)
                } else {
                    r == Err::<(), ExecutionError>(ExecutionError::NotBinaryValue { value: c })
                        && final(self).stack@ == d
                }
            }),
    {
        let c = self.get(0);
        self.decrement_size();
        if c == 0 {
        } else if c == 1 {
            self.swap(0, 1);
        } else {
            return Err(ExecutionError::NotBinaryValue { value: c });
        }
        Ok(())
    }

    /// Pops a binary condition; when it is 1 the next two words are swapped. Fails, with the
    /// condition already popped, when it is not binary.
    pub fn op_cswapw(&mut self) -> (r: Result<(), ExecutionError>)
        requires
            old(self).wf(),
        ensures
            final(self).wf(),
            final(self).same_registers(old(self)),
            ({
                let c = at(old(self).stack@, 0);
                let d = dropped(old(self).stack@);
                if c == 0 {
                    r is Ok && final(self).stack@ == d
                } else if c == 1 {
                    r is Ok && final(self).stack@ == swapped(swapped(swapped(swapped(d, 0, 4), 1, 5), 2, 6), 3, 7)
                } else {
                    r == Err::<(), ExecutionError>(ExecutionError::NotBinaryValue { value: c })
                        && final(self).stack@ == d
                }
            }),
    {
        let c = self.get(0);
        self.decrement_size();
        if c == 0 {
        } else if c == 1 {
            self.swap(0, 4);
            self.swap(1, 5);
            self.swap(2, 6);
            self.swap(3, 7);
        } else {
            return Err(ExecutionError::NotBinaryValue { value: c });
        }
        Ok(())
    }

    // SYSTEM OPERATIONS
    // --------------------------------------------------------------------------------------------

    /// Pops the top element, which must be one; fails with the error code otherwise, leaving
    /// the stack as it is.
    pub fn op_assert(&mut self, err_code: u64) -> (r: Result<(), ExecutionError>)
        requires
            old(self).wf(),
        ensures
            final(self).wf(),
            final(self).same_registers(old(self)),
            at(old(self).stack@, 0) == 1 ==> r is Ok && final(self).stack@ == dropped(old(self).stack@),
            at(old(self).stack@, 0) != 1 ==> r == Err::<(), ExecutionError>(
                ExecutionError::FailedAssertion { clk: old(self).clk, err_code },
            ) && final(self).stack@ == old(self).stack@,
    {
        if self.get(0) != 1 {
            return Err(ExecutionError::FailedAssertion { clk: self.clk, err_code });
        }
        self.decrement_size();
        Ok(())
    }

    /// Adds the free memory pointer to the top element.
    pub fn op_fmpadd(&mut self)
        requires
            old(self).wf(),
        ensures
            final(self).wf(),
            final(self).stack@ == set_at(old(self).stack@, 0, add_spec(at(old(self).stack@, 0) as int, old(self).fmp as int) as u64),
            final(self).same_registers(old(self)),
    {
        let top = self.get(0);
        let r = felt_add(top, self.fmp);
        self.set(0, r);
    }

    /// Pops the top element and adds it to the free memory pointer; fails, leaving the state as
    /// it is, when the result is outside `[FMP_MIN, FMP_MAX]`.
    pub fn op_fmpupdate(&mut self) -> (r: Result<(), ExecutionError>)
        requires
            old(self).wf(),
        ensures
            final(self).wf(),
            final(self).clk == old(self).clk,
            final(self).in_syscall == old(self).in_syscall,
            final(self).caller_hash == old(self).caller_hash,
            ({
                let new_fmp = add_spec(old(self).fmp as int, at(old(self).stack@, 0) as int);
                if FMP_MIN <= new_fmp <= FMP_MAX {
                    r is Ok && final(self).fmp == new_fmp && final(self).stack@ == dropped(old(self).stack@)
                } else {
                    r == Err::<(), ExecutionError>(ExecutionError::InvalidFmpValue(old(self).fmp, new_fmp as u64))
                        && final(self).fmp == old(self).fmp && final(self).stack@ == old(self).stack@
                }
            }),
    {
        let top = self.get(0);
        let new_fmp = felt_add(self.fmp, top);
        if new_fmp < FMP_MIN || new_fmp > FMP_MAX {
            return Err(ExecutionError::InvalidFmpValue(self.fmp, new_fmp));
        }
        self.fmp = new_fmp;
        self.decrement_size();
        Ok(())
    }

    /// Pushes the depth of the stack.
    pub fn op_sdepth(&mut self)
        requires
            old(self).wf(),
            old(self).stack@.len() + 1 < usize::MAX,
            old(self).stack@.len() < P,
        ensures
            final(self).wf(),
            final(self).stack@ == old(self).stack@.push(old(self).stack@.len() as u64),
            final(self).same_registers(old(self)),
    {
        let depth = self.stack.len() as u64;
        self.push(depth);
    }

    /// Writes the caller hash over the top word; fails outside a syscall.
    pub fn op_caller(&mut self) -> (r: Result<(), ExecutionError>)
        requires
            old(self).wf(),
        ensures
            final(self).wf(),
            final(self).same_registers(old(self)),
            !old(self).in_syscall ==> r == Err::<(), ExecutionError>(ExecutionError::CallerNotInSyscall)
                && final(self).stack@ == old(self).stack@,
            old(self).in_syscall ==> r is Ok && final(self).stack@ == set_at(
                set_at(
                    set_at(set_at(old(self).stack@, 0, old(self).caller_hash[3]), 1, old(self).caller_hash[2]),
                    2,
                    old(self).caller_hash[1],
                ),
                3,
                old(self).caller_hash[0],
            ),
    {
        if !self.in_syscall {
            return Err(ExecutionError::CallerNotInSyscall);
        }
        let h = self.caller_hash;
        self.set(0, h[3]);
        self.set(1, h[2]);
        self.set(2, h[1]);
        self.set(3, h[0]);
        Ok(())
    }

    /// Pushes the clock cycle.
    pub fn op_clk(&mut self)
        requires
            old(self).wf(),
            old(self).stack@.len() + 1 < usize::MAX,
        ensures
            final(self).wf(),
            final(self).stack@ == old(self).stack@.push(old(self).clk as u64),
            final(self).same_registers(old(self)),
    {
        let c = self.clk as u64;
        self.push(c);
    }

    /// Returns the top `n` elements of the stack, top first.
    pub fn stack_top(&self, n: usize) -> (r: Vec<u64>)
        requires
            self.wf(),
            n <= self.stack@.len(),
        ensures
            r@.len() == n,
            forall|i: int| 0 <= i < n ==> #[trigger] r@[i] == at(self.stack@, i),
    {
        let mut r: Vec<u64> = Vec::new();
        let mut i: usize = 0;
        while i < n
            invariant
                self.wf(),
                n <= self.stack@.len(),
                0 <= i <= n,
                r@.len() == i,
                forall|k: int| 0 <= k < i ==> #[trigger] r@[k] == at(self.stack@, k),
            decreases n - i,
        {
            r.push(self.get(i));
            i = i + 1;
        }
        r
    }
}

// ------------------------------------------------------------------------------------------
// Cryptographic operations
// ------------------------------------------------------------------------------------------

/// An element of the quadratic extension field, `c0 + c1 * x` with `x^2 = x - 2`.
pub type QuadElement = (u64, u64);

/// The sum of two elements of the extension field.
pub open spec fn quad_add(a: QuadElement, b: QuadElement) -> QuadElement {
    (add_spec(a.0 as int, b.0 as int) as u64, add_spec(a.1 as int, b.1 as int) as u64)
}

/// The product of two elements of the extension field, as `op_ext2mul` computes it.
pub open spec fn quad_mul(a: QuadElement, b: QuadElement) -> QuadElement {
    let a0 = a.0 as int;
    let a1 = a.1 as int;
    let b0 = b.0 as int;
    let b1 = b.1 as int;
    let b0a0 = mul_spec(b0, a0);
    (
        sub_spec(b0a0, mul_spec(mul_spec(2, b1), a1)) as u64,
        sub_spec(mul_spec(add_spec(b0, b1), add_spec(a1, a0)), b0a0) as u64,
    )
}

/// Horner's rule over the coefficients `cs`, highest first: each step multiplies the
/// accumulator by `alpha` and adds the next coefficient.
pub open spec fn horner(acc: QuadElement, cs: Seq<QuadElement>, alpha: QuadElement) -> QuadElement
    decreases cs.len(),
{
    if cs.len() == 0 {
        acc
    } else {
        horner(quad_add(cs[0], quad_mul(alpha, acc)), cs.skip(1), alpha)
    }
}

/// The stack after evaluating its eight top elements, as base-field coefficients with the top
/// one last, at the point given by the first two elements of `alpha_word`, into the
/// accumulator at positions 15 (low half) and 14 (high half).
pub open spec fn horner_base_stack(s: Seq<u64>, alpha_word: Word) -> Seq<u64> {
    let alpha = (alpha_word[0], alpha_word[1]);
    let acc_old = (at(s, 15), at(s, 14));
    let cs = Seq::new(8, |k: int| (at(s, 7 - k), 0u64));
    let acc_new = horner(acc_old, cs, alpha);
    set_at(set_at(s, 14, acc_new.1), 15, acc_new.0)
}

/// The stack after evaluating its eight top elements, as four extension-field coefficients
/// (high half on top) with the top pair last, at the point given by the first two elements of
/// `alpha_word`, into the accumulator at positions 15 (low half) and 14 (high half).
pub open spec fn horner_ext_stack(s: Seq<u64>, alpha_word: Word) -> Seq<u64> {
    let alpha = (alpha_word[0], alpha_word[1]);
    let acc_old = (at(s, 15), at(s, 14));
    let cs = Seq::new(4, |k: int| (at(s, 7 - 2 * k), at(s, 6 - 2 * k)));
    let acc_new = horner(acc_old, cs, alpha);
    set_at(set_at(s, 14, acc_new.1), 15, acc_new.0)
}

/// Both halves of an element of the extension field are field elements.
pub open spec fn is_quad(a: QuadElement) -> bool {
    a.0 < P && a.1 < P
}

/// Adds two elements of the extension field.
fn quad_add_exec(a: QuadElement, b: QuadElement) -> (r: QuadElement)
    requires
        is_quad(a),
        is_quad(b),
    ensures
        r == quad_add(a, b),
        is_quad(r),
{
    (felt_add(a.0, b.0), felt_add(a.1, b.1))
}

/// Multiplies two elements of the extension field.
fn quad_mul_exec(a: QuadElement, b: QuadElement) -> (r: QuadElement)
    requires
        is_quad(a),
        is_quad(b),
    ensures
        r == quad_mul(a, b),
        is_quad(r),
{
    let b0_times_a0 = felt_mul(b.0, a.0);
    let c0 = felt_sub(b0_times_a0, felt_mul(felt_mul(2, b.1), a.1));
    let c1 = felt_sub(felt_mul(felt_add(b.0, b.1), felt_add(a.1, a.0)), b0_times_a0);
    (c0, c1)
}

/// One step of Horner's rule: `c + alpha * acc`.
fn horner_step(acc: QuadElement, c: QuadElement, alpha: QuadElement) -> (r: QuadElement)
    requires
        is_quad(acc),
        is_quad(c),
        is_quad(alpha),
    ensures
        r == quad_add(c, quad_mul(alpha, acc)),
        is_quad(r),
{
    quad_add_exec(c, quad_mul_exec(alpha, acc))
}

/// The top twelve elements of a stack stored bottom first, deepest first.
pub open spec fn hasher_state(s: Seq<u64>) -> Seq<u64> {
    s.subrange(s.len() - 12, s.len() as int)
}

impl FastProcessor {
    /// Applies the RPO256 permutation to the top twelve elements of the stack, the deepest of
    /// them first in the state.
    pub fn op_hperm(&mut self)
        requires
            old(self).wf(),
        ensures
            final(self).wf(),
            final(self).same_registers(old(self)),
            final(self).stack@ == old(self).stack@.subrange(0, old(self).stack@.len() - 12)
                + rpo_permutation_of(hasher_state(old(self).stack@)),
    {
        let n = self.stack.len();
        let mut state = [0u64; 12];
        let mut k: usize = 0;
        while k < 12
            invariant
                *self == *old(self),
                old(self).wf(),
                n == self.stack@.len(),
                n >= 16,
                0 <= k <= 12,
                forall|j: int| 0 <= j < k ==> #[trigger] state@[j] == self.stack@[n - 12 + j],
            decreases 12 - k,
        {
            state.set(k, self.stack[n - 12 + k]);
            k = k + 1;
        }
        assert(state@ =~= hasher_state(self.stack@));
        let permuted = rpo_permute(state);
        let ghost before = self.stack@;
        let mut k: usize = 0;
        while k < 12
            invariant
                self.same_registers(old(self)),
                old(self).wf(),
                n == self.stack@.len(),
                n >= 16,
                0 <= k <= 12,
                before.len() == n,
                forall|j: int| 0 <= j < n - 12 ==> #[trigger] self.stack@[j] == before[j],
                forall|j: int| n - 12 <= j < n - 12 + k ==> #[trigger] self.stack@[j] == permuted@[j - (n - 12)],
                forall|j: int| n - 12 + k <= j < n ==> #[trigger] self.stack@[j] == before[j],
                forall|j: int| 0 <= j < 12 ==> #[trigger] permuted@[j] < P,
                forall|i: int| 0 <= i < before.len() ==> #[trigger] before[i] < P,
            decreases 12 - k,
        {
            self.stack.set(n - 12 + k, permuted[k]);
            k = k + 1;
        }
        assert(self.stack@ =~= before.subrange(0, n - 12) + permuted@);
    }

    /// Evaluates eight base-field coefficients, the top of the stack last, with Horner's rule
    /// at the point `alpha` of the extension field, into the accumulator held at positions 15
    /// (low half) and 14 (high half). `alpha` is the first two elements of the word that
    /// `memory` holds, in context `ctx`, at the address at position 13; a failing read is a
    /// memory error and leaves the stack as it is.
    pub fn op_horner_eval_base(&mut self, memory: &Memory, ctx: u32) -> (r: Result<(), ExecutionError>)
        requires
            old(self).wf(),
            words_are_felts(memory.writes@),
        ensures
            final(self).wf(),
            final(self).same_registers(old(self)),
            match read_word_result(memory.writes@, at(old(self).stack@, 13), ctx, old(self).clk) {
                Err(e) => r == Err::<(), ExecutionError>(ExecutionError::MemoryError(e))
                    && final(self).stack@ == old(self).stack@,
                Ok(w) => r is Ok && final(self).stack@ == horner_base_stack(old(self).stack@, w),
            },
    {
        let addr = self.get(13);
        let word = match memory.read_word(addr, ctx, self.clk) {
            Ok(w) => w,
            Err(e) => return Err(ExecutionError::MemoryError(e)),
        };
        proof {
            lemma_word_at_felts(memory.writes@, addr as u32);
        }
        self.horner_base_with(word);
        Ok(())
    }

    /// Evaluates eight base-field coefficients at `alpha`, the first two elements of
    /// `alpha_word`.
    fn horner_base_with(&mut self, alpha_word: [u64; 4])
        requires
            old(self).wf(),
            alpha_word[0] < P,
            alpha_word[1] < P,
        ensures
            final(self).wf(),
            final(self).same_registers(old(self)),
            final(self).stack@ == horner_base_stack(old(self).stack@, alpha_word),
    {
        let ghost s = self.stack@;
        let alpha = (alpha_word[0], alpha_word[1]);
        let ghost cs = Seq::new(8, |k: int| (at(s, 7 - k), 0u64));
        let mut acc = (self.get(15), self.get(14));
        let ghost acc_old = acc;
        let mut k: usize = 0;
        assert(cs.skip(0) =~= cs);
        while k < 8
            invariant
                self.wf(),
                self.stack@ == s,
                0 <= k <= 8,
                is_quad(alpha),
                is_quad(acc),
                cs == Seq::new(8, |k: int| (at(s, 7 - k), 0u64)),
                horner(acc_old, cs, alpha) == horner(acc, cs.skip(k as int), alpha),
            decreases 8 - k,
        {
            let c = (self.get(7 - k), 0u64);
            assert(cs.skip(k as int)[0] == c);
            assert(cs.skip(k as int).skip(1) =~= cs.skip(k + 1));
            acc = horner_step(acc, c, alpha);
            k = k + 1;
        }
        assert(cs.skip(8) =~= Seq::<QuadElement>::empty());
        self.set(14, acc.1);
        self.set(15, acc.0);
    }

    /// Evaluates four extension-field coefficients, each two elements of the stack (high half
    /// on top), the top pair last, with Horner's rule at the point `alpha`, into the
    /// accumulator held at positions 15 (low half) and 14 (high half). `alpha` is the first two
    /// elements of the word that `memory` holds, in context `ctx`, at the address at position
    /// 13; a failing read is a memory error and leaves the stack as it is.
    pub fn op_horner_eval_ext(&mut self, memory: &Memory, ctx: u32) -> (r: Result<(), ExecutionError>)
        requires
            old(self).wf(),
            words_are_felts(memory.writes@),
        ensures
            final(self).wf(),
            final(self).same_registers(old(self)),
            match read_word_result(memory.writes@, at(old(self).stack@, 13), ctx, old(self).clk) {
                Err(e) => r == Err::<(), ExecutionError>(ExecutionError::MemoryError(e))
                    && final(self).stack@ == old(self).stack@,
                Ok(w) => r is Ok && final(self).stack@ == horner_ext_stack(old(self).stack@, w),
            },
    {
        let addr = self.get(13);
        let word = match memory.read_word(addr, ctx, self.clk) {
            Ok(w) => w,
            Err(e) => return Err(ExecutionError::MemoryError(e)),
        };
        proof {
            lemma_word_at_felts(memory.writes@, addr as u32);
        }
        self.horner_ext_with(word);
        Ok(())
    }

    /// Evaluates four extension-field coefficients at `alpha`, the first two elements of
    /// `alpha_word`.
    fn horner_ext_with(&mut self, alpha_word: [u64; 4])
        requires
            old(self).wf(),
            alpha_word[0] < P,
            alpha_word[1] < P,
        ensures
            final(self).wf(),
            final(self).same_registers(old(self)),
            final(self).stack@ == horner_ext_stack(old(self).stack@, alpha_word),
    {
        let ghost s = self.stack@;
        let alpha = (alpha_word[0], alpha_word[1]);
        let ghost cs = Seq::new(4, |k: int| (at(s, 7 - 2 * k), at(s, 6 - 2 * k)));
        let mut acc = (self.get(15), self.get(14));
        let ghost acc_old = acc;
        let mut k: usize = 0;
        assert(cs.skip(0) =~= cs);
        while k < 4
            invariant
                self.wf(),
                self.stack@ == s,
                0 <= k <= 4,
                is_quad(alpha),
                is_quad(acc),
                cs == Seq::new(4, |k: int| (at(s, 7 - 2 * k), at(s, 6 - 2 * k))),
                horner(acc_old, cs, alpha) == horner(acc, cs.skip(k as int), alpha),
            decreases 4 - k,
        {
            let c = (self.get(7 - 2 * k), self.get(6 - 2 * k));
            assert(cs.skip(k as int)[0] == c);
            assert(cs.skip(k as int).skip(1) =~= cs.skip(k + 1));
            acc = horner_step(acc, c, alpha);
            k = k + 1;
        }
        assert(cs.skip(4) =~= Seq::<QuadElement>::empty());
        self.set(14, acc.1);
        self.set(15, acc.0);
    }
}

// ------------------------------------------------------------------------------------------
// Control flow
// ------------------------------------------------------------------------------------------

/// The identifier of a node of a MAST forest.
pub type MastNodeId = u32;

/// What is left to do, innermost last.
#[derive(Clone, Copy, Debug, PartialEq, Eq, Structural)]
pub enum Continuation {
    /// Start executing a node.
    StartNode(MastNodeId),
    /// Finish a join node after both of its children ran.
    FinishJoin(MastNodeId),
    /// Finish a split node after the chosen branch ran.
    FinishSplit(MastNodeId),
}

/// The stack of what is left to do; its last element is done next.
pub struct ContinuationStack {
    pub stack: Vec<Continuation>,
}

/// A join node: two children run one after the other.
#[derive(Clone, Copy, Debug, PartialEq, Eq)]
pub struct JoinNode {
    pub first: MastNodeId,
    pub second: MastNodeId,
}

/// A split node: one of two children runs, chosen by the top of the stack.
#[derive(Clone, Copy, Debug, PartialEq, Eq)]
pub struct SplitNode {
    pub on_true: MastNodeId,
    pub on_false: MastNodeId,
}

impl FastProcessor {
    /// Starts a join node whose `before_enter` decorators have run: schedules its first child,
    /// then its second, then its end, and spends the cycle of the `JOIN` row.
    pub fn start_join_node(&mut self, join_node: &JoinNode, node_id: MastNodeId, continuation_stack: &mut ContinuationStack)
        requires
            old(self).clk < u32::MAX,
        ensures
            final(continuation_stack).stack@ == old(continuation_stack).stack@.push(
                Continuation::FinishJoin(node_id),
            ).push(Continuation::StartNode(join_node.second)).push(
                Continuation::StartNode(join_node.first),
            ),
            final(self).clk == old(self).clk + 1,
            final(self).stack == old(self).stack,
            final(self).fmp == old(self).fmp,
            final(self).in_syscall == old(self).in_syscall,
            final(self).caller_hash == old(self).caller_hash,
    {
        continuation_stack.stack.push(Continuation::FinishJoin(node_id));
        continuation_stack.stack.push(Continuation::StartNode(join_node.second));
        continuation_stack.stack.push(Continuation::StartNode(join_node.first));
        self.clk = self.clk + 1;
    }

    /// Finishes a join node: spends the cycle of its `END` row; its `after_exit` decorators
    /// run next.
    pub fn finish_join_node(&mut self)
        requires
            old(self).clk < u32::MAX,
        ensures
            final(self).clk == old(self).clk + 1,
            final(self).stack == old(self).stack,
            final(self).fmp == old(self).fmp,
            final(self).in_syscall == old(self).in_syscall,
            final(self).caller_hash == old(self).caller_hash,
    {
        self.clk = self.clk + 1;
    }

    /// Starts a split node whose `before_enter` decorators have run: pops the condition and
    /// schedules the branch it chooses, then the end of the node, and spends the cycle of the
    /// `SPLIT` row. Fails if the condition is neither 0 nor 1.
    pub fn start_split_node(
        &mut self,
        split_node: &SplitNode,
        node_id: MastNodeId,
        continuation_stack: &mut ContinuationStack,
    ) -> (r: Result<(), ExecutionError>)
        requires
            old(self).wf(),
            old(self).clk < u32::MAX,
        ensures
            final(self).wf(),
            final(self).stack@ == dropped(old(self).stack@),
            final(self).fmp == old(self).fmp,
            final(self).in_syscall == old(self).in_syscall,
            final(self).caller_hash == old(self).caller_hash,
            ({
                let c = at(old(self).stack@, 0);
                if c == 1 {
                    &&& r is Ok
                    &&& final(continuation_stack).stack@ == old(continuation_stack).stack@.push(
                        Continuation::FinishSplit(node_id),
                    ).push(Continuation::StartNode(split_node.on_true))
                    &&& final(self).clk == old(self).clk + 1
                } else if c == 0 {
                    &&& r is Ok
                    &&& final(continuation_stack).stack@ == old(continuation_stack).stack@.push(
                        Continuation::FinishSplit(node_id),
                    ).push(Continuation::StartNode(split_node.on_false))
                    &&& final(self).clk == old(self).clk + 1
                } else {
                    &&& r == Err::<(), ExecutionError>(ExecutionError::NotBinaryValueIf { value: c })
                    &&& final(continuation_stack).stack@ == old(continuation_stack).stack@.push(
                        Continuation::FinishSplit(node_id),
                    )
                    &&& final(self).clk == old(self).clk
                }
            }),
    {
        let condition = self.get(0);
        self.decrement_size();
        continuation_stack.stack.push(Continuation::FinishSplit(node_id));
        if condition == 1 {
            continuation_stack.stack.push(Continuation::StartNode(split_node.on_true));
        } else if condition == 0 {
            continuation_stack.stack.push(Continuation::StartNode(split_node.on_false));
        } else {
            return Err(ExecutionError::NotBinaryValueIf { value: condition });
        }
        self.clk = self.clk + 1;
        Ok(())
    }

    /// Finishes a split node: spends the cycle of its `END` row; its `after_exit` decorators
    /// run next.
    pub fn finish_split_node(&mut self)
        requires
            old(self).clk < u32::MAX,
        ensures
            final(self).clk == old(self).clk + 1,
            final(self).stack == old(self).stack,
            final(self).fmp == old(self).fmp,
            final(self).in_syscall == old(self).in_syscall,
            final(self).caller_hash == old(self).caller_hash,
    {
        self.clk = self.clk + 1;
    }
}

} // verus!
