//! Standard-library event handlers: they read the state of a process and return the changes
//! to make to its advice provider.

use vstd::prelude::*;

use crate::memory::{MemoryError, ProcessState, Word, empty_word, word_at};

verus! {

/// A change to the advice provider.
#[derive(Clone, Debug, PartialEq, Eq)]
pub enum AdviceMutation {
    /// Pushes the values onto the advice stack one after the other, so that the last one ends
    /// on top.
    ExtendStack { values: Vec<u64> },
    /// Inserts the entries into the advice map.
    ExtendMap { entries: Vec<(Word, Vec<u64>)> },
}

/// Errors of the `u64_div` event.
#[derive(Clone, Copy, Debug, PartialEq, Eq)]
pub enum U64DivError {
    /// Division by zero.
    DivideByZero,
    /// A limb is not a 32-bit value.
    NotU32Value { value: u64, position: &'static str },
}

/// Errors of the `falcon_div` event.
#[derive(Clone, Copy, Debug, PartialEq, Eq)]
pub enum FalconDivError {
    /// A limb of the dividend is not a 32-bit value.
    InputNotU32 { value: u64, position: &'static str },
}

/// Errors of the `lowerbound` events.
#[derive(Clone, Copy, Debug, PartialEq, Eq)]
pub enum SortedArrayError {
    /// The element at `index` is smaller than the one before it.
    NotAscendingOrder { index: u32, value: Word, predecessor: Word },
    /// The array does not end on a word boundary.
    InvalidArrayRange { size: u32 },
    /// The key-value array does not end on a key-value pair boundary.
    InvalidKeyValueRange { size: u32 },
}

/// Errors raised by event handlers.
#[derive(Clone, Debug, PartialEq, Eq)]
pub enum EventError {
    U64Div(U64DivError),
    FalconDiv(FalconDivError),
    SortedArray(SortedArrayError),
    Memory(MemoryError),
}

/// The advice-stack extension made of the given values.
pub open spec fn extends_stack(r: Result<Vec<AdviceMutation>, EventError>, values: Seq<u64>) -> bool {
    match r {
        Ok(m) => m@.len() == 1 && match m@[0] {
            AdviceMutation::ExtendStack { values: v } => v@ == values,
            _ => false,
        },
        Err(_) => false,
    }
}

// U64 DIVISION
// ================================================================================================

/// Qualified name of the `u64_div` event.
pub const U64_DIV_EVENT_NAME: &'static str = "stdlib::math::u64::u64_div";

/// Identifier of the `u64_div` event, derived from its name.
pub const U64_DIV_EVENT_ID: u64 = 16308489928383702680u64;

/// Pushes the quotient and the remainder of the division of two u64 values, given by their
/// 32-bit limbs, onto the advice stack.
///
/// Inputs: operand stack `[event_id, b1, b0, a1, a0, ...]`, where `b` is the divisor and `a` the
/// dividend, high limbs first. Outputs: advice stack `[q0, q1, r0, r1, ...]`.
pub fn handle_u64_div(process: &ProcessState) -> (r: Result<Vec<AdviceMutation>, EventError>)
    requires
        process.stack@.len() >= 5,
    ensures
        ({
            let s = process.stack@;
            let divisor = s[1] * 4294967296 + s[2];
            let dividend = s[3] * 4294967296 + s[4];
            if s[1] > u32::MAX {
                r == Err::<Vec<AdviceMutation>, EventError>(EventError::U64Div(
                    U64DivError::NotU32Value { value: s[1], position: "divisor_hi" },
                ))
            } else if s[2] > u32::MAX {
                r == Err::<Vec<AdviceMutation>, EventError>(EventError::U64Div(
                    U64DivError::NotU32Value { value: s[2], position: "divisor_lo" },
                ))
            } else if divisor == 0 {
                r == Err::<Vec<AdviceMutation>, EventError>(EventError::U64Div(U64DivError::DivideByZero))
            } else if s[3] > u32::MAX {
                r == Err::<Vec<AdviceMutation>, EventError>(EventError::U64Div(
                    U64DivError::NotU32Value { value: s[3], position: "dividend_hi" },
                ))
            } else if s[4] > u32::MAX {
                r == Err::<Vec<AdviceMutation>, EventError>(EventError::U64Div(
                    U64DivError::NotU32Value { value: s[4], position: "dividend_lo" },
                ))
            } else {
                let q = dividend / divisor;
                let rem = dividend % divisor;
                extends_stack(
                    r,
                    seq![
                        (rem / 4294967296) as u64,
                        (rem % 4294967296) as u64,
                        (q / 4294967296) as u64,
                        (q % 4294967296) as u64,
                    ],
                )
            }
        }),
{
    let divisor_hi = process.get_stack_item(1);
    let divisor_lo = process.get_stack_item(2);
    if divisor_hi > 4294967295 {
        return Err(EventError::U64Div(U64DivError::NotU32Value { value: divisor_hi, position: "divisor_hi" }));
    }
    if divisor_lo > 4294967295 {
        return Err(EventError::U64Div(U64DivError::NotU32Value { value: divisor_lo, position: "divisor_lo" }));
    }
    let divisor = divisor_hi * 4294967296 + divisor_lo;
    if divisor == 0 {
        return Err(EventError::U64Div(U64DivError::DivideByZero));
    }
    let dividend_hi = process.get_stack_item(3);
    let dividend_lo = process.get_stack_item(4);
    if dividend_hi > 4294967295 {
        return Err(EventError::U64Div(U64DivError::NotU32Value { value: dividend_hi, position: "dividend_hi" }));
    }
    if dividend_lo > 4294967295 {
        return Err(EventError::U64Div(U64DivError::NotU32Value { value: dividend_lo, position: "dividend_lo" }));
    }
    let dividend = dividend_hi * 4294967296 + dividend_lo;
    let quotient = dividend / divisor;
    let remainder = dividend % divisor;
    let values: Vec<u64> = vec![
        remainder / 4294967296,
        remainder % 4294967296,
        quotient / 4294967296,
        quotient % 4294967296,
    ];
    let r = vec![AdviceMutation::ExtendStack { values }];
    assert(values@ =~= seq![
        remainder / 4294967296,
        remainder % 4294967296,
        quotient / 4294967296,
        quotient % 4294967296,
    ]);
    Ok(r)
}

// FALCON DIVISION
// ================================================================================================

/// The Falcon signature prime.
pub const FALCON_M: u64 = 12289u64;

/// Qualified name of the `falcon_div` event.
pub const FALCON_DIV_EVENT_NAME: &'static str = "stdlib::crypto::dsa::rpo_falcon512::falcon_div";

/// Identifier of the `falcon_div` event, derived from its name.
pub const FALCON_DIV_EVENT_ID: u64 = 9834516640389212175u64;

/// Pushes the quotient and the remainder of the division of a u64 value, given by its 32-bit
/// limbs, by the Falcon prime 12289 onto the advice stack.
///
/// Inputs: operand stack `[event_id, a1, a0, ...]`, high limb first. Outputs: advice stack
/// `[q1, q0, r, ...]`.
pub fn handle_falcon_div(process: &ProcessState) -> (r: Result<Vec<AdviceMutation>, EventError>)
    requires
        process.stack@.len() >= 3,
    ensures
        ({
            let s = process.stack@;
            let dividend = s[1] * 4294967296 + s[2];
            if s[2] > u32::MAX {
                r == Err::<Vec<AdviceMutation>, EventError>(EventError::FalconDiv(
                    FalconDivError::InputNotU32 { value: s[2], position: "dividend_lo" },
                ))
            } else if s[1] > u32::MAX {
                r == Err::<Vec<AdviceMutation>, EventError>(EventError::FalconDiv(
                    FalconDivError::InputNotU32 { value: s[1], position: "dividend_hi" },
                ))
            } else {
                let q = dividend / 12289;
                extends_stack(
                    r,
                    seq![(dividend % 12289) as u64, (q % 4294967296) as u64, (q / 4294967296) as u64],
                )
            }
        }),
{
    let dividend_hi = process.get_stack_item(1);
    let dividend_lo = process.get_stack_item(2);
    if dividend_lo > 4294967295 {
        return Err(EventError::FalconDiv(FalconDivError::InputNotU32 { value: dividend_lo, position: "dividend_lo" }));
    }
    if dividend_hi > 4294967295 {
        return Err(EventError::FalconDiv(FalconDivError::InputNotU32 { value: dividend_hi, position: "dividend_hi" }));
    }
    let dividend = dividend_hi * 4294967296 + dividend_lo;
    let quotient = dividend / FALCON_M;
    let remainder = dividend % FALCON_M;
    let values: Vec<u64> = vec![remainder, quotient % 4294967296, quotient / 4294967296];
    assert(values@ =~= seq![remainder, quotient % 4294967296, quotient / 4294967296]);
    Ok(vec![AdviceMutation::ExtendStack { values }])
}

// SORTED ARRAYS
// ================================================================================================

/// Qualified name of the `lowerbound_array` event.
pub const LOWERBOUND_ARRAY_EVENT_NAME: &'static str = "stdlib::collections::sorted_array::lowerbound_array";

/// Qualified name of the `lowerbound_key_value` event.
pub const LOWERBOUND_KEY_VALUE_EVENT_NAME: &'static str = "stdlib::collections::sorted_array::lowerbound_key_value";

/// Identifier of the `lowerbound_array` event, derived from its name.
pub const LOWERBOUND_ARRAY_EVENT_ID: u64 = 2382974753388103136u64;

/// Identifier of the `lowerbound_key_value` event, derived from its name.
pub const LOWERBOUND_KEY_VALUE_EVENT_ID: u64 = 486819235893213157u64;

/// `a` comes before `b` in the lexicographic order of words, which compares the last element
/// first.
pub open spec fn word_lt(a: Word, b: Word) -> bool {
    ||| a[3] < b[3]
    ||| a[3] == b[3] && a[2] < b[2]
    ||| a[3] == b[3] && a[2] == b[2] && a[1] < b[1]
    ||| a[3] == b[3] && a[2] == b[2] && a[1] == b[1] && a[0] < b[0]
}

/// Compares two words in lexicographic order, last element first.
pub fn word_less_than(a: &Word, b: &Word) -> (r: bool)
    ensures
        r == word_lt(*a, *b),
{
    if a[3] != b[3] {
        a[3] < b[3]
    } else if a[2] != b[2] {
        a[2] < b[2]
    } else if a[1] != b[1] {
        a[1] < b[1]
    } else {
        a[0] < b[0]
    }
}

/// Whether two words are equal.
pub fn word_equal(a: &Word, b: &Word) -> (r: bool)
    ensures
        r == (a@ == b@),
{
    let r = a[0] == b[0] && a[1] == b[1] && a[2] == b[2] && a[3] == b[3];
    proof {
        if r {
            assert(a@ =~= b@);
        } else {
            if a@ == b@ {
                assert(a@[0] == b@[0] && a@[1] == b@[1] && a@[2] == b@[2] && a@[3] == b@[3]);
            }
        }
    }
    r
}

/// The lower bound among `n` positions is at most `n`.
pub proof fn lemma_lower_bound_le(writes: Seq<(u32, Word)>, start: int, stride: int, n: int, key: Word)
    requires
        0 <= n,
    ensures
        0 <= lower_bound(writes, start, stride, n, key) <= n,
    decreases n,
{
    if n > 0 {
        lemma_lower_bound_le(writes, start, stride, n - 1, key);
    }
}

/// Once an inversion is found among the first `m` positions, it stays the first one.
pub proof fn lemma_first_inversion_stable(writes: Seq<(u32, Word)>, start: int, stride: int, m: int, n: int)
    requires
        1 <= m <= n,
        first_inversion(writes, start, stride, m) is Some,
    ensures
        first_inversion(writes, start, stride, n) == first_inversion(writes, start, stride, m),
    decreases n - m,
{
    if m < n {
        lemma_first_inversion_stable(writes, start, stride, m, n - 1);
    }
}

/// The element at position `k` of an array with the given start and stride: the word stored
/// at its address, or the empty word.
pub open spec fn element(writes: Seq<(u32, Word)>, start: int, stride: int, k: int) -> Word {
    match word_at(writes, (start + stride * k) as u32) {
        Some(w) => w,
        None => empty_word(),
    }
}

/// The first position below `n` whose element is smaller than the one before it, if any.
pub open spec fn first_inversion(writes: Seq<(u32, Word)>, start: int, stride: int, n: int) -> Option<int>
    decreases n,
{
    if n <= 1 {
        None
    } else {
        match first_inversion(writes, start, stride, n - 1) {
            Some(j) => Some(j),
            None => if word_lt(element(writes, start, stride, n - 1), element(writes, start, stride, n - 2)) {
                Some(n - 1)
            } else {
                None
            },
        }
    }
}

/// The first position below `n` whose element is not smaller than `key`, or `n`.
pub open spec fn lower_bound(writes: Seq<(u32, Word)>, start: int, stride: int, n: int, key: Word) -> int
    decreases n,
{
    if n <= 0 {
        0
    } else {
        let b = lower_bound(writes, start, stride, n - 1, key);
        if b < n - 1 {
            b
        } else if !word_lt(element(writes, start, stride, n - 1), key) {
            n - 1
        } else {
            n
        }
    }
}

/// The outcome of a `lowerbound` event on a process, for arrays of elements `stride` apart.
pub open spec fn lowerbound_outcome(process: &ProcessState, stride: int, r: Result<Vec<AdviceMutation>, EventError>) -> bool {
    let s = process.stack@;
    let key = [s[1], s[2], s[3], s[4]];
    let start = s[5];
    let end = s[6];
    let writes = process.memory.writes@;
    if start > u32::MAX {
        r == Err::<Vec<AdviceMutation>, EventError>(EventError::Memory(MemoryError::AddressOutOfBounds { addr: start }))
    } else if end > u32::MAX {
        r == Err::<Vec<AdviceMutation>, EventError>(EventError::Memory(MemoryError::AddressOutOfBounds { addr: end }))
    } else if start > end {
        r == Err::<Vec<AdviceMutation>, EventError>(EventError::Memory(
            MemoryError::InvalidMemoryRange { start_addr: start, end_addr: end },
        ))
    } else if start % 4 != 0 {
        r == Err::<Vec<AdviceMutation>, EventError>(EventError::Memory(
            MemoryError::UnalignedWordAccess { addr: start as u32, ctx: process.ctx, clk: process.clk },
        ))
    } else if (end - start) % stride != 0 {
        r == Err::<Vec<AdviceMutation>, EventError>(EventError::SortedArray(
            if stride == 4 {
                SortedArrayError::InvalidArrayRange { size: (end - start) as u32 }
            } else {
                SortedArrayError::InvalidKeyValueRange { size: (end - start) as u32 }
            },
        ))
    } else {
        let n = (end - start) / stride;
        match first_inversion(writes, start as int, stride, n) {
            Some(j) => r == Err::<Vec<AdviceMutation>, EventError>(EventError::SortedArray(
                SortedArrayError::NotAscendingOrder {
                    index: (start + stride * j) as u32,
                    value: element(writes, start as int, stride, j),
                    predecessor: element(writes, start as int, stride, j - 1),
                },
            )),
            None => {
                let b = lower_bound(writes, start as int, stride, n, key);
                let found = b < n && element(writes, start as int, stride, b)@ == key@;
                extends_stack(r, seq![if found { 1u64 } else { 0u64 }, (start + stride * b) as u64])
            },
        }
    }
}

/// Pushes onto the advice stack the first address in the array `[start, end)` of words (or of
/// key-value pairs of words) whose word is not smaller than `KEY`, or `end`, and whether that
/// word equals `KEY`; fails unless the words are in non-decreasing order.
///
/// Inputs: operand stack `[event_id, KEY, start, end, ...]`. Outputs: advice stack
/// `[ptr, was_key_found, ...]`.
pub fn push_lowerbound_result(process: &ProcessState, stride: u32) -> (r: Result<Vec<AdviceMutation>, EventError>)
    requires
        stride == 4 || stride == 8,
        process.stack@.len() >= 7,
    ensures
        lowerbound_outcome(process, stride as int, r),
{
    let key = process.get_stack_word(1);
    let range = process.get_mem_addr_range(5, 6);
    let (start, end) = match range {
        Ok(p) => p,
        Err(e) => {
            return Err(EventError::Memory(e));
        },
    };
    if start % 4 != 0 {
        return Err(EventError::Memory(MemoryError::UnalignedWordAccess { addr: start, ctx: process.ctx, clk: process.clk }));
    }
    let size = end - start;
    if size % stride != 0 {
        if stride == 4 {
            return Err(EventError::SortedArray(SortedArrayError::InvalidArrayRange { size }));
        } else {
            return Err(EventError::SortedArray(SortedArrayError::InvalidKeyValueRange { size }));
        }
    }
    let ghost writes = process.memory.writes@;
    let ghost key_spec = [process.stack@[1], process.stack@[2], process.stack@[3], process.stack@[4]];
    assert(key@ =~= key_spec@);
    assert(key == key_spec);
    if size == 0 {
        let values: Vec<u64> = vec![0, end as u64];
        assert(values@ =~= seq![0u64, (start + stride * 0) as u64]);
        return Ok(vec![AdviceMutation::ExtendStack { values }]);
    }
    let n = size / stride;
    let mut previous = get_word_or_empty(process, start);
    let mut was_key_found = false;
    let mut result: Option<u32> = None;
    assert(previous == element(writes, start as int, stride as int, 0));
    if !word_less_than(&previous, &key) {
        was_key_found = word_equal(&previous, &key);
        result = Some(start);
    }
    let mut k: u32 = 1;
    assert(lower_bound(writes, start as int, stride as int, 0, key) == 0);
    assert(lower_bound(writes, start as int, stride as int, 1, key) == (if word_lt(previous, key) { 1int } else { 0int }));
    assert(first_inversion(writes, start as int, stride as int, 1) is None);
    while k < n
        invariant
            stride == 4 || stride == 8,
            process.stack@.len() >= 7,
            start == process.stack@[5],
            end == process.stack@[6],
            start % 4 == 0,
            key == key_spec,
            writes == process.memory.writes@,
            n == (end - start) / (stride as int),
            size == end - start,
            size % stride == 0,
            start <= end,
            1 <= k <= n,
            first_inversion(writes, start as int, stride as int, k as int) is None,
            previous == element(writes, start as int, stride as int, k - 1),
            ({
                let b = lower_bound(writes, start as int, stride as int, k as int, key);
                &&& (b < k <==> result is Some)
                &&& (result is None ==> !was_key_found)
                &&& result matches Some(a) ==> a == start + stride * b && was_key_found == (element(
                    writes,
                    start as int,
                    stride as int,
                    b,
                )@ == key@)
            }),
        decreases n - k,
    {
        proof {
            assert(stride * k < stride * n) by (nonlinear_arith)
                requires
                    k < n,
                    stride > 0,
            ;
            assert(stride * n == size) by (nonlinear_arith)
                requires
                    n as int == (size as int) / (stride as int),
                    size % stride == 0,
                    stride > 0,
            ;
        }
        let addr = start + stride * k;
        let word = get_word_or_empty(process, addr);
        assert(word == element(writes, start as int, stride as int, k as int));
        if word_less_than(&word, &previous) {
            proof {
                assert(first_inversion(writes, start as int, stride as int, k + 1) == Some(k as int));
                lemma_first_inversion_stable(writes, start as int, stride as int, k + 1, n as int);
                assert(first_inversion(writes, start as int, stride as int, n as int) == Some(k as int));
                assert(start == process.stack@[5]);
                assert(end == process.stack@[6]);
                assert(n == (process.stack@[6] - process.stack@[5]) / (stride as int));
            }
            return Err(EventError::SortedArray(SortedArrayError::NotAscendingOrder { index: addr, value: word, predecessor: previous }));
        }
        if result.is_none() && !word_less_than(&word, &key) {
            was_key_found = word_equal(&word, &key);
            result = Some(addr);
        }
        previous = word;
        k = k + 1;
    }
    let ptr = match result {
        Some(a) => a,
        None => end,
    };
    proof {
        assert(stride * n == size) by (nonlinear_arith)
            requires
                n as int == (size as int) / (stride as int),
                size % stride == 0,
                stride > 0,
        ;
    }
    assert(k == n);
    proof {
        lemma_lower_bound_le(writes, start as int, stride as int, n as int, key);
    }
    assert(first_inversion(writes, start as int, stride as int, n as int) is None);
    assert(n == (process.stack@[6] - process.stack@[5]) / (stride as int));
    let ghost b = lower_bound(writes, start as int, stride as int, n as int, key);
    assert(ptr == start + stride * b);
    assert(was_key_found == (b < n && element(writes, start as int, stride as int, b)@ == key@));
    let values: Vec<u64> = vec![if was_key_found { 1 } else { 0 }, ptr as u64];
    assert(values@ =~= seq![if was_key_found { 1u64 } else { 0u64 }, ptr as u64]);
    Ok(vec![AdviceMutation::ExtendStack { values }])
}

/// The word at `addr` of the memory of a process, or the empty word.
fn get_word_or_empty(process: &ProcessState, addr: u32) -> (r: Word)
    ensures
        r == (match word_at(process.memory.writes@, addr) {
            Some(w) => w,
            None => empty_word(),
        }),
{
    match process.memory.get_word(addr) {
        Some(w) => w,
        None => [0u64; 4],
    }
}

/// Pushes onto the advice stack the lower bound of `KEY` in a sorted array of words.
pub fn handle_lowerbound_array(process: &ProcessState) -> (r: Result<Vec<AdviceMutation>, EventError>)
    requires
        process.stack@.len() >= 7,
    ensures
        lowerbound_outcome(process, 4, r),
{
    push_lowerbound_result(process, 4)
}

/// Pushes onto the advice stack the lower bound of `KEY` among the keys of a sorted array of
/// key-value pairs of words.
pub fn handle_lowerbound_key_value(process: &ProcessState) -> (r: Result<Vec<AdviceMutation>, EventError>)
    requires
        process.stack@.len() >= 7,
    ensures
        lowerbound_outcome(process, 8, r),
{
    push_lowerbound_result(process, 8)
}

} // verus!
