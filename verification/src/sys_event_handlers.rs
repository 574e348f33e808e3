//! Handlers of the system events: each reads the state of the process and updates the advice
//! provider.

use vstd::prelude::*;

use crate::advice::{AdviceError, AdviceProvider, map_get, push_all_first_on_top};
use crate::events::SystemEvent;
use crate::felt::{P, add_spec, felt_add, felt_inv, felt_mul, felt_neg, inverse_of, mul_spec, neg_spec, sub_spec};
use crate::fast_ops::quad_mul;
use vstd::arithmetic::div_mod::{
    lemma_add_mod_noop, lemma_mod_twice, lemma_mul_mod_noop_general, lemma_sub_mod_noop,
};
use crate::hash::{
    merge_roots_of, rpo_digest_range, rpo_hash_elements, rpo_merge_in_domain,
    rpo_merge_in_domain_of, rpo_permutation_of, rpo_permute, rpo_rate_range, hash_elements,
    store_nodes, walk,
};
use crate::memory::{MemoryError, ProcessState, Word, words_are_felts, lemma_word_at_felts};
use crate::keccak::value_at;

verus! {

/// Position on the stack of the domain of the `hdword_to_map_with_domain` event.
pub const HDWORD_TO_MAP_WITH_DOMAIN_DOMAIN_OFFSET: usize = 9usize;

/// Errors of system event handlers.
#[derive(Clone, Debug, PartialEq, Eq)]
pub enum SysEventError {
    /// A memory access failed.
    Memory(MemoryError),
    /// The advice provider refused a request.
    Advice { err: AdviceError, clk: u32 },
    /// The operand is not a 32-bit value.
    NotU32Value { value: u64 },
    /// The argument of a logarithm is zero.
    LogArgumentZero { clk: u32 },
    /// A division by zero.
    DivideByZero { clk: u32 },
}

/// The stack of a handler's process has room for the operands of every system event and
/// holds field elements.
pub open spec fn stack_ok(process: &ProcessState) -> bool {
    &&& process.stack@.len() >= 17
    &&& forall|i: int| 0 <= i < process.stack@.len() ==> #[trigger] process.stack@[i] < P
}

/// The word at stack positions `i` to `i + 3`.
pub open spec fn stack_word(process: &ProcessState, i: int) -> Seq<u64> {
    process.stack@.subrange(i, i + 4)
}

/// The advice provider is as it was, but for its stack.
pub open spec fn only_stack_changed(a: &AdviceProvider, b: &AdviceProvider) -> bool {
    &&& a.map@ == b.map@
    &&& a.store == b.store
}

/// The outcome of inserting `values` under `key` into the advice map.
pub open spec fn map_insert_outcome(
    old_advice: &AdviceProvider,
    new_advice: &AdviceProvider,
    key: Word,
    values: Seq<u64>,
    clk: u32,
    r: Result<(), SysEventError>,
) -> bool {
    &&& new_advice.stack@ == old_advice.stack@
    &&& new_advice.store == old_advice.store
    &&& match map_get(old_advice.map@, key) {
        None => r is Ok && new_advice.map@.len() == old_advice.map@.len() + 1
            && new_advice.map@.drop_last() == old_advice.map@ && new_advice.map@.last().0 == key
            && new_advice.map@.last().1@ == values,
        Some(v) => if v == values {
            r is Ok && new_advice.map@ == old_advice.map@
        } else {
            r == Err::<(), SysEventError>(SysEventError::Advice { err: AdviceError::MapKeyAlreadyPresent { key }, clk })
                && new_advice.map@ == old_advice.map@
        },
    }
}

/// Inserts into the advice map, turning a refusal into a handler error.
fn insert(advice: &mut AdviceProvider, key: Word, values: Vec<u64>, clk: u32) -> (r: Result<(), SysEventError>)
    ensures
        map_insert_outcome(old(advice), final(advice), key, values@, clk, r),
{
    let ghost vals = values@;
    let res = advice.insert_into_map(key, values);
    proof {
        if map_get(old(advice).map@, key) is None {
            assert(advice.map@.drop_last() =~= old(advice).map@);
        }
    }
    match res {
        Ok(()) => Ok(()),
        Err(e) => Err(SysEventError::Advice { err: e, clk }),
    }
}

/// The elements of memory in `[start, end)`, with unwritten ones as zero.
pub open spec fn mem_values(writes: Seq<(u32, Word)>, start: int, end: int) -> Seq<u64> {
    Seq::new((end - start) as nat, |i: int| match value_at(writes, (start + i) as u32) {
        Some(v) => v,
        None => 0u64,
    })
}

/// What copying a memory range into the advice map does, with the outcome `r`.
pub open spec fn mem_to_map_outcome(process: &ProcessState, old_advice: &AdviceProvider, new_advice: &AdviceProvider, r: Result<(), SysEventError>) -> bool {
    &&& ({
        let s = process.stack@;
        if s[5] > u32::MAX {
            r == Err::<(), SysEventError>(SysEventError::Memory(MemoryError::AddressOutOfBounds { addr: s[5] }))
                && *new_advice == *old_advice
        } else if s[6] > u32::MAX {
            r == Err::<(), SysEventError>(SysEventError::Memory(MemoryError::AddressOutOfBounds { addr: s[6] }))
                && *new_advice == *old_advice
        } else if s[5] > s[6] {
            r == Err::<(), SysEventError>(SysEventError::Memory(
                MemoryError::InvalidMemoryRange { start_addr: s[5], end_addr: s[6] },
            )) && *new_advice == *old_advice
        } else {
            let key = [s[1], s[2], s[3], s[4]];
            map_insert_outcome(old_advice, new_advice, key, mem_values(process.memory.writes@, s[5] as int, s[6] as int), process.clk, r)
        }
    })
}

/// What hashing two stack words into the advice map does, with the outcome `r`.
pub open spec fn hdword_to_map_outcome(process: &ProcessState, old_advice: &AdviceProvider, new_advice: &AdviceProvider, domain: u64, r: Result<(), SysEventError>) -> bool {
    &&& ({
        let w0 = stack_word(process, 1);
        let w1 = stack_word(process, 5);
        exists|key: Word| key@ == rpo_merge_in_domain_of(w1, w0, domain) && map_insert_outcome(
            old_advice,
            new_advice,
            key,
            w1 + w0,
            process.clk,
            r,
        )
    })
}

/// What hashing four stack words into the advice map does, with the outcome `r`.
pub open spec fn hqword_to_map_outcome(process: &ProcessState, old_advice: &AdviceProvider, new_advice: &AdviceProvider, r: Result<(), SysEventError>) -> bool {
    &&& ({
        let values = stack_word(process, 13) + stack_word(process, 9) + stack_word(process, 5)
            + stack_word(process, 1);
        exists|key: Word| key@ == rpo_hash_elements(values) && map_insert_outcome(
            old_advice,
            new_advice,
            key,
            values,
            process.clk,
            r,
        )
    })
}

/// What permuting twelve stack elements into the advice map does, with the outcome `r`.
pub open spec fn hperm_to_map_outcome(process: &ProcessState, old_advice: &AdviceProvider, new_advice: &AdviceProvider, r: Result<(), SysEventError>) -> bool {
    &&& ({
        let state = process.stack@.subrange(1, 13).reverse();
        let permuted = rpo_permutation_of(state);
        exists|key: Word| key@ == permuted.subrange(0, 4) && map_insert_outcome(
            old_advice,
            new_advice,
            key,
            state.subrange(0, 8),
            process.clk,
            r,
        )
    })
}

/// What merging two Merkle nodes into the store does, with the outcome `r`.
pub open spec fn merge_nodes_outcome(process: &ProcessState, old_advice: &AdviceProvider, new_advice: &AdviceProvider, r: Result<(), SysEventError>) -> bool {
    &&& r is Ok
    &&& store_nodes(new_advice.store) == store_nodes(old_advice.store).insert(
        merge_roots_of(stack_word(process, 5), stack_word(process, 1)),
        (stack_word(process, 5), stack_word(process, 1)),
    )
    &&& new_advice.stack@ == old_advice.stack@
    &&& new_advice.map@ == old_advice.map@
}

/// What copying a Merkle node to the advice stack does, with the outcome `r`.
pub open spec fn node_to_stack_outcome(process: &ProcessState, old_advice: &AdviceProvider, new_advice: &AdviceProvider, r: Result<(), SysEventError>) -> bool {
    &&& new_advice.map@ == old_advice.map@
    &&& new_advice.store == old_advice.store
    &&& ({
        let depth = process.stack@[1];
        let index = process.stack@[2];
        let root = stack_word(process, 3);
        if depth <= 64 && (depth == 64 || index < vstd::arithmetic::power2::pow2(depth as nat)) {
            match walk(store_nodes(old_advice.store), root, depth as int, index as int) {
                Some(node) => r is Ok && new_advice.stack@ == push_all_first_on_top(old_advice.stack@, node),
                None => r is Err && new_advice.stack@ == old_advice.stack@,
            }
        } else {
            r is Err && new_advice.stack@ == old_advice.stack@
        }
    })
}

/// What copying a map value to the advice stack does, with the outcome `r`.
pub open spec fn map_value_to_stack_outcome(process: &ProcessState, old_advice: &AdviceProvider, new_advice: &AdviceProvider, include_len: bool, r: Result<(), SysEventError>) -> bool {
    &&& new_advice.map@ == old_advice.map@
    &&& new_advice.store == old_advice.store
    &&& ({
        let key = [process.stack@[1], process.stack@[2], process.stack@[3], process.stack@[4]];
        match map_get(old_advice.map@, key) {
            None => r == Err::<(), SysEventError>(SysEventError::Advice { err: AdviceError::MapKeyNotFound { key }, clk: process.clk })
                && new_advice.stack@ == old_advice.stack@,
            Some(v) => r is Ok && new_advice.stack@ == (if include_len {
                push_all_first_on_top(old_advice.stack@, v).push(v.len() as u64)
            } else {
                push_all_first_on_top(old_advice.stack@, v)
            }),
        }
    })
}

/// What pushing the presence flag of a map key does, with the outcome `r`.
pub open spec fn key_presence_outcome(process: &ProcessState, old_advice: &AdviceProvider, new_advice: &AdviceProvider, r: Result<(), SysEventError>) -> bool {
    &&& r is Ok
    &&& only_stack_changed(new_advice, old_advice)
    &&& new_advice.stack@ == old_advice.stack@.push(
        if map_get(old_advice.map@, [process.stack@[1], process.stack@[2], process.stack@[3], process.stack@[4]]) is Some { 1u64 } else { 0u64 },
    )
}

/// What pushing a bit count of a 32-bit value does, with the outcome `r`.
pub open spec fn bit_count_outcome(process: &ProcessState, old_advice: &AdviceProvider, new_advice: &AdviceProvider, event: SystemEvent, r: Result<(), SysEventError>) -> bool {
    &&& only_stack_changed(new_advice, old_advice)
    &&& process.stack@[1] > u32::MAX ==> r == Err::<(), SysEventError>(SysEventError::NotU32Value { value: process.stack@[1] })
        && new_advice.stack@ == old_advice.stack@
    &&& process.stack@[1] <= u32::MAX ==> r is Ok && new_advice.stack@ == old_advice.stack@.push(
        bit_count(event, process.stack@[1] as u32) as u64,
    )
}

/// What pushing the integer logarithm of a value does, with the outcome `r`.
pub open spec fn ilog2_outcome(process: &ProcessState, old_advice: &AdviceProvider, new_advice: &AdviceProvider, r: Result<(), SysEventError>) -> bool {
    &&& only_stack_changed(new_advice, old_advice)
    &&& process.stack@[1] == 0 ==> r == Err::<(), SysEventError>(SysEventError::LogArgumentZero { clk: process.clk })
        && new_advice.stack@ == old_advice.stack@
    &&& process.stack@[1] != 0 ==> r is Ok && exists|l: nat| l < 64 && #[trigger] pow2_int(l) <= process.stack@[1] < pow2_int(l + 1)
        && new_advice.stack@ == old_advice.stack@.push(l as u64)
}

/// What pushing the inverse of an extension-field element does, with the outcome `r`.
pub open spec fn ext2_inv_outcome(process: &ProcessState, old_advice: &AdviceProvider, new_advice: &AdviceProvider, r: Result<(), SysEventError>) -> bool {
    &&& only_stack_changed(new_advice, old_advice)
    &&& ({
        let a0 = process.stack@[2] as int;
        let a1 = process.stack@[1] as int;
        let n = ext2_norm(a0, a1);
        if n == 0 {
            r == Err::<(), SysEventError>(SysEventError::DivideByZero { clk: process.clk })
                && new_advice.stack@ == old_advice.stack@
        } else {
            let inv_n = inverse_of(n as u64) as int;
            &&& r is Ok
            &&& new_advice.stack@ == old_advice.stack@.push(
                mul_spec(neg_spec(a1), inv_n) as u64,
            ).push(mul_spec(add_spec(a0, a1), inv_n) as u64)
            // the two pushed elements, top first, are the inverse of `a0 + a1 x`
            &&& quad_mul(
                (a0 as u64, a1 as u64),
                (new_advice.stack@.last(), new_advice.stack@[new_advice.stack@.len() - 2]),
            ) == (1u64, 0u64)
        }
    })
}


/// Reads the elements of memory in `[start_addr, end_addr)` and inserts them into the advice
/// map under the key at the top of the stack.
///
/// Inputs: operand stack `[event_id, KEY, start_addr, end_addr, ...]`.
pub fn insert_mem_values_into_adv_map(process: &ProcessState, advice: &mut AdviceProvider) -> (r: Result<(), SysEventError>)
    requires
        stack_ok(process),
    ensures
        mem_to_map_outcome(process, old(advice), final(advice), r),
{
    let (start, end) = match process.get_mem_addr_range(5, 6) {
        Ok(p) => p,
        Err(e) => {
            return Err(SysEventError::Memory(e));
        },
    };
    let ghost writes = process.memory.writes@;
    let mut values: Vec<u64> = Vec::new();
    let mut addr = start;
    while addr < end
        invariant
            start <= addr <= end,
            writes == process.memory.writes@,
            values@ == mem_values(writes, start as int, addr as int),
        decreases end - addr,
    {
        let v = match process.memory.get_value(addr) {
            Some(x) => x,
            None => 0,
        };
        values.push(v);
        assert(values@ =~= mem_values(writes, start as int, addr + 1));
        addr = addr + 1;
    }
    let key = process.get_stack_word(1);
    assert(key =~= [process.stack@[1], process.stack@[2], process.stack@[3], process.stack@[4]]);
    insert(advice, key, values, process.clk)
}

/// Reads two words from the stack and inserts them into the advice map under their hash in
/// the given domain.
///
/// Inputs: operand stack `[event_id, B, A, ...]`; the map gets `A, B` under `merge(A, B)`.
pub fn insert_hdword_into_adv_map(process: &ProcessState, advice: &mut AdviceProvider, domain: u64) -> (r: Result<(), SysEventError>)
    requires
        stack_ok(process),
    ensures
        hdword_to_map_outcome(process, old(advice), final(advice), domain, r),
{
    let word0 = process.get_stack_word(1);
    let word1 = process.get_stack_word(5);
    let key = rpo_merge_in_domain(word1, word0, domain);
    let values = concat_words(&[word1, word0]);
    assert(values@ =~= word1@ + word0@);
    let r = insert(advice, key, values, process.clk);
    assert(key@ == rpo_merge_in_domain_of(word1@, word0@, domain));
    r
}

/// Reads four words from the stack and inserts them into the advice map under their
/// sequential hash.
///
/// Inputs: operand stack `[event_id, D, C, B, A, ...]`; the map gets `A, B, C, D` under
/// `hash(A, B, C, D)`.
pub fn insert_hqword_into_adv_map(process: &ProcessState, advice: &mut AdviceProvider) -> (r: Result<(), SysEventError>)
    requires
        stack_ok(process),
    ensures
        hqword_to_map_outcome(process, old(advice), final(advice), r),
{
    let word0 = process.get_stack_word(1);
    let word1 = process.get_stack_word(5);
    let word2 = process.get_stack_word(9);
    let word3 = process.get_stack_word(13);
    let values = concat_words(&[word3, word2, word1, word0]);
    assert(values@ =~= word3@ + word2@ + word1@ + word0@);
    proof {
        assert forall|i: int| 0 <= i < values@.len() implies #[trigger] values@[i] < P by {
            assert(process.stack@[1 + (i % 4) + 4 * (3 - i / 4)] < P);
        }
    }
    let key = hash_elements(&values);
    let r = insert(advice, key, values, process.clk);
    r
}

/// Reads three words from the stack and inserts the rate elements of the state they form into
/// the advice map under the digest of the permuted state.
///
/// Inputs: operand stack `[event_id, B, A, C, ...]`; the state is the stack elements at
/// positions 12 down to 1.
pub fn insert_hperm_into_adv_map(process: &ProcessState, advice: &mut AdviceProvider) -> (r: Result<(), SysEventError>)
    requires
        stack_ok(process),
    ensures
        hperm_to_map_outcome(process, old(advice), final(advice), r),
{
    let mut state = [0u64; 12];
    let mut i: usize = 0;
    while i < 12
        invariant
            stack_ok(process),
            0 <= i <= 12,
            forall|j: int| 0 <= j < i ==> #[trigger] state@[j] == process.stack@[12 - j],
        decreases 12 - i,
    {
        state[i] = process.get_stack_item(12 - i);
        i = i + 1;
    }
    assert(state@ =~= process.stack@.subrange(1, 13).reverse());
    let (rate_start, rate_end) = rpo_rate_range();
    let mut values: Vec<u64> = Vec::new();
    let mut k = rate_start;
    while k < rate_end
        invariant
            rate_start == 0,
            rate_end == 8,
            0 <= k <= 8,
            values@ == state@.subrange(0, k as int),
        decreases 8 - k,
    {
        values.push(state[k]);
        assert(values@ =~= state@.subrange(0, k + 1));
        k = k + 1;
    }
    let permuted = rpo_permute(state);
    let (digest_start, digest_end) = rpo_digest_range();
    let key = [permuted[digest_start], permuted[digest_start + 1], permuted[digest_start + 2], permuted[digest_start + 3]];
    assert(key@ =~= permuted@.subrange(0, 4));
    insert(advice, key, values, process.clk)
}

/// Merges two Merkle trees of the advice provider under `merge(LEFT_ROOT, RIGHT_ROOT)`.
///
/// Inputs: operand stack `[event_id, RIGHT_ROOT, LEFT_ROOT, ...]`.
pub fn merge_merkle_nodes(process: &ProcessState, advice: &mut AdviceProvider) -> (r: Result<(), SysEventError>)
    requires
        stack_ok(process),
    ensures
        merge_nodes_outcome(process, old(advice), final(advice), r),
{
    let lhs = process.get_stack_word(5);
    let rhs = process.get_stack_word(1);
    proof {
        assert forall|i: int| 0 <= i < 4 implies #[trigger] lhs@[i] < P by {
            assert(lhs@[i] == process.stack@[5 + i]);
        }
        assert forall|i: int| 0 <= i < 4 implies #[trigger] rhs@[i] < P by {
            assert(rhs@[i] == process.stack@[1 + i]);
        }
    }
    match advice.merge_roots(lhs, rhs) {
        Ok(_) => Ok(()),
        Err(err) => Err(SysEventError::Advice { err, clk: process.clk }),
    }
}

/// Pushes the node of a Merkle tree of the advice provider onto the advice stack.
///
/// Inputs: operand stack `[event_id, depth, index, TREE_ROOT, ...]`.
pub fn copy_merkle_node_to_adv_stack(process: &ProcessState, advice: &mut AdviceProvider) -> (r: Result<(), SysEventError>)
    requires
        stack_ok(process),
    ensures
        node_to_stack_outcome(process, old(advice), final(advice), r),
{
    let depth = process.get_stack_item(1);
    let index = process.get_stack_item(2);
    let root = process.get_stack_word(3);
    proof {
        assert forall|i: int| 0 <= i < 4 implies #[trigger] root@[i] < P by {
            assert(root@[i] == process.stack@[3 + i]);
        }
    }
    match advice.get_tree_node(root, depth, index) {
        Ok(node) => {
            advice.push_stack_word(&node);
            Ok(())
        },
        Err(e) => Err(SysEventError::Advice { err: e, clk: process.clk }),
    }
}

/// Pushes the values that the advice map holds under the key at the top of the stack onto the
/// advice stack, and then, if asked, their number.
///
/// Inputs: operand stack `[event_id, KEY, ...]`.
pub fn copy_map_value_to_adv_stack(process: &ProcessState, advice: &mut AdviceProvider, include_len: bool) -> (r: Result<(), SysEventError>)
    requires
        stack_ok(process),
    ensures
        map_value_to_stack_outcome(process, old(advice), final(advice), include_len, r),
{
    let key = process.get_stack_word(1);
    assert(key =~= [process.stack@[1], process.stack@[2], process.stack@[3], process.stack@[4]]);
    match advice.push_from_map(key, include_len) {
        Ok(()) => Ok(()),
        Err(e) => Err(SysEventError::Advice { err: e, clk: process.clk }),
    }
}

/// Pushes 1 onto the advice stack if the advice map has an entry for the key at the top of the
/// stack, and 0 otherwise.
///
/// Inputs: operand stack `[event_id, KEY, ...]`.
pub fn push_key_presence_flag(process: &ProcessState, advice: &mut AdviceProvider) -> (r: Result<(), SysEventError>)
    requires
        stack_ok(process),
    ensures
        key_presence_outcome(process, old(advice), final(advice), r),
{
    let key = process.get_stack_word(1);
    assert(key =~= [process.stack@[1], process.stack@[2], process.stack@[3], process.stack@[4]]);
    let present = advice.contains_map_key(&key);
    advice.push_stack(if present { 1 } else { 0 });
    Ok(())
}

/// The bit count that an event pushes for a 32-bit value.
pub open spec fn bit_count(event: SystemEvent, v: u32) -> u32 {
    match event {
        SystemEvent::U32Clz => vstd::std_specs::bits::u32_leading_zeros(v),
        SystemEvent::U32Ctz => vstd::std_specs::bits::u32_trailing_zeros(v),
        SystemEvent::U32Clo => vstd::std_specs::bits::u32_leading_zeros(!v),
        _ => vstd::std_specs::bits::u32_trailing_zeros(!v),
    }
}

/// Pushes a bit count of the 32-bit value at the top of the stack onto the advice stack: its
/// leading zeros, trailing zeros, leading ones or trailing ones.
///
/// Inputs: operand stack `[event_id, n, ...]`.
pub fn push_bit_count(process: &ProcessState, advice: &mut AdviceProvider, event: SystemEvent) -> (r: Result<(), SysEventError>)
    requires
        stack_ok(process),
        event == SystemEvent::U32Clz || event == SystemEvent::U32Ctz || event == SystemEvent::U32Clo
            || event == SystemEvent::U32Cto,
    ensures
        bit_count_outcome(process, old(advice), final(advice), event, r),
{
    let top = process.get_stack_item(1);
    if top > 4294967295 {
        return Err(SysEventError::NotU32Value { value: top });
    }
    let v = top as u32;
    let c = match event {
        SystemEvent::U32Clz => v.leading_zeros(),
        SystemEvent::U32Ctz => v.trailing_zeros(),
        SystemEvent::U32Clo => v.leading_ones(),
        _ => v.trailing_ones(),
    };
    advice.push_stack(c as u64);
    Ok(())
}

/// `2^n`.
pub open spec fn pow2_int(n: nat) -> int {
    vstd::arithmetic::power2::pow2(n) as int
}

/// Pushes the base 2 logarithm of the top of the stack, rounded down, onto the advice stack;
/// fails on zero.
///
/// Inputs: operand stack `[event_id, n, ...]`.
pub fn push_ilog2(process: &ProcessState, advice: &mut AdviceProvider) -> (r: Result<(), SysEventError>)
    requires
        stack_ok(process),
    ensures
        ilog2_outcome(process, old(advice), final(advice), r),
{
    let n = process.get_stack_item(1);
    if n == 0 {
        return Err(SysEventError::LogArgumentZero { clk: process.clk });
    }
    let mut l: u64 = 0;
    let mut p: u128 = 1;
    proof {
        vstd::arithmetic::power2::lemma2_to64();
        vstd::arithmetic::power2::lemma2_to64_rest();
    }
    while p * 2 <= n as u128
        invariant
            n > 0,
            p == pow2_int(l as nat),
            1 <= p <= n,
            l <= 64,
        decreases n - p,
    {
        proof {
            vstd::arithmetic::power2::lemma2_to64_rest();
            vstd::arithmetic::power2::lemma_pow2_unfold((l + 1) as nat);
            if l + 1 > 64 {
                vstd::arithmetic::power2::lemma_pow2_strictly_increases(64, (l + 1) as nat);
            }
        }
        p = p * 2;
        l = l + 1;
    }
    proof {
        vstd::arithmetic::power2::lemma_pow2_unfold((l + 1) as nat);
        if l >= 64 {
            if l > 64 {
                vstd::arithmetic::power2::lemma_pow2_strictly_increases(64, l as nat);
            }
        }
        assert(l < 64);
    }
    advice.push_stack(l);
    Ok(())
}

/// The words concatenated, in order.
fn concat_words(words: &[Word]) -> (r: Vec<u64>)
    ensures
        r@.len() == 4 * words@.len(),
        forall|i: int| 0 <= i < r@.len() ==> #[trigger] r@[i] == words@[i / 4][i % 4],
{
    let mut r: Vec<u64> = Vec::new();
    let mut k: usize = 0;
    while k < words.len()
        invariant
            0 <= k <= words@.len(),
            r@.len() == 4 * k,
            forall|i: int| 0 <= i < r@.len() ==> #[trigger] r@[i] == words@[i / 4][i % 4],
        decreases words@.len() - k,
    {
        let w = words[k];
        r.push(w[0]);
        r.push(w[1]);
        r.push(w[2]);
        r.push(w[3]);
        k = k + 1;
    }
    r
}

/// The norm of `a0 + a1 x` in the quadratic extension `x^2 = x - 2`: `a0^2 + a0 a1 + 2 a1^2`.
pub open spec fn ext2_norm(a0: int, a1: int) -> int {
    add_spec(add_spec(mul_spec(a0, a0), mul_spec(a0, a1)), mul_spec(2, mul_spec(a1, a1)))
}

/// Products, sums and differences of integers that agree modulo `P` agree modulo `P`.
proof fn lemma_congruent_ops(x: int, y: int, x2: int, y2: int)
    requires
        x % (P as int) == x2 % (P as int),
        y % (P as int) == y2 % (P as int),
    ensures
        (x * y) % (P as int) == (x2 * y2) % (P as int),
        (x + y) % (P as int) == (x2 + y2) % (P as int),
        (x - y) % (P as int) == (x2 - y2) % (P as int),
{
    let m = P as int;
    lemma_mul_mod_noop_general(x, y, m);
    lemma_mul_mod_noop_general(x2, y2, m);
    lemma_add_mod_noop(x, y, m);
    lemma_add_mod_noop(x2, y2, m);
    lemma_sub_mod_noop(x, y, m);
    lemma_sub_mod_noop(x2, y2, m);
}

/// The conjugate of `a0 + a1 x` divided by its norm is its inverse in the extension field:
/// with `n * inv = 1`, the element `((a0 + a1) inv, -a1 inv)` times `(a0, a1)` is one.
pub proof fn lemma_ext2_inverse(a0: int, a1: int, inv: int)
    requires
        0 <= a0 < P,
        0 <= a1 < P,
        0 <= inv < P,
        (ext2_norm(a0, a1) * inv) % (P as int) == 1,
    ensures
        quad_mul(
            (a0 as u64, a1 as u64),
            (mul_spec(add_spec(a0, a1), inv) as u64, mul_spec(neg_spec(a1), inv) as u64),
        ) == (1u64, 0u64),
{
    let m = P as int;
    let b0 = mul_spec(add_spec(a0, a1), inv);
    let b1 = mul_spec(neg_spec(a1), inv);
    assert(0 <= b0 < m && 0 <= b1 < m);
    assert(b0 as u64 as int == b0 && b1 as u64 as int == b1);
    // Each reduced value agrees modulo P with the unreduced expression it stands for.
    lemma_mod_twice(a0 + a1, m);
    lemma_mod_twice(-a1, m);
    lemma_congruent_ops(add_spec(a0, a1), inv, a0 + a1, inv);
    lemma_congruent_ops(neg_spec(a1), inv, -a1, inv);
    let rb0 = (a0 + a1) * inv;
    let rb1 = (-a1) * inv;
    assert(b0 % m == rb0 % m) by { lemma_mod_twice(rb0, m); }
    assert(b1 % m == rb1 % m) by { lemma_mod_twice(rb1, m); }
    // The norm.
    let raw_n = a0 * a0 + a0 * a1 + 2 * (a1 * a1);
    lemma_mod_twice(a0 * a0, m);
    lemma_mod_twice(a0 * a1, m);
    lemma_mod_twice(a1 * a1, m);
    lemma_congruent_ops(mul_spec(a0, a0), mul_spec(a0, a1), a0 * a0, a0 * a1);
    let s1 = add_spec(mul_spec(a0, a0), mul_spec(a0, a1));
    lemma_mod_twice(a0 * a0 + a0 * a1, m);
    lemma_congruent_ops(2, mul_spec(a1, a1), 2, a1 * a1);
    let s2 = mul_spec(2, mul_spec(a1, a1));
    lemma_mod_twice(2 * (a1 * a1), m);
    lemma_congruent_ops(s1, s2, a0 * a0 + a0 * a1, 2 * (a1 * a1));
    let n = ext2_norm(a0, a1);
    lemma_mod_twice(raw_n, m);
    assert(n % m == raw_n % m);
    lemma_congruent_ops(n, inv, raw_n, inv);
    assert((raw_n * inv) % m == 1);
    // The constant coefficient: b0 a0 - 2 b1 a1 = n inv.
    let b0a0 = mul_spec(b0, a0);
    lemma_congruent_ops(b0, a0, rb0, a0);
    lemma_mod_twice(b0 * a0, m);
    lemma_mod_twice(a0 % m, m);
    lemma_congruent_ops(2, b1, 2, rb1);
    let t = mul_spec(2, b1);
    lemma_mod_twice(2 * b1, m);
    lemma_congruent_ops(t, a1, 2 * rb1, a1);
    let u = mul_spec(t, a1);
    lemma_mod_twice(t * a1, m);
    lemma_congruent_ops(b0a0, u, rb0 * a0, 2 * rb1 * a1);
    assert(rb0 * a0 - 2 * rb1 * a1 == raw_n * inv) by (nonlinear_arith)
        requires
            rb0 == (a0 + a1) * inv,
            rb1 == (-a1) * inv,
            raw_n == a0 * a0 + a0 * a1 + 2 * (a1 * a1),
    ;
    assert(sub_spec(b0a0, u) == 1);
    // The coefficient of x: (b0 + b1)(a1 + a0) - b0 a0 = 0.
    lemma_congruent_ops(b0, b1, rb0, rb1);
    let v = add_spec(b0, b1);
    lemma_mod_twice(b0 + b1, m);
    lemma_mod_twice(a1 + a0, m);
    let w = add_spec(a1, a0);
    lemma_congruent_ops(v, w, rb0 + rb1, a1 + a0);
    let vw = mul_spec(v, w);
    lemma_mod_twice(v * w, m);
    lemma_congruent_ops(vw, b0a0, (rb0 + rb1) * (a1 + a0), rb0 * a0);
    assert((rb0 + rb1) * (a1 + a0) - rb0 * a0 == 0) by (nonlinear_arith)
        requires
            rb0 == (a0 + a1) * inv,
            rb1 == (-a1) * inv,
    ;
    assert(sub_spec(vw, b0a0) == 0);
}

/// Pushes the inverse of the quadratic extension element `a0 + a1 x` at the top of the stack
/// onto the advice stack: its conjugate `(a0 + a1) - a1 x` divided by its norm, with the
/// coefficient of `x` pushed first; fails on zero.
///
/// Inputs: operand stack `[event_id, a1, a0, ...]`.
pub fn push_ext2_inv_result(process: &ProcessState, advice: &mut AdviceProvider) -> (r: Result<(), SysEventError>)
    requires
        stack_ok(process),
    ensures
        ext2_inv_outcome(process, old(advice), final(advice), r),
{
    let a0 = process.get_stack_item(2);
    let a1 = process.get_stack_item(1);
    let n = felt_add(felt_add(felt_mul(a0, a0), felt_mul(a0, a1)), felt_mul(2, felt_mul(a1, a1)));
    if n == 0 {
        return Err(SysEventError::DivideByZero { clk: process.clk });
    }
    let inv_n = felt_inv(n);
    proof {
        lemma_ext2_inverse(a0 as int, a1 as int, inv_n as int);
    }
    let b0 = felt_mul(felt_add(a0, a1), inv_n);
    let b1 = felt_mul(felt_neg(a1), inv_n);
    advice.push_stack(b1);
    advice.push_stack(b0);
    Ok(())
}

/// Handles a system event: dispatches it to its handler.
pub fn handle_system_event(process: &ProcessState, advice: &mut AdviceProvider, event: SystemEvent) -> (r: Result<(), SysEventError>)
    requires
        stack_ok(process),
    ensures
        match event {
            SystemEvent::MerkleNodeMerge => merge_nodes_outcome(process, old(advice), final(advice), r),
            SystemEvent::MerkleNodeToStack => node_to_stack_outcome(process, old(advice), final(advice), r),
            SystemEvent::MapValueToStack => map_value_to_stack_outcome(process, old(advice), final(advice), false, r),
            SystemEvent::MapValueToStackN => map_value_to_stack_outcome(process, old(advice), final(advice), true, r),
            SystemEvent::HasMapKey => key_presence_outcome(process, old(advice), final(advice), r),
            SystemEvent::U32Clz | SystemEvent::U32Ctz | SystemEvent::U32Clo | SystemEvent::U32Cto => bit_count_outcome(
                process,
                old(advice),
                final(advice),
                event,
                r,
            ),
            SystemEvent::ILog2 => ilog2_outcome(process, old(advice), final(advice), r),
            SystemEvent::MemToMap => mem_to_map_outcome(process, old(advice), final(advice), r),
            SystemEvent::HdwordToMap => hdword_to_map_outcome(process, old(advice), final(advice), 0, r),
            SystemEvent::HdwordToMapWithDomain => hdword_to_map_outcome(
                process,
                old(advice),
                final(advice),
                process.stack@[HDWORD_TO_MAP_WITH_DOMAIN_DOMAIN_OFFSET as int],
                r,
            ),
            SystemEvent::HqwordToMap => hqword_to_map_outcome(process, old(advice), final(advice), r),
            SystemEvent::HpermToMap => hperm_to_map_outcome(process, old(advice), final(advice), r),
            SystemEvent::Ext2Inv => ext2_inv_outcome(process, old(advice), final(advice), r),
        },
{
    match event {
        SystemEvent::MerkleNodeMerge => merge_merkle_nodes(process, advice),
        SystemEvent::MerkleNodeToStack => copy_merkle_node_to_adv_stack(process, advice),
        SystemEvent::MapValueToStack => copy_map_value_to_adv_stack(process, advice, false),
        SystemEvent::MapValueToStackN => copy_map_value_to_adv_stack(process, advice, true),
        SystemEvent::HasMapKey => push_key_presence_flag(process, advice),
        SystemEvent::U32Clz => push_bit_count(process, advice, event),
        SystemEvent::U32Ctz => push_bit_count(process, advice, event),
        SystemEvent::U32Clo => push_bit_count(process, advice, event),
        SystemEvent::U32Cto => push_bit_count(process, advice, event),
        SystemEvent::ILog2 => push_ilog2(process, advice),
        SystemEvent::MemToMap => insert_mem_values_into_adv_map(process, advice),
        SystemEvent::HdwordToMap => insert_hdword_into_adv_map(process, advice, 0),
        SystemEvent::HdwordToMapWithDomain => {
            let domain = process.get_stack_item(HDWORD_TO_MAP_WITH_DOMAIN_DOMAIN_OFFSET);
            insert_hdword_into_adv_map(process, advice, domain)
        },
        SystemEvent::HqwordToMap => insert_hqword_into_adv_map(process, advice),
        SystemEvent::HpermToMap => insert_hperm_into_adv_map(process, advice),
        SystemEvent::Ext2Inv => push_ext2_inv_result(process, advice),
    }
}

} // verus!
