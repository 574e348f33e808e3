//! The Keccak-256 precompile event: the handler hashes bytes packed in memory and returns the
//! digest together with the witness needed to prove the computation later.

use vstd::prelude::*;

use crate::felt::P;
use crate::handlers::{AdviceMutation, EventError};
use crate::hash::{hash_elements, keccak256, keccak256_of, rpo_hash_elements, rpo_merge, rpo_merge_of};
use crate::memory::{ProcessState, lemma_word_at_felts, word_at, words_are_felts};

verus! {

/// Qualified name of the `hash_memory` event.
pub const KECCAK_HASH_MEMORY_EVENT_NAME: &'static str = "stdlib::hash::keccak256::hash_memory";

/// Identifier of the `hash_memory` event, derived from its name.
pub const KECCAK_HASH_MEMORY_EVENT_ID: u64 = 5779517439479051634u64;

/// Errors of the Keccak-256 precompile.
#[derive(Clone, Copy, Debug, PartialEq, Eq)]
pub enum KeccakError {
    /// The input could not be read from memory.
    MemoryReadFailed { ptr: u64, len: u64 },
    /// The input has the wrong number of field elements.
    InvalidInputLength { actual: usize, expected: usize },
    /// A field element of the input does not hold a 32-bit value.
    InvalidFeltValue { value: u64, index: usize },
    /// A byte of the padding of the last element is not zero.
    InvalidPadding { value: u8, index: usize },
}

/// The element at `addr` of memory, if its word was written.
pub open spec fn value_at(writes: Seq<(u32, [u64; 4])>, addr: u32) -> Option<u64> {
    match word_at(writes, (addr - addr % 4) as u32) {
        Some(w) => Some(w[(addr % 4) as int]),
        None => None,
    }
}

/// The number of 32-bit elements that hold `len` bytes.
pub open spec fn packed_len(len: int) -> int {
    (len + 3) / 4
}

/// The witness of a Keccak computation over `len` bytes packed in memory from `ptr`: the
/// length, then the packed elements; none when the pointer is not a word-aligned 32-bit address,
/// the range does not fit in 32 bits, or an element was never written.
pub open spec fn witness_spec(writes: Seq<(u32, [u64; 4])>, ptr: u64, len: u64) -> Option<Seq<u64>> {
    let n = packed_len(len as int);
    if ptr > u32::MAX || ptr % 4 != 0 || ptr + n > u32::MAX {
        None
    } else if exists|i: int| 0 <= i < n && #[trigger] value_at(writes, (ptr + i) as u32) is None {
        None
    } else {
        Some(seq![(len as int % P as int) as u64] + Seq::new(n as nat, |i: int| value_at(writes, (ptr + i) as u32)->0))
    }
}

/// Byte `j` of the little-endian packing of the first `k` elements of `input`, zero beyond.
pub open spec fn packed_byte(input: Seq<u64>, k: int, j: int) -> u8 {
    if j / 4 < k {
        (((input[j / 4] as int) / pow256(j % 4)) % 256) as u8
    } else {
        0
    }
}

/// `256^n` for `n` below 4.
pub open spec fn pow256(n: int) -> int {
    if n == 0 {
        1
    } else if n == 1 {
        256
    } else if n == 2 {
        65536
    } else {
        16777216
    }
}

/// The first position from `from` below `k` whose element is not a 32-bit value, or `k`.
pub open spec fn first_non_u32(input: Seq<u64>, from: int, k: int) -> int
    decreases k - from,
{
    if from >= k {
        k
    } else if input[from] > u32::MAX {
        from
    } else {
        first_non_u32(input, from + 1, k)
    }
}

/// The first position from `from` below `end` whose packed byte is not zero, or `end`.
pub open spec fn first_nonzero_byte(input: Seq<u64>, k: int, from: int, end: int) -> int
    decreases end - from,
{
    if from >= end {
        end
    } else if packed_byte(input, k, from) != 0 {
        from
    } else {
        first_nonzero_byte(input, k, from + 1, end)
    }
}

/// The number of elements that unpacking `len` bytes reads from `input`.
pub open spec fn unpacked_elems(input: Seq<u64>, len: int) -> int {
    if input.len() < packed_len(len) {
        input.len() as int
    } else {
        packed_len(len)
    }
}

/// Unpacking `len` bytes from `input` succeeds: every element read is a 32-bit value and every
/// padding byte of the last element is zero.
pub open spec fn unpacks(input: Seq<u64>, len: int) -> bool {
    let k = unpacked_elems(input, len);
    &&& first_non_u32(input, 0, k) == k
    &&& first_nonzero_byte(input, k, len, 4 * packed_len(len)) == 4 * packed_len(len)
}

/// The bytes that `len` bytes unpack to.
pub open spec fn unpacked_bytes(input: Seq<u64>, len: int) -> Seq<u8> {
    Seq::new(len as nat, |j: int| packed_byte(input, unpacked_elems(input, len), j))
}

/// The error of unpacking `len` bytes from `input`, when it fails: the first element that is not
/// a 32-bit value, else the first nonzero padding byte.
pub open spec fn unpack_error(input: Seq<u64>, len: int) -> KeccakError {
    let k = unpacked_elems(input, len);
    let i = first_non_u32(input, 0, k);
    let j = first_nonzero_byte(input, k, len, 4 * packed_len(len));
    if i < k {
        KeccakError::InvalidFeltValue { value: input[i], index: i as usize }
    } else {
        KeccakError::InvalidPadding { value: packed_byte(input, k, j), index: j as usize }
    }
}

/// The outcome of unpacking `len` bytes from 32-bit elements: the first element that is not a
/// 32-bit value fails, then the first nonzero padding byte fails, else the bytes.
pub open spec fn unpack_outcome(input: Seq<u64>, len: int, r: Result<Vec<u8>, KeccakError>) -> bool {
    if unpacks(input, len) {
        r matches Ok(bytes) && bytes@ == unpacked_bytes(input, len)
    } else {
        r == Err::<Vec<u8>, KeccakError>(unpack_error(input, len))
    }
}

/// Reads the witness of a Keccak computation: the byte length, then the 32-bit elements that
/// pack the bytes, read from memory from `ptr` on.
pub fn read_witness(process: &ProcessState, ptr: u64, len_bytes: u64) -> (r: Option<Vec<u64>>)
    ensures
        match r {
            Some(w) => witness_spec(process.memory.writes@, ptr, len_bytes) == Some(w@),
            None => witness_spec(process.memory.writes@, ptr, len_bytes) is None,
        },
{
    let ghost writes = process.memory.writes@;
    if ptr > 4294967295 {
        return None;
    }
    let start = ptr as u32;
    if start % 4 != 0 {
        return None;
    }
    let len_packed: u64 = len_bytes / 4 + (if len_bytes % 4 != 0 { 1 } else { 0 });
    assert(len_packed == packed_len(len_bytes as int));
    if len_packed > 4294967295 - start as u64 {
        return None;
    }
    let end = start + len_packed as u32;
    let mut witness: Vec<u64> = Vec::new();
    witness.push(len_bytes % P);
    let mut addr = start;
    while addr < end
        invariant
            start <= addr <= end,
            end == start + len_packed,
            len_packed == packed_len(len_bytes as int),
            start == ptr,
            writes == process.memory.writes@,
            witness@ == seq![(len_bytes as int % P as int) as u64] + Seq::new((addr - start) as nat, |i: int| value_at(writes, (ptr + i) as u32)->0),
            forall|i: int| 0 <= i < addr - start ==> #[trigger] value_at(writes, (ptr + i) as u32) is Some,
        decreases end - addr,
    {
        let v = process.memory.get_value(addr);
        match v {
            Some(x) => {
                witness.push(x);
                assert(witness@ =~= seq![(len_bytes as int % P as int) as u64] + Seq::new((addr + 1 - start) as nat, |i: int| value_at(writes, (ptr + i) as u32)->0));
            },
            None => {
                assert(value_at(writes, (ptr + (addr - start)) as u32) is None);
                return None;
            },
        }
        addr = addr + 1;
    }
    Some(witness)
}

/// Unpacks `len_bytes` bytes from 32-bit elements, little-endian; the bytes of the last element
/// beyond `len_bytes` must be zero.
pub fn packed_felts_to_bytes(input: &[u64], len_bytes: usize) -> (r: Result<Vec<u8>, KeccakError>)
    requires
        len_bytes + 3 <= usize::MAX,
    ensures
        unpack_outcome(input@, len_bytes as int, r),
{
    let m = len_bytes / 4 + (if len_bytes % 4 != 0 { 1 } else { 0 });
    assert(m == packed_len(len_bytes as int));
    let k = if input.len() < m { input.len() } else { m };
    let mut i: usize = 0;
    assert(k == unpacked_elems(input@, len_bytes as int));
    while i < k
        invariant
            k <= input@.len(),
            0 <= i <= k,
            k == unpacked_elems(input@, len_bytes as int),
            first_non_u32(input@, 0, k as int) == first_non_u32(input@, i as int, k as int),
            forall|j: int| 0 <= j < i ==> input@[j] <= u32::MAX,
        decreases k - i,
    {
        if input[i] > 4294967295 {
            return Err(KeccakError::InvalidFeltValue { value: input[i], index: i });
        }
        i = i + 1;
    }
    let total = 4 * m;
    let mut bytes: Vec<u8> = Vec::new();
    let mut j: usize = 0;
    while j < total
        invariant
            k <= input@.len(),
            total == 4 * m,
            m == packed_len(len_bytes as int),
            k == (if input@.len() < m { input@.len() as int } else { m as int }),
            forall|t: int| 0 <= t < k ==> input@[t] <= u32::MAX,
            first_non_u32(input@, 0, k as int) == k,
            0 <= j <= total,
            bytes@ == Seq::new(j as nat, |t: int| packed_byte(input@, k as int, t)),
        decreases total - j,
    {
        let b: u8 = if j / 4 < k {
            let v = input[j / 4];
            let sh = j % 4;
            let d: u64 = if sh == 0 { 1 } else if sh == 1 { 256 } else if sh == 2 { 65536 } else { 16777216 };
            ((v / d) % 256) as u8
        } else {
            0
        };
        bytes.push(b);
        assert(bytes@ =~= Seq::new((j + 1) as nat, |t: int| packed_byte(input@, k as int, t)));
        j = j + 1;
    }
    let mut p: usize = len_bytes;
    while p < total
        invariant
            len_bytes <= p <= total,
            total == 4 * m,
            m == packed_len(len_bytes as int),
            k == (if input@.len() < m { input@.len() as int } else { m as int }),
            bytes@ == Seq::new(total as nat, |t: int| packed_byte(input@, k as int, t)),
            first_non_u32(input@, 0, k as int) == k,
            first_nonzero_byte(input@, k as int, len_bytes as int, total as int) == first_nonzero_byte(input@, k as int, p as int, total as int),
        decreases total - p,
    {
        if bytes[p] != 0 {
            return Err(KeccakError::InvalidPadding { value: bytes[p], index: p });
        }
        p = p + 1;
    }
    bytes.truncate(len_bytes);
    assert(bytes@ =~= Seq::new(len_bytes as nat, |t: int| packed_byte(input@, k as int, t)));
    Ok(bytes)
}

/// The eight 32-bit little-endian values of a 32-byte digest.
pub open spec fn felt_digest(bytes: Seq<u8>) -> Seq<u64> {
    Seq::new(8, |i: int| (bytes[4 * i] + 256 * bytes[4 * i + 1] + 65536 * bytes[4 * i + 2] + 16777216 * bytes[4 * i + 3]) as u64)
}

/// A Keccak-256 digest as eight field elements, each holding four bytes of the digest,
/// little-endian.
#[derive(Debug, Copy, Clone, PartialEq, Eq)]
pub struct KeccakFeltDigest(pub [u64; 8]);

impl KeccakFeltDigest {
    /// Packs a 32-byte digest into eight 32-bit values.
    pub fn from_bytes(bytes: &[u8]) -> (r: Self)
        requires
            bytes@.len() == 32,
        ensures
            r.0@ == felt_digest(bytes@),
    {
        let mut out = [0u64; 8];
        let mut i: usize = 0;
        while i < 8
            invariant
                bytes@.len() == 32,
                0 <= i <= 8,
                forall|t: int| 0 <= t < i ==> #[trigger] out@[t] == felt_digest(bytes@)[t],
            decreases 8 - i,
        {
            out[i] = bytes[4 * i] as u64 + 256 * (bytes[4 * i + 1] as u64) + 65536 * (bytes[4 * i + 2] as u64) + 16777216 * (bytes[4 * i + 3] as u64);
            i = i + 1;
        }
        assert(out@ =~= felt_digest(bytes@));
        KeccakFeltDigest(out)
    }

    /// The RPO256 commitment to the digest: the hash of its elements in reverse order.
    pub fn to_commitment(&self) -> (r: [u64; 4])
        requires
            forall|i: int| 0 <= i < 8 ==> #[trigger] self.0@[i] < P,
        ensures
            r@ == rpo_hash_elements(self.0@.reverse()),
            forall|i: int| 0 <= i < 4 ==> #[trigger] r@[i] < P,
    {
        let mut rev: Vec<u64> = Vec::new();
        let mut i: usize = 8;
        while i > 0
            invariant
                0 <= i <= 8,
                forall|t: int| 0 <= t < 8 ==> #[trigger] self.0@[t] < P,
                rev@ == self.0@.reverse().take(8 - i),
            decreases i,
        {
            i = i - 1;
            rev.push(self.0[i]);
            assert(rev@ =~= self.0@.reverse().take(8 - i));
        }
        assert(rev@ =~= self.0@.reverse());
        hash_elements(&rev)
    }

    /// Returns the eight elements of the digest.
    pub fn inner(&self) -> (r: [u64; 8])
        ensures
            r == self.0,
    {
        self.0
    }
}

/// Computes the Keccak-256 hash of bytes packed in memory and returns two changes to the
/// advice provider: the digest, as eight 32-bit values, for the advice stack, and the witness
/// (byte length, then packed input) in the advice map under the commitment
/// `merge(hash(input), commitment(digest))`.
///
/// Inputs: operand stack `[event_id, ptr, len_bytes, ...]`.
pub fn handle_keccak_hash_memory(process: &ProcessState) -> (r: Result<Vec<AdviceMutation>, KeccakError>)
    requires
        process.stack@.len() >= 3,
        process.stack@[2] + 3 <= usize::MAX,
        words_are_felts(process.memory.writes@),
    ensures
        ({
            let ptr = process.stack@[1];
            let len = process.stack@[2];
            match witness_spec(process.memory.writes@, ptr, len) {
                None => r == Err::<Vec<AdviceMutation>, KeccakError>(KeccakError::MemoryReadFailed { ptr, len }),
                Some(w) => {
                    let input = w.drop_first();
                    if unpacks(input, len as int) {
                        let digest = felt_digest(keccak256_of(unpacked_bytes(input, len as int)));
                        let commitment = rpo_merge_of(rpo_hash_elements(input), rpo_hash_elements(digest.reverse()));
                        r matches Ok(muts) && muts@.len() == 2
                            && (muts@[0] matches AdviceMutation::ExtendStack { values } && values@ == digest)
                            && (muts@[1] matches AdviceMutation::ExtendMap { entries } && entries@.len() == 1
                                && entries@[0].0@ == commitment && entries@[0].1@ == w)
                    } else {
                        r == Err::<Vec<AdviceMutation>, KeccakError>(unpack_error(input, len as int))
                    }
                },
            }
        }),
{
    let ptr = process.stack[1];
    let len_bytes = process.stack[2];
    let witness = match read_witness(process, ptr, len_bytes) {
        Some(w) => w,
        None => {
            return Err(KeccakError::MemoryReadFailed { ptr, len: len_bytes });
        },
    };
    let input = slice_from(&witness, 1);
    assert(input@ == witness@.drop_first());
    proof {
        assert forall|i: int| 0 <= i < input@.len() implies #[trigger] input@[i] < P by {
            let addr = (ptr + i) as u32;
            lemma_word_at_felts(process.memory.writes@, (addr - addr % 4) as u32);
            assert(input@[i] == value_at(process.memory.writes@, addr)->0);
        }
    }
    let unpacked = packed_felts_to_bytes(input.as_slice(), len_bytes as usize);
    let input_u8 = match unpacked {
        Ok(b) => b,
        Err(e) => {
            return Err(e);
        },
    };
    let hash_u8 = keccak256(&input_u8);
    let digest = KeccakFeltDigest::from_bytes(&hash_u8);
    proof {
        assert forall|i: int| 0 <= i < 8 implies #[trigger] digest.0@[i] < P by {
            assert(hash_u8@[4 * i] < 256 && hash_u8@[4 * i + 1] < 256 && hash_u8@[4 * i + 2] < 256 && hash_u8@[4 * i + 3] < 256);
        }
    }
    let input_hash = hash_elements(&input);
    let commitment = rpo_merge(input_hash, digest.to_commitment());
    let mut stack_values: Vec<u64> = Vec::new();
    let mut i: usize = 0;
    while i < 8
        invariant
            0 <= i <= 8,
            stack_values@ == digest.0@.take(i as int),
        decreases 8 - i,
    {
        stack_values.push(digest.0[i]);
        assert(stack_values@ =~= digest.0@.take(i + 1));
        i = i + 1;
    }
    assert(stack_values@ =~= digest.0@);
    let entries: Vec<([u64; 4], Vec<u64>)> = vec![(commitment, witness)];
    let r = vec![AdviceMutation::ExtendStack { values: stack_values }, AdviceMutation::ExtendMap { entries }];
    Ok(r)
}

/// The elements of `v` from position `from` on.
fn slice_from(v: &Vec<u64>, from: usize) -> (r: Vec<u64>)
    requires
        from <= v@.len(),
    ensures
        r@ == v@.skip(from as int),
{
    let mut r: Vec<u64> = Vec::new();
    let mut i = from;
    while i < v.len()
        invariant
            from <= i <= v@.len(),
            r@ == v@.subrange(from as int, i as int),
        decreases v@.len() - i,
    {
        r.push(v[i]);
        assert(r@ =~= v@.subrange(from as int, i + 1));
        i = i + 1;
    }
    assert(r@ =~= v@.skip(from as int));
    r
}

} // verus!
