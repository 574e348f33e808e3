//! Execution proofs and the hash functions they are generated with.

use vstd::prelude::*;

use crate::byte_codec::{ByteCursor, DeserializationError};
use crate::hash::{
    blake3_192_collision_resistance, blake3_256_collision_resistance,
    poseidon2_collision_resistance, rpo256_collision_resistance, rpx256_collision_resistance,
};

verus! {

/// A hash function used during STARK proof generation, numbered from 0 in the order below.
#[derive(Debug, Clone, Copy, PartialEq, Eq, Hash)]
pub enum HashFunction {
    /// BLAKE3 hash function with 192-bit output.
    Blake3_192,
    /// BLAKE3 hash function with 256-bit output.
    Blake3_256,
    /// RPO hash function with 256-bit output.
    Rpo256,
    /// RPX hash function with 256-bit output.
    Rpx256,
    /// Poseidon2 hash function with 256-bit output.
    Poseidon2,
}

/// The byte that represents each hash function.
pub open spec fn hash_fn_repr(h: HashFunction) -> u8 {
    match h {
        HashFunction::Blake3_192 => 0,
        HashFunction::Blake3_256 => 1,
        HashFunction::Rpo256 => 2,
        HashFunction::Rpx256 => 3,
        HashFunction::Poseidon2 => 4,
    }
}

/// The name of each hash function in execution options.
pub open spec fn hash_fn_name(h: HashFunction) -> Seq<char> {
    match h {
        HashFunction::Blake3_192 => seq!['b', 'l', 'a', 'k', 'e', '3', '-', '1', '9', '2'],
        HashFunction::Blake3_256 => seq!['b', 'l', 'a', 'k', 'e', '3', '-', '2', '5', '6'],
        HashFunction::Rpo256 => seq!['r', 'p', 'o'],
        HashFunction::Rpx256 => seq!['r', 'p', 'x'],
        HashFunction::Poseidon2 => seq!['p', 'o', 's', 'e', 'i', 'd', 'o', 'n', '2'],
    }
}

/// Errors in reading a hash function.
#[derive(Debug, Clone, PartialEq, Eq)]
pub enum HashFunctionError {
    /// The byte does not represent a hash function.
    InvalidRepr(u8),
    /// The name does not name a hash function.
    InvalidName(String),
}

impl HashFunction {
    /// Returns the collision resistance level, in bits, of this hash function: 96 for
    /// BLAKE3-192 and 128 for the others.
    pub fn collision_resistance(&self) -> (r: u32)
        ensures
            r == (if *self == HashFunction::Blake3_192 { 96u32 } else { 128u32 }),
    {
        match self {
            HashFunction::Blake3_192 => blake3_192_collision_resistance(),
            HashFunction::Blake3_256 => blake3_256_collision_resistance(),
            HashFunction::Rpo256 => rpo256_collision_resistance(),
            HashFunction::Rpx256 => rpx256_collision_resistance(),
            HashFunction::Poseidon2 => poseidon2_collision_resistance(),
        }
    }

    /// Returns the byte that represents this hash function.
    pub fn repr(&self) -> (r: u8)
        ensures
            r == hash_fn_repr(*self),
    {
        match self {
            HashFunction::Blake3_192 => 0,
            HashFunction::Blake3_256 => 1,
            HashFunction::Rpo256 => 2,
            HashFunction::Rpx256 => 3,
            HashFunction::Poseidon2 => 4,
        }
    }

    /// Returns the hash function that a byte represents.
    pub fn try_from_u8(repr: u8) -> (r: Result<HashFunction, HashFunctionError>)
        ensures
            repr <= 4 <==> r is Ok,
            r matches Ok(h) ==> hash_fn_repr(h) == repr,
            r is Err ==> r == Err::<HashFunction, HashFunctionError>(
                HashFunctionError::InvalidRepr(repr),
            ),
    {
        match repr {
            0 => Ok(HashFunction::Blake3_192),
            1 => Ok(HashFunction::Blake3_256),
            2 => Ok(HashFunction::Rpo256),
            3 => Ok(HashFunction::Rpx256),
            4 => Ok(HashFunction::Poseidon2),
            _ => Err(HashFunctionError::InvalidRepr(repr)),
        }
    }

    /// Returns the hash function of a name: `blake3-192`, `blake3-256`, `rpo`, `rpx` or
    /// `poseidon2`.
    pub fn try_from_str(name: &str) -> (r: Result<HashFunction, HashFunctionError>)
        ensures
            r matches Ok(h) ==> hash_fn_name(h) == name@,
            r is Err ==> forall|h: HashFunction| hash_fn_name(h) != name@,
    {
        proof {
            reveal_strlit("blake3-192");
            reveal_strlit("blake3-256");
            reveal_strlit("rpo");
            reveal_strlit("rpx");
            reveal_strlit("poseidon2");
            assert("blake3-192"@ =~= hash_fn_name(HashFunction::Blake3_192));
            assert("blake3-256"@ =~= hash_fn_name(HashFunction::Blake3_256));
            assert("rpo"@ =~= hash_fn_name(HashFunction::Rpo256));
            assert("rpx"@ =~= hash_fn_name(HashFunction::Rpx256));
            assert("poseidon2"@ =~= hash_fn_name(HashFunction::Poseidon2));
        }
        if str_eq(name, "blake3-192") {
            Ok(HashFunction::Blake3_192)
        } else if str_eq(name, "blake3-256") {
            Ok(HashFunction::Blake3_256)
        } else if str_eq(name, "rpo") {
            Ok(HashFunction::Rpo256)
        } else if str_eq(name, "rpx") {
            Ok(HashFunction::Rpx256)
        } else if str_eq(name, "poseidon2") {
            Ok(HashFunction::Poseidon2)
        } else {
            assert forall|h: HashFunction| hash_fn_name(h) != name@ by {
                match h {
                    HashFunction::Blake3_192 => {},
                    HashFunction::Blake3_256 => {},
                    HashFunction::Rpo256 => {},
                    HashFunction::Rpx256 => {},
                    HashFunction::Poseidon2 => {},
                }
            }
            Err(HashFunctionError::InvalidName(name.to_string()))
        }
    }
}

/// Compares two strings character by character.
fn str_eq(a: &str, b: &str) -> (r: bool)
    ensures
        r == (a@ == b@),
{
    let n = a.unicode_len();
    if n != b.unicode_len() {
        return false;
    }
    let mut i: usize = 0;
    while i < n
        invariant
            n == a@.len(),
            n == b@.len(),
            0 <= i <= n,
            forall|j: int| 0 <= j < i ==> a@[j] == b@[j],
        decreases n - i,
    {
        if a.get_char(i) != b.get_char(i) {
            return false;
        }
        i = i + 1;
    }
    assert(a@ =~= b@);
    true
}

/// A proof of correct execution of the VM: the encoded STARK proof and the hash function it
/// was generated with.
pub struct ExecutionProof {
    pub proof: Vec<u8>,
    pub hash_fn: HashFunction,
}

impl ExecutionProof {
    /// Creates a proof from the encoded STARK proof and its hash function.
    pub fn new(proof: Vec<u8>, hash_fn: HashFunction) -> (r: Self)
        ensures
            r.proof@ == proof@,
            r.hash_fn == hash_fn,
    {
        ExecutionProof { proof, hash_fn }
    }

    /// Returns a copy of the encoded STARK proof.
    pub fn stark_proof(&self) -> (r: Vec<u8>)
        ensures
            r@ == self.proof@,
    {
        let mut r: Vec<u8> = Vec::new();
        let mut i: usize = 0;
        while i < self.proof.len()
            invariant
                0 <= i <= self.proof@.len(),
                r@ == self.proof@.take(i as int),
            decreases self.proof@.len() - i,
        {
            r.push(self.proof[i]);
            assert(self.proof@.take(i + 1) =~= self.proof@.take(i as int).push(self.proof@[i as int]));
            i = i + 1;
        }
        assert(self.proof@.take(self.proof@.len() as int) =~= self.proof@);
        r
    }

    /// Returns the hash function used to generate the proof.
    pub fn hash_fn(&self) -> (r: HashFunction)
        ensures
            r == self.hash_fn,
    {
        self.hash_fn
    }

    /// Returns the conjectured security level of this proof, in bits.
    pub fn security_level(&self) -> (r: u32)
        ensures
            r == 128,
    {
        128
    }

    /// Returns the hash function and the encoded STARK proof.
    pub fn into_parts(self) -> (r: (HashFunction, Vec<u8>))
        ensures
            r.0 == self.hash_fn,
            r.1@ == self.proof@,
    {
        (self.hash_fn, self.proof)
    }

    /// Returns a placeholder proof: no proof bytes, generated with BLAKE3-192.
    pub fn new_dummy() -> (r: Self)
        ensures
            r.proof@.len() == 0,
            r.hash_fn == HashFunction::Blake3_192,
    {
        ExecutionProof { proof: Vec::new(), hash_fn: HashFunction::Blake3_192 }
    }
}

impl HashFunction {
    /// Appends the byte that represents this hash function.
    pub fn write_into(&self, target: &mut Vec<u8>)
        ensures
            final(target)@ == old(target)@.push(hash_fn_repr(*self)),
    {
        target.push(self.repr());
    }

    /// Reads a hash function from the byte at the cursor.
    pub fn read_from(source: &mut ByteCursor) -> (r: Result<HashFunction, DeserializationError>)
        requires
            old(source).wf(),
        ensures
            final(source).wf(),
            final(source).bytes@ == old(source).bytes@,
            old(source).rest().len() == 0 ==> r == Err::<HashFunction, DeserializationError>(
                DeserializationError::UnexpectedEOF,
            ) && final(source).pos == old(source).pos,
            old(source).rest().len() > 0 ==> final(source).pos == old(source).pos + 1 && ({
                let b = old(source).rest()[0];
                &&& b <= 4 ==> (r matches Ok(h) && hash_fn_repr(h) == b)
                &&& b > 4 ==> r == Err::<HashFunction, DeserializationError>(
                    DeserializationError::InvalidHashFunctionTag(b),
                )
            }),
    {
        let b = source.read_u8()?;
        match HashFunction::try_from_u8(b) {
            Ok(h) => Ok(h),
            Err(_) => Err(DeserializationError::InvalidHashFunctionTag(b)),
        }
    }
}

/// Each hash function is read back from the byte that represents it: distinct hash functions
/// have distinct bytes, all of which `read_from` accepts, so what `write_into` appends
/// `read_from` reads back as the same hash function.
pub proof fn lemma_hash_fn_repr_injective(a: HashFunction, b: HashFunction)
    ensures
        hash_fn_repr(a) == hash_fn_repr(b) ==> a == b,
        hash_fn_repr(a) <= 4,
{
}

} // verus!
