//! Byte-level reading and writing: single bytes, little-endian `u16`s and lengths in the
//! variable-length vint64 format of miden-crypto's serialization utilities.

use vstd::prelude::*;

use miden_crypto::utils::ByteReader as OutsideByteReader;
use miden_crypto::utils::ByteWriter as OutsideByteWriter;

verus! {

/// Why bytes could not be read back as a value.
#[derive(Clone, Copy, Debug, PartialEq, Eq, Structural)]
pub enum DeserializationError {
    /// The bytes ended before the value did.
    UnexpectedEOF,
    /// A length does not fit in a `usize` on this machine.
    UsizeOutOfRange,
    /// A type tag that names no type.
    InvalidTypeTag(u8),
    /// An address-space tag that names no address space.
    InvalidAddressSpaceTag(u8),
    /// A layout tag that names no layout.
    InvalidTypeReprTag(u8),
    /// A calling-convention tag that names no calling convention.
    InvalidCallConvTag(u8),
    /// An alignment of zero.
    ZeroAlignment,
    /// A packed alignment of zero.
    ZeroPackedAlignment,
    /// A byte that represents no hash function.
    InvalidHashFunctionTag(u8),
}

/// The `k` lowest bytes of `x`, least significant first.
pub open spec fn le_bytes(x: nat, k: nat) -> Seq<u8>
    decreases k,
{
    if k == 0 {
        Seq::empty()
    } else {
        seq![(x % 256) as u8] + le_bytes(x / 256, (k - 1) as nat)
    }
}

/// The number whose bytes, least significant first, are `s`.
pub open spec fn le_value(s: Seq<u8>) -> nat
    decreases s.len(),
{
    if s.len() == 0 {
        0
    } else {
        s[0] as nat + 256 * le_value(s.skip(1))
    }
}

/// `256` to the power `k`.
pub open spec fn pow256(k: nat) -> nat
    decreases k,
{
    if k == 0 {
        1
    } else {
        256 * pow256((k - 1) as nat)
    }
}

/// `2` to the power `k`, for the shifts of the vint64 format (`k <= 8`).
pub open spec fn shift(k: nat) -> nat {
    if k == 0 {
        1
    } else if k == 1 {
        2
    } else if k == 2 {
        4
    } else if k == 3 {
        8
    } else if k == 4 {
        16
    } else if k == 5 {
        32
    } else if k == 6 {
        64
    } else if k == 7 {
        128
    } else {
        256
    }
}

/// The number of bytes of the vint64 encoding of `v`: the fewest `n <= 8` with `v < 2^(7n)`,
/// else 9.
pub open spec fn vint64_len(v: u64) -> nat {
    if v < 0x80 {
        1
    } else if v < 0x4000 {
        2
    } else if v < 0x20_0000 {
        3
    } else if v < 0x1000_0000 {
        4
    } else if v < 0x8_0000_0000 {
        5
    } else if v < 0x400_0000_0000 {
        6
    } else if v < 0x2_0000_0000_0000 {
        7
    } else if v < 0x100_0000_0000_0000 {
        8
    } else {
        9
    }
}

/// The vint64 encoding of `v`: for `n` bytes below 9, the `n` low bytes of `(2v + 1) * 2^(n-1)`;
/// for 9 bytes, a zero byte and the eight bytes of `v`.
pub open spec fn vint64_encoding(v: u64) -> Seq<u8> {
    let n = vint64_len(v);
    if n == 9 {
        seq![0u8] + le_bytes(v as nat, 8)
    } else {
        le_bytes((v * shift(n) + shift(n) / 2) as nat, n)
    }
}

/// The length of a vint64 encoding from its first byte: one more than the byte's trailing
/// zeros, and 9 for a zero byte.
pub open spec fn vint64_prefix_len(b: u8) -> nat {
    if b % 2 == 1 {
        1
    } else if b % 4 == 2 {
        2
    } else if b % 8 == 4 {
        3
    } else if b % 16 == 8 {
        4
    } else if b % 32 == 16 {
        5
    } else if b % 64 == 32 {
        6
    } else if b % 128 == 64 {
        7
    } else if b == 128 {
        8
    } else {
        9
    }
}

/// The value and length of the vint64 encoding at the front of `s`, if `s` holds all of it.
pub open spec fn vint64_decode(s: Seq<u8>) -> Option<(nat, nat)> {
    if s.len() == 0 {
        None
    } else {
        let n = vint64_prefix_len(s[0]);
        if s.len() < n {
            None
        } else if n == 9 {
            Some((le_value(s.subrange(1, 9)), 9))
        } else {
            Some((le_value(s.take(n as int)) / shift(n), n))
        }
    }
}

/// What reading a length at the front of `s` gives: the length and the bytes it took.
pub open spec fn vint64_read(s: Seq<u8>) -> Result<(usize, nat), DeserializationError> {
    match vint64_decode(s) {
        None => Err(DeserializationError::UnexpectedEOF),
        Some((v, n)) => if v > usize::MAX {
            Err(DeserializationError::UsizeOutOfRange)
        } else {
            Ok((v as usize, n))
        },
    }
}

/// Two bytes hold a number below `2^16`.
pub proof fn lemma_le_value_u16(s: Seq<u8>)
    requires
        s.len() == 2,
    ensures
        le_value(s) == s[0] as nat + 256 * (s[1] as nat),
        le_value(s) < 0x10000,
{
    reveal_with_fuel(le_value, 3);
    assert(s.skip(1)[0] == s[1]);
    assert(s.skip(1).skip(1) =~= Seq::<u8>::empty());
}

/// A decoded length takes between one and nine bytes, all of them in `s`.
pub proof fn lemma_vint64_read_bounds(s: Seq<u8>)
    ensures
        vint64_read(s) matches Ok((v, n)) ==> 1 <= n <= 9 && n <= s.len(),
{
}

/// The bytes of `x` read back as `x`, when `x` fits in them.
pub proof fn lemma_le_roundtrip(x: nat, k: nat)
    requires
        x < pow256(k),
    ensures
        le_bytes(x, k).len() == k,
        le_value(le_bytes(x, k)) == x,
    decreases k,
{
    if k > 0 {
        lemma_le_roundtrip(x / 256, (k - 1) as nat);
        let s = le_bytes(x, k);
        assert(s.skip(1) =~= le_bytes(x / 256, (k - 1) as nat));
    }
}

/// Reading a length back from its vint64 encoding, whatever follows it, gives the length and
/// consumes exactly the encoding.
pub proof fn lemma_vint64_roundtrip(v: u64, rest: Seq<u8>)
    ensures
        vint64_encoding(v).len() == vint64_len(v),
        1 <= vint64_len(v) <= 9,
        vint64_decode(vint64_encoding(v) + rest) == Some((v as nat, vint64_len(v))),
{
    reveal_with_fuel(pow256, 9);
    let n = vint64_len(v);
    let e = vint64_encoding(v);
    let s = e + rest;
    if n == 9 {
        lemma_le_roundtrip(v as nat, 8);
        assert(s.subrange(1, 9) =~= le_bytes(v as nat, 8));
    } else {
        let x = (v * shift(n) + shift(n) / 2) as nat;
        assert(x < pow256(n)) by {
            if n == 1 {
            } else if n == 2 {
            } else if n == 3 {
            } else if n == 4 {
            } else if n == 5 {
            } else if n == 6 {
            } else if n == 7 {
            } else {
            }
        }
        lemma_le_roundtrip(x, n);
        assert(s.take(n as int) =~= e);
        assert(s[0] == (x % 256) as u8);
        assert(vint64_prefix_len(s[0]) == n) by {
            let b = (x % 256) as u8;
            if n == 1 {
                assert(b % 2 == 1);
            } else if n == 2 {
                assert(b % 2 == 0 && b % 4 == 2);
            } else if n == 3 {
                assert(b % 2 == 0 && b % 4 == 0 && b % 8 == 4);
            } else if n == 4 {
                assert(b % 2 == 0 && b % 4 == 0 && b % 8 == 0 && b % 16 == 8);
            } else if n == 5 {
                assert(b % 2 == 0 && b % 4 == 0 && b % 8 == 0 && b % 16 == 0 && b % 32 == 16);
            } else if n == 6 {
                assert(b % 2 == 0 && b % 4 == 0 && b % 8 == 0 && b % 16 == 0 && b % 32 == 0
                    && b % 64 == 32);
            } else if n == 7 {
                assert(b % 2 == 0 && b % 4 == 0 && b % 8 == 0 && b % 16 == 0 && b % 32 == 0
                    && b % 64 == 0 && b % 128 == 64);
            } else {
                assert(b == 128);
            }
        }
        assert(x / shift(n) == v as nat);
    }
}

/// Appends the vint64 encoding of `value` to `target`. The bytes are those that
/// `ByteWriter::write_usize` of miden-crypto's serialization utilities writes; the contract
/// states them.
#[verifier::external_body]
pub(crate) fn write_usize(target: &mut Vec<u8>, value: usize)
    ensures
        final(target)@ == old(target)@ + vint64_encoding(value as u64),
{
    OutsideByteWriter::write_usize(target, value);
}

/// Reads a vint64-encoded length at `pos` of `bytes`, by `ByteReader::read_usize` of
/// miden-crypto's serialization utilities on a cursor over `bytes`. The contract states the
/// decoding and returns the position just past the encoding.
#[verifier::external_body]
fn read_usize(bytes: &[u8], pos: usize) -> (r: Result<(usize, usize), DeserializationError>)
    requires
        pos <= bytes@.len(),
    ensures
        r == (match vint64_read(bytes@.skip(pos as int)) {
            Ok((v, n)) => Ok::<(usize, usize), DeserializationError>((v, (pos + n) as usize)),
            Err(e) => Err(e),
        }),
{
    let mut cursor = std::io::Cursor::new(bytes);
    cursor.set_position(pos as u64);
    match OutsideByteReader::read_usize(&mut cursor) {
        Ok(v) => Ok((v, cursor.position() as usize)),
        Err(miden_crypto::utils::DeserializationError::UnexpectedEOF) => Err(DeserializationError::UnexpectedEOF),
        Err(miden_crypto::utils::DeserializationError::InvalidValue(_)) => Err(DeserializationError::UsizeOutOfRange),
        Err(miden_crypto::utils::DeserializationError::UnknownError(_)) => Err(DeserializationError::UsizeOutOfRange),
    }
}

/// A position in a sequence of bytes being read.
pub struct ByteCursor<'a> {
    pub bytes: &'a [u8],
    pub pos: usize,
}

impl<'a> ByteCursor<'a> {
    /// The bytes not read yet.
    pub open spec fn rest(&self) -> Seq<u8> {
        self.bytes@.skip(self.pos as int)
    }

    /// The position lies within the bytes.
    pub open spec fn wf(&self) -> bool {
        self.pos <= self.bytes@.len()
    }

    /// Returns a cursor at the start of `bytes`.
    pub fn new(bytes: &'a [u8]) -> (r: Self)
        ensures
            r.bytes@ == bytes@,
            r.pos == 0,
            r.wf(),
    {
        ByteCursor { bytes, pos: 0 }
    }

    /// Reads one byte.
    pub fn read_u8(&mut self) -> (r: Result<u8, DeserializationError>)
        requires
            old(self).wf(),
        ensures
            final(self).wf(),
            final(self).bytes@ == old(self).bytes@,
            old(self).rest().len() == 0 ==> r == Err::<u8, DeserializationError>(
                DeserializationError::UnexpectedEOF,
            ) && final(self).pos == old(self).pos,
            old(self).rest().len() > 0 ==> r == Ok::<u8, DeserializationError>(old(self).rest()[0])
                && final(self).pos == old(self).pos + 1,
    {
        if self.pos < self.bytes.len() {
            let b = self.bytes[self.pos];
            self.pos = self.pos + 1;
            Ok(b)
        } else {
            Err(DeserializationError::UnexpectedEOF)
        }
    }

    /// Reads a `u16` stored least significant byte first.
    pub fn read_u16(&mut self) -> (r: Result<u16, DeserializationError>)
        requires
            old(self).wf(),
        ensures
            final(self).wf(),
            final(self).bytes@ == old(self).bytes@,
            old(self).rest().len() < 2 ==> r == Err::<u16, DeserializationError>(
                DeserializationError::UnexpectedEOF,
            ) && final(self).pos == old(self).pos,
            old(self).rest().len() >= 2 ==> r == Ok::<u16, DeserializationError>(
                le_value(old(self).rest().take(2)) as u16,
            ) && final(self).pos == old(self).pos + 2,
    {
        if self.bytes.len() - self.pos < 2 {
            return Err(DeserializationError::UnexpectedEOF);
        }
        let lo = self.bytes[self.pos];
        let hi = self.bytes[self.pos + 1];
        self.pos = self.pos + 2;
        proof {
            let t = old(self).rest().take(2);
            reveal_with_fuel(le_value, 3);
            assert(t[0] == lo);
            assert(t.skip(1)[0] == hi);
            assert(t.skip(1).skip(1) =~= Seq::<u8>::empty());
            assert(le_value(t) == lo as nat + 256 * (hi as nat));
        }
        Ok(lo as u16 + 256 * (hi as u16))
    }

    /// Reads a vint64-encoded length.
    pub fn read_usize(&mut self) -> (r: Result<usize, DeserializationError>)
        requires
            old(self).wf(),
        ensures
            final(self).wf(),
            final(self).bytes@ == old(self).bytes@,
            match vint64_read(old(self).rest()) {
                Ok((v, n)) => r == Ok::<usize, DeserializationError>(v) && final(self).pos
                    == old(self).pos + n,
                Err(e) => r == Err::<usize, DeserializationError>(e) && final(self).pos
                    == old(self).pos,
            },
    {
        let len = self.bytes.len();
        proof {
            lemma_vint64_read_bounds(self.rest());
            assert(self.rest().len() == len - self.pos);
        }
        match read_usize(self.bytes, self.pos) {
            Ok((v, p)) => {
                self.pos = p;
                Ok(v)
            },
            Err(e) => Err(e),
        }
    }
}

/// Appends a `u16`, least significant byte first.
pub fn write_u16(target: &mut Vec<u8>, value: u16)
    ensures
        final(target)@ == old(target)@ + le_bytes(value as nat, 2),
{
    target.push((value % 256) as u8);
    target.push((value / 256) as u8);
    proof {
        reveal_with_fuel(le_bytes, 3);
        assert(target@ =~= old(target)@ + le_bytes(value as nat, 2));
    }
}

} // verus!
