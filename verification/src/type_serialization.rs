//! The binary format in which a library stores the types of its procedures' signatures, with
//! writers and readers for it.
//!
//! A type is a tag byte followed by what the tag needs: an address-space byte and the pointee
//! for a pointer; a layout, a field count byte and the fields for a struct; a vint64 length and
//! the element type for an array; the element type for a list; a calling-convention byte, then
//! the parameters and the results, each a vint64 count followed by the types, for a function.

use vstd::prelude::*;

use crate::byte_codec::{
    ByteCursor, DeserializationError, le_bytes, le_value, lemma_le_roundtrip,
    lemma_vint64_roundtrip, pow256, vint64_encoding, vint64_read, write_u16, write_usize,
};
use crate::hir_types::{
    int_bits, scalar_types,
    AddressSpace, ArrayType, CallConv, FunctionModel, FunctionType, PointerType, StructType,
    Type, TypeModel, TypeRepr, lemma_models_append, lemma_models_index, models,
};

verus! {

broadcast use vstd::std_specs::vec::group_vec_axioms;

// ------------------------------------------------------------------------------------------
// The format
// ------------------------------------------------------------------------------------------

/// The byte of an address space.
pub open spec fn addrspace_tag(a: AddressSpace) -> u8 {
    match a {
        AddressSpace::Byte => 0,
        AddressSpace::Element => 1,
    }
}

/// The byte of a calling convention.
pub open spec fn callconv_tag(c: CallConv) -> u8 {
    match c {
        CallConv::Fast => 0,
        CallConv::SystemV => 1,
        CallConv::Wasm => 2,
        CallConv::CanonLift => 3,
        CallConv::CanonLower => 4,
        CallConv::Kernel => 5,
    }
}

/// The calling convention of a byte below 6.
pub open spec fn callconv_of(b: u8) -> CallConv {
    if b == 0 {
        CallConv::Fast
    } else if b == 1 {
        CallConv::SystemV
    } else if b == 2 {
        CallConv::Wasm
    } else if b == 3 {
        CallConv::CanonLift
    } else if b == 4 {
        CallConv::CanonLower
    } else {
        CallConv::Kernel
    }
}

/// The bytes of a struct layout: its tag, and for an alignment its two bytes.
pub open spec fn repr_encoding(r: TypeRepr) -> Seq<u8> {
    match r {
        TypeRepr::Default => seq![0u8],
        TypeRepr::Align(a) => seq![1u8] + le_bytes(a as nat, 2),
        TypeRepr::Packed(a) => seq![2u8] + le_bytes(a as nat, 2),
        TypeRepr::Transparent => seq![3u8],
        TypeRepr::BigEndian => seq![4u8],
    }
}

/// The tag of a type that carries nothing more, and whether the type is one.
pub open spec fn scalar_tag(m: TypeModel) -> Option<u8> {
    match m {
        TypeModel::Unknown => Some(0u8),
        TypeModel::Never => Some(1u8),
        TypeModel::I1 => Some(2u8),
        TypeModel::I8 => Some(3u8),
        TypeModel::U8 => Some(4u8),
        TypeModel::I16 => Some(5u8),
        TypeModel::U16 => Some(6u8),
        TypeModel::I32 => Some(7u8),
        TypeModel::U32 => Some(8u8),
        TypeModel::I64 => Some(9u8),
        TypeModel::U64 => Some(10u8),
        TypeModel::I128 => Some(11u8),
        TypeModel::U128 => Some(12u8),
        TypeModel::U256 => Some(13u8),
        TypeModel::F64 => Some(14u8),
        TypeModel::Felt => Some(15u8),
        _ => None,
    }
}

/// The type that carries nothing more of a tag below 16.
pub open spec fn scalar_of(tag: u8) -> TypeModel {
    if tag == 0 {
        TypeModel::Unknown
    } else if tag == 1 {
        TypeModel::Never
    } else if tag == 2 {
        TypeModel::I1
    } else if tag == 3 {
        TypeModel::I8
    } else if tag == 4 {
        TypeModel::U8
    } else if tag == 5 {
        TypeModel::I16
    } else if tag == 6 {
        TypeModel::U16
    } else if tag == 7 {
        TypeModel::I32
    } else if tag == 8 {
        TypeModel::U32
    } else if tag == 9 {
        TypeModel::I64
    } else if tag == 10 {
        TypeModel::U64
    } else if tag == 11 {
        TypeModel::I128
    } else if tag == 12 {
        TypeModel::U128
    } else if tag == 13 {
        TypeModel::U256
    } else if tag == 14 {
        TypeModel::F64
    } else {
        TypeModel::Felt
    }
}

/// The bytes written for a type.
pub open spec fn encode_type(m: TypeModel) -> Seq<u8>
    decreases m,
{
    match m {
        TypeModel::Ptr(a, p) => seq![16u8, addrspace_tag(a)] + encode_type(*p),
        TypeModel::Struct(r, fs) => seq![17u8] + repr_encoding(r) + seq![(fs.len() % 256) as u8]
            + encode_types(fs),
        TypeModel::Array(t, n) => seq![18u8] + vint64_encoding(n as u64) + encode_type(*t),
        TypeModel::List(t) => seq![19u8] + encode_type(*t),
        TypeModel::Function(f) => seq![20u8] + encode_function(f),
        _ => seq![scalar_tag(m).unwrap()],
    }
}

/// The bytes written for a sequence of types: each type's, in order.
pub open spec fn encode_types(ms: Seq<TypeModel>) -> Seq<u8>
    decreases ms,
{
    if ms.len() == 0 {
        Seq::empty()
    } else {
        encode_type(ms[0]) + encode_types(ms.skip(1))
    }
}

/// The bytes written for a function type.
pub open spec fn encode_function(f: FunctionModel) -> Seq<u8>
    decreases f,
{
    seq![callconv_tag(f.abi)] + vint64_encoding(f.params.len() as u64) + encode_types(f.params)
        + vint64_encoding(f.results.len() as u64) + encode_types(f.results)
}

/// What reading a struct layout at the front of `s` gives: the layout and the bytes it took.
pub open spec fn decode_repr(s: Seq<u8>) -> Result<(TypeRepr, nat), DeserializationError> {
    if s.len() == 0 {
        Err(DeserializationError::UnexpectedEOF)
    } else if s[0] == 0 {
        Ok((TypeRepr::Default, 1))
    } else if s[0] == 1 || s[0] == 2 {
        if s.len() < 3 {
            Err(DeserializationError::UnexpectedEOF)
        } else {
            let a = le_value(s.subrange(1, 3));
            if a == 0 {
                Err(
                    if s[0] == 1 {
                        DeserializationError::ZeroAlignment
                    } else {
                        DeserializationError::ZeroPackedAlignment
                    },
                )
            } else if s[0] == 1 {
                Ok((TypeRepr::Align(a as u16), 3))
            } else {
                Ok((TypeRepr::Packed(a as u16), 3))
            }
        }
    } else if s[0] == 3 {
        Ok((TypeRepr::Transparent, 1))
    } else if s[0] == 4 {
        Ok((TypeRepr::BigEndian, 1))
    } else {
        Err(DeserializationError::InvalidTypeReprTag(s[0]))
    }
}

/// What reading a type at the front of `s` gives: the type and the bytes it took, or the
/// first error met.
#[verifier::opaque]
pub open spec fn decode_type(s: Seq<u8>) -> Result<(TypeModel, nat), DeserializationError>
    decreases s.len(), 0nat,
{
    if s.len() == 0 {
        Err(DeserializationError::UnexpectedEOF)
    } else {
        let tag = s[0];
        if tag <= 15 {
            Ok((scalar_of(tag), 1))
        } else if tag == 16 {
            if s.len() < 2 {
                Err(DeserializationError::UnexpectedEOF)
            } else if s[1] > 1 {
                Err(DeserializationError::InvalidAddressSpaceTag(s[1]))
            } else {
                let a = if s[1] == 0 {
                    AddressSpace::Byte
                } else {
                    AddressSpace::Element
                };
                match decode_type(s.skip(2)) {
                    Ok((p, n)) => Ok((TypeModel::Ptr(a, Box::new(p)), n + 2)),
                    Err(e) => Err(e),
                }
            }
        } else if tag == 17 {
            match decode_repr(s.skip(1)) {
                Err(e) => Err(e),
                Ok((r, k)) => if s.len() < 2 + k {
                    Err(DeserializationError::UnexpectedEOF)
                } else {
                    match decode_types(s.skip((2 + k) as int), s[(1 + k) as int] as nat) {
                        Ok((fs, n)) => Ok((TypeModel::Struct(r, fs), 2 + k + n)),
                        Err(e) => Err(e),
                    }
                },
            }
        } else if tag == 18 {
            match vint64_read(s.skip(1)) {
                Err(e) => Err(e),
                Ok((len, k)) => if s.len() < 1 + k {
                    Err(DeserializationError::UnexpectedEOF)
                } else {
                    match decode_type(s.skip((1 + k) as int)) {
                        Ok((t, n)) => Ok((TypeModel::Array(Box::new(t), len), 1 + k + n)),
                        Err(e) => Err(e),
                    }
                },
            }
        } else if tag == 19 {
            match decode_type(s.skip(1)) {
                Ok((t, n)) => Ok((TypeModel::List(Box::new(t)), 1 + n)),
                Err(e) => Err(e),
            }
        } else if tag == 20 {
            match decode_function(s.skip(1)) {
                Ok((f, n)) => Ok((TypeModel::Function(f), 1 + n)),
                Err(e) => Err(e),
            }
        } else {
            Err(DeserializationError::InvalidTypeTag(tag))
        }
    }
}

/// What reading `n` types one after another at the front of `s` gives.
pub open spec fn decode_types(s: Seq<u8>, n: nat) -> Result<(Seq<TypeModel>, nat), DeserializationError>
    decreases s.len(), n + 1,
{
    if n == 0 {
        Ok((Seq::empty(), 0))
    } else {
        match decode_type(s) {
            Err(e) => Err(e),
            Ok((t, c)) => if c == 0 || s.len() < c {
                Err(DeserializationError::UnexpectedEOF)
            } else {
                match decode_types(s.skip(c as int), (n - 1) as nat) {
                    Ok((ts, d)) => Ok((seq![t] + ts, c + d)),
                    Err(e) => Err(e),
                }
            },
        }
    }
}

/// What reading a function type at the front of `s` gives.
pub open spec fn decode_function(s: Seq<u8>) -> Result<(FunctionModel, nat), DeserializationError>
    decreases s.len(), 0nat,
{
    if s.len() == 0 {
        Err(DeserializationError::UnexpectedEOF)
    } else if s[0] > 5 {
        Err(DeserializationError::InvalidCallConvTag(s[0]))
    } else {
        match vint64_read(s.skip(1)) {
            Err(e) => Err(e),
            Ok((np, a)) => if s.len() < 1 + a {
                Err(DeserializationError::UnexpectedEOF)
            } else {
                match decode_types(s.skip((1 + a) as int), np as nat) {
                    Err(e) => Err(e),
                    Ok((ps, b)) => if s.len() < 1 + a + b {
                        Err(DeserializationError::UnexpectedEOF)
                    } else {
                        match vint64_read(s.skip((1 + a + b) as int)) {
                            Err(e) => Err(e),
                            Ok((nr, c)) => if s.len() < 1 + a + b + c {
                                Err(DeserializationError::UnexpectedEOF)
                            } else {
                                match decode_types(s.skip((1 + a + b + c) as int), nr as nat) {
                                    Err(e) => Err(e),
                                    Ok((rs, d)) => Ok(
                                        (
                                            FunctionModel {
                                                abi: callconv_of(s[0]),
                                                params: ps,
                                                results: rs,
                                            },
                                            1 + a + b + c + d,
                                        ),
                                    ),
                                }
                            },
                        }
                    },
                }
            },
        }
    }
}

// ------------------------------------------------------------------------------------------
// Which types the format carries
// ------------------------------------------------------------------------------------------

/// A layout that can be read back: alignments are not zero.
pub open spec fn wf_repr(r: TypeRepr) -> bool {
    match r {
        TypeRepr::Align(a) => a != 0,
        TypeRepr::Packed(a) => a != 0,
        _ => true,
    }
}

/// A type that can be written and read back: every struct in it has a layout that can be
/// read back and at most 255 fields, and every list of types fits a `usize` count.
pub open spec fn wf_type(m: TypeModel) -> bool
    decreases m,
{
    match m {
        TypeModel::Ptr(_, p) => wf_type(*p),
        TypeModel::Struct(r, fs) => wf_repr(r) && fs.len() <= 255 && wf_types(fs),
        TypeModel::Array(t, _) => wf_type(*t),
        TypeModel::List(t) => wf_type(*t),
        TypeModel::Function(f) => wf_function(f),
        _ => true,
    }
}

/// Every type of the sequence can be written and read back.
pub open spec fn wf_types(ms: Seq<TypeModel>) -> bool
    decreases ms,
{
    ms.len() == 0 || (wf_type(ms[0]) && wf_types(ms.skip(1)))
}

/// A function type that can be written and read back.
pub open spec fn wf_function(f: FunctionModel) -> bool
    decreases f,
{
    f.params.len() <= usize::MAX && f.results.len() <= usize::MAX && wf_types(f.params)
        && wf_types(f.results)
}

// ------------------------------------------------------------------------------------------
// Reading back what was written
// ------------------------------------------------------------------------------------------

/// Reading a type that carries nothing more back from its tag.
proof fn lemma_scalar_roundtrip(m: TypeModel, rest: Seq<u8>)
    requires
        scalar_tag(m) is Some,
    ensures
        encode_type(m) == seq![scalar_tag(m).unwrap()],
        decode_type(encode_type(m) + rest) == Ok::<(TypeModel, nat), DeserializationError>((m, 1)),
{
    reveal(decode_type);
    let s = encode_type(m) + rest;
    assert(s[0] == scalar_tag(m).unwrap());
    assert(scalar_of(scalar_tag(m).unwrap()) == m);
}

/// Reading a pointer type back, given that its pointee reads back.
proof fn lemma_ptr_roundtrip(m: TypeModel, rest: Seq<u8>)
    requires
        m is Ptr,
        decode_type(encode_type(*m->Ptr_1) + rest) == Ok::<(TypeModel, nat), DeserializationError>(
            (*m->Ptr_1, encode_type(*m->Ptr_1).len()),
        ),
    ensures
        decode_type(encode_type(m) + rest) == Ok::<(TypeModel, nat), DeserializationError>(
            (m, encode_type(m).len()),
        ),
{
    reveal(decode_type);
    let p = *m->Ptr_1;
    let s = encode_type(m) + rest;
    assert(s.skip(2) =~= encode_type(p) + rest);
    assert(s[1] == addrspace_tag(m->Ptr_0));
}

/// Reading a struct type back, given that its fields read back.
proof fn lemma_struct_roundtrip(m: TypeModel, rest: Seq<u8>)
    requires
        m is Struct,
        wf_repr(m->Struct_0),
        m->Struct_1.len() <= 255,
        decode_types(encode_types(m->Struct_1) + rest, m->Struct_1.len()) == Ok::<
            (Seq<TypeModel>, nat),
            DeserializationError,
        >((m->Struct_1, encode_types(m->Struct_1).len())),
    ensures
        decode_type(encode_type(m) + rest) == Ok::<(TypeModel, nat), DeserializationError>(
            (m, encode_type(m).len()),
        ),
{
    reveal(decode_type);
    reveal_with_fuel(pow256, 3);
    let r = m->Struct_0;
    let fs = m->Struct_1;
    let re = repr_encoding(r);
    let s = encode_type(m) + rest;
    assert(s.skip(1) =~= re + (seq![(fs.len() % 256) as u8] + encode_types(fs) + rest));
    assert(decode_repr(s.skip(1)) == Ok::<(TypeRepr, nat), DeserializationError>((r, re.len()))) by {
        match r {
            TypeRepr::Align(a) => {
                lemma_le_roundtrip(a as nat, 2);
                assert(s.skip(1).subrange(1, 3) =~= le_bytes(a as nat, 2));
            },
            TypeRepr::Packed(a) => {
                lemma_le_roundtrip(a as nat, 2);
                assert(s.skip(1).subrange(1, 3) =~= le_bytes(a as nat, 2));
            },
            _ => {},
        }
    }
    assert(s[(1 + re.len()) as int] == (fs.len() % 256) as u8);
    assert(s.skip((2 + re.len()) as int) =~= encode_types(fs) + rest);
}

/// Reading an array type back, given that its element type reads back.
proof fn lemma_array_roundtrip(m: TypeModel, rest: Seq<u8>)
    requires
        m is Array,
        decode_type(encode_type(*m->Array_0) + rest) == Ok::<(TypeModel, nat), DeserializationError>(
            (*m->Array_0, encode_type(*m->Array_0).len()),
        ),
    ensures
        decode_type(encode_type(m) + rest) == Ok::<(TypeModel, nat), DeserializationError>(
            (m, encode_type(m).len()),
        ),
{
    reveal(decode_type);
    let t = *m->Array_0;
    let n = m->Array_1;
    let ve = vint64_encoding(n as u64);
    let s = encode_type(m) + rest;
    lemma_vint64_roundtrip(n as u64, encode_type(t) + rest);
    assert(s.skip(1) =~= ve + (encode_type(t) + rest));
    assert(s.skip((1 + ve.len()) as int) =~= encode_type(t) + rest);
}

/// Reading a list type back, given that its element type reads back.
proof fn lemma_list_roundtrip(m: TypeModel, rest: Seq<u8>)
    requires
        m is List,
        decode_type(encode_type(*m->List_0) + rest) == Ok::<(TypeModel, nat), DeserializationError>(
            (*m->List_0, encode_type(*m->List_0).len()),
        ),
    ensures
        decode_type(encode_type(m) + rest) == Ok::<(TypeModel, nat), DeserializationError>(
            (m, encode_type(m).len()),
        ),
{
    reveal(decode_type);
    let s = encode_type(m) + rest;
    assert(s.skip(1) =~= encode_type(*m->List_0) + rest);
}

/// Reading a function type back as a type, given that it reads back as a function type.
proof fn lemma_function_type_roundtrip(m: TypeModel, rest: Seq<u8>)
    requires
        m is Function,
        decode_function(encode_function(m->Function_0) + rest) == Ok::<
            (FunctionModel, nat),
            DeserializationError,
        >((m->Function_0, encode_function(m->Function_0).len())),
    ensures
        decode_type(encode_type(m) + rest) == Ok::<(TypeModel, nat), DeserializationError>(
            (m, encode_type(m).len()),
        ),
{
    reveal(decode_type);
    let s = encode_type(m) + rest;
    assert(s.skip(1) =~= encode_function(m->Function_0) + rest);
}

/// Reading a type back from its bytes, whatever follows them, gives the type and consumes
/// exactly its bytes.
pub proof fn lemma_type_roundtrip(m: TypeModel, rest: Seq<u8>)
    requires
        wf_type(m),
    ensures
        encode_type(m).len() >= 1,
        decode_type(encode_type(m) + rest) == Ok::<(TypeModel, nat), DeserializationError>(
            (m, encode_type(m).len()),
        ),
    decreases m,
{
    match m {
        TypeModel::Ptr(_, p) => {
            lemma_type_roundtrip(*p, rest);
            lemma_ptr_roundtrip(m, rest);
        },
        TypeModel::Struct(_, fs) => {
            lemma_types_roundtrip(fs, rest);
            lemma_struct_roundtrip(m, rest);
        },
        TypeModel::Array(t, _) => {
            lemma_type_roundtrip(*t, rest);
            lemma_array_roundtrip(m, rest);
        },
        TypeModel::List(t) => {
            lemma_type_roundtrip(*t, rest);
            lemma_list_roundtrip(m, rest);
        },
        TypeModel::Function(f) => {
            lemma_function_roundtrip(f, rest);
            lemma_function_type_roundtrip(m, rest);
        },
        _ => {
            lemma_scalar_roundtrip(m, rest);
        },
    }
}

/// Reading `ms.len()` types back from the bytes of `ms`, whatever follows them, gives `ms`.
pub proof fn lemma_types_roundtrip(ms: Seq<TypeModel>, rest: Seq<u8>)
    requires
        wf_types(ms),
    ensures
        decode_types(encode_types(ms) + rest, ms.len()) == Ok::<
            (Seq<TypeModel>, nat),
            DeserializationError,
        >((ms, encode_types(ms).len())),
    decreases ms,
{
    if ms.len() == 0 {
        assert(ms =~= Seq::<TypeModel>::empty());
    } else {
        let tail = encode_types(ms.skip(1)) + rest;
        lemma_type_roundtrip(ms[0], tail);
        lemma_types_roundtrip(ms.skip(1), rest);
        let s = encode_types(ms) + rest;
        let c = encode_type(ms[0]).len();
        assert(s =~= encode_type(ms[0]) + tail);
        assert(s.skip(c as int) =~= tail);
        assert(seq![ms[0]] + ms.skip(1) =~= ms);
        assert(decode_type(s) == Ok::<(TypeModel, nat), DeserializationError>((ms[0], c)));
        assert(decode_types(s.skip(c as int), (ms.len() - 1) as nat) == Ok::<(Seq<TypeModel>, nat), DeserializationError>((ms.skip(1), encode_types(ms.skip(1)).len())));
        assert(encode_types(ms).len() == c + encode_types(ms.skip(1)).len());
        assert(c >= 1 && s.len() >= c);
        reveal(decode_type);
        assert(decode_types(s, ms.len()) == Ok::<(Seq<TypeModel>, nat), DeserializationError>((seq![ms[0]] + ms.skip(1), c + encode_types(ms.skip(1)).len())));
    }
}

/// Reading a function type back from its bytes, whatever follows them, gives it.
#[verifier::spinoff_prover]
#[verifier::rlimit(80)]
pub proof fn lemma_function_roundtrip(f: FunctionModel, rest: Seq<u8>)
    requires
        wf_function(f),
    ensures
        decode_function(encode_function(f) + rest) == Ok::<(FunctionModel, nat), DeserializationError>(
            (f, encode_function(f).len()),
        ),
    decreases f,
{
    let pe = vint64_encoding(f.params.len() as u64);
    let ps = encode_types(f.params);
    let re = vint64_encoding(f.results.len() as u64);
    let rs = encode_types(f.results);
    let s = encode_function(f) + rest;
    let a = pe.len();
    let b = ps.len();
    let c = re.len();
    let d = rs.len();
    lemma_vint64_roundtrip(f.params.len() as u64, ps + re + rs + rest);
    lemma_types_roundtrip(f.params, re + rs + rest);
    lemma_vint64_roundtrip(f.results.len() as u64, rs + rest);
    lemma_types_roundtrip(f.results, rest);
    assert(s =~= seq![callconv_tag(f.abi)] + (pe + (ps + re + rs + rest)));
    assert(s.len() == 1 + a + b + c + d + rest.len());
    assert(s[0] == callconv_tag(f.abi));
    assert(callconv_of(s[0]) == f.abi);
    assert(s.skip(1) =~= pe + (ps + re + rs + rest));
    assert(vint64_read(s.skip(1)) == Ok::<(usize, nat), DeserializationError>(
        (f.params.len() as usize, a),
    ));
    assert(s.skip((1 + a) as int) =~= ps + (re + rs + rest));
    assert(decode_types(s.skip((1 + a) as int), f.params.len()) == Ok::<
        (Seq<TypeModel>, nat),
        DeserializationError,
    >((f.params, b)));
    assert(s.skip((1 + a + b) as int) =~= re + (rs + rest));
    assert(vint64_read(s.skip((1 + a + b) as int)) == Ok::<(usize, nat), DeserializationError>(
        (f.results.len() as usize, c),
    ));
    assert(s.skip((1 + a + b + c) as int) =~= rs + rest);
    assert(decode_types(s.skip((1 + a + b + c) as int), f.results.len()) == Ok::<
        (Seq<TypeModel>, nat),
        DeserializationError,
    >((f.results, d)));
    assert(encode_function(f).len() == 1 + a + b + c + d);
}

} // verus!

verus! {

// ------------------------------------------------------------------------------------------
// Writing
// ------------------------------------------------------------------------------------------

/// The bytes of two sequences of types, one after the other, are those of their concatenation.
pub proof fn lemma_encode_types_append(a: Seq<TypeModel>, b: Seq<TypeModel>)
    ensures
        encode_types(a + b) == encode_types(a) + encode_types(b),
    decreases a.len(),
{
    if a.len() == 0 {
        assert(a + b =~= b);
        assert(encode_types(a) =~= Seq::<u8>::empty());
        assert(encode_types(a) + encode_types(b) =~= encode_types(b));
    } else {
        lemma_encode_types_append(a.skip(1), b);
        assert((a + b).skip(1) =~= a.skip(1) + b);
        assert((a + b)[0] == a[0]);
        assert(encode_types(a + b) =~= encode_types(a) + encode_types(b));
    }
}

/// Writes a type in the format of this module.
pub struct TypeSerializer<'a>(pub &'a Type);

impl<'a> TypeSerializer<'a> {
    /// Appends the bytes of the type to `target`.
    pub fn write_into(&self, target: &mut Vec<u8>)
        ensures
            final(target)@ == old(target)@ + encode_type(self.0.model()),
    {
        write_type(self.0, target);
    }
}

/// Writes a function type in the format of this module.
pub struct FunctionTypeSerializer<'a>(pub &'a FunctionType);

impl<'a> FunctionTypeSerializer<'a> {
    /// Appends the bytes of the function type to `target`.
    pub fn write_into(&self, target: &mut Vec<u8>)
        ensures
            final(target)@ == old(target)@ + encode_function(self.0.model()),
    {
        write_function(self.0, target);
    }
}

/// Appends the bytes of a struct layout.
fn write_repr(repr: TypeRepr, target: &mut Vec<u8>)
    ensures
        final(target)@ == old(target)@ + repr_encoding(repr),
{
    match repr {
        TypeRepr::Default => target.push(0),
        TypeRepr::Align(a) => {
            target.push(1);
            write_u16(target, a);
        },
        TypeRepr::Packed(a) => {
            target.push(2);
            write_u16(target, a);
        },
        TypeRepr::Transparent => target.push(3),
        TypeRepr::BigEndian => target.push(4),
    }
    assert(target@ =~= old(target)@ + repr_encoding(repr));
}

/// Appends the bytes of a type.
fn write_type(t: &Type, target: &mut Vec<u8>)
    ensures
        final(target)@ == old(target)@ + encode_type(t.model()),
    decreases t,
{
    match t {
        Type::Unknown => target.push(0),
        Type::Never => target.push(1),
        Type::I1 => target.push(2),
        Type::I8 => target.push(3),
        Type::U8 => target.push(4),
        Type::I16 => target.push(5),
        Type::U16 => target.push(6),
        Type::I32 => target.push(7),
        Type::U32 => target.push(8),
        Type::I64 => target.push(9),
        Type::U64 => target.push(10),
        Type::I128 => target.push(11),
        Type::U128 => target.push(12),
        Type::U256 => target.push(13),
        Type::F64 => target.push(14),
        Type::Felt => target.push(15),
        Type::Ptr(p) => {
            target.push(16);
            match p.addrspace {
                AddressSpace::Byte => target.push(0),
                AddressSpace::Element => target.push(1),
            }
            write_type(&p.pointee, target);
        },
        Type::Struct(st) => {
            target.push(17);
            write_repr(st.repr, target);
            target.push((st.fields.len() % 256) as u8);
            write_types(&st.fields, target);
            proof {
                lemma_models_index(st.fields@);
            }
        },
        Type::Array(a) => {
            target.push(18);
            write_usize(target, a.len);
            write_type(&a.ty, target);
        },
        Type::List(e) => {
            target.push(19);
            write_type(e, target);
        },
        Type::Function(f) => {
            target.push(20);
            write_function(f, target);
        },
    }
    assert(target@ =~= old(target)@ + encode_type(t.model()));
}

/// Appends the bytes of a sequence of types, one after the other.
fn write_types(ts: &Vec<Type>, target: &mut Vec<u8>)
    ensures
        final(target)@ == old(target)@ + encode_types(models(ts@)),
    decreases ts,
{
    proof {
        lemma_models_index(ts@);
    }
    let ghost ms = models(ts@);
    let mut i: usize = 0;
    assert(ms.take(0) =~= Seq::<TypeModel>::empty());
    assert(target@ =~= old(target)@ + encode_types(ms.take(0)));
    while i < ts.len()
        invariant
            i <= ts.len(),
            ms == models(ts@),
            ms.len() == ts.len(),
            forall|j: int| 0 <= j < ts.len() ==> #[trigger] ms[j] == ts@[j].model(),
            target@ == old(target)@ + encode_types(ms.take(i as int)),
        decreases ts.len() - i,
    {
        write_type(&ts[i], target);
        proof {
            lemma_encode_types_append(ms.take(i as int), seq![ms[i as int]]);
            assert(ms.take(i + 1) =~= ms.take(i as int) + seq![ms[i as int]]);
            assert(encode_types(seq![ms[i as int]]) =~= encode_type(ms[i as int])) by {
                reveal_with_fuel(encode_types, 2);
                assert(seq![ms[i as int]].skip(1) =~= Seq::<TypeModel>::empty());
                assert(seq![ms[i as int]][0] == ms[i as int]);
            }
        }
        i = i + 1;
    }
    assert(ms.take(i as int) =~= ms);
}

/// Appends the bytes of a function type.
fn write_function(f: &FunctionType, target: &mut Vec<u8>)
    ensures
        final(target)@ == old(target)@ + encode_function(f.model()),
    decreases f,
{
    let tag: u8 = match f.abi {
        CallConv::Fast => 0,
        CallConv::SystemV => 1,
        CallConv::Wasm => 2,
        CallConv::CanonLift => 3,
        CallConv::CanonLower => 4,
        CallConv::Kernel => 5,
    };
    target.push(tag);
    write_usize(target, f.params.len());
    write_types(&f.params, target);
    write_usize(target, f.results.len());
    write_types(&f.results, target);
    proof {
        lemma_models_index(f.params@);
        lemma_models_index(f.results@);
    }
    assert(target@ =~= old(target)@ + encode_function(f.model()));
}

} // verus!

verus! {

// ------------------------------------------------------------------------------------------
// Reading
// ------------------------------------------------------------------------------------------

/// `r` with `ms` put in front of the types read and `k` added to the bytes taken.
pub open spec fn prepend(
    ms: Seq<TypeModel>,
    k: nat,
    r: Result<(Seq<TypeModel>, nat), DeserializationError>,
) -> Result<(Seq<TypeModel>, nat), DeserializationError> {
    match r {
        Ok((ts, d)) => Ok((ms + ts, k + d)),
        Err(e) => Err(e),
    }
}

/// Reads a type in the format of this module.
pub struct TypeDeserializer(pub Type);

impl TypeDeserializer {
    /// Reads a type at the position of `source`, and moves past it.
    pub fn read_from(source: &mut ByteCursor) -> (r: Result<TypeDeserializer, DeserializationError>)
        requires
            old(source).wf(),
        ensures
            final(source).wf(),
            final(source).bytes@ == old(source).bytes@,
            match decode_type(old(source).rest()) {
                Ok((m, n)) => r matches Ok(d) && d.0.model() == m && final(source).pos
                    == old(source).pos + n,
                Err(e) => r matches Err(x) && x == e,
            },
    {
        match read_type(source) {
            Ok(t) => Ok(TypeDeserializer(t)),
            Err(e) => Err(e),
        }
    }
}

/// Reads a function type in the format of this module.
pub struct FunctionTypeDeserializer(pub FunctionType);

impl FunctionTypeDeserializer {
    /// Reads a function type at the position of `source`, and moves past it.
    pub fn read_from(source: &mut ByteCursor) -> (r: Result<FunctionTypeDeserializer, DeserializationError>)
        requires
            old(source).wf(),
        ensures
            final(source).wf(),
            final(source).bytes@ == old(source).bytes@,
            match decode_function(old(source).rest()) {
                Ok((f, n)) => r matches Ok(d) && d.0.model() == f && final(source).pos
                    == old(source).pos + n,
                Err(e) => r matches Err(x) && x == e,
            },
    {
        match read_function(source) {
            Ok(f) => Ok(FunctionTypeDeserializer(f)),
            Err(e) => Err(e),
        }
    }
}

/// The type that carries nothing more of a tag below 16.
fn scalar_type(tag: u8) -> (r: Type)
    requires
        tag <= 15,
    ensures
        r.model() == scalar_of(tag),
{
    match tag {
        0 => Type::Unknown,
        1 => Type::Never,
        2 => Type::I1,
        3 => Type::I8,
        4 => Type::U8,
        5 => Type::I16,
        6 => Type::U16,
        7 => Type::I32,
        8 => Type::U32,
        9 => Type::I64,
        10 => Type::U64,
        11 => Type::I128,
        12 => Type::U128,
        13 => Type::U256,
        14 => Type::F64,
        _ => Type::Felt,
    }
}

/// Reads a struct layout.
fn read_repr(source: &mut ByteCursor) -> (r: Result<TypeRepr, DeserializationError>)
    requires
        old(source).wf(),
    ensures
        final(source).wf(),
        final(source).bytes@ == old(source).bytes@,
        final(source).pos >= old(source).pos,
        match decode_repr(old(source).rest()) {
            Ok((repr, n)) => r == Ok::<TypeRepr, DeserializationError>(repr) && final(source).pos
                == old(source).pos + n,
            Err(e) => r == Err::<TypeRepr, DeserializationError>(e),
        },
{
    let ghost s = source.rest();
    let tag = match source.read_u8() {
        Ok(b) => b,
        Err(e) => return Err(e),
    };
    if tag == 0 {
        Ok(TypeRepr::Default)
    } else if tag == 1 || tag == 2 {
        proof {
            assert(source.rest() =~= s.skip(1));
        }
        let a = match source.read_u16() {
            Ok(a) => a,
            Err(e) => return Err(e),
        };
        proof {
            assert(s.skip(1).take(2) =~= s.subrange(1, 3));
            crate::byte_codec::lemma_le_value_u16(s.subrange(1, 3));
        }
        if a == 0 {
            if tag == 1 {
                Err(DeserializationError::ZeroAlignment)
            } else {
                Err(DeserializationError::ZeroPackedAlignment)
            }
        } else if tag == 1 {
            Ok(TypeRepr::Align(a))
        } else {
            Ok(TypeRepr::Packed(a))
        }
    } else if tag == 3 {
        Ok(TypeRepr::Transparent)
    } else if tag == 4 {
        Ok(TypeRepr::BigEndian)
    } else {
        Err(DeserializationError::InvalidTypeReprTag(tag))
    }
}

/// Reads a type.
#[verifier::rlimit(40)]
fn read_type(source: &mut ByteCursor) -> (r: Result<Type, DeserializationError>)
    requires
        old(source).wf(),
    ensures
        final(source).wf(),
        final(source).bytes@ == old(source).bytes@,
        final(source).pos >= old(source).pos,
        r is Ok ==> final(source).pos > old(source).pos,
        match decode_type(old(source).rest()) {
            Ok((m, n)) => r matches Ok(t) && t.model() == m && final(source).pos == old(source).pos
                + n,
            Err(e) => r matches Err(x) && x == e,
        },
    decreases old(source).rest().len(), 0nat,
{
    proof {
        reveal(decode_type);
    }
    let ghost s = source.rest();
    let ghost p0 = source.pos;
    let tag = match source.read_u8() {
        Ok(b) => b,
        Err(e) => return Err(e),
    };
    if tag <= 15 {
        return Ok(scalar_type(tag));
    }
    if tag == 16 {
        let a = match source.read_u8() {
            Ok(b) => b,
            Err(e) => return Err(e),
        };
        if a > 1 {
            return Err(DeserializationError::InvalidAddressSpaceTag(a));
        }
        let addrspace = if a == 0 {
            AddressSpace::Byte
        } else {
            AddressSpace::Element
        };
        proof {
            assert(source.rest() =~= s.skip(2));
        }
        match read_type(source) {
            Ok(pointee) => Ok(Type::Ptr(Box::new(PointerType { addrspace, pointee }))),
            Err(e) => Err(e),
        }
    } else if tag == 17 {
        proof {
            assert(source.rest() =~= s.skip(1));
        }
        let repr = match read_repr(source) {
            Ok(r) => r,
            Err(e) => return Err(e),
        };
        let ghost k = (source.pos - p0 - 1) as nat;
        let count = match source.read_u8() {
            Ok(b) => b,
            Err(e) => return Err(e),
        };
        proof {
            assert(count == s[(1 + k) as int]);
            assert(source.rest() =~= s.skip((2 + k) as int));
        }
        match read_types(source, count as usize) {
            Ok(fields) => Ok(Type::Struct(Box::new(StructType { repr, fields }))),
            Err(e) => Err(e),
        }
    } else if tag == 18 {
        proof {
            assert(source.rest() =~= s.skip(1));
        }
        let len = match source.read_usize() {
            Ok(n) => n,
            Err(e) => return Err(e),
        };
        proof {
            let k = (source.pos - p0 - 1) as nat;
            assert(source.rest() =~= s.skip((1 + k) as int));
        }
        match read_type(source) {
            Ok(ty) => Ok(Type::Array(Box::new(ArrayType { ty, len }))),
            Err(e) => Err(e),
        }
    } else if tag == 19 {
        proof {
            assert(source.rest() =~= s.skip(1));
        }
        match read_type(source) {
            Ok(ty) => Ok(Type::List(Box::new(ty))),
            Err(e) => Err(e),
        }
    } else if tag == 20 {
        proof {
            assert(source.rest() =~= s.skip(1));
        }
        match read_function(source) {
            Ok(f) => Ok(Type::Function(Box::new(f))),
            Err(e) => Err(e),
        }
    } else {
        Err(DeserializationError::InvalidTypeTag(tag))
    }
}

/// Reads `n` types, one after the other.
fn read_types(source: &mut ByteCursor, n: usize) -> (r: Result<Vec<Type>, DeserializationError>)
    requires
        old(source).wf(),
    ensures
        final(source).wf(),
        final(source).bytes@ == old(source).bytes@,
        final(source).pos >= old(source).pos,
        match decode_types(old(source).rest(), n as nat) {
            Ok((ms, k)) => r matches Ok(v) && models(v@) == ms && final(source).pos
                == old(source).pos + k,
            Err(e) => r matches Err(x) && x == e,
        },
    decreases old(source).rest().len(), n + 1,
{
    let ghost s0 = source.rest();
    let ghost p0 = source.pos;
    let mut v: Vec<Type> = Vec::new();
    let mut i: usize = 0;
    proof {
        assert(models(v@) =~= Seq::<TypeModel>::empty());
        assert(Seq::<TypeModel>::empty() + Seq::<TypeModel>::empty() =~= Seq::<TypeModel>::empty());
        assert(source.rest() =~= s0);
    }
    while i < n
        invariant
            source.wf(),
            source.bytes@ == old(source).bytes@,
            p0 == old(source).pos,
            s0 == old(source).rest(),
            p0 <= source.pos,
            i <= n,
            decode_types(s0, n as nat) == prepend(
                models(v@),
                (source.pos - p0) as nat,
                decode_types(source.rest(), (n - i) as nat),
            ),
        decreases n - i,
    {
        let ghost before = source.rest();
        let ghost pb = source.pos;
        match read_type(source) {
            Ok(t) => {
                proof {
                    reveal(decode_type);
                    let c = (source.pos - pb) as nat;
                    assert(before.skip(c as int) =~= source.rest());
                    lemma_models_append(v@, seq![t]);
                    assert(models(seq![t]) =~= seq![t.model()]) by {
                        reveal_with_fuel(models, 2);
                        assert(seq![t].skip(1) =~= Seq::<Type>::empty());
                    }
                    assert(v@.push(t) =~= v@ + seq![t]);
                    assert(models(v@) + (seq![t.model()] + Seq::<TypeModel>::empty())
                        =~= models(v@.push(t)) + Seq::<TypeModel>::empty());
                    match decode_types(source.rest(), (n - i - 1) as nat) {
                        Ok((ts, d)) => {
                            assert(models(v@) + (seq![t.model()] + ts) =~= models(v@.push(t)) + ts);
                        },
                        Err(_) => {},
                    }
                }
                v.push(t);
                i = i + 1;
            },
            Err(e) => {
                proof {
                    reveal(decode_type);
                }
                return Err(e);
            },
        }
    }
    proof {
        assert(models(v@) + Seq::<TypeModel>::empty() =~= models(v@));
    }
    Ok(v)
}

/// Reads a function type.
#[verifier::rlimit(40)]
fn read_function(source: &mut ByteCursor) -> (r: Result<FunctionType, DeserializationError>)
    requires
        old(source).wf(),
    ensures
        final(source).wf(),
        final(source).bytes@ == old(source).bytes@,
        final(source).pos >= old(source).pos,
        match decode_function(old(source).rest()) {
            Ok((f, n)) => r matches Ok(g) && g.model() == f && final(source).pos == old(source).pos
                + n,
            Err(e) => r matches Err(x) && x == e,
        },
    decreases old(source).rest().len(), 1nat,
{
    let ghost s = source.rest();
    let ghost p0 = source.pos;
    let tag = match source.read_u8() {
        Ok(b) => b,
        Err(e) => return Err(e),
    };
    if tag > 5 {
        return Err(DeserializationError::InvalidCallConvTag(tag));
    }
    let abi = match tag {
        0 => CallConv::Fast,
        1 => CallConv::SystemV,
        2 => CallConv::Wasm,
        3 => CallConv::CanonLift,
        4 => CallConv::CanonLower,
        _ => CallConv::Kernel,
    };
    proof {
        assert(source.rest() =~= s.skip(1));
    }
    let arity = match source.read_usize() {
        Ok(n) => n,
        Err(e) => return Err(e),
    };
    let ghost a = (source.pos - p0 - 1) as nat;
    proof {
        assert(source.rest() =~= s.skip((1 + a) as int));
    }
    let params = match read_types(source, arity) {
        Ok(ps) => ps,
        Err(e) => return Err(e),
    };
    let ghost b = (source.pos - p0 - 1 - a) as nat;
    proof {
        assert(source.rest() =~= s.skip((1 + a + b) as int));
    }
    let num_results = match source.read_usize() {
        Ok(n) => n,
        Err(e) => return Err(e),
    };
    let ghost c = (source.pos - p0 - 1 - a - b) as nat;
    proof {
        assert(source.rest() =~= s.skip((1 + a + b + c) as int));
    }
    let results = match read_types(source, num_results) {
        Ok(rs) => rs,
        Err(e) => return Err(e),
    };
    Ok(FunctionType { abi, params, results })
}

/// The integer types are numbered by width, each signed type just before the unsigned one of
/// the same width: the integer of `8 * 2^k` bits is written as the single byte `3 + 2k`, plus
/// one if it is unsigned, and that byte is read back as it.
pub proof fn lemma_integer_tags(m: TypeModel, k: nat, signed: bool)
    requires
        k < 5,
        int_bits(m) == Some((8 * vstd::arithmetic::power2::pow2(k), signed)),
    ensures
        encode_type(m) == seq![(3 + 2 * k + (if signed { 0int } else { 1int })) as u8],
        decode_type(seq![(3 + 2 * k + (if signed { 0int } else { 1int })) as u8]) == Ok::<
            (TypeModel, nat),
            DeserializationError,
        >((m, 1)),
{
    vstd::arithmetic::power2::lemma2_to64();
    lemma_type_roundtrip(m, Seq::empty());
    assert(encode_type(m) + Seq::<u8>::empty() =~= encode_type(m));
}

/// The types that carry no other type are written as their position in the order in which
/// the type declares them, as a single byte, and that byte is read back as the type.
pub proof fn lemma_scalar_tags(i: int)
    requires
        0 <= i < 16,
    ensures
        encode_type(scalar_types()[i]) == seq![i as u8],
        decode_type(seq![i as u8]) == Ok::<(TypeModel, nat), DeserializationError>(
            (scalar_types()[i], 1),
        ),
{
    let m = scalar_types()[i];
    lemma_type_roundtrip(m, Seq::empty());
    assert(encode_type(m) + Seq::<u8>::empty() =~= encode_type(m));
}

} // verus!
