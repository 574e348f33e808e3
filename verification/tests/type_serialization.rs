use miden_vm::byte_codec::{ByteCursor, DeserializationError};
use miden_vm::hir_types::{
    AddressSpace, ArrayType, CallConv, FunctionType, PointerType, StructType, Type, TypeRepr,
};
use miden_vm::type_serialization::{
    FunctionTypeDeserializer, FunctionTypeSerializer, TypeDeserializer, TypeSerializer,
};

fn write(t: &Type) -> Vec<u8> {
    let mut out = Vec::new();
    TypeSerializer(t).write_into(&mut out);
    out
}

fn read(bytes: &[u8]) -> (Result<Type, DeserializationError>, usize) {
    let mut cursor = ByteCursor::new(bytes);
    let r = TypeDeserializer::read_from(&mut cursor).map(|d| d.0);
    (r, cursor.pos)
}

fn sample_function() -> FunctionType {
    FunctionType {
        abi: CallConv::Kernel,
        params: vec![Type::Felt, Type::Ptr(Box::new(PointerType { addrspace: AddressSpace::Byte, pointee: Type::U8 }))],
        results: vec![Type::I1],
    }
}

#[test]
fn scalar_types_are_one_tag_byte() {
    assert_eq!(write(&Type::Unknown), vec![0]);
    assert_eq!(write(&Type::U32), vec![8]);
    assert_eq!(write(&Type::Felt), vec![15]);
}

#[test]
fn pointer_bytes() {
    let t = Type::Ptr(Box::new(PointerType { addrspace: AddressSpace::Element, pointee: Type::Felt }));
    assert_eq!(write(&t), vec![16, 1, 15]);
}

#[test]
fn struct_bytes_carry_layout_and_field_count() {
    let t = Type::Struct(Box::new(StructType { repr: TypeRepr::Align(8), fields: vec![Type::U8, Type::Felt] }));
    assert_eq!(write(&t), vec![17, 1, 8, 0, 2, 4, 15]);
    let p = Type::Struct(Box::new(StructType { repr: TypeRepr::Packed(0x0102), fields: vec![] }));
    assert_eq!(write(&p), vec![17, 2, 2, 1, 0]);
}

#[test]
fn array_length_is_vint64() {
    let t = Type::Array(Box::new(ArrayType { ty: Type::Felt, len: 300 }));
    assert_eq!(write(&t), vec![18, 0xB2, 0x04, 15]);
    let small = Type::Array(Box::new(ArrayType { ty: Type::U8, len: 5 }));
    assert_eq!(write(&small), vec![18, 11, 4]);
}

#[test]
fn function_bytes() {
    let f = sample_function();
    let mut out = Vec::new();
    FunctionTypeSerializer(&f).write_into(&mut out);
    assert_eq!(out, vec![5, 5, 15, 16, 0, 4, 3, 2]);
}

#[test]
fn types_read_back_what_was_written() {
    let samples = vec![
        Type::I128,
        Type::List(Box::new(Type::U64)),
        Type::Array(Box::new(ArrayType { ty: Type::Felt, len: 1 << 40 })),
        Type::Struct(Box::new(StructType {
            repr: TypeRepr::Transparent,
            fields: vec![Type::Function(Box::new(sample_function())), Type::Never],
        })),
        Type::Function(Box::new(sample_function())),
    ];
    for t in samples {
        let mut bytes = write(&t);
        let n = bytes.len();
        bytes.extend_from_slice(&[99, 98]);
        let (r, pos) = read(&bytes);
        assert_eq!(r, Ok(t));
        assert_eq!(pos, n);
    }
}

#[test]
fn function_types_read_back_what_was_written() {
    let f = sample_function();
    let mut bytes = Vec::new();
    FunctionTypeSerializer(&f).write_into(&mut bytes);
    let mut cursor = ByteCursor::new(&bytes);
    let r = FunctionTypeDeserializer::read_from(&mut cursor).map(|d| d.0);
    assert_eq!(r, Ok(sample_function()));
    assert_eq!(cursor.pos, bytes.len());
}

#[test]
fn reading_rejects_bad_tags() {
    assert_eq!(read(&[99]).0, Err(DeserializationError::InvalidTypeTag(99)));
    assert_eq!(read(&[16, 2, 15]).0, Err(DeserializationError::InvalidAddressSpaceTag(2)));
    assert_eq!(read(&[17, 5, 0]).0, Err(DeserializationError::InvalidTypeReprTag(5)));
    assert_eq!(read(&[17, 1, 0, 0, 0]).0, Err(DeserializationError::ZeroAlignment));
    assert_eq!(read(&[17, 2, 0, 0, 0]).0, Err(DeserializationError::ZeroPackedAlignment));
    assert_eq!(read(&[20, 6]).0, Err(DeserializationError::InvalidCallConvTag(6)));
}

#[test]
fn reading_stops_at_the_end_of_the_bytes() {
    assert_eq!(read(&[]).0, Err(DeserializationError::UnexpectedEOF));
    assert_eq!(read(&[16]).0, Err(DeserializationError::UnexpectedEOF));
    assert_eq!(read(&[17, 0, 2, 15]).0, Err(DeserializationError::UnexpectedEOF));
    assert_eq!(read(&[18, 0xB2]).0, Err(DeserializationError::UnexpectedEOF));
}

#[test]
fn big_endian_structs_read_back() {
    let t = Type::Struct(Box::new(StructType { repr: TypeRepr::BigEndian, fields: vec![Type::U8] }));
    let bytes = write(&t);
    assert_eq!(bytes, vec![17, 4, 1, 4]);
    assert_eq!(read(&bytes).0, Ok(t));
    assert_eq!(read(&[17, 5, 0]).0, Err(DeserializationError::InvalidTypeReprTag(5)));
}
