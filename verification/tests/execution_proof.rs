use miden_vm::execution_proof::{ExecutionProof, HashFunction, HashFunctionError};
use miden_vm::byte_codec::{ByteCursor, DeserializationError};

#[test]
fn hash_function_collision_resistance() {
    assert_eq!(HashFunction::Blake3_192.collision_resistance(), 96);
    assert_eq!(HashFunction::Blake3_256.collision_resistance(), 128);
    assert_eq!(HashFunction::Rpo256.collision_resistance(), 128);
    assert_eq!(HashFunction::Rpx256.collision_resistance(), 128);
    assert_eq!(HashFunction::Poseidon2.collision_resistance(), 128);
}

#[test]
fn hash_function_reprs_round_trip() {
    for r in 0u8..=4 {
        let h = HashFunction::try_from_u8(r).unwrap();
        assert_eq!(h.repr(), r);
    }
    assert_eq!(HashFunction::try_from_u8(5), Err(HashFunctionError::InvalidRepr(5)));
}

#[test]
fn hash_function_names() {
    assert_eq!(HashFunction::try_from_str("blake3-192"), Ok(HashFunction::Blake3_192));
    assert_eq!(HashFunction::try_from_str("blake3-256"), Ok(HashFunction::Blake3_256));
    assert_eq!(HashFunction::try_from_str("rpo"), Ok(HashFunction::Rpo256));
    assert_eq!(HashFunction::try_from_str("rpx"), Ok(HashFunction::Rpx256));
    assert_eq!(HashFunction::try_from_str("poseidon2"), Ok(HashFunction::Poseidon2));
    assert_eq!(
        HashFunction::try_from_str("sha"),
        Err(HashFunctionError::InvalidName("sha".to_string()))
    );
}

#[test]
fn execution_proof_parts() {
    let proof = ExecutionProof::new(vec![1, 2, 3], HashFunction::Rpx256);
    assert_eq!(proof.stark_proof(), vec![1, 2, 3]);
    assert_eq!(proof.hash_fn(), HashFunction::Rpx256);
    assert_eq!(proof.security_level(), 128);
    assert_eq!(proof.into_parts(), (HashFunction::Rpx256, vec![1, 2, 3]));
    let dummy = ExecutionProof::new_dummy();
    assert_eq!(dummy.hash_fn(), HashFunction::Blake3_192);
}

#[test]
fn hash_function_serialization_round_trip() {
    let all = [
        HashFunction::Blake3_192,
        HashFunction::Blake3_256,
        HashFunction::Rpo256,
        HashFunction::Rpx256,
        HashFunction::Poseidon2,
    ];
    let mut bytes: Vec<u8> = vec![9];
    for h in all.iter() {
        h.write_into(&mut bytes);
    }
    assert_eq!(bytes, vec![9, 0, 1, 2, 3, 4]);
    let mut cursor = ByteCursor::new(&bytes);
    cursor.pos = 1;
    for h in all.iter() {
        assert_eq!(HashFunction::read_from(&mut cursor), Ok(*h));
    }
    assert_eq!(HashFunction::read_from(&mut cursor), Err(DeserializationError::UnexpectedEOF));
}

#[test]
fn hash_function_read_rejects_unknown_byte() {
    let bytes: Vec<u8> = vec![5];
    let mut cursor = ByteCursor::new(&bytes);
    assert_eq!(
        HashFunction::read_from(&mut cursor),
        Err(DeserializationError::InvalidHashFunctionTag(5))
    );
    assert_eq!(cursor.pos, 1);
}
