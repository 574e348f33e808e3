use miden_crypto::hash::keccak::Keccak256;
use miden_crypto::hash::rpo::Rpo256;
use miden_crypto::{Felt, Word};
use miden_vm::events::EventId;
use miden_vm::handlers::AdviceMutation;
use miden_vm::keccak::{
    KECCAK_HASH_MEMORY_EVENT_ID, KECCAK_HASH_MEMORY_EVENT_NAME, KeccakError, KeccakFeltDigest,
    handle_keccak_hash_memory, packed_felts_to_bytes, read_witness,
};
use miden_vm::memory::{Memory, ProcessState};

const INPUT_MEMORY_ADDR: u32 = 128;

/// Test helper wrapping a byte array.
struct Preimage(Vec<u8>);

impl Preimage {
    /// Converts bytes to packed u32 values (4 bytes per u32, last chunk padded with zeros).
    fn as_packed_u32(&self) -> Vec<u32> {
        self.0
            .chunks(4)
            .map(|bytes| {
                let mut out = [0u8; 4];
                for (i, byte) in bytes.iter().enumerate() {
                    out[i] = *byte;
                }
                u32::from_le_bytes(out)
            })
            .collect()
    }

    fn as_felt(&self) -> Vec<Felt> {
        self.as_packed_u32().into_iter().map(Felt::from).collect()
    }

    fn input_commitment(&self) -> Word {
        Rpo256::hash_elements(&self.as_felt())
    }

    fn digest_bytes(&self) -> [u8; 32] {
        *Keccak256::hash(&self.0).as_bytes()
    }

    fn digest(&self) -> KeccakFeltDigest {
        KeccakFeltDigest::from_bytes(&self.digest_bytes())
    }

    fn digest_commitment(&self) -> Word {
        let mut rev: Vec<Felt> = self.digest().inner().iter().map(|v| Felt::new(*v)).collect();
        rev.reverse();
        Rpo256::hash_elements(&rev)
    }

    fn calldata_commitment(&self) -> [u64; 4] {
        Rpo256::merge(&[self.input_commitment(), self.digest_commitment()]).into()
    }

    /// A process whose memory holds the packed input from `INPUT_MEMORY_ADDR` on.
    fn process(&self) -> ProcessState {
        let packed = self.as_packed_u32();
        let mut memory = Memory::new();
        for (i, chunk) in packed.chunks(4).enumerate() {
            let mut word = [0u64; 4];
            for (j, v) in chunk.iter().enumerate() {
                word[j] = *v as u64;
            }
            memory.write_word(INPUT_MEMORY_ADDR + 4 * i as u32, word);
        }
        ProcessState {
            stack: vec![KECCAK_HASH_MEMORY_EVENT_ID, INPUT_MEMORY_ADDR as u64, self.0.len() as u64],
            memory,
            clk: 0,
            ctx: 0,
        }
    }
}

fn test_keccak_handler(input_u8: &[u8]) {
    let preimage = Preimage(input_u8.to_vec());
    let mutations = handle_keccak_hash_memory(&preimage.process()).unwrap();
    assert_eq!(mutations.len(), 2);
    match &mutations[0] {
        AdviceMutation::ExtendStack { values } => {
            assert_eq!(values.as_slice(), &preimage.digest().inner(), "digest not found in advice stack")
        },
        _ => panic!("expected an advice stack extension"),
    }
    match &mutations[1] {
        AdviceMutation::ExtendMap { entries } => {
            assert_eq!(entries.len(), 1);
            assert_eq!(entries[0].0, preimage.calldata_commitment());
            let mut witness_expected = vec![input_u8.len() as u64];
            witness_expected.extend(preimage.as_packed_u32().into_iter().map(|v| v as u64));
            assert_eq!(entries[0].1, witness_expected, "witness in advice map does not match preimage");
        },
        _ => panic!("expected an advice map extension"),
    }
}

#[test]
fn test_keccak_handlers() {
    // Test various input sizes including edge cases
    let hash_memory_inputs: Vec<Vec<u8>> = vec![
        //empty
        vec![],
        // different byte packing
        vec![1],
        vec![1, 2],
        vec![1, 2, 3],
        vec![1, 2, 3, 4],
        // longer inputs with non-aligned sizes
        (0..31).collect(),
        (0..32).collect(),
        (0..33).collect(),
        // large-ish inputs
        (0..64).collect(),
        (0..128).collect(),
    ];

    for input in &hash_memory_inputs {
        test_keccak_handler(input);
    }
}

#[test]
fn keccak256_test_event_id() {
    let expected_event_id = EventId::from_name(KECCAK_HASH_MEMORY_EVENT_NAME);
    assert_eq!(EventId::from_u64(KECCAK_HASH_MEMORY_EVENT_ID), expected_event_id);
}

#[test]
fn unpacking_checks_values_and_padding() {
    assert_eq!(packed_felts_to_bytes(&[0x0403_0201, 0x05], 5), Ok(vec![1, 2, 3, 4, 5]));
    assert_eq!(
        packed_felts_to_bytes(&[1 << 32], 1),
        Err(KeccakError::InvalidFeltValue { value: 1 << 32, index: 0 })
    );
    assert_eq!(
        packed_felts_to_bytes(&[0x0000_0201], 1),
        Err(KeccakError::InvalidPadding { value: 2, index: 1 })
    );
}

#[test]
fn witness_reads_fail_on_bad_pointers() {
    let preimage = Preimage(vec![1, 2, 3]);
    let process = preimage.process();
    assert_eq!(read_witness(&process, 128, 3), Some(vec![3, 0x030201]));
    assert_eq!(read_witness(&process, 130, 3), None);
    assert_eq!(read_witness(&process, 1 << 32, 3), None);
    // nothing was written at 256
    assert_eq!(read_witness(&process, 256, 3), None);
    let mut p = preimage.process();
    p.stack[1] = 256;
    assert_eq!(
        handle_keccak_hash_memory(&p),
        Err(KeccakError::MemoryReadFailed { ptr: 256, len: 3 })
    );
}

#[test]
fn digest_commitment_reverses_the_digest() {
    let preimage = Preimage(vec![9, 8, 7]);
    let c: [u64; 4] = preimage.digest_commitment().into();
    assert_eq!(preimage.digest().to_commitment(), c);
}
