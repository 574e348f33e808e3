# miden_vm

A verified library of the data paths of the Miden virtual machine, written in Verus.

- `src/` is the library. Every function in it carries a contract that Verus proves:
  - `felt`: arithmetic in the Goldilocks field.
  - `operation`, `op_batch`, `basic_block`, `block_node`, `decorators`: operations, their
    batching into groups and batches, basic blocks, and the decorators pegged to operations.
  - `process`, `fast_ops`: the u32, field, stack, cryptographic and control-flow operations of
    the processor.
  - `events`, `memory`, `advice`, `handlers`, `keccak`, `sys_event_handlers`, `tracing`: system
    events and the event handlers of the standard library.
  - `constants`, `sema`: constant expressions of Miden Assembly, their folding, and the
    semantic analysis context that evaluates the constants of a module.
  - `hir_types`, `byte_codec`, `type_serialization`: procedure signature types and their binary
    format.
  - `execution_proof`: proofs and the hash functions they use.
  - `hash`: the calls into `miden-crypto` (hashes, field inversion, the Merkle store), each
    with the contract the library relies on. These wrappers, and the two in `byte_codec` that
    read and write vint64 lengths, are trusted: their contracts are stated, not proved.
- `tests/` runs the library on concrete values.
- `app/` holds what the library leaves to its surroundings: error messages and serde forms.

## Left out

Some parts of the Miden VM are not in this crate, in neither `src/` nor `app/`, because the
code they are written against is not available here:

- The STARK prover (`prove`, `prove_keccak`, `prove_rpo`, `quotient_values` and their
  configuration helpers): they drive an outside prover over the execution trace and the AIR of
  the processor, whose types are not part of these sources.
- Library, kernel-library and package (de)serialisation: their readers and writers are built
  on the MAST forest and program types, which are not part of these sources.
- `op_eval_circuit`, `op_mrupdate`, `op_mpverify` and the memory and advice I/O operations of
  the processor: they rely on the circuit evaluator, the hasher chiplet and the processor's
  memory and advice interfaces, which are not part of these sources. The Horner evaluation
  operations read memory through this crate's own memory model instead.
