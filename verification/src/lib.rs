//! A verified model of the core data paths of the Miden virtual machine: the Goldilocks
//! field, the batching of basic-block operations, decorator indexing, the u32 and field
//! operations of the processor, system events and the standard-library event handlers.

pub mod felt;
pub mod hash;
pub mod operation;
pub mod op_batch;
pub mod basic_block;
pub mod decorators;
pub mod block_node;
pub mod process;
pub mod fast_ops;
pub mod tracing;
pub mod events;
pub mod execution_proof;
pub mod memory;
pub mod handlers;
pub mod keccak;
pub mod advice;
pub mod sys_event_handlers;
pub mod constants;
pub mod hir_types;
pub mod byte_codec;
pub mod type_serialization;
pub mod sema;
