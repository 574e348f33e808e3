//! VM operations as the batching logic sees them: an opcode and an optional immediate value.

use vstd::prelude::*;

use crate::felt::P;

verus! {

/// Number of bits used to encode an opcode.
pub const OP_BITS: u64 = 7u64;

/// The opcode of the `Noop` operation.
pub const NOOP_OPCODE: u8 = 0u8;

/// A VM operation: its 7-bit opcode and, for operations such as `Push`, the field element it
/// carries as an immediate value.
#[derive(Clone, Copy, Debug, PartialEq, Eq)]
pub struct Operation {
    pub op_code: u8,
    pub imm: Option<u64>,
}

impl Operation {
    /// The opcode fits in `OP_BITS` bits and the immediate, if any, is a field element.
    pub open spec fn wf(self) -> bool {
        &&& self.op_code < 128
        &&& (self.imm matches Some(v) ==> v < P)
    }

    pub open spec fn is_noop(self) -> bool {
        self.op_code == NOOP_OPCODE && self.imm is None
    }

    /// The `Noop` operation.
    pub fn noop() -> (r: Operation)
        ensures
            r.is_noop(),
            r.wf(),
    {
        Operation { op_code: NOOP_OPCODE, imm: None }
    }

    /// Returns the opcode of this operation.
    pub fn op_code(&self) -> (r: u8)
        ensures
            r == self.op_code,
    {
        self.op_code
    }

    /// Returns the immediate value carried by this operation, if any.
    pub fn imm_value(&self) -> (r: Option<u64>)
        ensures
            r == self.imm,
    {
        self.imm
    }
}

/// Every operation of the sequence is well formed.
pub open spec fn all_wf(ops: Seq<Operation>) -> bool {
    forall|i: int| 0 <= i < ops.len() ==> (#[trigger] ops[i]).wf()
}

} // verus!
