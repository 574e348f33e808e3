//! Event identifiers and the system events that the VM handles itself.

use vstd::prelude::*;

use crate::felt::{P, from_u64};
use crate::hash::{blake3_256_of_str, blake3_256_str};

verus! {

/// The identifier of an event emitted by a program: a field element.
#[derive(Clone, Copy, Debug, PartialEq, Eq)]
pub struct EventId(pub u64);

impl EventId {
    /// The event identifier of the field element that `value` reduces to.
    pub fn from_u64(value: u64) -> (r: Self)
        ensures
            r.0 == value as int % (P as int),
    {
        EventId(from_u64(value))
    }

    /// The event identifier derived from an event name: the first eight bytes of the BLAKE3
    /// hash of the name, read as a little-endian integer and reduced to a field element.
    pub fn from_name(name: &str) -> (r: Self)
        ensures
            r.0 == le_tail(blake3_256_of_str(name@), 0) % (P as int),
    {
        let digest = blake3_256_str(name);
        let mut value: u64 = 0;
        let mut i: usize = 8;
        while i > 0
            invariant
                0 <= i <= 8,
                digest@.len() == 32,
                value == le_tail(digest@, i as int),
                value < pow256(8 - i),
            decreases i,
        {
            i = i - 1;
            proof {
                lemma_pow256_step(8 - i - 1);
                lemma_pow256_bound(8 - i);
            }
            assert(value * 256 + digest@[i as int] < pow256(8 - i)) by (nonlinear_arith)
                requires
                    value < pow256(8 - i - 1),
                    digest@[i as int] < 256,
                    pow256(8 - i) == 256 * pow256(8 - i - 1),
            ;
            value = value * 256 + digest[i] as u64;
        }
        EventId(from_u64(value))
    }

    /// Returns the field element of this event identifier.
    pub fn as_felt(&self) -> (r: u64)
        ensures
            r == self.0,
    {
        self.0
    }

    /// Whether this identifier is in the range reserved for system events.
    pub fn is_reserved(&self) -> (r: bool)
        ensures
            r == (self.0 <= 255),
    {
        self.0 <= 255
    }
}

/// `256^n`.
pub open spec fn pow256(n: int) -> int
    decreases n,
{
    if n <= 0 {
        1
    } else {
        256 * pow256(n - 1)
    }
}

/// The little-endian integer of bytes `i..8` of `b`.
pub open spec fn le_tail(b: Seq<u8>, i: int) -> int
    decreases 8 - i,
{
    if i >= 8 {
        0
    } else {
        b[i] + 256 * le_tail(b, i + 1)
    }
}

proof fn lemma_pow256_bound(n: int)
    requires
        0 <= n <= 8,
    ensures
        0 < pow256(n) <= 18446744073709551616,
    decreases 8 - n,
{
    reveal_with_fuel(pow256, 9);
    if n < 8 {
        lemma_pow256_bound(n + 1);
        assert(pow256(n + 1) == 256 * pow256(n));
    }
}

proof fn lemma_pow256_step(n: int)
    requires
        0 <= n,
    ensures
        pow256(n + 1) == 256 * pow256(n),
        pow256(8) == 18446744073709551616,
{
    reveal_with_fuel(pow256, 9);
}

/// The events that the VM handles itself, numbered from 0 in the order below.
#[derive(Clone, Copy, Debug, PartialEq, Eq)]
pub enum SystemEvent {
    /// Merges two Merkle trees of the store under `hash(LEFT_ROOT, RIGHT_ROOT)`.
    MerkleNodeMerge,
    /// Pushes a node of a Merkle tree of the store onto the advice stack.
    MerkleNodeToStack,
    /// Pushes the values of an advice map entry onto the advice stack.
    MapValueToStack,
    /// Pushes the values of an advice map entry, then their number, onto the advice stack.
    MapValueToStackN,
    /// Pushes whether the advice map has an entry for a key onto the advice stack.
    HasMapKey,
    /// Pushes the inverse of a quadratic extension field element onto the advice stack.
    Ext2Inv,
    /// Pushes the number of leading zeros of a 32-bit value onto the advice stack.
    U32Clz,
    /// Pushes the number of trailing zeros of a 32-bit value onto the advice stack.
    U32Ctz,
    /// Pushes the number of leading ones of a 32-bit value onto the advice stack.
    U32Clo,
    /// Pushes the number of trailing ones of a 32-bit value onto the advice stack.
    U32Cto,
    /// Pushes the base 2 logarithm, rounded down, of a value onto the advice stack.
    ILog2,
    /// Inserts a range of memory into the advice map.
    MemToMap,
    /// Inserts two words into the advice map under their hash.
    HdwordToMap,
    /// Inserts two words into the advice map under their hash in a domain.
    HdwordToMapWithDomain,
    /// Inserts four words into the advice map under their sequential hash.
    HqwordToMap,
    /// Inserts two words into the advice map under the digest of a permutation.
    HpermToMap,
}

/// The number of each system event.
pub open spec fn event_number(e: SystemEvent) -> int {
    match e {
        SystemEvent::MerkleNodeMerge => 0,
        SystemEvent::MerkleNodeToStack => 1,
        SystemEvent::MapValueToStack => 2,
        SystemEvent::MapValueToStackN => 3,
        SystemEvent::HasMapKey => 4,
        SystemEvent::Ext2Inv => 5,
        SystemEvent::U32Clz => 6,
        SystemEvent::U32Ctz => 7,
        SystemEvent::U32Clo => 8,
        SystemEvent::U32Cto => 9,
        SystemEvent::ILog2 => 10,
        SystemEvent::MemToMap => 11,
        SystemEvent::HdwordToMap => 12,
        SystemEvent::HdwordToMapWithDomain => 13,
        SystemEvent::HqwordToMap => 14,
        SystemEvent::HpermToMap => 15,
    }
}

impl SystemEvent {
    /// Returns the number of this event.
    pub fn id(&self) -> (r: u8)
        ensures
            r == event_number(*self),
    {
        match self {
            SystemEvent::MerkleNodeMerge => 0,
            SystemEvent::MerkleNodeToStack => 1,
            SystemEvent::MapValueToStack => 2,
            SystemEvent::MapValueToStackN => 3,
            SystemEvent::HasMapKey => 4,
            SystemEvent::Ext2Inv => 5,
            SystemEvent::U32Clz => 6,
            SystemEvent::U32Ctz => 7,
            SystemEvent::U32Clo => 8,
            SystemEvent::U32Cto => 9,
            SystemEvent::ILog2 => 10,
            SystemEvent::MemToMap => 11,
            SystemEvent::HdwordToMap => 12,
            SystemEvent::HdwordToMapWithDomain => 13,
            SystemEvent::HqwordToMap => 14,
            SystemEvent::HpermToMap => 15,
        }
    }

    /// Returns the system event of an event identifier, or the identifier itself when no system
    /// event has that number.
    pub fn try_from(event_id: EventId) -> (r: Result<SystemEvent, EventId>)
        ensures
            event_id.0 <= 15 <==> r is Ok,
            r matches Ok(e) ==> event_number(e) == event_id.0,
            r is Err ==> r == Err::<SystemEvent, EventId>(event_id),
    {
        let value = event_id.as_felt();
        if value > 255 {
            return Err(event_id);
        }
        match value {
            0 => Ok(SystemEvent::MerkleNodeMerge),
            1 => Ok(SystemEvent::MerkleNodeToStack),
            2 => Ok(SystemEvent::MapValueToStack),
            3 => Ok(SystemEvent::MapValueToStackN),
            4 => Ok(SystemEvent::HasMapKey),
            5 => Ok(SystemEvent::Ext2Inv),
            6 => Ok(SystemEvent::U32Clz),
            7 => Ok(SystemEvent::U32Ctz),
            8 => Ok(SystemEvent::U32Clo),
            9 => Ok(SystemEvent::U32Cto),
            10 => Ok(SystemEvent::ILog2),
            11 => Ok(SystemEvent::MemToMap),
            12 => Ok(SystemEvent::HdwordToMap),
            13 => Ok(SystemEvent::HdwordToMapWithDomain),
            14 => Ok(SystemEvent::HqwordToMap),
            15 => Ok(SystemEvent::HpermToMap),
            _ => Err(event_id),
        }
    }

    /// Returns the event identifier of this event.
    pub fn event_id(&self) -> (r: EventId)
        ensures
            r.0 == event_number(*self),
    {
        EventId::from_u64(self.id() as u64)
    }

    /// Returns the name of this event, as Miden assembly writes it.
    pub fn name(&self) -> (r: &'static str)
        ensures
            r@ == (match *self {
                SystemEvent::MerkleNodeMerge => "merkle_node_merge"@,
                SystemEvent::MerkleNodeToStack => "merkle_node_to_stack"@,
                SystemEvent::MapValueToStack => "map_value_to_stack"@,
                SystemEvent::MapValueToStackN => "map_value_to_stack_with_len"@,
                SystemEvent::HasMapKey => "has_key_in_map"@,
                SystemEvent::Ext2Inv => "ext2_inv"@,
                SystemEvent::U32Clz => "u32clz"@,
                SystemEvent::U32Ctz => "u32ctz"@,
                SystemEvent::U32Clo => "u32clo"@,
                SystemEvent::U32Cto => "u32cto"@,
                SystemEvent::ILog2 => "ilog2"@,
                SystemEvent::MemToMap => "mem_to_map"@,
                SystemEvent::HdwordToMap => "hdword_to_map"@,
                SystemEvent::HdwordToMapWithDomain => "hdword_to_map_with_domain"@,
                SystemEvent::HqwordToMap => "hqword_to_map"@,
                SystemEvent::HpermToMap => "hperm_to_map"@,
            }),
    {
        match self {
            SystemEvent::MerkleNodeMerge => "merkle_node_merge",
            SystemEvent::MerkleNodeToStack => "merkle_node_to_stack",
            SystemEvent::MapValueToStack => "map_value_to_stack",
            SystemEvent::MapValueToStackN => "map_value_to_stack_with_len",
            SystemEvent::HasMapKey => "has_key_in_map",
            SystemEvent::Ext2Inv => "ext2_inv",
            SystemEvent::U32Clz => "u32clz",
            SystemEvent::U32Ctz => "u32ctz",
            SystemEvent::U32Clo => "u32clo",
            SystemEvent::U32Cto => "u32cto",
            SystemEvent::ILog2 => "ilog2",
            SystemEvent::MemToMap => "mem_to_map",
            SystemEvent::HdwordToMap => "hdword_to_map",
            SystemEvent::HdwordToMapWithDomain => "hdword_to_map_with_domain",
            SystemEvent::HqwordToMap => "hqword_to_map",
            SystemEvent::HpermToMap => "hperm_to_map",
        }
    }
}

} // verus!
