//! Calls into `miden-crypto`: hash functions and field inversion.

use vstd::prelude::*;

use miden_crypto::Felt;
use miden_crypto::field::Field;
use miden_crypto::hash::rpo::Rpo256;
use miden_crypto::hash::blake::{Blake3_192, Blake3_256};
use miden_crypto::hash::poseidon2::Poseidon2;
use miden_crypto::hash::rpx::Rpx256;
use miden_crypto::hash::keccak::Keccak256;
use miden_crypto::Word;
use miden_crypto::merkle::store::MerkleStore;
use miden_crypto::merkle::{MerkleError, NodeIndex};

use crate::felt::{is_felt, P};

verus! {

/// Multiplicative inverse in the base field, computed by `miden-crypto`.
///
/// Trusted: calls `Field::inverse` of `miden_crypto::Felt`. The contract claims that the result
/// is the canonical element `r` with `a * r = 1 (mod P)`, which holds of the inverse of every
/// nonzero element of a prime field.
#[verifier::external_body]
pub(crate) fn felt_inverse(a: u64) -> (r: u64)
    requires
        is_felt(a as int),
        a != 0,
    ensures
        is_felt(r as int),
        (a as int * r as int) % (P as int) == 1,
{
    Felt::new(a).inverse().as_canonical_u64()
}

/// The digest that RPO256 gives to a sequence of field elements, as four canonical elements.
pub uninterp spec fn rpo_hash_elements(elements: Seq<u64>) -> Seq<u64>;

/// Hashes a sequence of field elements with RPO256.
///
/// Trusted: calls `Rpo256::hash_elements` of `miden-crypto` and converts the digest word to its
/// four canonical elements. The contract names the result as a function of the elements and
/// states that its elements are canonical, as the conversion makes them.
#[verifier::external_body]
pub(crate) fn hash_elements(elements: &Vec<u64>) -> (r: [u64; 4])
    requires
        forall|i: int| 0 <= i < elements@.len() ==> #[trigger] elements@[i] < P,
    ensures
        r@ == rpo_hash_elements(elements@),
        forall|i: int| 0 <= i < 4 ==> #[trigger] r@[i] < P,
{
    let felts: Vec<Felt> = elements.iter().map(|e| Felt::new(*e)).collect();
    Rpo256::hash_elements(&felts).into()
}

/// The 32 bytes of the BLAKE3-256 digest of the UTF-8 encoding of a string.
pub uninterp spec fn blake3_256_of_str(s: Seq<char>) -> Seq<u8>;

/// Hashes the UTF-8 bytes of a string with BLAKE3-256.
///
/// Trusted: calls `Blake3_256::hash` of `miden-crypto` on the bytes of the string and returns
/// the digest bytes. The contract names the result as a function of the string and states that
/// the digest has 32 bytes.
#[verifier::external_body]
pub(crate) fn blake3_256_str(s: &str) -> (r: [u8; 32])
    ensures
        r@ == blake3_256_of_str(s@),
        r@.len() == 32,
{
    Blake3_256::hash(s.as_bytes()).as_bytes()
}

/// The collision resistance of BLAKE3-192.
///
/// Trusted: returns `Blake3_192::COLLISION_RESISTANCE` of `miden-crypto`, which its source sets
/// to 96 bits.
#[verifier::external_body]
pub(crate) fn blake3_192_collision_resistance() -> (r: u32)
    ensures
        r == 96,
{
    Blake3_192::COLLISION_RESISTANCE
}

/// The collision resistance of BLAKE3-256.
///
/// Trusted: returns `Blake3_256::COLLISION_RESISTANCE` of `miden-crypto`, which its source sets
/// to 128 bits.
#[verifier::external_body]
pub(crate) fn blake3_256_collision_resistance() -> (r: u32)
    ensures
        r == 128,
{
    Blake3_256::COLLISION_RESISTANCE
}

/// The collision resistance of RPO256.
///
/// Trusted: returns `Rpo256::COLLISION_RESISTANCE` of `miden-crypto`, which its source sets to
/// 128 bits.
#[verifier::external_body]
pub(crate) fn rpo256_collision_resistance() -> (r: u32)
    ensures
        r == 128,
{
    Rpo256::COLLISION_RESISTANCE
}

/// The collision resistance of RPX256.
///
/// Trusted: returns `Rpx256::COLLISION_RESISTANCE` of `miden-crypto`, which its source sets to
/// 128 bits.
#[verifier::external_body]
pub(crate) fn rpx256_collision_resistance() -> (r: u32)
    ensures
        r == 128,
{
    Rpx256::COLLISION_RESISTANCE
}

/// The collision resistance of Poseidon2.
///
/// Trusted: returns `Poseidon2::COLLISION_RESISTANCE` of `miden-crypto`, which its source sets
/// to 128 bits.
#[verifier::external_body]
pub(crate) fn poseidon2_collision_resistance() -> (r: u32)
    ensures
        r == 128,
{
    Poseidon2::COLLISION_RESISTANCE
}

/// The 32 bytes of the Keccak-256 digest of a byte string.
pub uninterp spec fn keccak256_of(bytes: Seq<u8>) -> Seq<u8>;

/// Hashes a byte string with Keccak-256.
///
/// Trusted: calls `Keccak256::hash` of `miden-crypto` and returns the digest bytes. The contract
/// names the result as a function of the bytes and states that the digest has 32 bytes.
#[verifier::external_body]
pub(crate) fn keccak256(bytes: &Vec<u8>) -> (r: [u8; 32])
    ensures
        r@ == keccak256_of(bytes@),
        r@.len() == 32,
{
    *Keccak256::hash(bytes).as_bytes()
}

/// The RPO256 digest of two words merged, as four canonical elements.
pub uninterp spec fn rpo_merge_of(a: Seq<u64>, b: Seq<u64>) -> Seq<u64>;

/// Merges two words with RPO256.
///
/// Trusted: calls `Rpo256::merge` of `miden-crypto` on the two words and converts the digest to
/// its four canonical elements. The contract names the result as a function of the two words
/// and states that its elements are canonical.
#[verifier::external_body]
pub(crate) fn rpo_merge(a: [u64; 4], b: [u64; 4]) -> (r: [u64; 4])
    requires
        forall|i: int| 0 <= i < 4 ==> #[trigger] a@[i] < P,
        forall|i: int| 0 <= i < 4 ==> #[trigger] b@[i] < P,
    ensures
        r@ == rpo_merge_of(a@, b@),
        forall|i: int| 0 <= i < 4 ==> #[trigger] r@[i] < P,
{
    let wa = Word::new(a.map(Felt::new));
    let wb = Word::new(b.map(Felt::new));
    Rpo256::merge(&[wa, wb]).into()
}

/// The RPO256 digest of two words merged in a domain, as four canonical elements.
pub uninterp spec fn rpo_merge_in_domain_of(a: Seq<u64>, b: Seq<u64>, domain: u64) -> Seq<u64>;

/// Merges two words in a domain with RPO256.
///
/// Trusted: calls `Rpo256::merge_in_domain` of `miden-crypto` and converts the digest to its
/// four canonical elements. The contract names the result as a function of the words and the
/// domain and states that its elements are canonical.
#[verifier::external_body]
pub(crate) fn rpo_merge_in_domain(a: [u64; 4], b: [u64; 4], domain: u64) -> (r: [u64; 4])
    ensures
        r@ == rpo_merge_in_domain_of(a@, b@, domain),
        forall|i: int| 0 <= i < 4 ==> #[trigger] r@[i] < P,
{
    let wa = Word::new(a.map(Felt::new));
    let wb = Word::new(b.map(Felt::new));
    Rpo256::merge_in_domain(&[wa, wb], Felt::new(domain)).into()
}

/// The RPO256 permutation of a state of twelve elements, as canonical elements.
pub uninterp spec fn rpo_permutation_of(state: Seq<u64>) -> Seq<u64>;

/// Applies the RPO256 permutation to a state of twelve elements.
///
/// Trusted: calls `Rpo256::apply_permutation` of `miden-crypto` and converts the state back to
/// canonical elements. The contract names the result as a function of the state.
#[verifier::external_body]
pub(crate) fn rpo_permute(state: [u64; 12]) -> (r: [u64; 12])
    ensures
        r@ == rpo_permutation_of(state@),
        forall|i: int| 0 <= i < 12 ==> #[trigger] r@[i] < P,
{
    let mut s = state.map(Felt::new);
    Rpo256::apply_permutation(&mut s);
    s.map(|x| x.as_canonical_u64())
}

/// The range of the rate elements in the RPO256 state.
///
/// Trusted: returns the bounds of `Rpo256::RATE_RANGE` of `miden-crypto`, which its source sets
/// to `0..8`.
#[verifier::external_body]
pub(crate) fn rpo_rate_range() -> (r: (usize, usize))
    ensures
        r == (0usize, 8usize),
{
    (Rpo256::RATE_RANGE.start, Rpo256::RATE_RANGE.end)
}

/// The range of the digest elements in the RPO256 state.
///
/// Trusted: returns the bounds of `Rpo256::DIGEST_RANGE` of `miden-crypto`, which its source
/// sets to `0..4`.
#[verifier::external_body]
pub(crate) fn rpo_digest_range() -> (r: (usize, usize))
    ensures
        r == (0usize, 4usize),
{
    (Rpo256::DIGEST_RANGE.start, Rpo256::DIGEST_RANGE.end)
}

// MERKLE STORE
// ================================================================================================

#[verifier::external_type_specification]
#[verifier::external_body]
pub struct ExMerkleStore(MerkleStore);

/// The inner nodes of a Merkle store: each node digest with its left and right children.
pub uninterp spec fn store_nodes(store: MerkleStore) -> Map<Seq<u64>, (Seq<u64>, Seq<u64>)>;

/// The digest of the parent of two nodes in a Merkle store.
pub uninterp spec fn merge_roots_of(left: Seq<u64>, right: Seq<u64>) -> Seq<u64>;

/// The node reached from `hash` by following `i` more bits of `index`, most significant first:
/// a set bit goes right, a clear bit goes left.
pub open spec fn walk_from(
    nodes: Map<Seq<u64>, (Seq<u64>, Seq<u64>)>,
    hash: Seq<u64>,
    i: int,
    index: int,
) -> Option<Seq<u64>>
    decreases i,
{
    if i <= 0 {
        Some(hash)
    } else if !nodes.contains_key(hash) {
        None
    } else {
        let bit = (index / vstd::arithmetic::power2::pow2((i - 1) as nat) as int) % 2;
        walk_from(nodes, if bit == 1 { nodes[hash].1 } else { nodes[hash].0 }, i - 1, index)
    }
}

/// The node at `index` of the tree of depth `depth` under `root`, if the store holds the path.
pub open spec fn walk(nodes: Map<Seq<u64>, (Seq<u64>, Seq<u64>)>, root: Seq<u64>, depth: int, index: int) -> Option<
    Seq<u64>,
> {
    if !nodes.contains_key(root) {
        None
    } else {
        walk_from(nodes, root, depth, index)
    }
}

/// Errors of lookups in a Merkle store.
#[derive(Clone, Copy, Debug, PartialEq, Eq)]
pub enum MerkleStoreError {
    /// The root is not in the store.
    RootNotInStore([u64; 4]),
    /// A node on the path is not in the store.
    NodeNotInStore([u64; 4]),
    /// Another lookup error.
    Other,
}

/// The root of a Merkle tree of the given height, `1..=255`, all of whose leaves are the empty
/// word, as `miden-crypto` tabulates it.
pub uninterp spec fn empty_subtree_root(height: u8) -> Seq<u64>;

/// The root of an empty Merkle tree of height `h`: the empty word for a single leaf.
pub open spec fn empty_root(h: nat) -> Seq<u64> {
    if h == 0 {
        seq![0u64, 0u64, 0u64, 0u64]
    } else {
        empty_subtree_root(h as u8)
    }
}

/// The inner nodes of the empty trees of heights 1 to `n`, inserted from the lowest up: the
/// root of each has the root of the empty tree one lower as both children.
pub open spec fn empty_store_nodes(n: nat) -> Map<Seq<u64>, (Seq<u64>, Seq<u64>)>
    decreases n,
{
    if n == 0 {
        Map::empty()
    } else {
        empty_store_nodes((n - 1) as nat).insert(
            empty_root(n),
            (empty_root((n - 1) as nat), empty_root((n - 1) as nat)),
        )
    }
}

/// Returns a new Merkle store.
///
/// Trusted: calls `MerkleStore::new` of `miden-crypto`, which fills the store with the inner
/// nodes of the empty trees of heights 1 to 255, taken from its table of empty-subtree roots
/// (whose entry for a single leaf is the empty word) and inserted from the lowest up. The
/// contract names the tabulated roots and states those insertions.
#[verifier::external_body]
pub(crate) fn store_new() -> (r: MerkleStore)
    ensures
        store_nodes(r) == empty_store_nodes(255),
        store_nodes(r) == empty_store_nodes(254).insert(
            empty_subtree_root(255u8),
            (empty_root(254), empty_root(254)),
        ),
{
    MerkleStore::new()
}

/// Merges two roots of a Merkle store under a new parent node.
///
/// Trusted: calls `MerkleStore::merge_roots` of `miden-crypto`, which computes the parent digest
/// of the two roots, inserts the parent with its two children into the store and always
/// returns `Ok`. The contract names the parent digest as a function of the two roots and states
/// the insertion, for words of field elements in canonical form.
#[verifier::external_body]
pub(crate) fn store_merge_roots(store: &mut MerkleStore, left: [u64; 4], right: [u64; 4]) -> (r: Result<[u64; 4], MerkleStoreError>)
    requires
        forall|i: int| 0 <= i < 4 ==> #[trigger] left@[i] < P,
        forall|i: int| 0 <= i < 4 ==> #[trigger] right@[i] < P,
    ensures
        r == Ok::<[u64; 4], MerkleStoreError>(r->Ok_0),
        r->Ok_0@ == merge_roots_of(left@, right@),
        store_nodes(*final(store)) == store_nodes(*old(store)).insert(
            merge_roots_of(left@, right@),
            (left@, right@),
        ),
{
    let l = Word::new(left.map(Felt::new));
    let rt = Word::new(right.map(Felt::new));
    match store.merge_roots(l, rt) {
        Ok(w) => Ok(w.into()),
        Err(_) => Err(MerkleStoreError::Other),
    }
}

/// Returns the node at an index of the tree under a root in a Merkle store.
///
/// Trusted: calls `MerkleStore::get_node` of `miden-crypto` with the node index of `depth` and
/// `index`. The contract states what its source does: starting from the root, which must be in
/// the store, it follows the bits of the index from the most significant one, going to the right
/// child on a set bit, and fails when a node on the path is not in the store.
#[verifier::external_body]
pub(crate) fn store_get_node(store: &MerkleStore, root: [u64; 4], depth: u8, index: u64) -> (r: Result<
    [u64; 4],
    MerkleStoreError,
>)
    requires
        forall|i: int| 0 <= i < 4 ==> #[trigger] root@[i] < P,
        depth <= 64,
        depth == 64 || index < vstd::arithmetic::power2::pow2(depth as nat),
    ensures
        match walk(store_nodes(*store), root@, depth as int, index as int) {
            Some(node) => r matches Ok(w) && w@ == node,
            None => r is Err,
        },
{
    let w = Word::new(root.map(Felt::new));
    match store.get_node(w, NodeIndex::new_unchecked(depth, index)) {
        Ok(n) => Ok(n.into()),
        Err(MerkleError::RootNotInStore(x)) => Err(MerkleStoreError::RootNotInStore(x.into())),
        Err(MerkleError::NodeIndexNotFoundInStore(x, _)) => Err(MerkleStoreError::NodeNotInStore(x.into())),
        Err(_) => Err(MerkleStoreError::Other),
    }
}

} // verus!
