//! The advice provider: the advice stack, the advice map and the Merkle store that programs
//! read non-deterministic inputs from.

use vstd::prelude::*;

use crate::felt::P;
use crate::handlers::word_equal;
use crate::hash::{MerkleStoreError, merge_roots_of, store_get_node, store_merge_roots, store_new, store_nodes, walk, empty_store_nodes};
use crate::memory::Word;
use miden_crypto::merkle::store::MerkleStore;

verus! {

/// Errors of the advice provider.
#[derive(Clone, Debug, PartialEq, Eq)]
pub enum AdviceError {
    /// The advice map has no entry for the key.
    MapKeyNotFound { key: Word },
    /// The advice map already has other values under the key.
    MapKeyAlreadyPresent { key: Word },
    /// The depth of a Merkle tree node does not fit in 8 bits.
    InvalidMerkleTreeDepth { depth: u64 },
    /// The index of a Merkle tree node is not below `2^depth`, or the depth is above 64.
    InvalidMerkleTreeNodeIndex { depth: u64, index: u64 },
    /// The Merkle store has no path from the root to the node.
    MerkleStoreLookupFailed(MerkleStoreError),
}

/// The values that the latest entry of `entries` for `key` holds, if any.
pub open spec fn map_get(entries: Seq<(Word, Vec<u64>)>, key: Word) -> Option<Seq<u64>>
    decreases entries.len(),
{
    if entries.len() == 0 {
        None
    } else if entries.last().0@ == key@ {
        Some(entries.last().1@)
    } else {
        map_get(entries.drop_last(), key)
    }
}

/// The advice stack, top last, after pushing `values` so that the first of them ends on top.
pub open spec fn push_all_first_on_top(stack: Seq<u64>, values: Seq<u64>) -> Seq<u64> {
    stack + values.reverse()
}

/// The source of non-deterministic inputs of a program.
pub struct AdviceProvider {
    /// The advice stack; its last element is the top.
    pub stack: Vec<u64>,
    /// The advice map, as its entries, latest last.
    pub map: Vec<(Word, Vec<u64>)>,
    /// The Merkle store.
    pub store: MerkleStore,
}

impl AdviceProvider {
    /// Returns an advice provider with an empty stack, an empty map and a new Merkle store,
    /// which holds the inner nodes of the empty trees of every height up to 255.
    pub fn new() -> (r: Self)
        ensures
            r.stack@.len() == 0,
            r.map@.len() == 0,
            store_nodes(r.store) == empty_store_nodes(255),
    {
        AdviceProvider { stack: Vec::new(), map: Vec::new(), store: store_new() }
    }

    /// Returns the values that the advice map holds under `key`.
    pub fn get_mapped_values(&self, key: &Word) -> (r: Option<&Vec<u64>>)
        ensures
            match r {
                Some(v) => map_get(self.map@, *key) == Some(v@),
                None => map_get(self.map@, *key) is None,
            },
    {
        let mut i = self.map.len();
        assert(self.map@.take(i as int) =~= self.map@);
        while i > 0
            invariant
                0 <= i <= self.map@.len(),
                map_get(self.map@, *key) == map_get(self.map@.take(i as int), *key),
            decreases i,
        {
            assert(self.map@.take(i as int).drop_last() =~= self.map@.take(i - 1));
            if word_equal(&self.map[i - 1].0, key) {
                return Some(&self.map[i - 1].1);
            }
            i = i - 1;
        }
        None
    }

    /// Whether the advice map has an entry for `key`.
    pub fn contains_map_key(&self, key: &Word) -> (r: bool)
        ensures
            r == map_get(self.map@, *key) is Some,
    {
        self.get_mapped_values(key).is_some()
    }

    /// Inserts `values` under `key`; fails if the map already holds other values under it.
    pub fn insert_into_map(&mut self, key: Word, values: Vec<u64>) -> (r: Result<(), AdviceError>)
        ensures
            final(self).stack@ == old(self).stack@,
            final(self).store == old(self).store,
            match map_get(old(self).map@, key) {
                None => r is Ok && final(self).map@ == old(self).map@.push((key, values)),
                Some(v) => if v == values@ {
                    r is Ok && final(self).map@ == old(self).map@
                } else {
                    r == Err::<(), AdviceError>(AdviceError::MapKeyAlreadyPresent { key })
                        && final(self).map@ == old(self).map@
                },
            },
    {
        let same = match self.get_mapped_values(&key) {
            None => None,
            Some(existing) => Some(seq_equal(existing, &values)),
        };
        match same {
            None => {
                self.map.push((key, values));
                Ok(())
            },
            Some(true) => Ok(()),
            Some(false) => Err(AdviceError::MapKeyAlreadyPresent { key }),
        }
    }

    /// Pushes a value onto the advice stack.
    pub fn push_stack(&mut self, value: u64)
        ensures
            final(self).stack@ == old(self).stack@.push(value),
            final(self).map@ == old(self).map@,
            final(self).store == old(self).store,
    {
        self.stack.push(value);
    }

    /// Pushes the elements of a word onto the advice stack, its first element on top.
    pub fn push_stack_word(&mut self, word: &Word)
        ensures
            final(self).stack@ == push_all_first_on_top(old(self).stack@, word@),
            final(self).map@ == old(self).map@,
            final(self).store == old(self).store,
    {
        let mut i: usize = 4;
        while i > 0
            invariant
                0 <= i <= 4,
                self.stack@ == old(self).stack@ + word@.subrange(i as int, 4).reverse(),
                self.map@ == old(self).map@,
                self.store == old(self).store,
            decreases i,
        {
            i = i - 1;
            self.stack.push(word[i]);
            assert(self.stack@ =~= old(self).stack@ + word@.subrange(i as int, 4).reverse());
        }
        assert(word@.subrange(0, 4) =~= word@);
    }

    /// Pushes the values that the advice map holds under `key` onto the advice stack, the first
    /// on top, and then, if asked, their number; fails if the map has no entry for `key`.
    pub fn push_from_map(&mut self, key: Word, include_len: bool) -> (r: Result<(), AdviceError>)
        ensures
            final(self).map@ == old(self).map@,
            final(self).store == old(self).store,
            match map_get(old(self).map@, key) {
                None => r == Err::<(), AdviceError>(AdviceError::MapKeyNotFound { key })
                    && final(self).stack@ == old(self).stack@,
                Some(v) => r is Ok && final(self).stack@ == (if include_len {
                    push_all_first_on_top(old(self).stack@, v).push(v.len() as u64)
                } else {
                    push_all_first_on_top(old(self).stack@, v)
                }),
            },
    {
        let found = self.get_mapped_values(&key);
        let values: Vec<u64> = match found {
            None => {
                return Err(AdviceError::MapKeyNotFound { key });
            },
            Some(v) => copy_vec(v),
        };
        let n = values.len();
        let mut i = n;
        while i > 0
            invariant
                0 <= i <= n,
                n == values@.len(),
                self.stack@ == old(self).stack@ + values@.subrange(i as int, n as int).reverse(),
                self.map@ == old(self).map@,
                self.store == old(self).store,
            decreases i,
        {
            i = i - 1;
            self.stack.push(values[i]);
            assert(self.stack@ =~= old(self).stack@ + values@.subrange(i as int, n as int).reverse());
        }
        assert(values@.subrange(0, n as int) =~= values@);
        if include_len {
            self.stack.push(n as u64);
        }
        Ok(())
    }

    /// Merges two Merkle trees of the store under a new root, `merge(left, right)`; the words
    /// are of field elements.
    pub fn merge_roots(&mut self, left: Word, right: Word) -> (r: Result<Word, AdviceError>)
        requires
            forall|i: int| 0 <= i < 4 ==> #[trigger] left@[i] < P,
            forall|i: int| 0 <= i < 4 ==> #[trigger] right@[i] < P,
        ensures
            r matches Ok(w) && w@ == merge_roots_of(left@, right@),
            r matches Ok(w) ==> store_nodes(final(self).store) == store_nodes(old(self).store).insert(
                w@,
                (left@, right@),
            ),
            final(self).stack@ == old(self).stack@,
            final(self).map@ == old(self).map@,
    {
        match store_merge_roots(&mut self.store, left, right) {
            Ok(w) => Ok(w),
            Err(e) => Err(AdviceError::MerkleStoreLookupFailed(e)),
        }
    }

    /// Returns the node at `index` of the tree of depth `depth` under `root` in the Merkle store;
    /// the root is a word of field elements.
    pub fn get_tree_node(&self, root: Word, depth: u64, index: u64) -> (r: Result<Word, AdviceError>)
        requires
            forall|i: int| 0 <= i < 4 ==> #[trigger] root@[i] < P,
        ensures
            depth > u8::MAX ==> r == Err::<Word, AdviceError>(AdviceError::InvalidMerkleTreeDepth { depth }),
            depth <= u8::MAX && (depth > 64 || (depth < 64 && index >= pow2_64(depth as int))) ==> r == Err::<Word, AdviceError>(
                AdviceError::InvalidMerkleTreeNodeIndex { depth, index },
            ),
            depth <= 64 && (depth == 64 || index < pow2_64(depth as int)) ==> match walk(store_nodes(self.store), root@, depth as int, index as int) {
                Some(node) => r matches Ok(w) && w@ == node,
                None => r matches Err(AdviceError::MerkleStoreLookupFailed(_)),
            },
    {
        if depth > 255 {
            return Err(AdviceError::InvalidMerkleTreeDepth { depth });
        }
        if depth > 64 || (depth < 64 && index >= pow2_u64(depth)) {
            return Err(AdviceError::InvalidMerkleTreeNodeIndex { depth, index });
        }
        match store_get_node(&self.store, root, depth as u8, index) {
            Ok(w) => Ok(w),
            Err(e) => Err(AdviceError::MerkleStoreLookupFailed(e)),
        }
    }
}

/// `2^n` for `n` below 64.
pub open spec fn pow2_64(n: int) -> int {
    vstd::arithmetic::power2::pow2(n as nat) as int
}

/// Returns `2^n` for `n` below 64.
fn pow2_u64(n: u64) -> (r: u64)
    requires
        n < 64,
    ensures
        r == pow2_64(n as int),
{
    let mut r: u64 = 1;
    let mut i: u64 = 0;
    proof {
        vstd::arithmetic::power2::lemma2_to64();
    }
    while i < n
        invariant
            0 <= i <= n < 64,
            r == vstd::arithmetic::power2::pow2(i as nat),
        decreases n - i,
    {
        proof {
            vstd::arithmetic::power2::lemma_pow2_unfold((i + 1) as nat);
            vstd::arithmetic::power2::lemma_pow2_strictly_increases((i + 1) as nat, 64);
            vstd::arithmetic::power2::lemma2_to64_rest();
        }
        r = r * 2;
        i = i + 1;
    }
    r
}

/// Whether two vectors hold the same elements.
fn seq_equal(a: &Vec<u64>, b: &Vec<u64>) -> (r: bool)
    ensures
        r == (a@ == b@),
{
    if a.len() != b.len() {
        return false;
    }
    let mut i: usize = 0;
    while i < a.len()
        invariant
            a@.len() == b@.len(),
            0 <= i <= a@.len(),
            forall|j: int| 0 <= j < i ==> a@[j] == b@[j],
        decreases a@.len() - i,
    {
        if a[i] != b[i] {
            return false;
        }
        i = i + 1;
    }
    assert(a@ =~= b@);
    true
}

/// A copy of a vector.
fn copy_vec(v: &Vec<u64>) -> (r: Vec<u64>)
    ensures
        r@ == v@,
{
    let mut r: Vec<u64> = Vec::new();
    let mut i: usize = 0;
    while i < v.len()
        invariant
            0 <= i <= v@.len(),
            r@ == v@.take(i as int),
        decreases v@.len() - i,
    {
        r.push(v[i]);
        assert(r@ =~= v@.take(i + 1));
        i = i + 1;
    }
    assert(r@ =~= v@);
    r
}

} // verus!
