//! The view of a running process that event handlers get: its operand stack, its word-addressed
//! memory, its clock and its execution context.

use vstd::prelude::*;

verus! {

/// A word of four field elements.
pub type Word = [u64; 4];

/// The empty word.
pub open spec fn empty_word() -> Word {
    [0u64, 0u64, 0u64, 0u64]
}

/// Errors in accessing memory.
#[derive(Clone, Copy, Debug, PartialEq, Eq)]
pub enum MemoryError {
    /// An address does not fit in 32 bits.
    AddressOutOfBounds { addr: u64 },
    /// A range of addresses ends before it starts.
    InvalidMemoryRange { start_addr: u64, end_addr: u64 },
    /// A word access at an address that is not a multiple of 4.
    UnalignedWordAccess { addr: u32, ctx: u32, clk: u32 },
}

/// The word stored at `addr` by the latest of the writes in `writes`, if any.
pub open spec fn word_at(writes: Seq<(u32, Word)>, addr: u32) -> Option<Word>
    decreases writes.len(),
{
    if writes.len() == 0 {
        None
    } else if writes.last().0 == addr {
        Some(writes.last().1)
    } else {
        word_at(writes.drop_last(), addr)
    }
}

/// What reading the word at `addr` gives, in context `ctx` at clock cycle `clk`, from memory
/// with the writes `writes`.
pub open spec fn read_word_result(writes: Seq<(u32, Word)>, addr: u64, ctx: u32, clk: u32) -> Result<
    Word,
    MemoryError,
> {
    if addr > u32::MAX {
        Err(MemoryError::AddressOutOfBounds { addr })
    } else if addr % 4 != 0 {
        Err(MemoryError::UnalignedWordAccess { addr: addr as u32, ctx, clk })
    } else {
        match word_at(writes, addr as u32) {
            Some(w) => Ok(w),
            None => Ok(empty_word()),
        }
    }
}

/// Every word written holds field elements.
pub open spec fn words_are_felts(writes: Seq<(u32, Word)>) -> bool {
    forall|i: int, j: int| 0 <= i < writes.len() && 0 <= j < 4 ==> #[trigger] writes[i].1[j] < crate::felt::P
}

/// A word read back from memory holds field elements when every word written does.
pub proof fn lemma_word_at_felts(writes: Seq<(u32, Word)>, addr: u32)
    requires
        words_are_felts(writes),
    ensures
        word_at(writes, addr) matches Some(w) ==> forall|j: int| 0 <= j < 4 ==> #[trigger] w[j] < crate::felt::P,
    decreases writes.len(),
{
    if writes.len() > 0 {
        let init = writes.drop_last();
        assert(words_are_felts(init)) by {
            assert forall|i: int, j: int| 0 <= i < init.len() && 0 <= j < 4 implies #[trigger] init[i].1[j] < crate::felt::P by {
                assert(init[i] == writes[i]);
            }
        }
        lemma_word_at_felts(init, addr);
        assert(writes.last() == writes[writes.len() - 1]);
    }
}

/// Word-addressed memory: the words written at word-aligned addresses, latest last.
pub struct Memory {
    pub writes: Vec<(u32, Word)>,
}

impl Memory {
    /// Returns an empty memory.
    pub fn new() -> (r: Self)
        ensures
            r.writes@.len() == 0,
    {
        Memory { writes: Vec::new() }
    }

    /// Stores a word at a word-aligned address.
    pub fn write_word(&mut self, addr: u32, word: Word)
        ensures
            final(self).writes@ == old(self).writes@.push((addr, word)),
    {
        self.writes.push((addr, word));
    }

    /// Returns the word last stored at `addr`, if any.
    pub fn get_word(&self, addr: u32) -> (r: Option<Word>)
        ensures
            r == word_at(self.writes@, addr),
    {
        let mut i = self.writes.len();
        assert(self.writes@.take(i as int) =~= self.writes@);
        while i > 0
            invariant
                0 <= i <= self.writes@.len(),
                word_at(self.writes@, addr) == word_at(self.writes@.take(i as int), addr),
            decreases i,
        {
            let ghost t = self.writes@.take(i as int);
            assert(t.drop_last() =~= self.writes@.take(i - 1));
            let (a, w) = self.writes[i - 1];
            if a == addr {
                return Some(w);
            }
            i = i - 1;
        }
        None
    }

    /// Reads the word at `addr` in context `ctx` at clock cycle `clk`: fails unless the address
    /// fits in 32 bits and is word-aligned; a word never written reads as the empty word.
    pub fn read_word(&self, addr: u64, ctx: u32, clk: u32) -> (r: Result<Word, MemoryError>)
        ensures
            r == read_word_result(self.writes@, addr, ctx, clk),
    {
        if addr > 4294967295 {
            return Err(MemoryError::AddressOutOfBounds { addr });
        }
        let a = addr as u32;
        if a % 4 != 0 {
            return Err(MemoryError::UnalignedWordAccess { addr: a, ctx, clk });
        }
        match self.get_word(a) {
            Some(w) => Ok(w),
            None => Ok([0u64, 0u64, 0u64, 0u64]),
        }
    }

    /// Returns the element at `addr`: element `addr % 4` of the word at the aligned address
    /// below it, if that word was written.
    pub fn get_value(&self, addr: u32) -> (r: Option<u64>)
        ensures
            r == (match word_at(self.writes@, (addr - addr % 4) as u32) {
                Some(w) => Some(w[(addr % 4) as int]),
                None => None,
            }),
    {
        let base = addr - addr % 4;
        match self.get_word(base) {
            Some(w) => Some(w[(addr % 4) as usize]),
            None => None,
        }
    }
}

/// The state of a process as event handlers see it.
pub struct ProcessState {
    /// The operand stack, top first.
    pub stack: Vec<u64>,
    /// The memory of the current context.
    pub memory: Memory,
    /// The clock cycle.
    pub clk: u32,
    /// The execution context.
    pub ctx: u32,
}

impl ProcessState {
    /// Returns the stack element at position `i`, counting from the top.
    pub fn get_stack_item(&self, i: usize) -> (r: u64)
        requires
            i < self.stack@.len(),
        ensures
            r == self.stack@[i as int],
    {
        self.stack[i]
    }

    /// Returns the word made of the stack elements at positions `start` to `start + 3`.
    pub fn get_stack_word(&self, start: usize) -> (r: Word)
        requires
            start + 4 <= self.stack@.len(),
        ensures
            r@ == self.stack@.subrange(start as int, start + 4),
    {
        let n = self.stack.len();
        assert(start + 3 < n);
        let r = [self.stack[start], self.stack[start + 1], self.stack[start + 2], self.stack[start + 3]];
        assert(r@ =~= self.stack@.subrange(start as int, start + 4));
        r
    }

    /// Returns the range of addresses given by the stack elements at positions `start_idx` and
    /// `end_idx`; fails unless both fit in 32 bits and the range does not end before it starts.
    pub fn get_mem_addr_range(&self, start_idx: usize, end_idx: usize) -> (r: Result<(u32, u32), MemoryError>)
        requires
            start_idx < self.stack@.len(),
            end_idx < self.stack@.len(),
        ensures
            ({
                let s = self.stack@[start_idx as int];
                let e = self.stack@[end_idx as int];
                if s > u32::MAX {
                    r == Err::<(u32, u32), MemoryError>(MemoryError::AddressOutOfBounds { addr: s })
                } else if e > u32::MAX {
                    r == Err::<(u32, u32), MemoryError>(MemoryError::AddressOutOfBounds { addr: e })
                } else if s > e {
                    r == Err::<(u32, u32), MemoryError>(
                        MemoryError::InvalidMemoryRange { start_addr: s, end_addr: e },
                    )
                } else {
                    r == Ok::<(u32, u32), MemoryError>((s as u32, e as u32))
                }
            }),
    {
        let s = self.stack[start_idx];
        let e = self.stack[end_idx];
        if s > 4294967295 {
            return Err(MemoryError::AddressOutOfBounds { addr: s });
        }
        if e > 4294967295 {
            return Err(MemoryError::AddressOutOfBounds { addr: e });
        }
        if s > e {
            return Err(MemoryError::InvalidMemoryRange { start_addr: s, end_addr: e });
        }
        Ok((s as u32, e as u32))
    }
}

} // verus!
