//! Byte-addressed memory that grows in 32-byte words.

use vstd::prelude::*;
use crate::word::{U256, be_value, be_bytes};

verus! {

/// The length of memory of length `len` after it is grown to cover `size`
/// bytes at `offset`: the next multiple of 32 that covers them, if it does not
/// already.
pub open spec fn grown_len(len: nat, offset: nat, size: nat) -> nat {
    if offset + size > len {
        ((offset + size + 31) / 32) * 32
    } else {
        len
    }
}

/// Memory `mem` grown with zero bytes to cover `size` bytes at `offset`.
pub open spec fn grown(mem: Seq<u8>, offset: nat, size: nat) -> Seq<u8> {
    mem + Seq::new((grown_len(mem.len(), offset, size) - mem.len()) as nat, |i: int| 0u8)
}

/// Memory `mem` after the 32 big-endian bytes of `value` are written at
/// `offset`, grown first to cover them.
pub open spec fn with_word(mem: Seq<u8>, offset: nat, value: nat) -> Seq<u8> {
    let g = grown(mem, offset, 32);
    g.subrange(0, offset as int) + be_bytes(value, 32) + g.subrange((offset + 32) as int, g.len() as int)
}

/// Memory `mem` after the byte `value` is written at `offset`, grown first to
/// cover it.
pub open spec fn with_byte(mem: Seq<u8>, offset: nat, value: u8) -> Seq<u8> {
    grown(mem, offset, 1).update(offset as int, value)
}

/// The word whose 32 big-endian bytes start at `offset` in `mem`.
pub open spec fn word_at(mem: Seq<u8>, offset: nat) -> nat {
    be_value(mem.subrange(offset as int, (offset + 32) as int))
}

/// Memory whose view is its bytes; its length is always a multiple of 32.
#[derive(Debug)]
pub struct Memory {
    data: Vec<u8>,
}

impl View for Memory {
    type V = Seq<u8>;

    closed spec fn view(&self) -> Seq<u8> {
        self.data@
    }
}

impl Memory {
    #[verifier::type_invariant]
    spec fn whole_words(&self) -> bool {
        self.data@.len() % 32 == 0
    }

    pub fn new() -> (r: Self)
        ensures
            r@ == Seq::<u8>::empty(),
    {
        Self { data: Vec::new() }
    }

    pub fn size(&self) -> (r: usize)
        ensures
            r == self@.len(),
            r % 32 == 0,
    {
        proof { use_type_invariant(self); }
        self.data.len()
    }

    fn expand(&mut self, offset: usize, size: usize)
        requires
            offset + size + 31 <= usize::MAX,
        ensures
            final(self)@ == grown(old(self)@, offset as nat, size as nat),
    {
        proof { use_type_invariant(&*self); }
        let needed = offset + size;
        if needed > self.data.len() {
            let words = (needed + 31) / 32;
            let mut data = Vec::new();
            std::mem::swap(&mut data, &mut self.data);
            data.resize(words * 32, 0);
            self.data = data;
            assert(self@ =~= grown(old(self)@, offset as nat, size as nat));
        } else {
            assert(self@ =~= grown(old(self)@, offset as nat, size as nat));
        }
    }

    /// Reads the word whose 32 big-endian bytes start at `offset`, growing the
    /// memory to cover them.
    pub fn get_u256(&mut self, offset: usize) -> (r: U256)
        requires
            offset + 63 <= usize::MAX,
        ensures
            final(self)@ == grown(old(self)@, offset as nat, 32),
            r@ == word_at(final(self)@, offset as nat),
    {
        self.expand(offset, 32);
        let mut bytes = [0u8; 32];
        let mut i: usize = 0;
        while i < 32
            invariant
                i <= 32,
                offset + 63 <= usize::MAX,
                offset + 32 <= self@.len(),
                bytes@.len() == 32,
                forall|j: int| 0 <= j < i ==> bytes@[j] == self@[offset + j],
            decreases 32 - i,
        {
            bytes[i] = self.data[offset + i];
            i = i + 1;
        }
        assert(bytes@ =~= self@.subrange(offset as int, offset + 32));
        U256::from_be_bytes(bytes)
    }

    /// Writes the 32 big-endian bytes of `value` at `offset`, growing the memory
    /// to cover them.
    pub fn set_u256(&mut self, offset: usize, value: U256)
        requires
            offset + 63 <= usize::MAX,
        ensures
            final(self)@ == with_word(old(self)@, offset as nat, value@),
    {
        self.expand(offset, 32);
        proof { use_type_invariant(&*self); }
        let ghost before = self@;
        let bytes = value.to_be_bytes();
        let mut data = Vec::new();
        std::mem::swap(&mut data, &mut self.data);
        let mut i: usize = 0;
        while i < 32
            invariant
                i <= 32,
                offset + 63 <= usize::MAX,
                offset + 32 <= before.len(),
                before.len() % 32 == 0,
                data@.len() == before.len(),
                bytes@ == be_bytes(value@, 32),
                forall|j: int| 0 <= j < before.len() && !(offset <= j < offset + i) ==> data@[j]
                    == before[j],
                forall|j: int| offset <= j < offset + i ==> data@[j] == bytes@[j - offset],
            decreases 32 - i,
        {
            data.set(offset + i, bytes[i]);
            i = i + 1;
        }
        self.data = data;
        proof {
            crate::bits::lemma_be_value_of_bytes(value@, 32);
        }
        assert(self@ =~= before.subrange(0, offset as int) + be_bytes(value@, 32) + before.subrange(
            offset + 32,
            before.len() as int,
        ));
    }

    /// Writes one byte at `offset`, growing the memory to cover it.
    pub fn set_byte(&mut self, offset: usize, value: u8)
        requires
            offset + 32 <= usize::MAX,
        ensures
            final(self)@ == with_byte(old(self)@, offset as nat, value),
    {
        self.expand(offset, 1);
        proof { use_type_invariant(&*self); }
        let mut data = Vec::new();
        std::mem::swap(&mut data, &mut self.data);
        data.set(offset, value);
        self.data = data;
    }
}

impl Clone for Memory {
    fn clone(&self) -> (r: Self)
        ensures
            r@ == self@,
    {
        proof { use_type_invariant(self); }
        let data = self.data.clone();
        assert(data@ =~= self.data@);
        Memory { data }
    }
}

} // verus!
