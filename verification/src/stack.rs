//! The operand stack: at most 1024 words.

use vstd::prelude::*;
use crate::error::EvmError;
use crate::word::U256;

verus! {

/// The greatest number of words the stack holds.
pub const MAX_STACK_DEPTH: usize = 1024;

/// The operand stack.  Its view is the sequence of the numbers its words
/// denote, bottom first, so that the top is the last element.
#[derive(Debug)]
pub struct Stack {
    data: Vec<U256>,
}

impl View for Stack {
    type V = Seq<nat>;

    closed spec fn view(&self) -> Seq<nat> {
        self.data@.map_values(|w: U256| w@)
    }
}

impl Stack {
    #[verifier::type_invariant]
    spec fn within_depth(&self) -> bool {
        self.data@.len() <= MAX_STACK_DEPTH
    }

    pub fn new() -> (r: Self)
        ensures
            r@ == Seq::<nat>::empty(),
    {
        let r = Self { data: Vec::with_capacity(64) };
        assert(r@ =~= Seq::<nat>::empty());
        r
    }

    /// Pushes a word, or fails with `StackOverflow`, leaving the stack as it was,
    /// when it already holds 1024 words.
    pub fn push(&mut self, value: U256) -> (r: Result<(), EvmError>)
        ensures
            final(self)@.len() <= MAX_STACK_DEPTH,
            old(self)@.len() < MAX_STACK_DEPTH ==> {
                &&& r is Ok
                &&& final(self)@ == old(self)@.push(value@)
            },
            old(self)@.len() >= MAX_STACK_DEPTH ==> {
                &&& r == Err::<(), EvmError>(EvmError::StackOverflow)
                &&& final(self)@ == old(self)@
            },
    {
        proof { use_type_invariant(&*self); }
        if self.data.len() >= MAX_STACK_DEPTH {
            return Err(EvmError::StackOverflow);
        }
        let mut data = Vec::new();
        std::mem::swap(&mut data, &mut self.data);
        data.push(value);
        self.data = data;
        assert(self@ =~= old(self)@.push(value@));
        Ok(())
    }

    /// Pops the top word, or fails with `StackUnderflow` on an empty stack.
    pub fn pop(&mut self) -> (r: Result<U256, EvmError>)
        ensures
            final(self)@.len() <= MAX_STACK_DEPTH,
            old(self)@.len() == 0 ==> {
                &&& r == Err::<U256, EvmError>(EvmError::StackUnderflow)
                &&& final(self)@ == old(self)@
            },
            old(self)@.len() > 0 ==> {
                &&& (r matches Ok(v) && v@ == old(self)@.last())
                &&& final(self)@ == old(self)@.drop_last()
            },
    {
        proof { use_type_invariant(&*self); }
        let mut data = Vec::new();
        std::mem::swap(&mut data, &mut self.data);
        let popped = data.pop();
        self.data = data;
        match popped {
            Some(v) => {
                assert(self@ =~= old(self)@.drop_last());
                Ok(v)
            },
            None => Err(EvmError::StackUnderflow),
        }
    }

    /// The word `depth` places below the top, or `StackUnderflow` when the stack
    /// is not that deep.
    pub fn peek(&self, depth: usize) -> (r: Result<U256, EvmError>)
        ensures
            depth >= self@.len() ==> r == Err::<U256, EvmError>(EvmError::StackUnderflow),
            depth < self@.len() ==> (r matches Ok(v) && v@ == self@[self@.len() - 1 - depth]),
    {
        if depth >= self.data.len() {
            return Err(EvmError::StackUnderflow);
        }
        Ok(self.data[self.data.len() - 1 - depth])
    }

    /// Exchanges the top word with the word `depth` places below it, or fails
    /// with `StackUnderflow` when the stack is not that deep.
    pub fn swap(&mut self, depth: usize) -> (r: Result<(), EvmError>)
        ensures
            depth >= old(self)@.len() ==> {
                &&& r == Err::<(), EvmError>(EvmError::StackUnderflow)
                &&& final(self)@ == old(self)@
            },
            depth < old(self)@.len() ==> {
                let top = old(self)@.len() - 1;
                &&& r is Ok
                &&& final(self)@ == old(self)@.update(top, old(self)@[top - depth]).update(
                    top - depth,
                    old(self)@[top],
                )
            },
    {
        proof { use_type_invariant(&*self); }
        let len = self.data.len();
        if depth >= len {
            return Err(EvmError::StackUnderflow);
        }
        let top = self.data[len - 1];
        let other = self.data[len - 1 - depth];
        let mut data = Vec::new();
        std::mem::swap(&mut data, &mut self.data);
        data.set(len - 1, other);
        data.set(len - 1 - depth, top);
        self.data = data;
        assert(self@ =~= old(self)@.update(len - 1, old(self)@[len - 1 - depth]).update(
            len - 1 - depth,
            old(self)@[len - 1],
        ));
        Ok(())
    }

    /// Pushes a copy of the `depth`-th word from the top (the top is the first),
    /// or fails with `StackUnderflow` when the stack is not that deep or with
    /// `StackOverflow` when it is full.
    pub fn dup(&mut self, depth: usize) -> (r: Result<(), EvmError>)
        requires
            depth >= 1,
        ensures
            depth > old(self)@.len() ==> {
                &&& r == Err::<(), EvmError>(EvmError::StackUnderflow)
                &&& final(self)@ == old(self)@
            },
            depth <= old(self)@.len() && old(self)@.len() >= MAX_STACK_DEPTH ==> {
                &&& r == Err::<(), EvmError>(EvmError::StackOverflow)
                &&& final(self)@ == old(self)@
            },
            depth <= old(self)@.len() && old(self)@.len() < MAX_STACK_DEPTH ==> {
                &&& r is Ok
                &&& final(self)@ == old(self)@.push(old(self)@[old(self)@.len() - depth])
            },
    {
        let value = match self.peek(depth - 1) {
            Ok(v) => v,
            Err(e) => return Err(e),
        };
        self.push(value)
    }

    pub fn len(&self) -> (r: usize)
        ensures
            r == self@.len(),
    {
        self.data.len()
    }

    pub fn is_empty(&self) -> (r: bool)
        ensures
            r == (self@.len() == 0),
    {
        self.data.len() == 0
    }
}

impl Default for Stack {
    fn default() -> (r: Self)
        ensures
            r@ == Seq::<nat>::empty(),
    {
        Self::new()
    }
}

impl Clone for Stack {
    fn clone(&self) -> (r: Self)
        ensures
            r@ == self@,
    {
        proof { use_type_invariant(self); }
        let data = self.data.clone();
        assert(data@ =~= self.data@);
        let r = Stack { data };
        r
    }
}

} // verus!
