//! A bounded LIFO of instruction indices.

use vstd::prelude::*;
use crate::instruction::STACK_SIZE;

verus! {

/// Why a stack operation was refused.
#[derive(PartialEq, Eq, Structural, Clone, Copy, Debug)]
pub enum StackErrors {
    OverFlow,
    UnderFlow,
}

/// A stack of at most `STACK_SIZE` 16-bit indices.
pub struct Stack {
    ptr: u32,
    arr: [u16; STACK_SIZE],
}

impl Stack {
    /// The entries of the stack, oldest first.
    pub closed spec fn view(&self) -> Seq<u16> {
        self.arr@.subrange(0, self.ptr as int)
    }

    /// The number of entries does not exceed the capacity.
    pub closed spec fn wf(&self) -> bool {
        self.ptr <= STACK_SIZE
    }

    /// A well-formed stack holds at most `STACK_SIZE` entries.
    pub proof fn lemma_bounded(&self)
        requires
            self.wf(),
        ensures
            self@.len() <= STACK_SIZE,
    {
    }

    /// An empty stack.
    pub fn new() -> (s: Stack)
        ensures
            s.wf(),
            s@ == Seq::<u16>::empty(),
    {
        Stack { ptr: 0, arr: [0; STACK_SIZE] }
    }

    /// Puts `a` on top, unless the stack is full.
    pub fn push(&mut self, a: u16) -> (r: Result<(), StackErrors>)
        requires
            old(self).wf(),
        ensures
            final(self).wf(),
            old(self)@.len() < STACK_SIZE ==> r == Ok::<(), StackErrors>(()) && final(self)@
                == old(self)@.push(a),
            old(self)@.len() >= STACK_SIZE ==> r == Err::<(), StackErrors>(StackErrors::OverFlow)
                && final(self)@ == old(self)@,
    {
        if self.ptr >= STACK_SIZE as u32 {
            return Err(StackErrors::OverFlow);
        }
        self.arr[self.ptr as usize] = a;
        self.ptr += 1;
        assert(self@ =~= old(self)@.push(a));
        Ok(())
    }

    /// Takes the top entry off, unless the stack is empty.
    pub fn pop(&mut self) -> (r: Result<u16, StackErrors>)
        requires
            old(self).wf(),
        ensures
            final(self).wf(),
            old(self)@.len() > 0 ==> r == Ok::<u16, StackErrors>(old(self)@.last()) && final(self)@
                == old(self)@.drop_last(),
            old(self)@.len() == 0 ==> r == Err::<u16, StackErrors>(StackErrors::UnderFlow)
                && final(self)@ == old(self)@,
    {
        if self.ptr == 0 {
            return Err(StackErrors::UnderFlow);
        }
        self.ptr -= 1;
        assert(self@ =~= old(self)@.drop_last());
        Ok(self.arr[self.ptr as usize])
    }

    /// Whether the stack holds no entry.
    pub fn is_empty(&self) -> (b: bool)
        requires
            self.wf(),
        ensures
            b == (self@.len() == 0),
    {
        self.ptr == 0
    }

    /// Whether the stack holds as many entries as it can.
    pub fn is_full(&self) -> (b: bool)
        requires
            self.wf(),
        ensures
            b == (self@.len() == STACK_SIZE),
    {
        self.ptr == STACK_SIZE as u32
    }
}

} // verus!
