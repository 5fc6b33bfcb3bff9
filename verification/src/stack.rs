//! Bounded stack of 16-bit return addresses, used by the machine to record
//! where a subroutine call must return to.

use vstd::prelude::*;

verus! {

/// Maximum number of return addresses the call stack can hold.
pub const STACK_SIZE: usize = 16;

/// Error raised by stack operations: pushing onto a full stack or popping an
/// empty one.
#[derive(Debug, Clone, Copy, PartialEq, Eq, Structural)]
pub struct StackError;

/// Bounded stack of return addresses. Storage for `STACK_SIZE` entries is
/// allocated once at construction; `top` counts the live entries, so depth
/// overflow is a checked condition rather than a reallocation.
#[derive(Debug, Clone)]
pub struct Stack {
    data: Vec<u16>,
    top: usize,
}

impl View for Stack {
    type V = Seq<u16>;

    closed spec fn view(&self) -> Seq<u16> {
        self.data@.take(self.top as int)
    }
}

impl Stack {
    /// The backing storage always holds exactly `STACK_SIZE` cells and the
    /// live region never exceeds it.
    pub closed spec fn wf(&self) -> bool {
        &&& self.data@.len() == STACK_SIZE
        &&& self.top <= STACK_SIZE
    }

    /// A well-formed stack never holds more than `STACK_SIZE` entries.
    pub proof fn lemma_wf_len(&self)
        requires
            self.wf(),
        ensures
            self@.len() <= STACK_SIZE,
    {
    }

    /// Number of live entries.
    pub fn depth(&self) -> (r: usize)
        requires
            self.wf(),
        ensures
            r == self@.len(),
    {
        self.top
    }

    pub fn new() -> (s: Self)
        ensures
            s.wf(),
            s@ == Seq::<u16>::empty(),
    {
        let mut data: Vec<u16> = Vec::new();
        while data.len() < STACK_SIZE
            invariant
                data@.len() <= STACK_SIZE,
            decreases STACK_SIZE - data@.len(),
        {
            data.push(0);
        }
        let s = Stack { data, top: 0 };
        assert(s@ =~= Seq::<u16>::empty());
        s
    }

    /// Returns the most recently pushed address without removing it, or
    /// `None` on an empty stack.
    pub fn top(&self) -> (r: Option<u16>)
        requires
            self.wf(),
        ensures
            r == (if self@.len() == 0 { None::<u16> } else { Some(self@.last()) }),
    {
        if self.top == 0 {
            None
        } else {
            Some(self.data[self.top - 1])
        }
    }

    /// Pushes a return address; fails once `STACK_SIZE` entries are held.
    pub fn push(&mut self, value: u16) -> (r: Result<(), StackError>)
        requires
            old(self).wf(),
        ensures
            final(self).wf(),
            old(self)@.len() < STACK_SIZE ==> r is Ok && final(self)@ == old(self)@.push(value),
            old(self)@.len() == STACK_SIZE ==> r is Err && final(self)@ == old(self)@,
    {
        if self.top >= STACK_SIZE {
            Err(StackError)
        } else {
            self.data[self.top] = value;
            self.top = self.top + 1;
            assert(self@ =~= old(self)@.push(value));
            Ok(())
        }
    }

    /// Discards the most recently pushed address; fails on an empty stack.
    pub fn pop(&mut self) -> (r: Result<(), StackError>)
        requires
            old(self).wf(),
        ensures
            final(self).wf(),
            old(self)@.len() > 0 ==> r is Ok && final(self)@ == old(self)@.drop_last(),
            old(self)@.len() == 0 ==> r is Err && final(self)@ == old(self)@,
    {
        if self.top == 0 {
            Err(StackError)
        } else {
            self.top = self.top - 1;
            self.data[self.top] = 0;
            assert(self@ =~= old(self)@.drop_last());
            Ok(())
        }
    }
}

} // verus!
