use vstd::prelude::*;
use crate::word::Word;

verus! {

/// The deepest a stack may ever get.
pub const MAX_STACK_SIZE: usize = 1024;

/// Why a stack operation was refused; either one terminates the frame.
#[derive(Clone, Copy, Debug, PartialEq, Eq, Structural)]
pub enum StackError {
    Overflow,
    Underflow,
}

/// A bounded LIFO of words. The view is the items bottom-first, so the top
/// of the stack is the last element of the view.
pub struct Stack {
    items: Vec<Word>,
}

impl View for Stack {
    type V = Seq<Word>;

    closed spec fn view(&self) -> Seq<Word> {
        self.items@
    }
}

impl Stack {
    pub fn new() -> (r: Self)
        ensures
            r@.len() == 0,
    {
        Stack { items: Vec::new() }
    }

    pub fn size(&self) -> (r: usize)
        ensures
            r == self@.len(),
    {
        self.items.len()
    }

    /// Appends a word at the top; refused once the depth limit is reached.
    pub fn push(&mut self, value: Word) -> (r: Result<(), StackError>)
        ensures
            old(self)@.len() < MAX_STACK_SIZE ==> r is Ok && final(self)@ == old(self)@.push(value)
                && final(self)@.drop_last() == old(self)@ && final(self)@.last() == value,
            old(self)@.len() >= MAX_STACK_SIZE ==> r == Err::<(), StackError>(StackError::Overflow)
                && final(self)@ == old(self)@,
    {
        if self.items.len() < MAX_STACK_SIZE {
            self.items.push(value);
            proof {
                assert(self.items@.drop_last() =~= old(self)@);
            }
            Ok(())
        } else {
            Err(StackError::Overflow)
        }
    }

    /// Removes and returns the top word.
    pub fn pop(&mut self) -> (r: Result<Word, StackError>)
        ensures
            old(self)@.len() > 0 ==> r == Ok::<Word, StackError>(old(self)@.last()) && final(self)@
                == old(self)@.drop_last(),
            old(self)@.len() == 0 ==> r == Err::<Word, StackError>(StackError::Underflow) && final(
                self)@ == old(self)@,
    {
        match self.items.pop() {
            Some(w) => Ok(w),
            None => Err(StackError::Underflow),
        }
    }

    /// Reads the top word without removing it.
    pub fn peek(&self) -> (r: Result<Word, StackError>)
        ensures
            self@.len() > 0 ==> r == Ok::<Word, StackError>(self@.last()),
            self@.len() == 0 ==> r == Err::<Word, StackError>(StackError::Underflow),
    {
        if self.items.len() > 0 {
            Ok(self.items[self.items.len() - 1])
        } else {
            Err(StackError::Underflow)
        }
    }

    /// Reads the word `n` places below the top, `n == 0` being the top.
    pub fn peek_n(&self, n: usize) -> (r: Result<Word, StackError>)
        ensures
            self@.len() > n ==> r == Ok::<Word, StackError>(self@[self@.len() - 1 - n]),
            self@.len() <= n ==> r == Err::<Word, StackError>(StackError::Underflow),
    {
        if self.items.len() > n {
            Ok(self.items[self.items.len() - 1 - n])
        } else {
            Err(StackError::Underflow)
        }
    }

    /// Pushes a copy of the `n`-th word from the top, `n` in [1, 16].
    pub fn dup(&mut self, n: usize) -> (r: Result<(), StackError>)
        requires
            1 <= n <= 16,
        ensures
            old(self)@.len() >= n && old(self)@.len() < MAX_STACK_SIZE ==> r is Ok && final(self)@
                == old(self)@.push(old(self)@[old(self)@.len() - n]),
            old(self)@.len() < n ==> r == Err::<(), StackError>(StackError::Underflow) && final(
                self)@ == old(self)@,
            old(self)@.len() >= MAX_STACK_SIZE ==> r == Err::<(), StackError>(StackError::Overflow)
                && final(self)@ == old(self)@,
    {
        if self.items.len() < n {
            Err(StackError::Underflow)
        } else if self.items.len() >= MAX_STACK_SIZE {
            Err(StackError::Overflow)
        } else {
            let w = self.items[self.items.len() - n];
            self.items.push(w);
            Ok(())
        }
    }

    /// Exchanges the top with the word `n + 1` places down, `n` in [1, 16].
    pub fn swap(&mut self, n: usize) -> (r: Result<(), StackError>)
        requires
            1 <= n <= 16,
        ensures
            old(self)@.len() >= n + 1 ==> r is Ok && final(self)@ == old(self)@.update(
                old(self)@.len() - 1,
                old(self)@[old(self)@.len() - 1 - n],
            ).update(old(self)@.len() - 1 - n, old(self)@.last()),
            old(self)@.len() < n + 1 ==> r == Err::<(), StackError>(StackError::Underflow)
                && final(self)@ == old(self)@,
            final(self)@.len() == old(self)@.len(),
    {
        if self.items.len() >= n + 1 {
            let len = self.items.len();
            let top = self.items[len - 1];
            let other = self.items[len - 1 - n];
            self.items[len - 1] = other;
            self.items[len - 1 - n] = top;
            Ok(())
        } else {
            Err(StackError::Underflow)
        }
    }
}

} // verus!
