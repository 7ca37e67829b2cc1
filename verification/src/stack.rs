use vstd::prelude::*;

verus! {

/// A last-in-first-out stack over a vector, with safe accessors.
#[derive(Default)]
pub struct Stack<T> {
    pub stack: Vec<T>,
}

impl<T> Stack<T> {
    pub fn push(&mut self, pushing: T)
        ensures
            final(self).stack@ == old(self).stack@.push(pushing),
    {
        self.stack.push(pushing);
    }

    pub fn pop(&mut self) -> (r: Option<T>)
        ensures
            old(self).stack@.len() == 0 ==> r is None && final(self).stack@ == old(self).stack@,
            old(self).stack@.len() > 0 ==> r == Some(old(self).stack@.last()) && final(self).stack@
                == old(self).stack@.drop_last(),
    {
        self.stack.pop()
    }

    pub fn is_empty(&self) -> (r: bool)
        ensures
            r == (self.stack@.len() == 0),
    {
        self.stack.len() == 0
    }

    /// The element most recently pushed, if any.
    pub fn peek(&self) -> (r: Option<&T>)
        ensures
            self.stack@.len() == 0 ==> r is None,
            self.stack@.len() > 0 ==> r == Some(&self.stack@.last()),
    {
        if self.stack.len() == 0 {
            None
        } else {
            Some(&self.stack[self.stack.len() - 1])
        }
    }

    pub fn reset(&mut self)
        ensures
            final(self).stack@.len() == 0,
    {
        self.stack.clear();
    }
}

} // verus!
