//! The operand stack: a single growable sequence of values shared by all
//! call frames, with checked index-based operations.

use vstd::prelude::*;

use crate::value::{Error, InternalError, Result, Value};

verus! {

/// The operand stack.
#[derive(Debug)]
pub struct Stack {
    pub values: Vec<Value>,
}

impl Stack {
    pub open spec fn view(self) -> Seq<Value> {
        self.values@
    }

    pub fn new() -> (r: Stack)
        ensures
            r@ == Seq::<Value>::empty(),
    {
        let r = Stack { values: Vec::new() };
        proof {
            assert(r@ =~= Seq::<Value>::empty());
        }
        r
    }

    /// Push a value on top.
    pub fn push(&mut self, value: Value) -> (r: Result<()>)
        ensures
            r is Ok,
            final(self)@ == old(self)@.push(value),
    {
        self.values.push(value);
        Ok(())
    }

    /// Turn an optional index into a checked absolute index: it must exist
    /// and lie inside the stack.
    pub fn checked_index(&self, index: Option<usize>) -> (r: Result<usize>)
        ensures
            match r {
                Ok(i) => index == Some(i) && i < self@.len(),
                Err(e) => e == Error::Internal(InternalError::EmptyStack) && match index {
                    Some(i) => i >= self@.len(),
                    None => true,
                },
            },
    {
        match index {
            Some(i) => {
                if i < self.values.len() {
                    Ok(i)
                } else {
                    Err(Error::Internal(InternalError::EmptyStack))
                }
            },
            None => Err(Error::Internal(InternalError::EmptyStack)),
        }
    }

    /// The value at absolute index `i`, if any.
    pub fn get(&self, i: usize) -> (r: Option<&Value>)
        ensures
            match r {
                Some(v) => i < self@.len() && *v == self@[i as int],
                None => i >= self@.len(),
            },
    {
        if i < self.values.len() {
            Some(&self.values[i])
        } else {
            None
        }
    }

    /// Overwrite the value at absolute index `i`.
    pub fn set(&mut self, i: usize, value: Value) -> (r: Result<()>)
        ensures
            match r {
                Ok(()) => i < old(self)@.len() && final(self)@ == old(self)@.update(
                    i as int,
                    value,
                ),
                Err(e) => i >= old(self)@.len() && e == Error::Internal(InternalError::EmptyStack)
                    && final(self)@ == old(self)@,
            },
    {
        if i < self.values.len() {
            self.values[i] = value;
            Ok(())
        } else {
            Err(Error::Internal(InternalError::EmptyStack))
        }
    }

    /// Pop the top value.
    pub fn pop(&mut self) -> (r: Result<Value>)
        ensures
            match r {
                Ok(v) => old(self)@.len() >= 1 && v == old(self)@.last() && final(self)@ == old(
                    self,
                )@.drop_last(),
                Err(e) => old(self)@.len() == 0 && e == Error::Internal(InternalError::EmptyStack)
                    && final(self)@ == old(self)@,
            },
    {
        match self.values.pop() {
            Some(v) => Ok(v),
            None => Err(Error::Internal(InternalError::EmptyStack)),
        }
    }

    /// Remove the value at absolute index `i`, shifting everything above
    /// it down by one.
    pub fn pop_deep(&mut self, i: usize) -> (r: Result<Value>)
        ensures
            match r {
                Ok(v) => i < old(self)@.len() && v == old(self)@[i as int] && final(self)@ == old(
                    self,
                )@.remove(i as int),
                Err(e) => i >= old(self)@.len() && e == Error::Internal(InternalError::EmptyStack)
                    && final(self)@ == old(self)@,
            },
    {
        if i < self.values.len() {
            Ok(self.values.remove(i))
        } else {
            Err(Error::Internal(InternalError::EmptyStack))
        }
    }

    /// Drain the top `count` values, in insertion order.
    pub fn pop_multiple(&mut self, count: usize) -> (r: Result<Vec<Value>>)
        ensures
            match r {
                Ok(v) => count <= old(self)@.len() && v@ == old(self)@.subrange(
                    old(self)@.len() - count,
                    old(self)@.len() as int,
                ) && final(self)@ == old(self)@.subrange(0, old(self)@.len() - count),
                Err(e) => count > old(self)@.len() && e == Error::Internal(
                    InternalError::EmptyStack,
                ) && final(self)@ == old(self)@,
            },
    {
        let n = self.values.len();
        if count > n {
            return Err(Error::Internal(InternalError::EmptyStack));
        }
        let tail = self.values.split_off(n - count);
        Ok(tail)
    }

    /// Drain the values from absolute index `i` up to but not including
    /// the top, leaving the top value in place; yields them in order.
    pub fn pop_all_under(&mut self, i: usize) -> (r: Result<Vec<Value>>)
        ensures
            match r {
                Ok(v) => i < old(self)@.len() && v@ == old(self)@.subrange(
                    i as int,
                    old(self)@.len() - 1,
                ) && final(self)@ == old(self)@.subrange(0, i as int).push(old(self)@.last()),
                Err(e) => i >= old(self)@.len() && e == Error::Internal(InternalError::EmptyStack)
                    && final(self)@ == old(self)@,
            },
    {
        let n = self.values.len();
        if i >= n {
            return Err(Error::Internal(InternalError::EmptyStack));
        }
        let top = match self.values.pop() {
            Some(t) => t,
            None => {
                return Err(Error::Internal(InternalError::EmptyStack));
            },
        };
        let removed = self.values.split_off(i);
        self.values.push(top);
        proof {
            assert(removed@ =~= old(self)@.subrange(i as int, old(self)@.len() - 1));
            assert(self@ =~= old(self)@.subrange(0, i as int).push(old(self)@.last()));
        }
        Ok(removed)
    }

    /// The number of values on the stack.
    pub fn len(&self) -> (r: usize)
        ensures
            r == self@.len(),
    {
        self.values.len()
    }

    pub fn is_empty(&self) -> (r: bool)
        ensures
            r == (self@.len() == 0),
    {
        self.values.is_empty()
    }
}

} // verus!
