//! The LIFO value stack with indexed peeking and block rotation.
//!
//! Indices are relative to the top: index 0 is the top, index 1 is one below
//! it, and so on.  The view of a stack is the sequence of its elements from
//! bottom to top, so index `n` reads `self@[self@.len() - 1 - n]`.

use vstd::prelude::*;
use crate::errors::CalcError;

verus! {

/// A LIFO stack of values.
pub struct Stack<T> {
    items: Vec<T>,
}

impl<T> View for Stack<T> {
    type V = Seq<T>;

    closed spec fn view(&self) -> Seq<T> {
        self.items@
    }
}

/// The error for a pop or peek on an empty stack.
pub open spec fn empty_err() -> CalcError {
    CalcError::EmptyStack
}

/// The error for an indexed access `needed` positions deep into a stack that
/// is not that deep.
pub open spec fn depth_err(needed: usize) -> CalcError {
    CalcError::InsufficientDepth(needed)
}

/// The contents of `s` after rotating its top `abs(amount)` elements as a
/// contiguous block, where a positive `amount` moves the topmost element
/// `amount - 1` positions down inside the block (the block shifts toward the
/// top) and a negative `amount` performs the mirror rotation.
pub open spec fn rotated<T>(s: Seq<T>, amount: int) -> Seq<T>
    recommends
        -s.len() <= amount <= s.len(),
{
    let len = s.len() as int;
    if amount == 0 {
        s
    } else if amount > 0 {
        s.take(len - amount) + s.subrange(len - amount + 1, len) + seq![s[len - amount]]
    } else {
        let k = -amount;
        s.take(len - k) + seq![s[len - 1]] + s.subrange(len - k, len - 1)
    }
}

impl<T> Stack<T> {
    /// An empty stack.
    pub fn new() -> (r: Self)
        ensures
            r@ == Seq::<T>::empty(),
    {
        Stack { items: Vec::new() }
    }

    /// The current element count.
    pub fn len(&self) -> (r: usize)
        ensures
            r == self@.len(),
    {
        self.items.len()
    }

    /// The element `n` positions below the top; fails when the stack does not
    /// hold more than `n` elements.
    pub fn nth(&self, n: usize) -> (r: Result<&T, CalcError>)
        ensures
            n < self@.len() ==> (r matches Ok(v) && *v == self@[self@.len() - 1 - n]),
            n >= self@.len() ==> r == Err::<&T, CalcError>(depth_err(n)),
    {
        let len = self.items.len();
        if n >= len {
            return Err(CalcError::InsufficientDepth(n));
        }
        Ok(&self.items[len - n - 1])
    }

    /// A mutable borrow of the element `n` positions below the top; fails
    /// when the stack does not hold more than `n` elements.
    pub fn nth_mut(&mut self, n: usize) -> (r: Result<&mut T, CalcError>)
        ensures
            n < old(self)@.len() ==> (r matches Ok(v) && *v == old(self)@[old(self)@.len() - 1 - n]
                && final(self)@ == old(self)@.update(old(self)@.len() - 1 - n, *final(v))),
            n >= old(self)@.len() ==> (r == Err::<&mut T, CalcError>(depth_err(n))
                && final(self)@ == old(self)@),
    {
        let len = self.items.len();
        if n >= len {
            return Err(CalcError::InsufficientDepth(n));
        }
        Ok(&mut self.items[len - n - 1])
    }

    /// The top element; fails when the stack is empty.
    pub fn top(&self) -> (r: Result<&T, CalcError>)
        ensures
            self@.len() > 0 ==> (r matches Ok(v) && *v == self@.last()),
            self@.len() == 0 ==> r == Err::<&T, CalcError>(empty_err()),
    {
        let len = self.items.len();
        if len == 0 {
            return Err(CalcError::EmptyStack);
        }
        Ok(&self.items[len - 1])
    }

    /// A mutable borrow of the top element; fails when the stack is empty.
    pub fn top_mut(&mut self) -> (r: Result<&mut T, CalcError>)
        ensures
            old(self)@.len() > 0 ==> (r matches Ok(v) && *v == old(self)@.last()
                && final(self)@ == old(self)@.update(old(self)@.len() - 1, *final(v))),
            old(self)@.len() == 0 ==> (r == Err::<&mut T, CalcError>(empty_err())
                && final(self)@ == old(self)@),
    {
        let len = self.items.len();
        if len == 0 {
            return Err(CalcError::EmptyStack);
        }
        Ok(&mut self.items[len - 1])
    }

    /// Removes and returns the top element; fails when the stack is empty.
    pub fn pop(&mut self) -> (r: Result<T, CalcError>)
        ensures
            old(self)@.len() > 0 ==> (r matches Ok(v) && v == old(self)@.last()
                && final(self)@ == old(self)@.drop_last()),
            old(self)@.len() == 0 ==> (r == Err::<T, CalcError>(empty_err())
                && final(self)@ == old(self)@),
    {
        match self.items.pop() {
            Some(v) => Ok(v),
            None => Err(CalcError::EmptyStack),
        }
    }

    /// Appends `val` as the new top.
    pub fn push(&mut self, val: T)
        ensures
            final(self)@ == old(self)@.push(val),
    {
        self.items.push(val);
    }

    /// Removes all elements.
    pub fn clear(&mut self)
        ensures
            final(self)@ == Seq::<T>::empty(),
    {
        self.items.clear();
    }

    /// Rotates the top `abs(amount)` elements as a contiguous block (see
    /// [`rotated`]).  An `amount` of 0 always succeeds and changes nothing;
    /// the rotation fails when `abs(amount)` exceeds the element count.
    pub fn rotate(&mut self, amount: isize) -> (r: Result<(), CalcError>)
        ensures
            ({
                let k = if amount >= 0 { amount as int } else { -(amount as int) };
                if amount == 0 {
                    r is Ok && final(self)@ == old(self)@
                } else if k > old(self)@.len() {
                    r == Err::<(), CalcError>(depth_err(k as usize))
                        && final(self)@ == old(self)@
                } else {
                    r is Ok && final(self)@ == rotated(old(self)@, amount as int)
                }
            }),
    {
        let rotate_right = amount < 0;
        let amount: usize = if amount < 0 {
            if amount == isize::MIN {
                (isize::MAX as usize) + 1
            } else {
                (-amount) as usize
            }
        } else {
            amount as usize
        };
        if amount == 0 {
            return Ok(());
        }
        let len = self.items.len();
        if amount > len {
            return Err(CalcError::InsufficientDepth(amount));
        }
        if rotate_right {
            // The topmost block element moves to the bottom of the block.
            let v = match self.items.pop() {
                Some(v) => v,
                None => { return Err(CalcError::EmptyStack); },
            };
            self.items.insert(len - amount, v);
            proof {
                assert(final(self)@ =~= rotated(old(self)@, -(amount as int)));
            }
        } else {
            // The bottom block element moves to the top of the block.
            let v = self.items.remove(len - amount);
            self.items.push(v);
            proof {
                assert(final(self)@ =~= rotated(old(self)@, amount as int));
            }
        }
        Ok(())
    }
}

/// The sequence of values that `k` successive pops return from a stack whose
/// contents are `s`.
pub open spec fn popped_values<T>(s: Seq<T>, k: int) -> Seq<T>
    recommends
        0 <= k <= s.len(),
    decreases k,
{
    if k <= 0 {
        Seq::empty()
    } else {
        seq![s.last()] + popped_values(s.drop_last(), k - 1)
    }
}

/// The stack is LIFO: after pushing the values of `vs` in order onto a stack
/// holding `base`, popping `vs.len()` times returns the values of `vs` in
/// reverse push order and leaves `base` behind.
pub proof fn lemma_lifo<T>(base: Seq<T>, vs: Seq<T>)
    ensures
        popped_values(base + vs, vs.len() as int) == vs.reverse(),
    decreases vs.len(),
{
    if vs.len() == 0 {
        assert(popped_values(base + vs, 0) =~= vs.reverse());
    } else {
        lemma_lifo(base, vs.drop_last());
        assert((base + vs).drop_last() =~= base + vs.drop_last());
        assert((base + vs).last() == vs.last());
        assert(popped_values(base + vs, vs.len() as int) =~= seq![vs.last()]
            + popped_values(base + vs.drop_last(), vs.len() - 1));
        assert(vs.reverse() =~= seq![vs.last()] + vs.drop_last().reverse());
    }
}

/// When a stack is non-empty, the element at depth 0 is its top.
pub proof fn lemma_nth_zero_is_top<T>(s: Seq<T>)
    requires
        s.len() > 0,
    ensures
        s[s.len() - 1 - 0] == s.last(),
{
}

/// Rotating by `k` and then by `-k` restores the original order, for any
/// `0 <= k <= len`.
pub proof fn lemma_rotate_involutive<T>(s: Seq<T>, k: int)
    requires
        0 <= k <= s.len(),
    ensures
        rotated(rotated(s, k), -k) == s,
{
    if k == 0 {
    } else {
        assert(rotated(rotated(s, k), -k) =~= s);
    }
}

} // verus!
