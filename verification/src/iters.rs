//! Forward, finite, non-restartable traversal of the stack: index-driven
//! cursors that yield the reference pair (payload address, descriptor) for
//! each element in insertion order.

use vstd::prelude::*;
use crate::stack::DynStack;

verus! {

/// Iterator over the stack's reference pairs, in insertion order.
pub struct DynStackIter<'a> {
    stack: &'a DynStack,
    index: usize,
}

/// Iterator over the stack's reference pairs through an exclusive borrow of
/// the stack, in insertion order. The stack cannot be mutated while this
/// cursor is alive.
pub struct DynStackIterMut<'a> {
    stack: &'a DynStack,
    index: usize,
}

impl<'a> DynStackIter<'a> {
    /// The stack being walked.
    pub closed spec fn target(&self) -> DynStack {
        *self.stack
    }

    /// The cursor's position: the index yielded next.
    pub closed spec fn pos(&self) -> int {
        self.index as int
    }

    /// A cursor is well-formed when its stack is.
    pub closed spec fn wf(&self) -> bool {
        self.stack.wf()
    }

    /// Yields the reference pair at the cursor and advances; `None` once the
    /// cursor has passed the last element.
    pub fn next(&mut self) -> (r: Option<(usize, usize)>)
        requires
            old(self).wf(),
        ensures
            final(self).wf(),
            final(self).target() == old(self).target(),
            old(self).pos() < old(self).target()@.len() ==> (r matches Some(p) && p.0 == old(
            self).target().elem_addr(old(self).pos()) && p.1 == old(self).target()@[old(
            self).pos()].2 && p.0 as int % (old(self).target()@[old(self).pos()].1 as int) == 0
                && final(self).pos() == old(self).pos() + 1),
            old(self).pos() >= old(self).target()@.len() ==> (r is None && final(self).pos()
                == old(self).pos()),
    {
        let l = self.stack.len();
        if self.index < l {
            let r = self.stack.get(self.index);
            self.index = self.index + 1;
            r
        } else {
            None
        }
    }
}

impl<'a> DynStackIterMut<'a> {
    /// The stack being walked.
    pub closed spec fn target(&self) -> DynStack {
        *self.stack
    }

    /// The cursor's position: the index yielded next.
    pub closed spec fn pos(&self) -> int {
        self.index as int
    }

    /// A cursor is well-formed when its stack is.
    pub closed spec fn wf(&self) -> bool {
        self.stack.wf()
    }

    /// Yields the reference pair at the cursor and advances; `None` once the
    /// cursor has passed the last element.
    pub fn next(&mut self) -> (r: Option<(usize, usize)>)
        requires
            old(self).wf(),
        ensures
            final(self).wf(),
            final(self).target() == old(self).target(),
            old(self).pos() < old(self).target()@.len() ==> (r matches Some(p) && p.0 == old(
            self).target().elem_addr(old(self).pos()) && p.1 == old(self).target()@[old(
            self).pos()].2 && p.0 as int % (old(self).target()@[old(self).pos()].1 as int) == 0
                && final(self).pos() == old(self).pos() + 1),
            old(self).pos() >= old(self).target()@.len() ==> (r is None && final(self).pos()
                == old(self).pos()),
    {
        let l = self.stack.len();
        if self.index < l {
            let r = self.stack.get(self.index);
            self.index = self.index + 1;
            r
        } else {
            None
        }
    }
}

impl DynStack {
    /// Returns an iterator over the stack's reference pairs.
    pub fn iter<'a>(&'a self) -> (it: DynStackIter<'a>)
        requires
            self.wf(),
        ensures
            it.wf(),
            it.target() == *self,
            it.pos() == 0,
    {
        DynStackIter { stack: self, index: 0 }
    }

    /// Returns an iterator over the stack's reference pairs through an
    /// exclusive borrow: the stack stays borrowed while the cursor lives.
    pub fn iter_mut<'a>(&'a mut self) -> (it: DynStackIterMut<'a>)
        ensures
            *final(self) == *old(self),
            old(self).wf() ==> it.wf(),
            it.target() == *old(self),
            it.pos() == 0,
    {
        DynStackIterMut { stack: self, index: 0 }
    }
}

} // verus!
