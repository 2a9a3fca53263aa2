//! The write fence of a reindex: engaged while a rebuild runs, so that no write gets past the
//! snapshot it rebuilds from, and no second rebuild starts.
use vstd::prelude::*;

verus! {

/// The fence of one index. Whoever shares it between services guards it with a lock.
#[derive(Debug)]
pub struct ReindexFence {
    engaged: bool,
}

impl View for ReindexFence {
    type V = bool;

    closed spec fn view(&self) -> bool {
        self.engaged
    }
}

impl ReindexFence {
    /// An open fence.
    pub fn new() -> (f: ReindexFence)
        ensures
            !f@,
    {
        ReindexFence { engaged: false }
    }

    /// Engages the fence; says whether it was open. Of two callers only the first owns the
    /// rebuild.
    pub fn engage(&mut self) -> (was_open: bool)
        ensures
            was_open == !old(self)@,
            final(self)@,
    {
        let was_open = !self.engaged;
        self.engaged = true;
        was_open
    }

    /// Opens the fence, engaged or not.
    pub fn release(&mut self)
        ensures
            !final(self)@,
    {
        self.engaged = false;
    }

    /// Whether a rebuild is fencing writes.
    pub fn is_engaged(&self) -> (b: bool)
        ensures
            b == self@,
    {
        self.engaged
    }
}

/// Holds an engaged fence and opens it in the end, whatever came of the rebuild.
pub struct ReindexGuard<'a> {
    /// The fence, until it is released.
    pub fence: Option<&'a mut ReindexFence>,
}

impl<'a> ReindexGuard<'a> {
    /// Takes charge of an engaged fence.
    pub fn new(fence: &'a mut ReindexFence) -> (g: ReindexGuard<'a>)
        ensures
            g.fence matches Some(held) && *held == *old(fence) && *final(held) == *final(fence),
    {
        ReindexGuard { fence: Some(fence) }
    }

    /// Opens the fence and gives the guard up.
    pub fn release(self)
        ensures
            self.fence matches Some(held) ==> !final(held)@,
    {
        let mut guard = self;
        if let Some(fence) = guard.fence.take() {
            fence.release();
        }
    }
}

impl<'a> Drop for ReindexGuard<'a> {
    /// Opens the fence, where it is still held, and leaves it open.
    fn drop(&mut self)
        ensures
            old(self).fence matches Some(was) ==> (final(self).fence matches Some(held) && !held@
                && *final(held) == *final(was)),
            old(self).fence is None ==> final(self).fence is None,
        opens_invariants none
        no_unwind
    {
        if let Some(fence) = &mut self.fence {
            fence.engaged = false;
        }
    }
}

} // verus!
