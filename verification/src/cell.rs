use vstd::prelude::*;

verus! {

/// The cell that a slot is made of.
///
/// What it holds is reached only inside a closure handed to [`with`] or
/// [`with_mut`], so every access to a slot is one call that can be found in
/// the source.
///
/// [`with`]: UnsafeCell::with
/// [`with_mut`]: UnsafeCell::with_mut
pub struct UnsafeCell<T>(T);

impl<T> View for UnsafeCell<T> {
    type V = T;

    /// What the cell holds.
    closed spec fn view(&self) -> T {
        self.0
    }
}

impl<T> UnsafeCell<T> {
    pub fn new(t: T) -> (cell: UnsafeCell<T>)
        ensures
            cell@ == t,
    {
        UnsafeCell(t)
    }

    /// Runs `f` on what the cell holds and hands back what `f` returns.
    pub fn with<'a, F, R>(&'a self, f: F) -> (r: R) where F: FnOnce(&'a T) -> R
        requires
            f.requires((&self@,)),
        ensures
            f.ensures((&self@,), r),
    {
        f(&self.0)
    }

    /// Runs `f` on what the cell holds, with leave to change it, and hands
    /// back what `f` returns. The cell then holds what `f` left there.
    pub fn with_mut<'a, F, R>(&'a mut self, f: F) -> (r: R) where F: FnOnce(&'a mut T) -> R
        requires
            forall|x: &mut T| *x == old(self)@ ==> f.requires((x,)),
        ensures
            exists|x: &mut T|
                *x == old(self)@ && *final(x) == final(self)@ && #[trigger] f.ensures((x,), r),
    {
        f(&mut self.0)
    }
}

} // verus!
