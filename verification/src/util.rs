use vstd::prelude::*;

verus! {

/// A value with a tail: one header of type `T` followed by a fixed number of
/// elements of type `S`, owned together. The tail is filled once, when the
/// box is made, and never grows or shrinks after that.
pub struct BoxTail<T, S> {
    value: T,
    arr: Vec<S>,
}

impl<T, S> BoxTail<T, S> {
    /// The header.
    pub closed spec fn value(&self) -> T {
        self.value
    }

    /// The elements of the tail, in order.
    pub closed spec fn tail(&self) -> Seq<S> {
        self.arr@
    }

    /// Makes a box around `value` with `arr_len` tail elements, each one the
    /// result of a call of `arr_init`.
    pub fn new<F: Fn() -> S>(value: T, arr_len: usize, arr_init: F) -> (b: BoxTail<T, S>)
        requires
            arr_init.requires(()),
        ensures
            b.value() == value,
            b.tail().len() == arr_len,
            forall|i: int| 0 <= i < arr_len ==> arr_init.ensures((), #[trigger] b.tail()[i]),
    {
        let mut arr: Vec<S> = Vec::new();
        let mut idx: usize = 0;
        while idx < arr_len
            invariant
                idx <= arr_len,
                arr@.len() == idx,
                arr_init.requires(()),
                forall|i: int| 0 <= i < idx ==> arr_init.ensures((), #[trigger] arr@[i]),
            decreases arr_len - idx,
        {
            let elem = arr_init();
            arr.push(elem);
            idx += 1;
        }
        BoxTail { value, arr }
    }

    pub fn array_len(&self) -> (len: usize)
        ensures
            len == self.tail().len(),
    {
        self.arr.len()
    }

    pub fn array(&self) -> (arr: &[S])
        ensures
            arr@ == self.tail(),
    {
        self.arr.as_slice()
    }

    /// The tail element at `idx`, for writing. Nothing else changes.
    pub fn elem_mut(&mut self, idx: usize) -> (elem: &mut S)
        requires
            idx < old(self).tail().len(),
        ensures
            *elem == old(self).tail()[idx as int],
            final(self).tail() == old(self).tail().update(idx as int, *final(elem)),
            final(self).value() == old(self).value(),
    {
        &mut self.arr[idx]
    }

    pub fn deref(&self) -> (value: &T)
        ensures
            *value == self.value(),
    {
        &self.value
    }

    /// The header, for writing. The tail stays as it is.
    pub fn deref_mut(&mut self) -> (value: &mut T)
        ensures
            *value == old(self).value(),
            final(self).value() == *final(value),
            final(self).tail() == old(self).tail(),
    {
        &mut self.value
    }
}

} // verus!
