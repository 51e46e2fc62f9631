use vstd::prelude::*;

verus! {

/// A slot that holds one value, read and replaced in place.
pub struct Cell<T> {
    inner: T,
}

impl<T> Cell<T> {
    /// The value held.
    pub closed spec fn value(&self) -> T {
        self.inner
    }

    /// A cell holding `value`.
    pub fn new(value: T) -> (res: Self)
        ensures
            res.value() == value,
    {
        Self { inner: value }
    }

    /// A shared view of the value held.
    pub fn borrow(&self) -> (res: &T)
        ensures
            *res == self.value(),
    {
        &self.inner
    }

    /// A mutable view of the value held; what is written through it is what the cell then holds.
    pub fn borrow_mut(&mut self) -> (res: &mut T)
        ensures
            *res == old(self).value(),
            final(self).value() == *final(res),
    {
        &mut self.inner
    }
}

impl<T> Cell<Option<T>> {
    /// An empty cell.
    pub fn none() -> (res: Self)
        ensures
            res.value() is None,
    {
        Self { inner: None }
    }

    /// The value held; when the cell is empty, `f` is called once and its result is stored first.
    pub fn get_or_init<F: FnOnce() -> T>(&mut self, f: F) -> (res: &T)
        requires
            old(self).value() is None ==> f.requires(()),
        ensures
            old(self).value() matches Some(v) ==> *res == v,
            old(self).value() is None ==> f.ensures((), *res),
            final(self).value() == Some(*res),
    {
        if self.inner.is_none() {
            let value = f();
            self.inner = Some(value);
        }
        self.inner.as_ref().unwrap()
    }
}

} // verus!
