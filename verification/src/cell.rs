//! A cell that is written through shared references, and of whose contents an invariant is known.
use crate::pass::Pass;
use vstd::cell::invcell::InvCell;
use vstd::predicate::Predicate;
use vstd::prelude::*;

verus! {

/// An [`InvCell`] whose last value is dropped with it.
///
/// What is read from the cell is whatever was written last, by whoever holds a reference. All that
/// is known of it is that it meets the predicate that the cell was made with.
pub struct SharedCell<T, P: Predicate<T>> {
    cell: Option<InvCell<T, P>>,
}

impl<T, P: Predicate<T>> SharedCell<T, P> {
    /// The cell is there until it is dropped.
    #[verifier::type_invariant]
    spec fn holds(self) -> bool {
        self.cell is Some
    }

    /// What every value that the cell holds meets.
    pub closed spec fn predicate(&self) -> P {
        self.cell->0.predicate()
    }

    /// The cell is one that was made with `value` in it.
    pub closed spec fn starts_with(&self, value: T) -> bool {
        call_ensures(
            InvCell::<T, P>::new,
            (value, Ghost(self.predicate())),
            self.cell->0,
        )
    }

    /// Putting `value` into the cell takes `held` out: [`InvCell::replace`] on it returns `held`. What
    /// comes out is up to whoever wrote last, so one `value` may be exchanged for many.
    pub closed spec fn exchanges(&self, value: T, held: T) -> bool {
        call_ensures(InvCell::<T, P>::replace, (&self.cell->0, value), held)
    }

    /// A cell that holds `value`, and after it only values that meet `predicate`.
    pub fn new(value: T, Ghost(predicate): Ghost<P>) -> (cell: Self)
        requires
            predicate.predicate(value),
        ensures
            cell.predicate() == predicate,
            cell.starts_with(value),
    {
        SharedCell { cell: Some(InvCell::new(value, Ghost(predicate))) }
    }

    /// Puts `value` in and takes out what the cell held.
    pub fn replace(&self, value: T) -> (held: T)
        requires
            self.predicate().predicate(value),
        ensures
            self.exchanges(value, held),
            self.predicate().predicate(held),
    {
        proof {
            use_type_invariant(self);
        }
        self.cell.as_ref().unwrap().replace(value)
    }
}

impl<T, P: Predicate<T>> Drop for SharedCell<T, P> {
    /// `InvCell::into_inner`: takes the last value out, so that it is dropped. An `InvCell` that is
    /// dropped itself forgets its value. Nothing is claimed but what Verus takes of every destructor,
    /// that it does not unwind; it does where the destructor of the value panics.
    #[verifier::external_body]
    fn drop(&mut self)
        opens_invariants none
        no_unwind
    {
        let _ = self.cell.take().map(InvCell::into_inner);
    }
}

/// A [`SharedCell`] whose contents are exchanged only by one who has a [`Pass`], which counts the
/// exchanges.
pub struct CountedCell<T, P: Predicate<T>> {
    cell: SharedCell<T, P>,
}

impl<T, P: Predicate<T>> CountedCell<T, P> {
    /// What every value that the cell holds meets.
    pub closed spec fn predicate(&self) -> P {
        self.cell.predicate()
    }

    /// The cell is one that was made with `value` in it.
    pub closed spec fn starts_with(&self, value: T) -> bool {
        self.cell.starts_with(value)
    }

    /// The exchange that somebody's pass counted as number `n`, from 0 on, put `value` into the cell
    /// and took `held` out.
    pub closed spec fn exchanges_at(&self, value: T, held: T, n: nat) -> bool {
        exists|pass: &mut Pass| #[trigger]
            call_ensures(CountedCell::<T, P>::swap, (self, value, pass), held) && pass.made() == n
    }

    /// Putting `value` into the cell takes `held` out.
    pub open spec fn exchanges(&self, value: T, held: T) -> bool {
        exists|n: nat| #[trigger] self.exchanges_at(value, held, n)
    }

    /// A cell that holds `value`, and after it only values that meet `predicate`.
    pub(crate) fn new(value: T, Ghost(predicate): Ghost<P>) -> (cell: Self)
        requires
            predicate.predicate(value),
        ensures
            cell.predicate() == predicate,
            cell.starts_with(value),
    {
        CountedCell { cell: SharedCell::new(value, Ghost(predicate)) }
    }

    /// Puts `value` in and takes out what the cell held, in a single exchange, which `pass` counts.
    pub(crate) fn exchange(&self, value: T, pass: &mut Pass) -> (held: T)
        requires
            self.predicate().predicate(value),
        ensures
            self.exchanges_at(value, held, old(pass).made()),
            self.predicate().predicate(held),
            final(pass).made() == old(pass).made() + 1,
            final(pass).home() == old(pass).home(),
    {
        self.swap(value, pass)
    }

    /// The exchange itself.
    fn swap(&self, value: T, pass: &mut Pass) -> (held: T)
        requires
            self.predicate().predicate(value),
        ensures
            self.cell.exchanges(value, held),
            self.predicate().predicate(held),
            final(pass).made() == old(pass).made() + 1,
            final(pass).home() == old(pass).home(),
    {
        pass.count();
        self.cell.replace(value)
    }
}

} // verus!
