//! Observable values.
//!
//! A `Signal` owns one value that the rest of a program reads through
//! `get` and replaces through `set` or `update`. The subscriber fan-out
//! of a full reactive runtime (callback lists invoked on every change)
//! is the embedding application's concern and is deliberately not part
//! of this library; the functions here pin down the value semantics
//! that such a runtime must preserve.

use vstd::prelude::*;

verus! {

use vstd::std_specs::cmp::PartialEqSpec;

/// An observable mutable value.
#[derive(Debug, Clone)]
pub struct Signal<T> {
    /// The current value.
    pub value: T,
}

impl<T: Clone> Signal<T> {
    /// Create a signal holding an initial value.
    pub fn new(initial: T) -> (s: Self)
        ensures
            s.value == initial,
    {
        Signal { value: initial }
    }

    /// Read the current value (clones it).
    pub fn get(&self) -> (v: T)
        ensures
            cloned(self.value, v),
    {
        self.value.clone()
    }

    /// Replace the current value.
    pub fn set(&mut self, new_value: T)
        ensures
            final(self).value == new_value,
    {
        self.value = new_value;
    }

    /// Change the value in place with the given closure.
    pub fn update<F: FnOnce(&mut T)>(&mut self, f: F)
        requires
            forall|m: &mut T| *m == old(self).value ==> call_requires(f, (m,)),
        ensures
            exists|m: &mut T|
                *m == old(self).value && *final(m) == final(self).value && call_ensures(
                    f,
                    (m,),
                    (),
                ),
    {
        f(&mut self.value);
    }

    /// Produce a new signal holding this signal's value mapped through
    /// the given closure. The result is a one-shot snapshot: later
    /// changes of this signal do not reach the derived one.
    pub fn derive<U: Clone, F: Fn(&T) -> U>(&mut self, f: F) -> (r: Signal<U>)
        requires
            call_requires(f, (&old(self).value,)),
        ensures
            final(self).value == old(self).value,
            call_ensures(f, (&old(self).value,), r.value),
    {
        let initial = f(&self.value);
        Signal { value: initial }
    }

    /// Apply a closure to the current value and return its result.
    pub fn map<U, F: FnOnce(&T) -> U>(&self, f: F) -> (r: U)
        requires
            call_requires(f, (&self.value,)),
        ensures
            call_ensures(f, (&self.value,), r),
    {
        f(&self.value)
    }
}

impl<T: Clone + PartialEq> Signal<T> {
    /// Replace the value only when the new value differs from the
    /// current one; reports whether a replacement happened.
    pub fn set_if_changed(&mut self, new_value: T) -> (changed: bool)
        ensures
            T::obeys_eq_spec() ==> changed == !old(self).value.eq_spec(&new_value),
            changed ==> final(self).value == new_value,
            !changed ==> final(self).value == old(self).value,
    {
        if self.value != new_value {
            self.value = new_value;
            true
        } else {
            false
        }
    }
}

/// Create a new signal holding an initial value.
pub fn signal<T: Clone>(initial: T) -> (s: Signal<T>)
    ensures
        s.value == initial,
{
    Signal::new(initial)
}

/// A read-only wrapper around a signal.
pub struct Computed<T> {
    /// The wrapped signal.
    pub signal: Signal<T>,
}

impl<T: Clone> Computed<T> {
    /// Read the current value.
    pub fn get(&self) -> (v: T)
        ensures
            cloned(self.signal.value, v),
    {
        self.signal.get()
    }
}

impl<T> From<Signal<T>> for Computed<T> {
    fn from(s: Signal<T>) -> (r: Computed<T>) {
        Computed { signal: s }
    }
}

impl<T> vstd::std_specs::convert::FromSpecImpl<Signal<T>> for Computed<T> {
    open spec fn obeys_from_spec() -> bool {
        true
    }

    open spec fn from_spec(s: Signal<T>) -> Computed<T> {
        Computed { signal: s }
    }
}

} // verus!
