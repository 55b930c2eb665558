//! Where a bounded collection takes its limit from, and how one is collected.

use vstd::prelude::*;

verus! {

/// A value that a type supplies without taking any argument.
///
/// The value is a function of the type alone: `get` always answers `spec_get()`, so two
/// collections bounded by the same `S` agree on their limit for as long as they live.
///
/// An implementation in code that is not verified writes both functions, with one body.
pub trait Get<T> {
    /// The value that [`Get::get`] answers.
    spec fn spec_get() -> T;

    /// Returns the value.
    fn get() -> (value: T)
        ensures
            value == Self::spec_get(),
    ;
}

/// Supplies the constant `N`.
#[derive(Clone, Copy, Debug, PartialEq, Eq, PartialOrd, Ord, Hash, Default)]
pub struct ConstU32<const N: u32>;

impl<const N: u32> Get<u32> for ConstU32<N> {
    open spec fn spec_get() -> u32 {
        N
    }

    fn get() -> (value: u32) {
        N
    }
}

/// Try and collect into a collection `C`.
pub trait TryCollect<C> {
    /// The error type that gets returned when a collection can't be made from `self`.
    type Error;

    /// Consume self and try to collect the results into `C`.
    ///
    /// This is useful in preventing the undesirable `.collect().try_into()` call chain on
    /// collections that need to be converted into a bounded type.
    fn try_collect(self) -> Result<C, Self::Error>;
}

} // verus!
