use vstd::prelude::*;

verus! {

/// Operations of a lazily initialized, lock-guarded mutable cell.
///
/// `value_inv` is the cell's value invariant.  Every operation that
/// stores a value (`set`, `update`, and the initializer run on first
/// access) is obliged to store one satisfying it, and every read
/// (`get`, `get_with`) observes a value satisfying it.
pub trait GlobalVarExt<T> {
    /// Which values this cell may hold.
    spec fn value_inv(self, t: T) -> bool;

    /// Returns a clone of the current value, initializing the cell
    /// first if no value has been stored yet.
    fn get(&self) -> (r: T) where T: Clone
        ensures
            exists|t: T| #[trigger] self.value_inv(t) && cloned::<T>(t, r),
    ;

    /// Applies `f` to the current value under the read side of the
    /// lock and returns `f`'s result, initializing the cell first if
    /// no value has been stored yet.
    fn get_with<G, R>(&self, f: G) -> (r: R) where G: FnOnce(&T) -> R
        requires
            forall|t: T| #[trigger] self.value_inv(t) ==> call_requires(f, (&t,)),
        ensures
            exists|t: T| #[trigger] self.value_inv(t) && call_ensures(f, (&t,), r),
    ;

    /// Replaces the cell's contents with `value` under the write side
    /// of the lock.
    fn set(&self, value: T)
        requires
            self.value_inv(value),
    ;

    /// Replaces the current value `t` with `f(t)` under the write side
    /// of the lock, initializing the cell first if no value has been
    /// stored yet.
    fn update<G>(&self, f: G) where G: FnOnce(T) -> T
        requires
            forall|t: T| #[trigger] self.value_inv(t) ==> call_requires(f, (t,)),
            forall|t: T, r: T|
                #[trigger] self.value_inv(t) && #[trigger] call_ensures(f, (t,), r)
                    ==> self.value_inv(r),
    ;
}

/// Operations of a lazily initialized immutable cell.
///
/// `value_inv` holds of the values the cell's initializer may produce;
/// since nothing else ever writes the cell, every read observes such a
/// value.
pub trait GlobalConstExt<T> {
    /// Which values this cell may realize.
    spec fn value_inv(self, t: T) -> bool;

    /// Returns a clone of the realized value, running the initializer
    /// first if the cell has not been accessed before.
    fn get(&self) -> (r: T) where T: Clone
        ensures
            exists|t: T| #[trigger] self.value_inv(t) && cloned::<T>(t, r),
    ;

    /// Applies `f` to the realized value and returns `f`'s result,
    /// running the initializer first if the cell has not been accessed
    /// before.
    fn get_with<G, R>(&self, f: G) -> (r: R) where G: FnOnce(&T) -> R
        requires
            forall|t: T| #[trigger] self.value_inv(t) ==> call_requires(f, (&t,)),
        ensures
            exists|t: T| #[trigger] self.value_inv(t) && call_ensures(f, (&t,), r),
    ;
}

} // verus!
