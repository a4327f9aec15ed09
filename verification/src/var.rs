use vstd::prelude::*;
use vstd::rwlock::RwLock;
use vstd::rwlock::RwLockPredicate;

use crate::ext::GlobalVarExt;

verus! {

/// The trivial value invariant: every value is allowed.  Cells that
/// need no restriction on their contents are built with this predicate.
pub struct AnyValue;

impl<T> RwLockPredicate<T> for AnyValue {
    open spec fn inv(self, v: T) -> bool {
        true
    }
}

/// Lifts an invariant on `T` to the lazy state of a cell: the empty,
/// not-yet-initialized state is always allowed, and a realized value
/// must satisfy the underlying invariant.
struct LazyPred<P> {
    p: P,
}

impl<T, P: RwLockPredicate<T>> RwLockPredicate<Option<T>> for LazyPred<P> {
    closed spec fn inv(self, v: Option<T>) -> bool {
        match v {
            Option::None => true,
            Option::Some(t) => self.p.inv(t),
        }
    }
}

/// A process-wide mutable cell.  The value is produced by `init` the
/// first time it is needed and lives behind a reader-writer lock
/// thereafter: any number of readers may observe it concurrently,
/// while a writer holds it exclusively.
///
/// `P` is the invariant on the values the cell may hold.  It is chosen
/// at construction; [`GlobalVar::new`] demands that the initializer can
/// only produce values satisfying it, and every write is obliged to
/// keep it from there on, so every read observes a value satisfying it.
#[verifier::reject_recursive_types(T)]
#[verifier::reject_recursive_types(P)]
pub struct GlobalVar<T, F, P> where F: Fn() -> T, P: RwLockPredicate<T> {
    init: F,
    lock: RwLock<Option<T>, LazyPred<P>>,
}

impl<T, F, P> GlobalVar<T, F, P> where F: Fn() -> T, P: RwLockPredicate<T> {
    /// The value invariant this cell was created with.
    pub closed spec fn pred(self) -> P {
        self.lock.pred().p
    }

    /// Whether `t` is a value this cell may hold.
    pub open spec fn allows(self, t: T) -> bool {
        self.pred().inv(t)
    }

    #[verifier::type_invariant]
    spec fn well_formed(self) -> bool {
        &&& call_requires(self.init, ())
        &&& forall|t: T| #[trigger] call_ensures(self.init, (), t) ==> self.pred().inv(t)
    }

    /// Creates a cell that will realize its value by running `init` on
    /// first access and will only ever hold values satisfying `p`.
    pub fn new(init: F, Ghost(p): Ghost<P>) -> (cell: Self)
        requires
            call_requires(init, ()),
            forall|t: T| #[trigger] call_ensures(init, (), t) ==> p.inv(t),
        ensures
            cell.pred() == p,
    {
        GlobalVar { init, lock: RwLock::new(None, Ghost(LazyPred { p })) }
    }

    /// Returns a clone of the current value, initializing the cell
    /// first if no value has been stored yet.
    pub fn get(&self) -> (r: T) where T: Clone
        ensures
            exists|t: T| #[trigger] self.allows(t) && cloned::<T>(t, r),
    {
        proof {
            use_type_invariant(self);
        }
        let read_handle = self.lock.acquire_read();
        match read_handle.borrow() {
            Option::Some(t) => {
                proof {
                    assert(self.allows(*t));
                }
                let r = t.clone();
                proof {
                    assert(cloned::<T>(*t, r));
                }
                read_handle.release_read();
                return r;
            },
            Option::None => {
                read_handle.release_read();
            },
        }
        let (v, write_handle) = self.lock.acquire_write();
        let t = match v {
            Option::Some(t) => t,
            Option::None => (self.init)(),
        };
        proof {
            assert(self.allows(t));
        }
        let r = t.clone();
        proof {
            assert(cloned::<T>(t, r));
        }
        write_handle.release_write(Some(t));
        r
    }

    /// Applies `f` to the current value under the read side of the
    /// lock and returns `f`'s result, initializing the cell first if
    /// no value has been stored yet.
    pub fn get_with<G, R>(&self, f: G) -> (r: R) where G: FnOnce(&T) -> R
        requires
            forall|t: T| #[trigger] self.allows(t) ==> call_requires(f, (&t,)),
        ensures
            exists|t: T| #[trigger] self.allows(t) && call_ensures(f, (&t,), r),
    {
        proof {
            use_type_invariant(self);
        }
        let read_handle = self.lock.acquire_read();
        match read_handle.borrow() {
            Option::Some(t) => {
                proof {
                    assert(self.allows(*t));
                }
                let r = f(t);
                read_handle.release_read();
                return r;
            },
            Option::None => {
                read_handle.release_read();
            },
        }
        let (v, write_handle) = self.lock.acquire_write();
        let t = match v {
            Option::Some(t) => t,
            Option::None => (self.init)(),
        };
        proof {
            assert(self.allows(t));
        }
        let r = f(&t);
        write_handle.release_write(Some(t));
        r
    }

    /// Replaces the cell's contents with `value` under the write side
    /// of the lock.  The initializer does not run on a cell that is
    /// first written to: `value` itself realizes the cell.
    pub fn set(&self, value: T)
        requires
            self.allows(value),
    {
        proof {
            use_type_invariant(self);
        }
        let (_previous, write_handle) = self.lock.acquire_write();
        write_handle.release_write(Some(value));
    }

    /// Replaces the current value `t` with `f(t)` under the write side
    /// of the lock, initializing the cell first if no value has been
    /// stored yet.
    pub fn update<G>(&self, f: G) where G: FnOnce(T) -> T
        requires
            forall|t: T| #[trigger] self.allows(t) ==> call_requires(f, (t,)),
            forall|t: T, r: T|
                #[trigger] self.allows(t) && #[trigger] call_ensures(f, (t,), r)
                    ==> self.allows(r),
    {
        proof {
            use_type_invariant(self);
        }
        let (v, write_handle) = self.lock.acquire_write();
        let t = match v {
            Option::Some(t) => t,
            Option::None => (self.init)(),
        };
        let ghost previous = t;
        proof {
            assert(self.allows(previous));
        }
        let new_value = f(t);
        proof {
            assert(self.allows(new_value));
        }
        write_handle.release_write(Some(new_value));
    }
}

impl<T, F> GlobalVar<T, F, AnyValue> where F: Fn() -> T {
    /// Creates a cell with the trivial value invariant: any value may
    /// be stored.  This constructor takes no ghost argument, so callers
    /// outside verified code can use it directly.
    pub fn new_unrestricted(init: F) -> (cell: Self)
        requires
            call_requires(init, ()),
        ensures
            cell.pred() == AnyValue,
    {
        Self::new(init, Ghost(AnyValue))
    }
}

impl<T, F, P> GlobalVarExt<T> for GlobalVar<T, F, P> where F: Fn() -> T, P: RwLockPredicate<T> {
    open spec fn value_inv(self, t: T) -> bool {
        self.allows(t)
    }

    fn get(&self) -> (r: T) where T: Clone {
        let r = Self::get(self);
        proof {
            let t0 = choose|t: T| #[trigger] self.allows(t) && cloned::<T>(t, r);
            assert(self.value_inv(t0));
        }
        r
    }

    fn get_with<G, R>(&self, f: G) -> (r: R) where G: FnOnce(&T) -> R {
        proof {
            assert forall|t: T| #[trigger] self.allows(t) implies call_requires(f, (&t,)) by {
                assert(self.value_inv(t));
            }
        }
        let r = Self::get_with(self, f);
        proof {
            let t0 = choose|t: T| #[trigger] self.allows(t) && call_ensures(f, (&t,), r);
            assert(self.value_inv(t0));
        }
        r
    }

    fn set(&self, value: T) {
        proof {
            assert(self.allows(value));
        }
        Self::set(self, value)
    }

    fn update<G>(&self, f: G) where G: FnOnce(T) -> T {
        proof {
            assert forall|t: T| #[trigger] self.allows(t) implies call_requires(f, (t,)) by {
                assert(self.value_inv(t));
            }
            assert forall|t: T, r: T|
                #[trigger] self.allows(t) && #[trigger] call_ensures(f, (t,), r) implies self.allows(
                r,
            ) by {
                assert(self.value_inv(t));
                assert(self.value_inv(r));
            }
        }
        Self::update(self, f)
    }
}

} // verus!
