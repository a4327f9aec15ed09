use vstd::prelude::*;
use vstd::rwlock::RwLock;
use vstd::rwlock::RwLockPredicate;

use crate::ext::GlobalConstExt;

verus! {

/// The lazy state of a constant cell: empty until the initializer has
/// run, and a realized value must be one the initializer can produce.
struct ConstPred<F> {
    f: F,
}

impl<T, F> RwLockPredicate<Option<T>> for ConstPred<F> where F: Fn() -> T {
    closed spec fn inv(self, v: Option<T>) -> bool {
        match v {
            Option::None => true,
            Option::Some(t) => call_ensures(self.f, (), t),
        }
    }
}

/// A process-wide constant.  The value is produced by `init` the first
/// time it is needed and never changes afterwards, so every read
/// observes a value the initializer can produce; when the initializer
/// is deterministic, all reads agree.
#[verifier::reject_recursive_types(T)]
#[verifier::reject_recursive_types(F)]
pub struct GlobalConst<T, F> where F: Fn() -> T {
    init: F,
    lock: RwLock<Option<T>, ConstPred<F>>,
}

impl<T, F> GlobalConst<T, F> where F: Fn() -> T {
    /// The initializer this cell was created with.
    pub closed spec fn initializer(self) -> F {
        self.lock.pred().f
    }

    /// Whether `t` is a value this cell may realize: exactly the
    /// possible results of its initializer.
    pub open spec fn allows(self, t: T) -> bool {
        call_ensures(self.initializer(), (), t)
    }

    #[verifier::type_invariant]
    spec fn well_formed(self) -> bool {
        &&& call_requires(self.init, ())
        &&& self.lock.pred().f == self.init
    }

    /// Creates a cell that will realize its value by running `init` the
    /// first time it is accessed.
    pub fn new(init: F) -> (cell: Self)
        requires
            call_requires(init, ()),
        ensures
            cell.initializer() == init,
    {
        let lock = RwLock::new(None, Ghost(ConstPred { f: init }));
        GlobalConst { init, lock }
    }

    /// Returns a clone of the realized value, running the initializer
    /// first if the cell has not been accessed before.
    pub fn get(&self) -> (r: T) where T: Clone
        ensures
            exists|t: T| #[trigger] self.allows(t) && cloned::<T>(t, r),
    {
        proof {
            use_type_invariant(self);
        }
        let read_handle = self.lock.acquire_read();
        match read_handle.borrow() {
            Option::Some(t) => {
                proof {
                    assert(self.allows(*t));
                }
                let r = t.clone();
                proof {
                    assert(cloned::<T>(*t, r));
                }
                read_handle.release_read();
                return r;
            },
            Option::None => {
                read_handle.release_read();
            },
        }
        let (v, write_handle) = self.lock.acquire_write();
        let t = match v {
            Option::Some(t) => t,
            Option::None => (self.init)(),
        };
        proof {
            assert(self.allows(t));
        }
        let r = t.clone();
        proof {
            assert(cloned::<T>(t, r));
        }
        write_handle.release_write(Some(t));
        r
    }

    /// Applies `f` to the realized value and returns `f`'s result,
    /// running the initializer first if the cell has not been accessed
    /// before.
    pub fn get_with<G, R>(&self, f: G) -> (r: R) where G: FnOnce(&T) -> R
        requires
            forall|t: T| #[trigger] self.allows(t) ==> call_requires(f, (&t,)),
        ensures
            exists|t: T| #[trigger] self.allows(t) && call_ensures(f, (&t,), r),
    {
        proof {
            use_type_invariant(self);
        }
        let read_handle = self.lock.acquire_read();
        match read_handle.borrow() {
            Option::Some(t) => {
                proof {
                    assert(self.allows(*t));
                }
                let r = f(t);
                read_handle.release_read();
                return r;
            },
            Option::None => {
                read_handle.release_read();
            },
        }
        let (v, write_handle) = self.lock.acquire_write();
        let t = match v {
            Option::Some(t) => t,
            Option::None => (self.init)(),
        };
        proof {
            assert(self.allows(t));
        }
        let r = f(&t);
        write_handle.release_write(Some(t));
        r
    }
}

/// All reads of one constant cell agree once its initializer is
/// deterministic: a value the cell realizes can only be the
/// initializer's one possible result, so any two observed values are
/// equal.
pub proof fn lemma_const_reads_agree<T, F: Fn() -> T>(c: GlobalConst<T, F>, a: T, b: T)
    requires
        c.allows(a),
        c.allows(b),
        forall|x: T, y: T|
            call_ensures(c.initializer(), (), x) && call_ensures(c.initializer(), (), y)
                ==> x == y,
    ensures
        a == b,
{
}

impl<T, F> GlobalConstExt<T> for GlobalConst<T, F> where F: Fn() -> T {
    open spec fn value_inv(self, t: T) -> bool {
        self.allows(t)
    }

    fn get(&self) -> (r: T) where T: Clone {
        let r = Self::get(self);
        proof {
            let t0 = choose|t: T| #[trigger] self.allows(t) && cloned::<T>(t, r);
            assert(self.value_inv(t0));
        }
        r
    }

    fn get_with<G, R>(&self, f: G) -> (r: R) where G: FnOnce(&T) -> R {
        proof {
            assert forall|t: T| #[trigger] self.allows(t) implies call_requires(f, (&t,)) by {
                assert(self.value_inv(t));
            }
        }
        let r = Self::get_with(self, f);
        proof {
            let t0 = choose|t: T| #[trigger] self.allows(t) && call_ensures(f, (&t,), r);
            assert(self.value_inv(t0));
        }
        r
    }
}

} // verus!
