//! Process-wide cells that are lazily initialized on first access.
//!
//! [`GlobalVar`] holds a mutable value behind a reader-writer lock;
//! [`GlobalConst`] holds a value that never changes once realized.
//! Both run a caller-supplied initializer the first time the value is
//! needed.  Each cell carries an invariant on the values it may hold:
//! constructors and writers are obliged to respect it, and every read
//! is guaranteed to observe a value satisfying it.
//!
//! Initializers and callbacks must return normally; verified callers
//! prove this, and an unverified caller whose initializer panics
//! leaves the cell's lock held, blocking every later access.  The
//! lock is not reentrant: a callback must not write the cell it was
//! called on (nested reads of it are fine), or it blocks forever.

mod constant;
mod ext;
mod var;

pub use crate::constant::GlobalConst;
pub use crate::ext::GlobalConstExt;
pub use crate::ext::GlobalVarExt;
pub use crate::var::AnyValue;
pub use crate::var::GlobalVar;
