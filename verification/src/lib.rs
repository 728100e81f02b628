//! Evaluation core of a small Lisp-family interpreter: a tagged value
//! model, a growing arena of lexically chained environment frames, a
//! string interner for symbol handles, a fixed table of native
//! procedures, and the recursive `evaluate` dispatch that ties them
//! together.  Failures are ordinary `Condition` values that propagate
//! to the caller instead of terminating the process.

pub mod interner;
pub mod interpreter;
pub mod laws;
pub mod native;
pub mod text;
pub mod scope;
pub mod value;

use vstd::prelude::*;

verus! {

} // verus!
