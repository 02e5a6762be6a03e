//! Capability tags for the functions that callers hand in.
//!
//! Whether a function may be run by several workers at once is a property of
//! the function's type, fixed before any window is touched. A caller states
//! it by wrapping the function: `Shared` where the function may cross to
//! other workers, `Local` where it has to stay with the caller.

use vstd::prelude::*;

verus! {

/// A function that several workers may call at the same time.
pub struct Shared<F>(pub F);

/// A function that only the calling worker may call.
pub struct Local<F>(pub F);

} // verus!
