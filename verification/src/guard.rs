//! The last line of defence against callers that Verus has not checked.

use vstd::prelude::*;

verus! {

/// Stops the program with `message` unless `held`.
///
/// It repeats a `requires` at run time: a caller that Verus has checked
/// always passes, and a caller that it has not checked is stopped instead of
/// being handed a wrong number.
pub(crate) fn demand(held: bool, message: &str)
    requires
        held,
{
    if !held {
        None::<()>.expect(message);
    }
}

} // verus!
