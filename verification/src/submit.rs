//! Confirming a field.

use vstd::prelude::*;

verus! {

/// The action that a host runs when the user confirms a text field. A node names it by a
/// key; see [`crate::node::FieldState::submit`].
pub struct OnSubmit<F>(pub F);

impl<F: FnMut()> OnSubmit<F> {
    /// Wraps an action.
    pub fn new(action: F) -> (r: OnSubmit<F>)
        ensures
            r.0 == action,
    {
        OnSubmit(action)
    }
}

} // verus!
