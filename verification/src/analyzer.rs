//! The custom type-coercion analyzer rule's carrier type.  The rule itself
//! rewrites logical plans of the query engine and runs outside this crate;
//! the type here is what registration code constructs and names.

use vstd::prelude::*;

verus! {

/// Marker type of the custom type-coercion rule, which rewrites expressions
/// where the engine's default coercion is not sufficient.
#[derive(Debug, PartialEq, Eq, Structural)]
pub struct CustomTypeCoercionRewriter {}

impl CustomTypeCoercionRewriter {
    /// The rule carries no state.
    pub fn new() -> (r: Self)
        ensures
            r == (CustomTypeCoercionRewriter {}),
    {
        CustomTypeCoercionRewriter {}
    }
}

} // verus!
