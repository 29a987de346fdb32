use vstd::prelude::*;

verus! {

/// One request that the adapter makes of the allocator or of the native
/// layer. The token names the registration that the request belongs to.
#[derive(Clone, Copy, Debug, PartialEq, Eq, Structural)]
pub enum Step {
    /// Replace the pair that the native layer stores by a null function and
    /// a null argument.
    Deregister,
    /// Free the boxed closure that the cell of this token points to.
    FreeClosure(u64),
    /// Free the cell of this token.
    FreeCell(u64),
    /// Move the closure handed over for registration onto the heap.
    BoxClosure(u64),
    /// Allocate the cell that holds the address of the boxed closure.
    BoxCell(u64),
    /// Hand the trampoline and the cell of this token to the native layer.
    Register(u64),
    /// Ask the native layer to invoke what it stores.
    Trigger,
}

/// The token that follows `t`; after the largest one the count starts again.
pub open spec fn next_token(t: u64) -> u64 {
    if t == u64::MAX {
        0
    } else {
        (t + 1) as u64
    }
}

} // verus!
