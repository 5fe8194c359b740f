//! Calling the functions that the library's users hand it: a listener is a
//! function of the message it is handed, and what it returns is the work it
//! starts for that message.
use vstd::prelude::*;

verus! {

/// `work` is what `function`, in the state it has, returned when it was
/// called on `message`: the call met the function's own contract.
pub open spec fn handed_to<F: FnMut(String) -> W, W>(function: F, message: String, work: W) -> bool {
    call_ensures(function, (message,), work)
}

/// Every function of type `F`, in any state, may be called on any message.
/// (A closure without a precondition, as the library's users write them.)
pub open spec fn accepts_all<F: FnMut(String) -> W, W>() -> bool {
    forall|function: F, message: String| #[trigger] call_requires(function, (message,))
}

/// Calls `function` once, on `message`, and returns what it returns.
pub fn call_with<F: FnMut(String) -> W, W>(function: &mut F, message: String) -> (work: W)
    requires
        call_requires(*old(function), (message,)),
    ensures
        handed_to(*old(function), message, work),
{
    function(message)
}

} // verus!
