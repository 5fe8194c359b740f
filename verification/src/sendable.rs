//! The marker used when values are prepared for sending.
use vstd::prelude::*;

verus! {

/// Marks a value whose sending and receiving follow the default protocol of
/// its shape (a stream as a channel stream, a future as a channel future).
pub struct DefaultSendable<U>(pub U);

} // verus!
