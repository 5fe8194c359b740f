//! The forms in which the values of the echo protocol are given to be sent:
//! each field or variant holds anything that can be sent as the wire type of
//! that field or variant.
use vstd::prelude::*;

verus! {

pub struct EchoMessage<Message, Future> {
    pub message: Message,
    pub future: Future,
}

/// The `Alright` answer alone.
pub struct EchoResponseAlright<Alright0>(pub Alright0);

/// The `UhOh` answer alone.
pub struct EchoResponseUhOh<UhOh0>(pub UhOh0);

pub enum EchoResponse<Alright0, UhOh0> {
    Alright(Alright0),
    UhOh(UhOh0),
}

} // verus!
