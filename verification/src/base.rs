//! Typed channel handles, and the four shapes in which a value can refer to a
//! channel inside a message: a stream or a one-shot value travelling the same
//! way as the message ("stream", "future"), or against it ("co-stream",
//! "co-future"). Each of them carries `None` once to say that it is closed.
use vstd::prelude::*;
use std::marker::PhantomData;

verus! {

/// A channel number that carries values of type `T`.
#[derive(Debug)]
pub struct Channel<T>(pub u64, pub PhantomData<T>);

impl<T> Clone for Channel<T> {
    fn clone(&self) -> (r: Self)
        ensures
            r.0 == self.0,
    {
        Channel(self.0, PhantomData)
    }
}

/// A stream parallel to the message.
pub struct ChannelStream<T>(pub Channel<Option<T>>);

/// A stream antiparallel to the message.
pub struct ChannelCoStream<T>(pub Channel<Option<T>>);

/// A one-shot value parallel to the message.
pub struct ChannelFuture<T>(pub Channel<Option<T>>);

/// A one-shot value antiparallel to the message.
pub struct ChannelCoFuture<T>(pub Channel<Option<T>>);

} // verus!
