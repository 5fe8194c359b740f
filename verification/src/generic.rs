//! Untyped and typed channel numbers, and the interfaces of the two ends of
//! a connection: one allocates channels and sends messages on them, the other
//! allocates channels and listens on them.
use vstd::prelude::*;
use std::marker::PhantomData;
use crate::callback::accepts_all;

verus! {

#[derive(Clone, Copy, PartialEq, Eq, Structural, Debug)]
pub struct Channel(pub u64);

pub trait ChannelSender {
    fn allocate_send_channel(&self) -> Channel;

    fn send_message(&self, channel: Channel, message: String);
}

pub trait ChannelReceiver {
    fn allocate_receive_channel(&self) -> Channel;

    /// Attaches `listener` to `channel`; a listener may be handed any message.
    fn listen<L: FnMut(String) + 'static>(&self, channel: Channel, listener: L)
        requires
            accepts_all::<L, ()>(),
    ;
}

pub struct TypedChannel<T>(pub u64, PhantomData<T>);

pub trait TypedChannelSender {
    fn allocate_send_channel<T>(&self) -> TypedChannel<T>;

    fn send_message<T>(&self, channel: TypedChannel<T>, message: String);
}

pub trait TypedChannelReceiver {
    fn allocate_receive_channel<T>(&self) -> TypedChannel<T>;

    fn listen<T>(&self, channel: TypedChannel<T>, listener: impl FnMut(T) + 'static);
}

} // verus!
