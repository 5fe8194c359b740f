//! Channel shapes that come in pairs: the side that allocates a stream or a
//! one-shot value keeps one half and sends the other, and both halves refer
//! to the same channel.
use vstd::prelude::*;
use crate::base::Channel;
use crate::channel_allocator::{TypedChannelAllocator, nth_incoming, nth_outgoing};

verus! {

/// A stream parallel to the message.
pub struct ChannelStream<T>(Channel<Option<T>>);

/// A stream antiparallel to the message.
pub struct ChannelCoStream<T>(Channel<Option<T>>);

/// A one-shot value parallel to the message.
pub struct ChannelFuture<T>(Channel<T>);

/// A one-shot value antiparallel to the message.
pub struct ChannelCoFuture<T>(Channel<T>);

impl<T> ChannelStream<T> {
    pub closed spec fn channel(&self) -> u64 {
        self.0.0
    }

    /// The number of the channel this refers to.
    pub fn channel_number(&self) -> (r: u64)
        ensures
            r == self.channel(),
    {
        self.0.0
    }

    /// Allocates a stream on a fresh outgoing channel, with its co-stream.
    pub fn allocate(self, allocator: &mut TypedChannelAllocator) -> (r: (
        ChannelStream<T>,
        ChannelCoStream<T>,
    ))
        ensures
            r.0.channel() == nth_outgoing(old(allocator).view().outgoing_used),
            r.1.channel() == r.0.channel(),
            final(allocator).view().outgoing_used == (old(allocator).view().outgoing_used + 1)
                % 0x1_0000_0000_0000_0000,
            final(allocator).view().incoming_used == old(allocator).view().incoming_used,
    {
        let channel = allocator.outgoing();
        (ChannelStream(channel.clone()), ChannelCoStream(channel))
    }
}

impl<T> ChannelCoStream<T> {
    pub closed spec fn channel(&self) -> u64 {
        self.0.0
    }

    /// The number of the channel this refers to.
    pub fn channel_number(&self) -> (r: u64)
        ensures
            r == self.channel(),
    {
        self.0.0
    }

    /// Allocates a co-stream on a fresh incoming channel, with its stream.
    pub fn allocate(allocator: &mut TypedChannelAllocator) -> (r: (
        ChannelCoStream<T>,
        ChannelStream<T>,
    ))
        ensures
            r.0.channel() == nth_incoming(old(allocator).view().incoming_used),
            r.1.channel() == r.0.channel(),
            final(allocator).view().incoming_used == (old(allocator).view().incoming_used + 1)
                % 0x1_0000_0000_0000_0000,
            final(allocator).view().outgoing_used == old(allocator).view().outgoing_used,
    {
        let channel = allocator.incoming();
        (ChannelCoStream(channel.clone()), ChannelStream(channel))
    }
}

impl<T> ChannelFuture<T> {
    pub closed spec fn channel(&self) -> u64 {
        self.0.0
    }

    /// The number of the channel this refers to.
    pub fn channel_number(&self) -> (r: u64)
        ensures
            r == self.channel(),
    {
        self.0.0
    }

    /// Allocates a one-shot value on a fresh outgoing channel, with its
    /// co-future.
    pub fn allocate(allocator: &mut TypedChannelAllocator) -> (r: (
        ChannelFuture<T>,
        ChannelCoFuture<T>,
    ))
        ensures
            r.0.channel() == nth_outgoing(old(allocator).view().outgoing_used),
            r.1.channel() == r.0.channel(),
            final(allocator).view().outgoing_used == (old(allocator).view().outgoing_used + 1)
                % 0x1_0000_0000_0000_0000,
            final(allocator).view().incoming_used == old(allocator).view().incoming_used,
    {
        let channel = allocator.outgoing();
        (ChannelFuture(channel.clone()), ChannelCoFuture(channel))
    }
}

impl<T> ChannelCoFuture<T> {
    pub closed spec fn channel(&self) -> u64 {
        self.0.0
    }

    /// The number of the channel this refers to.
    pub fn channel_number(&self) -> (r: u64)
        ensures
            r == self.channel(),
    {
        self.0.0
    }

    /// Allocates a co-future on a fresh incoming channel, with its future.
    pub fn allocate(allocator: &mut TypedChannelAllocator) -> (r: (
        ChannelCoFuture<T>,
        ChannelFuture<T>,
    ))
        ensures
            r.0.channel() == nth_incoming(old(allocator).view().incoming_used),
            r.1.channel() == r.0.channel(),
            final(allocator).view().incoming_used == (old(allocator).view().incoming_used + 1)
                % 0x1_0000_0000_0000_0000,
            final(allocator).view().outgoing_used == old(allocator).view().outgoing_used,
    {
        let channel = allocator.incoming();
        (ChannelCoFuture(channel.clone()), ChannelFuture(channel))
    }
}

} // verus!
