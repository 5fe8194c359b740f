//! Channel numbers for one connection. Channels this side listens on
//! ("incoming") count up from zero; channels this side sends on and the peer
//! listens on ("outgoing") count down from `u64::MAX`, so that the two ends
//! never pick the same number for different purposes.
use vstd::prelude::*;
use std::marker::PhantomData;
use crate::base::Channel;

verus! {

/// The channel number handed out by the `k`-th call of `next_incoming` on a
/// fresh allocator (counting from zero), as the counter wraps.
pub open spec fn nth_incoming(k: nat) -> u64 {
    (k % 0x1_0000_0000_0000_0000) as u64
}

/// The channel number handed out by the `k`-th call of `next_outgoing` on a
/// fresh allocator (counting from zero), as the counter wraps.
pub open spec fn nth_outgoing(k: nat) -> u64 {
    (u64::MAX - (k % 0x1_0000_0000_0000_0000)) as u64
}

pub struct ChannelAllocator {
    incoming: u64,
    outgoing: u64,
}

/// How many channels of each direction an allocator has handed out, modulo
/// the width of the counters.
pub struct AllocatorView {
    pub incoming_used: nat,
    pub outgoing_used: nat,
}

impl ChannelAllocator {
    pub closed spec fn view(&self) -> AllocatorView {
        AllocatorView {
            incoming_used: self.incoming as nat,
            outgoing_used: (u64::MAX - self.outgoing) as nat,
        }
    }

    pub fn new() -> (r: Self)
        ensures
            r.view().incoming_used == 0,
            r.view().outgoing_used == 0,
    {
        ChannelAllocator { incoming: 0, outgoing: u64::MAX }
    }

    /// Hands out the next incoming channel and moves the counter on (wrapping
    /// after `u64::MAX`, as an atomic `fetch_add` does).
    pub fn next_incoming(&mut self) -> (r: u64)
        ensures
            r == nth_incoming(old(self).view().incoming_used),
            final(self).view().incoming_used == (old(self).view().incoming_used + 1)
                % 0x1_0000_0000_0000_0000,
            final(self).view().outgoing_used == old(self).view().outgoing_used,
    {
        let r = self.incoming;
        self.incoming = self.incoming.wrapping_add(1);
        r
    }

    /// Hands out the next outgoing channel and moves the counter down
    /// (wrapping below zero, as an atomic `fetch_sub` does).
    pub fn next_outgoing(&mut self) -> (r: u64)
        ensures
            r == nth_outgoing(old(self).view().outgoing_used),
            final(self).view().outgoing_used == (old(self).view().outgoing_used + 1)
                % 0x1_0000_0000_0000_0000,
            final(self).view().incoming_used == old(self).view().incoming_used,
    {
        let r = self.outgoing;
        self.outgoing = self.outgoing.wrapping_sub(1);
        r
    }
}

/// Incoming and outgoing channels never meet as long as at most 2^64 channels
/// have been handed out in all: the `i`-th incoming and the `j`-th outgoing
/// channel (counting from zero) differ whenever `i + j + 2 <= 2^64`.
pub proof fn lemma_directions_disjoint(i: nat, j: nat)
    requires
        i + j + 2 <= 0x1_0000_0000_0000_0000,
    ensures
        nth_incoming(i) != nth_outgoing(j),
{
}

/// Channels of one direction are all distinct until the counter wraps.
pub proof fn lemma_same_direction_distinct(i: nat, j: nat)
    requires
        i < j < 0x1_0000_0000_0000_0000,
    ensures
        nth_incoming(i) != nth_incoming(j),
        nth_outgoing(i) != nth_outgoing(j),
{
}

pub struct TypedChannelAllocator {
    allocator: ChannelAllocator,
}

impl TypedChannelAllocator {
    pub closed spec fn view(&self) -> AllocatorView {
        self.allocator.view()
    }

    pub fn new() -> (r: Self)
        ensures
            r.view().incoming_used == 0,
            r.view().outgoing_used == 0,
    {
        TypedChannelAllocator { allocator: ChannelAllocator::new() }
    }

    pub fn incoming<T>(&mut self) -> (r: Channel<T>)
        ensures
            r.0 == nth_incoming(old(self).view().incoming_used),
            final(self).view().incoming_used == (old(self).view().incoming_used + 1)
                % 0x1_0000_0000_0000_0000,
            final(self).view().outgoing_used == old(self).view().outgoing_used,
    {
        Channel(self.allocator.next_incoming(), PhantomData)
    }

    pub fn outgoing<T>(&mut self) -> (r: Channel<T>)
        ensures
            r.0 == nth_outgoing(old(self).view().outgoing_used),
            final(self).view().outgoing_used == (old(self).view().outgoing_used + 1)
                % 0x1_0000_0000_0000_0000,
            final(self).view().incoming_used == old(self).view().incoming_used,
    {
        Channel(self.allocator.next_outgoing(), PhantomData)
    }
}

} // verus!
