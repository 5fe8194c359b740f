use protocol_util::channel_allocator::TypedChannelAllocator;
use protocol_util::protocol_types::{ChannelCoFuture, ChannelCoStream, ChannelFuture};

#[test]
fn allocating_a_pair_uses_one_channel_in_the_right_direction() {
    let mut allocator = TypedChannelAllocator::new();
    let (_co_stream, _stream) = ChannelCoStream::<u64>::allocate(&mut allocator);
    let (_future, _co_future) = ChannelFuture::<u64>::allocate(&mut allocator);
    let (_co_future_2, _future_2) = ChannelCoFuture::<u64>::allocate(&mut allocator);
    // Two incoming and one outgoing channel were used; the next of each follow.
    assert_eq!(allocator.incoming::<()>().0, 2);
    assert_eq!(allocator.outgoing::<()>().0, u64::MAX - 1);
}
