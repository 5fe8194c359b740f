use protocol_util::channel_allocator::{ChannelAllocator, TypedChannelAllocator};

#[test]
fn incoming_counts_up_and_outgoing_counts_down() {
    let mut allocator = ChannelAllocator::new();
    assert_eq!(allocator.next_incoming(), 0);
    assert_eq!(allocator.next_incoming(), 1);
    assert_eq!(allocator.next_outgoing(), u64::MAX);
    assert_eq!(allocator.next_outgoing(), u64::MAX - 1);
    assert_eq!(allocator.next_incoming(), 2);
}

#[test]
fn typed_channels_carry_the_allocated_numbers() {
    let mut allocator = TypedChannelAllocator::new();
    let a = allocator.incoming::<String>();
    let b = allocator.outgoing::<u64>();
    let c = allocator.incoming::<()>();
    assert_eq!((a.0, b.0, c.0), (0, u64::MAX, 1));
    assert_eq!(b.clone().0, u64::MAX);
}
