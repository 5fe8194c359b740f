use futures::task::noop_waker;
use protocol_util::unbounded_mpsc::{Channel, Inner};

#[test]
fn unbounded_mpsc_test_future() {
    let waker = noop_waker();
    let mut channel = Channel::<u64>::new();
    let (sender, mut receiver) = channel.split();
    {
        let future = receiver.receive();
        assert_eq!(future.poll_receive(&waker), None);
        future.release();
    }
    sender.send(5);
    sender.send(6);
    let future = receiver.receive();
    assert_eq!(future.poll_receive(&waker), Some(5));
    assert_eq!(future.poll_receive(&waker), Some(6));
    assert_eq!(future.poll_receive(&waker), None);
}

#[test]
fn a_waiting_receiver_is_woken_by_the_next_send() {
    let waker = noop_waker();
    let mut inner = Inner::new();
    assert_eq!(inner.pop(&waker), None::<u8>);
    assert!(inner.push(1).is_some());
    assert!(inner.push(2).is_none());
    assert_eq!(inner.pop(&waker), Some(1));
    inner.clear_waker();
    assert_eq!(inner.pop(&waker), Some(2));
}

#[test]
fn a_run_of_sends_and_receives_comes_out_in_order() {
    let waker = noop_waker();
    let mut inner = Inner::new();
    let mut received = Vec::new();
    let _ = inner.push(1u8);
    let _ = inner.push(2);
    received.extend(inner.pop(&waker));
    let _ = inner.push(3);
    received.extend(inner.pop(&waker));
    received.extend(inner.pop(&waker));
    received.extend(inner.pop(&waker));
    let _ = inner.push(4);
    received.extend(inner.pop(&waker));
    assert_eq!(received, vec![1, 2, 3, 4]);
}

fn assert_send<T: Send>() {}

#[test]
fn unbounded_mpsc_items_are_send() {
    assert_send::<Channel<u64>>();
}
