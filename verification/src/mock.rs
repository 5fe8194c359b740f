//! An in-memory connection for tests: a sender and a receiver sharing one
//! table of listeners, so that a message sent on a channel is handed at once
//! to the listener attached to that channel, if any.
use vstd::prelude::*;
use vstd::cell::invcell::InvCell;
use vstd::predicate::Predicate;
use std::collections::HashMap;
use std::rc::Rc;
use crate::callback::{accepts_all, call_with, handed_to};
use crate::generic::{Channel, ChannelReceiver, ChannelSender};

verus! {

broadcast use vstd::std_specs::hash::group_hash_axioms;

/// Something that can be handed messages.
pub trait MessageListener {
    /// Whether this listener may be handed `message`.
    spec fn accepts(&self, message: String) -> bool;

    /// Whether handing `message` to this listener, in the state it has, is
    /// a call that its contract allows.
    spec fn handled(&self, message: String) -> bool;

    /// Hands `message` to the listener; what it accepts stays as it was.
    fn receive(&mut self, message: String)
        requires
            old(self).accepts(message),
        ensures
            old(self).handled(message),
            forall|m: String| #[trigger] final(self).accepts(m) == old(self).accepts(m),
    ;
}

/// A function of the messages it is handed is a listener: it is called on
/// each of them. It accepts the messages that every function of its type
/// accepts.
impl<F: FnMut(String)> MessageListener for F {
    open spec fn accepts(&self, message: String) -> bool {
        accepts_all::<F, ()>()
    }

    open spec fn handled(&self, message: String) -> bool {
        handed_to(*self, message, ())
    }

    fn receive(&mut self, message: String) {
        call_with(self, message)
    }
}

/// A listener attached to a channel.
pub struct Attached(pub Box<dyn MessageListener>);

impl Attached {
    /// Whether the listener may be handed `message`.
    pub open spec fn accepts(&self, message: String) -> bool {
        self.0.accepts(message)
    }
}

/// The table shared by the two ends: how many channels were allocated, and
/// the listener of each channel.
pub struct SharedState {
    channel_count: u64,
    callbacks: HashMap<u64, Attached>,
}

impl SharedState {
    pub closed spec fn channel_count(&self) -> u64 {
        self.channel_count
    }

    /// The listener attached to each channel.
    pub closed spec fn listeners(&self) -> Map<u64, Attached> {
        self.callbacks@
    }

    /// The channels that have a listener.
    pub open spec fn listening(&self) -> Set<u64> {
        self.listeners().dom()
    }

    /// Every attached listener may be handed any message.
    pub open spec fn listeners_accept(&self) -> bool {
        forall|c: u64, m: String|
            self.listeners().contains_key(c) ==> #[trigger] self.listeners()[c].accepts(m)
    }

    pub fn new() -> (r: Self)
        ensures
            r.channel_count() == 0,
            r.listeners() == Map::<u64, Attached>::empty(),
    {
        SharedState { channel_count: 0, callbacks: HashMap::new() }
    }

    /// Hands out the next channel number (wrapping after `u64::MAX`).
    pub fn allocate_channel(&mut self) -> (r: Channel)
        ensures
            r.0 == old(self).channel_count(),
            final(self).channel_count() == old(self).channel_count().wrapping_add(1),
            final(self).listeners() == old(self).listeners(),
    {
        let next_channel = self.channel_count;
        self.channel_count = self.channel_count.wrapping_add(1);
        Channel(next_channel)
    }

    /// Attaches `listener` to `channel`, in place of any listener it had.
    pub fn listen(&mut self, channel: Channel, listener: Attached)
        ensures
            final(self).listeners() == old(self).listeners().insert(channel.0, listener),
            final(self).channel_count() == old(self).channel_count(),
            old(self).listeners_accept() && (forall|m: String| listener.accepts(m))
                ==> final(self).listeners_accept(),
    {
        let _ = self.callbacks.insert(channel.0, listener);
        proof {
            lemma_insert_accepting(old(self).callbacks@, channel.0, listener);
        }
    }

    /// Hands `message` to the listener of `channel`, by calling it on the
    /// message; returns whether there was one. The other listeners are left
    /// as they were.
    pub fn send_message(&mut self, channel: Channel, message: String) -> (r: bool)
        requires
            old(self).listening().contains(channel.0) ==> old(self).listeners()[channel.0].accepts(
                message,
            ),
        ensures
            r == old(self).listening().contains(channel.0),
            r ==> old(self).listeners()[channel.0].0.handled(message),
            final(self).listening() == old(self).listening(),
            forall|c: u64|
                c != channel.0 && #[trigger] old(self).listeners().contains_key(c)
                    ==> final(self).listeners()[c] == old(self).listeners()[c],
            final(self).channel_count() == old(self).channel_count(),
    {
        match self.callbacks.remove(&channel.0) {
            Some(mut callback) => {
                callback.0.receive(message);
                let _ = self.callbacks.insert(channel.0, callback);
                proof {
                    let removed = old(self).callbacks@.remove(channel.0);
                    vstd::map::axiom_map_remove_domain(old(self).callbacks@, channel.0);
                    vstd::map::axiom_map_insert_domain(removed, channel.0, callback);
                    assert forall|c: u64| c != channel.0 && #[trigger] old(self).callbacks@.contains_key(c)
                        implies self.callbacks@[c] == old(self).callbacks@[c] by {
                        vstd::map::axiom_map_remove_different(old(self).callbacks@, c, channel.0);
                        vstd::map::axiom_map_insert_different(removed, c, channel.0, callback);
                    }
                }
                assert(self.callbacks@.dom() =~= old(self).callbacks@.dom());
                true
            },
            None => false,
        }
    }
}

impl SharedState {
    /// Takes out the listener of `channel`, if it has one.
    pub fn take_listener(&mut self, channel: Channel) -> (r: Option<Attached>)
        ensures
            old(self).listeners_accept() ==> final(self).listeners_accept(),
            old(self).listeners_accept() && r is Some ==> forall|m: String| #[trigger] r.unwrap().accepts(m),
            r is Some == old(self).listening().contains(channel.0),
            r is Some ==> r.unwrap() == old(self).listeners()[channel.0],
            final(self).listeners() == old(self).listeners().remove(channel.0),
            final(self).channel_count() == old(self).channel_count(),
    {
        let r = self.callbacks.remove(&channel.0);
        proof {
            let before = old(self).callbacks@;
            assert(self.callbacks@ == before.remove(channel.0));
            vstd::map::axiom_map_remove_domain(before, channel.0);
            assert forall|c: u64, m: String| self.callbacks@.contains_key(c) && old(self).listeners_accept()
                implies #[trigger] self.callbacks@[c].accepts(m) by {
                assert(before.dom().remove(channel.0).contains(c));
                assert(c != channel.0);
                assert(before.contains_key(c));
                vstd::map::axiom_map_remove_different(before, c, channel.0);
                assert(old(self).listeners()[c].accepts(m));
            }
            if r is Some && old(self).listeners_accept() {
                assert(before.contains_key(channel.0));
                assert forall|m: String| #[trigger] r.unwrap().accepts(m) by {
                    assert(old(self).listeners()[channel.0].accepts(m));
                }
            }
        }
        r
    }

    /// Puts `listener` back on `channel`, unless another listener was
    /// attached to it in the meantime.
    pub fn restore_listener(&mut self, channel: Channel, listener: Attached)
        ensures
            final(self).listeners() == if old(self).listening().contains(channel.0) {
                old(self).listeners()
            } else {
                old(self).listeners().insert(channel.0, listener)
            },
            final(self).channel_count() == old(self).channel_count(),
            old(self).listeners_accept() && (forall|m: String| listener.accepts(m))
                ==> final(self).listeners_accept(),
    {
        if !self.callbacks.contains_key(&channel.0) {
            let _ = self.callbacks.insert(channel.0, listener);
            proof {
                lemma_insert_accepting(old(self).callbacks@, channel.0, listener);
            }
        }
    }
}

/// A table with `listener`, which accepts every message, attached to
/// `channel` accepts every message if the table did.
proof fn lemma_insert_accepting(m: Map<u64, Attached>, channel: u64, listener: Attached)
    ensures
        (forall|c: u64, msg: String| m.contains_key(c) ==> #[trigger] m[c].accepts(msg)) && (forall|
            msg: String,
        | listener.accepts(msg)) ==> forall|c: u64, msg: String|
            m.insert(channel, listener).contains_key(c) ==> #[trigger] m.insert(channel, listener)[c].accepts(msg),
{
    vstd::map::axiom_map_insert_domain(m, channel, listener);
    vstd::map::axiom_map_insert_same(m, channel, listener);
    assert forall|c: u64| c != channel implies #[trigger] m.insert(channel, listener)[c] == m[c] by {
        vstd::map::axiom_map_insert_different(m, c, channel, listener);
    }
    assert forall|c: u64| #[trigger] m.insert(channel, listener).contains_key(c) implies c == channel || m.contains_key(c) by {
        assert(m.dom().insert(channel).contains(c));
    }
}

/// What the shared cell may hold: a table whose listeners may be handed any
/// message.
pub struct Accepting;

impl Predicate<SharedState> for Accepting {
    open spec fn predicate(&self, v: SharedState) -> bool {
        v.listeners_accept()
    }
}

/// The table, shared by both ends.
pub type Shared = Rc<InvCell<SharedState, Accepting>>;

/// The end of a connection that sends.
pub struct Sender(Shared);

/// The end of a connection that listens.
pub struct Receiver(Shared);

pub struct Duplex<S, R>(pub S, pub R);

impl Sender {
    /// The table this end shares with the other end.
    pub closed spec fn table(&self) -> Shared {
        self.0
    }
}

impl Receiver {
    /// The table this end shares with the other end.
    pub closed spec fn table(&self) -> Shared {
        self.0
    }
}

/// Hands out the next channel number of the table in `shared`.
fn allocate_in(shared: &Shared) -> Channel {
    let mut state = shared.replace(SharedState::new());
    let channel = state.allocate_channel();
    shared.set(state);
    channel
}

impl ChannelSender for Sender {
    fn allocate_send_channel(&self) -> Channel {
        allocate_in(&self.0)
    }

    /// Hands `message` to the listener of `channel`, if it has one. While
    /// the listener runs, its table is in place without it, so that the
    /// listener may use the connection.
    fn send_message(&self, channel: Channel, message: String) {
        let mut state = self.0.replace(SharedState::new());
        match state.take_listener(channel) {
            Some(mut callback) => {
                assert(callback.accepts(message));
                self.0.set(state);
                let ghost handed = callback;
                callback.0.receive(message);
                assert forall|m: String| #[trigger] callback.accepts(m) by {
                    assert(handed.accepts(m));
                }
                let mut state = self.0.replace(SharedState::new());
                state.restore_listener(channel, callback);
                self.0.set(state);
            },
            None => self.0.set(state),
        }
    }
}

impl ChannelReceiver for Receiver {
    fn allocate_receive_channel(&self) -> Channel {
        allocate_in(&self.0)
    }

    fn listen<L: FnMut(String) + 'static>(&self, channel: Channel, listener: L) {
        let mut state = self.0.replace(SharedState::new());
        let attached = Attached(Box::new(listener));
        state.listen(channel, attached);
        self.0.set(state);
    }
}

impl<S: ChannelSender, R> ChannelSender for Duplex<S, R> {
    /// The channel that the sending end allocates.
    fn allocate_send_channel(&self) -> (r: Channel)
        ensures
            call_ensures(S::allocate_send_channel, (&self.0,), r),
    {
        self.0.allocate_send_channel()
    }

    fn send_message(&self, channel: Channel, message: String) {
        self.0.send_message(channel, message)
    }
}

impl<S, R: ChannelReceiver> ChannelReceiver for Duplex<S, R> {
    /// The channel that the receiving end allocates.
    fn allocate_receive_channel(&self) -> (r: Channel)
        ensures
            call_ensures(R::allocate_receive_channel, (&self.1,), r),
    {
        self.1.allocate_receive_channel()
    }

    fn listen<L: FnMut(String) + 'static>(&self, channel: Channel, listener: L) {
        self.1.listen(channel, listener)
    }
}

/// A connection: a sender and a receiver sharing one new table.
pub fn simple_connection() -> (r: (Sender, Receiver))
    ensures
        r.0.table() == r.1.table(),
{
    let shared: Shared = Rc::new(InvCell::new(SharedState::new(), Ghost(Accepting)));
    (Sender(shared.clone()), Receiver(shared))
}

/// Two ends of a connection both ways: what one end sends reaches the
/// listeners of the other end.
pub fn simple_duplex_connection() -> (r: (Duplex<Sender, Receiver>, Duplex<Sender, Receiver>))
    ensures
        r.0.0.table() == r.1.1.table(),
        r.1.0.table() == r.0.1.table(),
{
    let (sender_1, receiver_2) = simple_connection();
    let (sender_2, receiver_1) = simple_connection();
    (Duplex(sender_1, receiver_1), Duplex(sender_2, receiver_2))
}

} // verus!
