//! A channel's listener made of a function: each message it is handed is
//! passed to the function, which returns the work to run for it. The
//! listener keeps, as ghost state, what it was made of, the messages it was
//! handed, how often its work was polled, and whether its work has ended
//! with `Stop`; only its own methods change them.
use vstd::prelude::*;
use crate::callback::{call_with, handed_to};
use crate::channel_listener::{ListenerPoll, ListenerWork, StreamListenerResult};

verus! {

/// A listener made of a function: each message it is handed is passed to
/// the function, which returns the work to run for it; the listener is ready
/// for the next message once that work is done.
pub struct AsyncFunctionListener<F, W> {
    function: F,
    work: Option<W>,
    /// The function the listener was made of.
    origin: Ghost<F>,
    /// The messages handed to it, oldest first.
    received: Ghost<Seq<String>>,
    /// How many times its work was polled.
    polls: Ghost<nat>,
    /// Whether a work of it has ended with `Stop`.
    stopped: Ghost<bool>,
}

impl<F: FnMut(String) -> W, W> AsyncFunctionListener<F, W> {
    /// The function the listener hands its messages to, in the state it has.
    pub closed spec fn function(&self) -> F {
        self.function
    }

    /// The work started for the last message, while it has not been seen to
    /// be done.
    pub closed spec fn work(&self) -> Option<W> {
        self.work
    }

    /// The function the listener was made of.
    pub closed spec fn origin(&self) -> F {
        self.origin@
    }

    /// The messages handed to the listener so far, oldest first.
    pub closed spec fn received(&self) -> Seq<String> {
        self.received@
    }

    /// How many times the listener was polled.
    pub closed spec fn polls(&self) -> nat {
        self.polls@
    }

    /// Whether a work of the listener has ended with `Stop`.
    pub closed spec fn stopped(&self) -> bool {
        self.stopped@
    }

    pub fn new(function: F) -> (r: Self)
        ensures
            r.function() == function,
            r.work() is None,
            r.origin() == function,
            r.received() == Seq::<String>::empty(),
            r.polls() == 0,
            !r.stopped(),
    {
        let ghost origin = function;
        AsyncFunctionListener {
            function,
            work: None,
            origin: Ghost(origin),
            received: Ghost(Seq::empty()),
            polls: Ghost(0),
            stopped: Ghost(false),
        }
    }

    /// Passes `message` to the function and keeps the work it returns.
    pub fn receive(&mut self, message: String)
        requires
            call_requires(old(self).function(), (message,)),
        ensures
            final(self).work() is Some,
            handed_to(old(self).function(), message, final(self).work().unwrap()),
            final(self).origin() == old(self).origin(),
            final(self).received() == old(self).received().push(message),
            final(self).polls() == old(self).polls(),
            final(self).stopped() == old(self).stopped(),
    {
        let work = call_with(&mut self.function, message);
        self.work = Some(work);
        proof {
            self.received = Ghost(self.received@.push(message));
        }
    }

    /// Polls the work started for the last message. A listener with no work
    /// is ready to go on; work that is done is dropped.
    pub fn poll_ready<X>(&mut self, cx: &mut X) -> (r: ListenerPoll) where W: ListenerWork<X>
        ensures
            final(self).function() == old(self).function(),
            old(self).work() is None ==> r == ListenerPoll::Ready(StreamListenerResult::Continue),
            (r is Pending) == (final(self).work() is Some),
            final(self).origin() == old(self).origin(),
            final(self).received() == old(self).received(),
            final(self).polls() == old(self).polls() + 1,
            final(self).stopped() == (old(self).stopped() || r == ListenerPoll::Ready(
                StreamListenerResult::Stop,
            )),
    {
        proof {
            self.polls = Ghost(self.polls@ + 1);
        }
        match self.work.take() {
            None => ListenerPoll::Ready(StreamListenerResult::Continue),
            Some(mut work) => {
                let r = work.poll_work(cx);
                match r {
                    ListenerPoll::Pending => {
                        self.work = Some(work);
                        ListenerPoll::Pending
                    },
                    ListenerPoll::Ready(result) => {
                        proof {
                            if result is Stop {
                                self.stopped = Ghost(true);
                            }
                        }
                        ListenerPoll::Ready(result)
                    },
                }
            },
        }
    }
}

} // verus!
