//! Messages split by channel: each channel has a queue of listeners and a
//! queue of messages not handed out yet. The listener at the front of the
//! queue is handed the waiting messages one at a time, each once the work
//! started for the previous one is done; when its work ends with `Stop`, it
//! leaves and the next listener takes over.
use vstd::prelude::*;
use std::collections::{HashMap, HashSet, VecDeque};
use crate::callback::{accepts_all, handed_to};
pub use crate::function_listener::AsyncFunctionListener;

verus! {

broadcast use vstd::std_specs::hash::group_hash_axioms;

pub enum StreamListenerResult {
    Continue,
    Stop,
}

/// What polling a listener's work gives: done, with the listener's wish to
/// go on or to stop, or still running.
pub enum ListenerPoll {
    Ready(StreamListenerResult),
    Pending,
}

/// The work a listener starts for a message (a future, when it is driven by
/// an executor). `X` is what a poll needs from its caller (the task context).
pub trait ListenerWork<X> {
    /// Polls the work: done, with the listener's wish to go on or to stop, or
    /// still running.
    fn poll_work(&mut self, cx: &mut X) -> ListenerPoll;
}

/// A listener on one channel's stream of messages. `X` is what a poll needs
/// from its caller (the task context, when it is driven by an executor).
pub trait StreamListener<X> {
    /// Whether the listener, in the state it has, may be handed `message`.
    spec fn accepts(&self, message: String) -> bool;

    /// Starts the work for `message`.
    fn receive(&mut self, message: String)
        requires
            old(self).accepts(message),
    ;

    /// Polls the work started for the last message; a listener with no work
    /// running is ready to go on.
    fn poll_ready(&mut self, cx: &mut X) -> ListenerPoll;
}

/// Something that can be made into a listener.
pub trait IntoStreamListener<X> {
    type Listener: StreamListener<X>;

    fn into_stream_listener(self) -> Self::Listener;
}

impl<X, F: FnMut(String) -> W, W: ListenerWork<X>> StreamListener<X> for AsyncFunctionListener<F, W> {
    open spec fn accepts(&self, message: String) -> bool {
        call_requires(self.function(), (message,))
    }

    /// Passes `message` to the function and keeps the work it returns.
    fn receive(&mut self, message: String)
        ensures
            final(self).work() is Some,
            handed_to(old(self).function(), message, final(self).work().unwrap()),
    {
        AsyncFunctionListener::receive(self, message)
    }

    /// Polls the work started for the last message, as
    /// `AsyncFunctionListener::poll_ready` does.
    fn poll_ready(&mut self, cx: &mut X) -> (r: ListenerPoll)
        ensures
            final(self).function() == old(self).function(),
            old(self).work() is None ==> r == ListenerPoll::Ready(StreamListenerResult::Continue),
            (r is Pending) == (final(self).work() is Some),
    {
        AsyncFunctionListener::poll_ready(self, cx)
    }
}

/// A function of the messages is made into a listener that passes each
/// message to it.
impl<X, F: FnMut(String) -> W, W: ListenerWork<X>> IntoStreamListener<X> for F {
    type Listener = AsyncFunctionListener<F, W>;

    fn into_stream_listener(self) -> (r: AsyncFunctionListener<F, W>)
        ensures
            r.function() == self,
            r.work() is None,
    {
        AsyncFunctionListener::new(self)
    }
}

/// One channel: its listeners, front first, and its waiting messages, oldest
/// first.
pub struct StreamState<F, W> {
    listener: VecDeque<AsyncFunctionListener<F, W>>,
    waiting: VecDeque<String>,
    /// The messages handed out so far, oldest first.
    handed: Ghost<Seq<String>>,
    /// For each message handed out, the function it was passed to (as it was
    /// then) and the work that the function returned.
    hand_offs: Ghost<Seq<(F, W)>>,
    /// The listeners that have left, in the order they left, each as it was
    /// when it left.
    left: Ghost<Seq<AsyncFunctionListener<F, W>>>,
}

/// What a step of a channel does after its front listener was polled: hand
/// out the next message and poll again, or stop with the answer whether a
/// listener's work is still running.
pub enum Step {
    Delivered,
    Done(bool),
}

impl<F: FnMut(String) -> W, W> StreamState<F, W> {
    pub closed spec fn listeners(&self) -> Seq<AsyncFunctionListener<F, W>> {
        self.listener@
    }

    pub closed spec fn waiting(&self) -> Seq<String> {
        self.waiting@
    }

    /// The messages handed out to listeners so far, in the order they were
    /// handed out.
    pub closed spec fn handed(&self) -> Seq<String> {
        self.handed@
    }

    /// For each message of `handed()`, the listener's function it was passed
    /// to, as it was at the time, and the work that the call returned.
    pub closed spec fn hand_offs(&self) -> Seq<(F, W)> {
        self.hand_offs@
    }

    /// The listeners that have left the channel, in the order they left,
    /// each as it was when it left.
    pub closed spec fn left(&self) -> Seq<AsyncFunctionListener<F, W>> {
        self.left@
    }

    /// The listeners' functions accept every message; every message handed
    /// out was passed to a listener's function, which returned the recorded
    /// work; only the front listener has work; a listener has left exactly
    /// when a work of it ended with `Stop`.
    pub open spec fn wf(&self) -> bool {
        &&& self.wf_polled()
        &&& self.listeners().len() > 0 ==> !self.listeners()[0].stopped()
    }

    /// What holds of a channel also between the poll of its front listener
    /// and the step taken after it: `wf` but for whether the front listener
    /// has stopped.
    pub open spec fn wf_polled(&self) -> bool {
        &&& forall|i: int| 0 <= i < self.left().len() ==> #[trigger] self.left()[i].stopped()
        &&& forall|i: int| 1 <= i < self.listeners().len() ==> !#[trigger] self.listeners()[i].stopped()
        &&& accepts_all::<F, W>()
        &&& self.hand_offs().len() == self.handed().len()
        &&& forall|i: int|
            0 <= i < self.handed().len() ==> #[trigger] handed_to(
                self.hand_offs()[i].0,
                self.handed()[i],
                self.hand_offs()[i].1,
            )
        &&& forall|i: int| 1 <= i < self.listeners().len() ==> #[trigger] self.listeners()[i].work() is None
    }

    /// Whether the front listener's work is running.
    pub open spec fn front_working(&self) -> bool {
        self.listeners().len() > 0 && self.listeners()[0].work() is Some
    }

    /// Whether the channel has run as far as it goes: its front listener's
    /// work is running, or it has no listener, or no message is waiting.
    pub open spec fn settled(&self) -> bool {
        self.front_working() || self.listeners().len() == 0 || self.waiting().len() == 0
    }

    pub fn new() -> (r: Self)
        requires
            accepts_all::<F, W>(),
        ensures
            r.wf(),
            r.listeners() == Seq::<AsyncFunctionListener<F, W>>::empty(),
            r.waiting() == Seq::<String>::empty(),
            r.handed() == Seq::<String>::empty(),
            r.hand_offs() == Seq::<(F, W)>::empty(),
            r.left() == Seq::<AsyncFunctionListener<F, W>>::empty(),
    {
        StreamState {
            listener: VecDeque::new(),
            waiting: VecDeque::new(),
            handed: Ghost(Seq::empty()),
            hand_offs: Ghost(Seq::empty()),
            left: Ghost(Seq::empty()),
        }
    }

    /// Queues `message` behind the waiting ones.
    pub fn push_message(&mut self, message: String)
        requires
            old(self).wf(),
        ensures
            final(self).wf(),
            final(self).waiting() == old(self).waiting().push(message),
            final(self).listeners() == old(self).listeners(),
            final(self).handed() == old(self).handed(),
            final(self).hand_offs() == old(self).hand_offs(),
            final(self).left() == old(self).left(),
    {
        self.waiting.push_back(message);
        assert(self.listeners() == old(self).listeners());
        assert(self.left() == old(self).left());
        assert(self.wf_polled());
    }

    /// Queues a listener made of `function` behind the others.
    pub fn push_listener(&mut self, function: F)
        requires
            old(self).wf(),
        ensures
            final(self).wf(),
            final(self).listeners().len() == old(self).listeners().len() + 1,
            final(self).listeners().drop_last() == old(self).listeners(),
            final(self).listeners().last().function() == function,
            final(self).listeners().last().work() is None,
            final(self).listeners().last().origin() == function,
            final(self).listeners().last().received() == Seq::<String>::empty(),
            !final(self).listeners().last().stopped(),
            final(self).waiting() == old(self).waiting(),
            final(self).handed() == old(self).handed(),
            final(self).hand_offs() == old(self).hand_offs(),
            final(self).left() == old(self).left(),
    {
        self.listener.push_back(AsyncFunctionListener::new(function));
        assert(self.listener@.drop_last() =~= old(self).listener@);
        assert forall|i: int| 1 <= i < self.listeners().len() implies !#[trigger] self.listeners()[i].stopped() by {
            if i < old(self).listeners().len() {
                assert(self.listeners()[i] == old(self).listeners()[i]);
            }
        }
        assert(self.listeners().len() > 0 ==> !self.listeners()[0].stopped()) by {
            if old(self).listeners().len() > 0 {
                assert(self.listeners()[0] == old(self).listeners()[0]);
            }
        }
        assert(self.left() == old(self).left());
        assert(self.wf_polled());
    }
}

/// After the front listener was polled with `result`, the listener at the
/// front of those that are kept has not stopped.
proof fn lemma_front_not_stopped<F: FnMut(String) -> W, W>(
    polled: Seq<AsyncFunctionListener<F, W>>,
    result: StreamListenerResult,
    now: Seq<AsyncFunctionListener<F, W>>,
)
    requires
        polled.len() > 0,
        polled[0].stopped() == (result is Stop),
        forall|i: int| 1 <= i < polled.len() ==> !#[trigger] polled[i].stopped(),
        now.len() == kept(polled, result).len(),
        now.len() > 0 ==> now[0].stopped() == kept(polled, result)[0].stopped(),
        now.drop_first() == kept(polled, result).drop_first(),
    ensures
        now.len() > 0 ==> !now[0].stopped(),
        forall|i: int| 1 <= i < now.len() ==> !#[trigger] now[i].stopped(),
{
    let k = kept(polled, result);
    assert forall|i: int| 1 <= i < now.len() implies !#[trigger] now[i].stopped() by {
        assert(now[i] == now.drop_first()[i - 1]);
        assert(k.drop_first()[i - 1] == k[i]);
        if result is Stop {
            assert(k[i] == polled[i + 1]);
        } else {
            assert(k[i] == polled[i]);
        }
    }
    if now.len() > 0 && result is Stop {
        assert(k[0] == polled[1]);
    }
}

/// The listeners that are left once the front one's work ended with `result`.
pub open spec fn kept<L>(listeners: Seq<L>, result: StreamListenerResult) -> Seq<L> {
    match result {
        StreamListenerResult::Continue => listeners,
        StreamListenerResult::Stop => listeners.drop_first(),
    }
}

impl<F: FnMut(String) -> W, W> StreamState<F, W> {
    /// The step taken once the front listener was polled with `outcome`:
    /// when its work is done (and, if it asked to stop, it has left), the
    /// oldest waiting message is passed to the front listener.
    pub fn after_poll(&mut self, outcome: ListenerPoll) -> (r: Step)
        requires
            old(self).wf_polled(),
            old(self).listeners().len() > 0,
            (outcome is Pending) == (old(self).listeners()[0].work() is Some),
            old(self).listeners()[0].stopped() == (outcome == ListenerPoll::Ready(
                StreamListenerResult::Stop,
            )),
        ensures
            final(self).wf(),
            final(self).left() == if outcome == ListenerPoll::Ready(StreamListenerResult::Stop) {
                old(self).left().push(old(self).listeners()[0])
            } else {
                old(self).left()
            },
            match outcome {
                ListenerPoll::Pending => {
                    &&& r == Step::Done(true)
                    &&& final(self).hand_offs() == old(self).hand_offs()
                    &&& final(self).listeners() == old(self).listeners()
                    &&& final(self).waiting() == old(self).waiting()
                    &&& final(self).handed() == old(self).handed()
                },
                ListenerPoll::Ready(result) => {
                    let left = kept(old(self).listeners(), result);
                    if left.len() > 0 && old(self).waiting().len() > 0 {
                        &&& r == Step::Delivered
                        &&& final(self).waiting() == old(self).waiting().drop_first()
                        &&& final(self).handed() == old(self).handed().push(old(self).waiting()[0])
                        &&& final(self).hand_offs() == old(self).hand_offs().push(
                            (left[0].function(), final(self).listeners()[0].work().unwrap()),
                        )
                        &&& final(self).listeners().len() == left.len()
                        &&& final(self).listeners()[0].work() is Some
                        &&& final(self).listeners()[0].origin() == left[0].origin()
                        &&& final(self).listeners()[0].received() == left[0].received().push(
                            old(self).waiting()[0],
                        )
                        &&& final(self).listeners()[0].polls() == left[0].polls()
                        &&& final(self).listeners()[0].stopped() == left[0].stopped()
                        &&& final(self).listeners().drop_first() == left.drop_first()
                    } else {
                        &&& r == Step::Done(false)
                        &&& final(self).listeners() == left
                        &&& final(self).waiting() == old(self).waiting()
                        &&& final(self).handed() == old(self).handed()
                        &&& final(self).hand_offs() == old(self).hand_offs()
                        &&& !final(self).front_working()
                    }
                },
            },
    {
        match outcome {
            ListenerPoll::Pending => {
                assert(self.wf_polled());
                assert(!self.listeners()[0].stopped());
                assert(self.wf());
                Step::Done(true)
            },
            ListenerPoll::Ready(result) => {
                if let StreamListenerResult::Stop = result {
                    let gone = self.listener.pop_front();
                    proof {
                        self.left = Ghost(self.left@.push(gone.unwrap()));
                        assert forall|i: int| 0 <= i < self.left().len() implies #[trigger] self.left()[i].stopped() by {
                            if i < old(self).left().len() {
                                assert(self.left()[i] == old(self).left()[i]);
                            }
                        }
                    }
                    assert(self.listener@ =~= old(self).listeners().drop_first());
                }
                if self.listener.len() > 0 && self.waiting.len() > 0 {
                    let message = self.waiting.pop_front().unwrap();
                    let ghost before = self.listener@;
                    let mut front = self.listener.pop_front().unwrap();
                    let ghost function = front.function();
                    front.receive(message);
                    proof {
                        self.handed = Ghost(self.handed@.push(message));
                        self.hand_offs = Ghost(self.hand_offs@.push((function, front.work().unwrap())));
                    }
                    self.listener.push_front(front);
                    assert(self.listener@.drop_first() =~= before.drop_first());
                    assert forall|i: int| 1 <= i < self.listeners().len() implies #[trigger] self.listeners()[i].work() is None by {
                        assert(self.listeners()[i] == before[i]);
                    }
                    assert forall|i: int| 0 <= i < self.handed().len() implies #[trigger] handed_to(
                        self.hand_offs()[i].0,
                        self.handed()[i],
                        self.hand_offs()[i].1,
                    ) by {
                        if i < old(self).handed().len() {
                            assert(self.hand_offs()[i] == old(self).hand_offs()[i]);
                            assert(self.handed()[i] == old(self).handed()[i]);
                        }
                    }
                    proof {
                        lemma_front_not_stopped(old(self).listeners(), result, self.listeners());
                    }
                    assert(self.wf());
                    Step::Delivered
                } else {
                    proof {
                        lemma_front_not_stopped(old(self).listeners(), result, self.listeners());
                    }
                    assert(self.wf());
                    Step::Done(false)
                }
            },
        }
    }

    /// Runs the channel as far as it goes without waiting: polls the front
    /// listener and passes it the next message while its work is done, and
    /// moves on to the next listener when one stops. Returns whether a
    /// listener's work is still running.
    ///
    /// What the listeners' work gives when polled is up to them; whatever it
    /// gives, messages are handed out oldest first, each to the front
    /// listener's function, listeners leave front first, and the run stops
    /// only when no listener is left, no message is waiting, or the front
    /// listener's work is still running.
    pub fn try_to_run<X>(&mut self, cx: &mut X) -> (r: bool) where W: ListenerWork<X>
        requires
            old(self).wf(),
        ensures
            final(self).wf(),
            r == final(self).front_working(),
            !r ==> final(self).listeners().len() == 0 || final(self).waiting().len() == 0,
            ran_from(
                old(self).listeners(),
                old(self).handed(),
                old(self).hand_offs(),
                old(self).waiting(),
                *final(self),
            ),
            idle_with_work(old(self).listeners(), old(self).waiting()) ==> {
                &&& final(self).handed().len() > old(self).handed().len()
                &&& final(self).hand_offs()[old(self).hand_offs().len() as int].0 == old(
                    self,
                ).listeners()[0].function()
            },
            ran_in_turn(old(self).listeners(), old(self).left(), old(self).handed(), *final(self)),
            front_polled(old(self).listeners(), old(self).left(), *final(self)),
    {
        let ghost mut taken: int = 0;
        let ghost mut iterated: bool = false;
        proof {
            lemma_in_turn_still(*old(self));
        }
        assert(old(self).waiting().skip(0) =~= old(self).waiting());
        assert(old(self).handed() + old(self).waiting().take(0) =~= old(self).handed());
        assert(old(self).hand_offs().take(old(self).hand_offs().len() as int) =~= old(self).hand_offs());
        loop
            invariant
                self.wf(),
                0 <= taken <= old(self).waiting().len(),
                self.waiting() == old(self).waiting().skip(taken),
                self.handed() == old(self).handed() + old(self).waiting().take(taken),
                old(self).hand_offs().len() <= self.hand_offs().len(),
                self.hand_offs().take(old(self).hand_offs().len() as int) == old(self).hand_offs(),
                old(self).hand_offs().len() == old(self).handed().len(),
                taken > 0 ==> old(self).listeners().len() > 0,
                taken == 0 ==> self.listeners() == old(self).listeners(),
                ran_in_turn(old(self).listeners(), old(self).left(), old(self).handed(), *self),
                iterated ==> front_polled(old(self).listeners(), old(self).left(), *self),
                !iterated ==> self.listeners() == old(self).listeners() && self.left() == old(
                    self,
                ).left(),
                taken > 0 && idle_with_work(old(self).listeners(), old(self).waiting())
                    ==> self.hand_offs()[old(self).hand_offs().len() as int].0 == old(
                    self,
                ).listeners()[0].function(),
                self.listeners().len() <= old(self).listeners().len(),
                self.listeners().len() > 1 ==> self.listeners().drop_first() == old(self).listeners().skip(old(self).listeners().len() - self.listeners().len() + 1),
            decreases self.waiting().len(),
        {
            if self.listener.len() == 0 {
                proof {
                    lemma_ran_from_witness(
                        old(self).listeners(),
                        old(self).handed(),
                        old(self).hand_offs(),
                        old(self).waiting(),
                        *self,
                        taken,
                    );
                }
                return false;
            }
            let ghost before_l = self.listeners();
            let ghost start_here = *self;
            let ghost old_left_here = self.left();
            let ghost old_handed_here = self.handed();
            let ghost old_hand_offs_here = self.hand_offs();
            let mut front = self.listener.pop_front().unwrap();
            let outcome = front.poll_ready(cx);
            self.listener.push_front(front);
            assert(self.listeners().drop_first() =~= before_l.drop_first());
            assert forall|i: int| 1 <= i < self.listeners().len() implies #[trigger] self.listeners()[i].work() is None by {
                assert(self.listeners()[i] == before_l[i]);
            }
            assert forall|i: int| 1 <= i < self.listeners().len() implies !#[trigger] self.listeners()[i].stopped() by {
                assert(self.listeners()[i] == before_l[i]);
            }
            assert(self.left() == old_left_here);
            assert(self.handed() == old_handed_here && self.hand_offs() == old_hand_offs_here);
            assert(forall|i: int| 0 <= i < self.left().len() ==> #[trigger] self.left()[i].stopped());
            assert(self.wf_polled());
            let ghost mid_l = self.listeners();
            let ghost polled = *self;
            let ghost g_outcome = outcome;
            proof {
                lemma_in_turn_front(
                    old(self).listeners(),
                    old(self).left(),
                    old(self).handed(),
                    start_here,
                    polled,
                    Seq::empty(),
                );
                let l0 = old(self).left().len() as int;
                if !iterated {
                    assert(start_here.left().skip(l0) =~= Seq::<AsyncFunctionListener<F, W>>::empty());
                    assert(fronts(polled, l0)[0] == polled.listeners()[0]);
                }
            }
            let step = self.after_poll(outcome);
            proof {
                let q = *self;
                let l0 = old(self).left().len() as int;
                match g_outcome {
                    ListenerPoll::Pending => {
                        assert(fronts(q, l0) =~= fronts(polled, l0));
                    },
                    ListenerPoll::Ready(StreamListenerResult::Continue) => {
                        if q.handed().len() > polled.handed().len() {
                            assert(q.listeners()[0].received() =~= polled.listeners()[0].received()
                                + seq![polled.waiting()[0]]);
                            assert(q.handed() =~= polled.handed() + seq![polled.waiting()[0]]);
                            lemma_in_turn_front(
                                old(self).listeners(),
                                old(self).left(),
                                old(self).handed(),
                                polled,
                                q,
                                seq![polled.waiting()[0]],
                            );
                        } else {
                            assert(fronts(q, l0) =~= fronts(polled, l0));
                        }
                    },
                    ListenerPoll::Ready(StreamListenerResult::Stop) => {
                        let rest = polled.listeners().drop_first();
                        if q.handed().len() > polled.handed().len() {
                            assert(rest[0] == polled.listeners()[1]);
                            assert(q.listeners()[0].received() =~= polled.listeners()[1].received()
                                + seq![polled.waiting()[0]]);
                            assert(q.handed() =~= polled.handed() + seq![polled.waiting()[0]]);
                            lemma_in_turn_leave(
                                old(self).listeners(),
                                old(self).left(),
                                old(self).handed(),
                                polled,
                                q,
                                seq![polled.waiting()[0]],
                            );
                        } else {
                            if q.listeners().len() > 0 {
                                assert(q.listeners()[0] == polled.listeners()[1]);
                                assert(q.listeners()[0].received() =~= polled.listeners()[1].received()
                                    + Seq::<String>::empty());
                            }
                            assert(q.handed() =~= polled.handed() + Seq::<String>::empty());
                            lemma_in_turn_leave(
                                old(self).listeners(),
                                old(self).left(),
                                old(self).handed(),
                                polled,
                                q,
                                Seq::empty(),
                            );
                        }
                    },
                }
                iterated = true;
            }
            match step {
                Step::Done(running) => {
                    proof {
                        lemma_drop_first_skip(old(self).listeners(), mid_l, self.listeners());
                        lemma_ran_from_witness(
                            old(self).listeners(),
                            old(self).handed(),
                            old(self).hand_offs(),
                            old(self).waiting(),
                            *self,
                            taken,
                        );
                    }
                    return running;
                },
                Step::Delivered => {
                    proof {
                        assert(self.handed() =~= old(self).handed() + old(self).waiting().take(
                            taken + 1,
                        ));
                        taken = taken + 1;
                        assert(self.waiting() =~= old(self).waiting().skip(taken));
                        lemma_drop_first_skip(old(self).listeners(), mid_l, self.listeners());
                        assert(self.hand_offs().take(old(self).hand_offs().len() as int) =~= old(self).hand_offs());
                    }
                },
            }
        }
    }
}

/// Whether a run of a channel with `listeners` and `waiting` is sure to hand
/// out a message: its front listener has no work running and a message is
/// waiting.
pub open spec fn idle_with_work<F: FnMut(String) -> W, W>(
    listeners: Seq<AsyncFunctionListener<F, W>>,
    waiting: Seq<String>,
) -> bool {
    listeners.len() > 0 && listeners[0].work() is None && waiting.len() > 0
}

/// A command fed to a `ChanneledListener`: a message received on a channel,
/// or a listener, given by its function, to queue on a channel.
pub enum ChannelCommand<F> {
    Receive(u64, String),
    Listen(u64, F),
}

impl<F> ChannelCommand<F> {
    /// The command that queues a listener made of `listener` on `channel`.
    pub fn listen(channel: u64, listener: F) -> (r: Self)
        ensures
            r == ChannelCommand::Listen(channel, listener),
    {
        ChannelCommand::Listen(channel, listener)
    }
}

/// All channels, and which of them have a listener's work running. Channels
/// are created as the first command for them arrives.
#[verifier::reject_recursive_types(W)]
pub struct ChanneledListener<F: FnMut(String) -> W, W> {
    running: HashSet<u64>,
    channels: HashMap<u64, StreamState<F, W>>,
}

/// `s` with `c` in it exactly when `present`, and otherwise as it was.
pub open spec fn with_member(s: Set<u64>, c: u64, present: bool) -> Set<u64> {
    if present {
        s.insert(c)
    } else {
        s.remove(c)
    }
}

/// The listeners of channel `c` in `m`, none if it has had no command.
pub open spec fn listeners_of<F: FnMut(String) -> W, W>(
    m: Map<u64, StreamState<F, W>>,
    c: u64,
) -> Seq<AsyncFunctionListener<F, W>> {
    if m.contains_key(c) {
        m[c].listeners()
    } else {
        Seq::empty()
    }
}

/// The messages handed out on channel `c` in `m`, none if it has had no
/// command.
pub open spec fn handed_of<F: FnMut(String) -> W, W>(m: Map<u64, StreamState<F, W>>, c: u64) -> Seq<
    String,
> {
    if m.contains_key(c) {
        m[c].handed()
    } else {
        Seq::empty()
    }
}

/// The record of hand-offs on channel `c` in `m`, none if it has had no
/// command.
pub open spec fn hand_offs_of<F: FnMut(String) -> W, W>(
    m: Map<u64, StreamState<F, W>>,
    c: u64,
) -> Seq<(F, W)> {
    if m.contains_key(c) {
        m[c].hand_offs()
    } else {
        Seq::empty()
    }
}

/// The listeners that have left channel `c` in `m`, none if it has had no
/// command.
pub open spec fn left_of<F: FnMut(String) -> W, W>(
    m: Map<u64, StreamState<F, W>>,
    c: u64,
) -> Seq<AsyncFunctionListener<F, W>> {
    if m.contains_key(c) {
        m[c].left()
    } else {
        Seq::empty()
    }
}

/// The waiting messages of channel `c` in `m`, none if it has had no command.
pub open spec fn waiting_of<F: FnMut(String) -> W, W>(m: Map<u64, StreamState<F, W>>, c: u64) -> Seq<
    String,
> {
    if m.contains_key(c) {
        m[c].waiting()
    } else {
        Seq::empty()
    }
}

/// The channel a command is for.
pub open spec fn command_channel<F>(command: ChannelCommand<F>) -> u64 {
    match command {
        ChannelCommand::Receive(c, _) => c,
        ChannelCommand::Listen(c, _) => c,
    }
}

/// Records in `running` whether `channel` has a listener's work running.
fn mark(running: &mut HashSet<u64>, channel: u64, is_running: bool)
    ensures
        final(running)@ == with_member(old(running)@, channel, is_running),
{
    if is_running {
        let _ = running.insert(channel);
    } else {
        let _ = running.remove(&channel);
    }
}

/// The members of `set`, each once, in some order.
fn snapshot_of(set: &HashSet<u64>) -> (r: Vec<u64>)
    ensures
        r@.to_set() == set@,
        r@.no_duplicates(),
{
    let ghost keys = vstd::std_specs::iter::IteratorSpec::remaining(&vstd::std_specs::hash::spec_hash_keys_iter(set)).unref();
    let mut snapshot: Vec<u64> = Vec::new();
    for c in it: set.iter()
        invariant
            snapshot@ == it.seq().take(it.index() as int).unref(),
            it.seq().unref() == keys,
    {
        assert(c == it.seq()[it.index()]);
        snapshot.push(*c);
        assert(snapshot@ =~= it.seq().take(it.index() + 1).unref());
    }
    assert(snapshot@ =~= keys);
    snapshot
}


impl<F: FnMut(String) -> W, W> ChanneledListener<F, W> {
    #[verifier::type_invariant]
    closed spec fn inv(&self) -> bool {
        self.wf()
    }

    /// The channels whose front listener's work is running.
    pub closed spec fn running(&self) -> Set<u64> {
        self.running@
    }

    /// The state of each channel that has had a command.
    pub closed spec fn channels(&self) -> Map<u64, StreamState<F, W>> {
        self.channels@
    }

    /// The listeners' functions accept every message; every channel keeps
    /// its record of hand-offs and has run as far as it goes; a channel
    /// counts as running exactly when its front listener's work is running.
    pub open spec fn wf(&self) -> bool {
        &&& accepts_all::<F, W>()
        &&& forall|c: u64|
            #[trigger] self.channels().contains_key(c) ==> self.channels()[c].wf()
                && self.channels()[c].settled()
        &&& forall|c: u64|
            #![trigger self.running().contains(c)]
            #![trigger self.channels()[c]]
            self.running().contains(c) == (self.channels().contains_key(c)
                && self.channels()[c].front_working())
    }

    pub fn new() -> (r: Self)
        requires
            accepts_all::<F, W>(),
        ensures
            r.wf(),
            r.running() == Set::<u64>::empty(),
            r.channels() == Map::<u64, StreamState<F, W>>::empty(),
    {
        ChanneledListener { running: HashSet::new(), channels: HashMap::new() }
    }

    /// Feeds one command: queues the message, or a listener made of the
    /// function, on its channel, then runs that channel as far as it goes.
    pub fn handle_command<X>(&mut self, command: ChannelCommand<F>, cx: &mut X) where
        W: ListenerWork<X>,

        ensures
            final(self).wf(),
            ({
                let channel = command_channel(command);
                let listeners = listeners_of(old(self).channels(), channel);
                let waiting = waiting_of(old(self).channels(), channel);
                let handed = handed_of(old(self).channels(), channel);
                let hand_offs = hand_offs_of(old(self).channels(), channel);
                let left = left_of(old(self).channels(), channel);
                let end = final(self).channels()[channel];
                &&& final(self).channels().dom() == old(self).channels().dom().insert(channel)
                &&& forall|c: u64|
                    c != channel && #[trigger] old(self).channels().contains_key(c)
                        ==> final(self).channels()[c] == old(self).channels()[c]
                &&& match command {
                    ChannelCommand::Receive(_, message) => {
                        &&& ran_from(listeners, handed, hand_offs, waiting.push(message), end)
                        &&& ran_in_turn(listeners, left, handed, end)
                        &&& listeners.len() > 0 && listeners[0].work() is None ==> {
                            &&& end.handed().len() > handed.len()
                            &&& end.hand_offs()[hand_offs.len() as int].0
                                == listeners[0].function()
                        }
                    },
                    ChannelCommand::Listen(_, function) => {
                        &&& exists|l: AsyncFunctionListener<F, W>|
                            l.function() == function && l.work() is None && ran_from(
                                #[trigger] listeners.push(l),
                                handed,
                                hand_offs,
                                waiting,
                                end,
                            ) && l.origin() == function && l.received() == Seq::<String>::empty()
                                && !l.stopped() && ran_in_turn(listeners.push(l), left, handed, end)
                        &&& (listeners.len() == 0 || listeners[0].work() is None) && waiting.len()
                            > 0 ==> end.handed().len() > handed.len()
                        &&& listeners.len() == 0 && waiting.len() > 0
                            ==> end.hand_offs()[hand_offs.len() as int].0 == function
                        &&& listeners.len() > 0 && listeners[0].work() is None && waiting.len()
                            > 0 ==> end.hand_offs()[hand_offs.len() as int].0
                            == listeners[0].function()
                    },
                }
            }),
    {
        proof {
            use_type_invariant(&*self);
        }
        let mut this: ChanneledListener<F, W> = ChanneledListener::new();
        std::mem::swap(&mut this, self);
        proof {
            use_type_invariant(&this);
        }
        let ChanneledListener { mut running, mut channels } = this;
        let ghost old_channels = channels@;
        let ghost old_running = running@;
        let channel = match &command {
            ChannelCommand::Receive(c, _) => *c,
            ChannelCommand::Listen(c, _) => *c,
        };
        let mut state = match channels.remove(&channel) {
            Some(state) => state,
            None => StreamState::new(),
        };
        let ghost start_listeners = state.listeners();
        let ghost is_listen = command is Listen;
        match command {
            ChannelCommand::Receive(_, message) => state.push_message(message),
            ChannelCommand::Listen(_, function) => state.push_listener(function),
        }
        let ghost pushed = state;
        let is_running = state.try_to_run(cx);
        proof {
            if is_listen {
                let l = pushed.listeners().last();
                assert(pushed.listeners() =~= start_listeners.push(l));
            }
        }
        let _ = channels.insert(channel, state);
        mark(&mut running, channel, is_running);
        assert(channels@.dom() =~= old_channels.dom().insert(channel));
        *self = ChanneledListener { running, channels };
    }

    /// Runs again every channel that had a listener's work running, and
    /// records which of them still have.
    pub fn run_pending<X>(&mut self, cx: &mut X) where W: ListenerWork<X>
        ensures
            final(self).wf(),
            final(self).running().subset_of(old(self).running()),
            final(self).channels().dom() == old(self).channels().dom(),
            forall|c: u64|
                #[trigger] old(self).channels().contains_key(c) && !old(self).running().contains(c)
                    ==> final(self).channels()[c] == old(self).channels()[c],
            forall|c: u64|
                #[trigger] old(self).channels().contains_key(c) ==> ran_from(
                    old(self).channels()[c].listeners(),
                    old(self).channels()[c].handed(),
                    old(self).channels()[c].hand_offs(),
                    old(self).channels()[c].waiting(),
                    final(self).channels()[c],
                ),
            forall|c: u64|
                #[trigger] old(self).channels().contains_key(c) && old(self).running().contains(c)
                    ==> ran_in_turn(
                    old(self).channels()[c].listeners(),
                    old(self).channels()[c].left(),
                    old(self).channels()[c].handed(),
                    final(self).channels()[c],
                ) && front_polled(
                    old(self).channels()[c].listeners(),
                    old(self).channels()[c].left(),
                    final(self).channels()[c],
                ),
    {
        proof {
            use_type_invariant(&*self);
        }
        let mut this: ChanneledListener<F, W> = ChanneledListener::new();
        std::mem::swap(&mut this, self);
        proof {
            use_type_invariant(&this);
        }
        let ghost start = this;
        let ChanneledListener { mut running, mut channels } = this;
        let ghost old_channels = channels@;
        let ghost old_set = running@;
        assert(old_set == start.running());
        assert forall|c: u64| #[trigger] channels@.contains_key(c) implies channels@[c].wf()
            && channels@[c].settled() by {
            assert(start.channels().contains_key(c));
        }
        assert forall|c: u64| #[trigger] running@.contains(c) == (channels@.contains_key(c)
            && channels@[c].front_working()) by {
            assert(start.running().contains(c) == (start.channels().contains_key(c)
                && start.channels()[c].front_working()));
        }
        let snapshot = snapshot_of(&running);
        assert forall|c: u64| #[trigger] old_channels.contains_key(c) implies ran_from(
            old_channels[c].listeners(),
            old_channels[c].handed(),
            old_channels[c].hand_offs(),
            old_channels[c].waiting(),
            channels@[c],
        ) by {
            lemma_ran_from_still(old_channels[c]);
        }
        let mut i: usize = 0;
        while i < snapshot.len()
            invariant
                i <= snapshot.len(),
                snapshot@.to_set() == old_set,
                snapshot@.no_duplicates(),
                running@.subset_of(old_set),
                forall|j: int|
                    i <= j < snapshot.len() ==> #[trigger] running@.contains(snapshot@[j]),
                channels@.dom() == old_channels.dom(),
                accepts_all::<F, W>(),
                forall|c: u64|
                    #[trigger] channels@.contains_key(c) ==> channels@[c].wf()
                        && channels@[c].settled(),
                forall|c: u64|
                    #![trigger running@.contains(c)]
                    #![trigger channels@[c]]
                    running@.contains(c) == (channels@.contains_key(c)
                        && channels@[c].front_working()),
                forall|c: u64|
                    #[trigger] old_channels.contains_key(c) && !(exists|j: int|
                        0 <= j < i && snapshot@[j] == c) ==> channels@[c] == old_channels[c],
                forall|c: u64|
                    #[trigger] old_channels.contains_key(c) ==> ran_from(
                        old_channels[c].listeners(),
                        old_channels[c].handed(),
                        old_channels[c].hand_offs(),
                        old_channels[c].waiting(),
                        channels@[c],
                    ),
                forall|c: u64|
                    #[trigger] old_channels.contains_key(c) && (exists|j: int|
                        0 <= j < i && snapshot@[j] == c) ==> ran_in_turn(
                        old_channels[c].listeners(),
                        old_channels[c].left(),
                        old_channels[c].handed(),
                        channels@[c],
                    ) && front_polled(
                        old_channels[c].listeners(),
                        old_channels[c].left(),
                        channels@[c],
                    ),
            decreases snapshot.len() - i,
        {
            let channel = snapshot[i];
            assert(forall|j: int| i < j < snapshot.len() ==> snapshot@[j] != channel);
            assert(forall|j: int| 0 <= j < i ==> snapshot@[j] != channel);
            assert(running@.contains(snapshot@[i as int]));
            match channels.remove(&channel) {
                Some(mut state) => {
                    let ghost before = state;
                    let is_running = state.try_to_run(cx);
                    proof {
                        lemma_ran_from_trans(
                            old_channels[channel].listeners(),
                            old_channels[channel].handed(),
                            old_channels[channel].hand_offs(),
                            old_channels[channel].waiting(),
                            before,
                            state,
                        );
                    }
                    let _ = channels.insert(channel, state);
                    mark(&mut running, channel, is_running);
                },
                None => {
                    mark(&mut running, channel, false);
                },
            }
            i = i + 1;
        }
        assert forall|c: u64|
            #[trigger] old_channels.contains_key(c) && old_set.contains(c) implies ran_in_turn(
            old_channels[c].listeners(),
            old_channels[c].left(),
            old_channels[c].handed(),
            channels@[c],
        ) && front_polled(old_channels[c].listeners(), old_channels[c].left(), channels@[c]) by {
            assert(snapshot@.to_set().contains(c));
            let j = choose|j: int| 0 <= j < snapshot@.len() && snapshot@[j] == c;
            assert(exists|j: int| 0 <= j < i && snapshot@[j] == c);
        }
        *self = ChanneledListener { running, channels };
    }

    /// Whether the listener is done: the commands have run out and no
    /// listener's work is running.
    pub fn is_finished(&self, input_done: bool) -> (r: bool)
        ensures
            r == (input_done && self.running() == Set::<u64>::empty()),
    {
        input_done && self.running.is_empty()
    }
}

/// What a channel holds after a run that started with `listeners`, `handed`,
/// `hand_offs` and `waiting`: some oldest waiting messages were handed out,
/// in order, and none unless there was a listener; the record of earlier
/// hand-offs is kept; some front listeners left, and the listeners behind
/// the front one are the last ones it started with.
pub open spec fn ran_from<F: FnMut(String) -> W, W>(
    listeners: Seq<AsyncFunctionListener<F, W>>,
    handed: Seq<String>,
    hand_offs: Seq<(F, W)>,
    waiting: Seq<String>,
    end: StreamState<F, W>,
) -> bool {
    &&& exists|k: int|
        0 <= k <= waiting.len() && end.waiting() == waiting.skip(k) && end.handed() == handed
            + waiting.take(k) && (k > 0 ==> listeners.len() > 0)
    &&& hand_offs.len() <= end.hand_offs().len()
    &&& end.hand_offs().take(hand_offs.len() as int) == hand_offs
    &&& end.listeners().len() <= listeners.len()
    &&& end.listeners().len() > 1 ==> end.listeners().drop_first() == listeners.skip(
        listeners.len() - end.listeners().len() + 1,
    )
}

/// Running a channel again keeps the promise of a single run: over any
/// number of runs, messages are handed out oldest first, none without a
/// listener, listeners leave front first, and those behind the front one are
/// the last it started with.
pub proof fn lemma_ran_from_trans<F: FnMut(String) -> W, W>(
    listeners: Seq<AsyncFunctionListener<F, W>>,
    handed: Seq<String>,
    hand_offs: Seq<(F, W)>,
    waiting: Seq<String>,
    mid: StreamState<F, W>,
    end: StreamState<F, W>,
)
    requires
        ran_from(listeners, handed, hand_offs, waiting, mid),
        ran_from(mid.listeners(), mid.handed(), mid.hand_offs(), mid.waiting(), end),
    ensures
        ran_from(listeners, handed, hand_offs, waiting, end),
{
    let k1 = choose|k: int|
        0 <= k <= waiting.len() && mid.waiting() == waiting.skip(k) && mid.handed() == handed
            + waiting.take(k) && (k > 0 ==> listeners.len() > 0);
    let k2 = choose|k: int|
        0 <= k <= mid.waiting().len() && end.waiting() == mid.waiting().skip(k) && end.handed()
            == mid.handed() + mid.waiting().take(k) && (k > 0 ==> mid.listeners().len() > 0);
    assert(end.waiting() =~= waiting.skip(k1 + k2));
    assert(end.handed() =~= handed + waiting.take(k1 + k2));
    assert(end.hand_offs().take(hand_offs.len() as int) =~= mid.hand_offs().take(
        hand_offs.len() as int,
    ));
    if end.listeners().len() > 1 {
        let m = mid.listeners();
        assert(m.len() > 1);
        assert(end.listeners().drop_first() =~= listeners.skip(
            listeners.len() - end.listeners().len() + 1,
        )) by {
            assert(m.skip(m.len() - end.listeners().len() + 1) =~= m.drop_first().skip(
                m.len() - end.listeners().len(),
            ));
        }
    }
    lemma_ran_from_witness(listeners, handed, hand_offs, waiting, end, k1 + k2);
}

/// No message is lost or reordered on a channel: after any run, the messages
/// handed out followed by those still waiting are the ones there were before.
pub proof fn lemma_ran_from_conserves<F: FnMut(String) -> W, W>(
    listeners: Seq<AsyncFunctionListener<F, W>>,
    handed: Seq<String>,
    hand_offs: Seq<(F, W)>,
    waiting: Seq<String>,
    end: StreamState<F, W>,
)
    requires
        ran_from(listeners, handed, hand_offs, waiting, end),
    ensures
        end.handed() + end.waiting() == handed + waiting,
{
    let k = choose|k: int|
        0 <= k <= waiting.len() && end.waiting() == waiting.skip(k) && end.handed() == handed
            + waiting.take(k) && (k > 0 ==> listeners.len() > 0);
    assert(end.handed() + end.waiting() =~= handed + waiting);
}

/// A channel without listeners hands nothing out: its messages stay waiting.
pub proof fn lemma_no_listener_keeps_waiting<F: FnMut(String) -> W, W>(
    handed: Seq<String>,
    hand_offs: Seq<(F, W)>,
    waiting: Seq<String>,
    end: StreamState<F, W>,
)
    requires
        ran_from(Seq::<AsyncFunctionListener<F, W>>::empty(), handed, hand_offs, waiting, end),
    ensures
        end.handed() == handed,
        end.waiting() == waiting,
{
    let k = choose|k: int|
        0 <= k <= waiting.len() && end.waiting() == waiting.skip(k) && end.handed() == handed
            + waiting.take(k) && (k > 0 ==> Seq::<AsyncFunctionListener<F, W>>::empty().len() > 0);
    assert(waiting.skip(0) =~= waiting);
    assert(handed + waiting.take(0) =~= handed);
}

proof fn lemma_ran_from_witness<F: FnMut(String) -> W, W>(
    listeners: Seq<AsyncFunctionListener<F, W>>,
    handed: Seq<String>,
    hand_offs: Seq<(F, W)>,
    waiting: Seq<String>,
    end: StreamState<F, W>,
    k: int,
)
    requires
        0 <= k <= waiting.len(),
        end.waiting() == waiting.skip(k),
        end.handed() == handed + waiting.take(k),
        k > 0 ==> listeners.len() > 0,
        hand_offs.len() <= end.hand_offs().len(),
        end.hand_offs().take(hand_offs.len() as int) == hand_offs,
        end.listeners().len() <= listeners.len(),
        end.listeners().len() > 1 ==> end.listeners().drop_first() == listeners.skip(
            listeners.len() - end.listeners().len() + 1,
        ),
    ensures
        ran_from(listeners, handed, hand_offs, waiting, end),
{
}

/// A channel that did not run at all ran from where it is.
proof fn lemma_ran_from_still<F: FnMut(String) -> W, W>(state: StreamState<F, W>)
    ensures
        ran_from(state.listeners(), state.handed(), state.hand_offs(), state.waiting(), state),
{
    assert(state.waiting().skip(0) =~= state.waiting());
    assert(state.handed() + state.waiting().take(0) =~= state.handed());
    assert(state.listeners().skip(1) =~= state.listeners().drop_first());
    assert(state.hand_offs().take(state.hand_offs().len() as int) =~= state.hand_offs());
    lemma_ran_from_witness(
        state.listeners(),
        state.handed(),
        state.hand_offs(),
        state.waiting(),
        state,
        0,
    );
}

/// Listeners leave a channel from the front only: what follows the front
/// listener is always a suffix of the listeners the channel started with.
proof fn lemma_drop_first_skip<L>(o: Seq<L>, m: Seq<L>, f: Seq<L>)
    requires
        m.len() <= o.len(),
        m.len() > 1 ==> m.drop_first() == o.skip(o.len() - m.len() + 1),
        (f.len() == m.len() && (f.len() > 1 ==> f.drop_first() == m.drop_first())) || (m.len() > 0
            && f.len() + 1 == m.len() && (f.len() > 1 ==> f.drop_first()
            == m.drop_first().drop_first())),
    ensures
        f.len() <= o.len(),
        f.len() > 1 ==> f.drop_first() == o.skip(o.len() - f.len() + 1),
{
    if f.len() > 1 && f.len() + 1 == m.len() {
        assert(m.drop_first().drop_first() =~= o.skip(o.len() - f.len() + 1));
    }
}


/// The listeners that were at the front of a channel in turn during a run
/// that started with `left_before` listeners gone, as they are at the end
/// of it: those that left during the run, in the order they left, then the
/// one at the front at its end.
pub open spec fn fronts<F: FnMut(String) -> W, W>(
    end: StreamState<F, W>,
    left_before: int,
) -> Seq<AsyncFunctionListener<F, W>> {
    if end.listeners().len() > 0 {
        end.left().skip(left_before).push(end.listeners()[0])
    } else {
        end.left().skip(left_before)
    }
}

/// The messages that the first `n` of the listeners `start` were handed in
/// the meantime, as `ends` shows them later, in that order.
pub open spec fn gained<F: FnMut(String) -> W, W>(
    start: Seq<AsyncFunctionListener<F, W>>,
    ends: Seq<AsyncFunctionListener<F, W>>,
    n: int,
) -> Seq<String>
    decreases n,
{
    if n <= 0 {
        Seq::empty()
    } else {
        gained(start, ends, n - 1) + ends[n - 1].received().skip(start[n - 1].received().len() as int)
    }
}

/// `now` is the listener `before`, later: made of the same function, handed
/// what it was handed then and maybe more, and polled at least as often.
pub open spec fn continues<F: FnMut(String) -> W, W>(
    now: AsyncFunctionListener<F, W>,
    before: AsyncFunctionListener<F, W>,
) -> bool {
    &&& now.origin() == before.origin()
    &&& before.received().len() <= now.received().len()
    &&& now.received().take(before.received().len() as int) == before.received()
    &&& before.polls() <= now.polls()
}

/// What a run of a channel that started with `listeners` queued, `left`
/// gone and `handed` handed out did, as `end` shows it: as many front
/// listeners left as there are new entries among those gone; the listeners
/// that were at the front in turn are the first ones of `listeners`, in
/// order; and the messages handed out during the run are those the first of
/// them was handed while at the front, then those the second was handed,
/// and so on.
pub open spec fn ran_in_turn<F: FnMut(String) -> W, W>(
    listeners: Seq<AsyncFunctionListener<F, W>>,
    left: Seq<AsyncFunctionListener<F, W>>,
    handed: Seq<String>,
    end: StreamState<F, W>,
) -> bool {
    let ends = fronts(end, left.len() as int);
    &&& left.len() <= end.left().len()
    &&& end.left().take(left.len() as int) == left
    &&& end.left().len() - left.len() == listeners.len() - end.listeners().len()
    &&& ends.len() <= listeners.len()
    &&& forall|i: int| 0 <= i < ends.len() ==> continues(#[trigger] ends[i], listeners[i])
    &&& end.handed() == handed + gained(listeners, ends, ends.len() as int)
}

/// The listener that was at the front when the run started was polled
/// during it.
pub open spec fn front_polled<F: FnMut(String) -> W, W>(
    listeners: Seq<AsyncFunctionListener<F, W>>,
    left: Seq<AsyncFunctionListener<F, W>>,
    end: StreamState<F, W>,
) -> bool {
    listeners.len() > 0 ==> fronts(end, left.len() as int).len() > 0 && fronts(
        end,
        left.len() as int,
    )[0].polls() > listeners[0].polls()
}

/// With no listener leaving, every message handed out during a run went to
/// the listener that was at the front when it started: after the run it is
/// still at the front, made of the same function, and was handed, after what
/// it had been handed before, exactly the messages handed out during the
/// run, in order.
pub proof fn law_without_stop_all_go_to_the_front<F: FnMut(String) -> W, W>(
    listeners: Seq<AsyncFunctionListener<F, W>>,
    left: Seq<AsyncFunctionListener<F, W>>,
    handed: Seq<String>,
    end: StreamState<F, W>,
)
    requires
        ran_in_turn(listeners, left, handed, end),
        listeners.len() > 0,
        end.left().len() == left.len(),
    ensures
        end.listeners().len() == listeners.len(),
        end.listeners()[0].origin() == listeners[0].origin(),
        end.listeners()[0].received() == listeners[0].received() + end.handed().skip(
            handed.len() as int,
        ),
{
    let l0 = left.len() as int;
    let ends = fronts(end, l0);
    assert(end.left().skip(l0) =~= Seq::<AsyncFunctionListener<F, W>>::empty());
    assert(ends =~= seq![end.listeners()[0]]);
    assert(continues(ends[0], listeners[0]));
    let r = end.listeners()[0].received();
    let k = listeners[0].received().len() as int;
    assert(gained(listeners, ends, 0) == Seq::<String>::empty());
    assert(gained(listeners, ends, 1) =~= r.skip(k));
    assert(end.handed().skip(handed.len() as int) =~= r.skip(k));
    assert(r =~= r.take(k) + r.skip(k));
}

/// A listener leaves a channel exactly when a work of it ends with `Stop`:
/// after any run, the listeners that left during it were, in order, the
/// first ones queued when it started, and each of them had a work end with
/// `Stop`; the listener at the front at its end is the next one queued at
/// the start, and no work of it has ended with `Stop`.
pub proof fn law_leave_only_on_stop<F: FnMut(String) -> W, W>(
    listeners: Seq<AsyncFunctionListener<F, W>>,
    left: Seq<AsyncFunctionListener<F, W>>,
    handed: Seq<String>,
    end: StreamState<F, W>,
)
    requires
        end.wf(),
        ran_in_turn(listeners, left, handed, end),
    ensures
        forall|i: int|
            0 <= i < end.left().len() - left.len() ==> #[trigger] end.left()[left.len() + i].stopped()
                && end.left()[left.len() + i].origin() == listeners[i].origin(),
        end.listeners().len() > 0 ==> !end.listeners()[0].stopped() && end.listeners()[0].origin()
            == listeners[end.left().len() - left.len()].origin(),
{
    let l0 = left.len() as int;
    let ends = fronts(end, l0);
    assert forall|i: int| 0 <= i < end.left().len() - left.len() implies #[trigger] end.left()[left.len() + i].stopped()
        && end.left()[left.len() + i].origin() == listeners[i].origin() by {
        assert(ends[i] == end.left()[l0 + i]);
        assert(continues(ends[i], listeners[i]));
    }
    if end.listeners().len() > 0 {
        let s = end.left().len() - left.len();
        assert(ends[s] == end.listeners()[0]);
        assert(continues(ends[s], listeners[s]));
    }
}

/// A channel whose front listener did not leave during a run had that
/// listener polled again: it was polled more times at the end of the run
/// than at its start.
pub proof fn law_front_polled_again<F: FnMut(String) -> W, W>(
    listeners: Seq<AsyncFunctionListener<F, W>>,
    left: Seq<AsyncFunctionListener<F, W>>,
    handed: Seq<String>,
    end: StreamState<F, W>,
)
    requires
        ran_in_turn(listeners, left, handed, end),
        front_polled(listeners, left, end),
        listeners.len() > 0,
        end.left().len() == left.len(),
    ensures
        end.listeners().len() > 0,
        end.listeners()[0].origin() == listeners[0].origin(),
        end.listeners()[0].polls() > listeners[0].polls(),
{
    let l0 = left.len() as int;
    assert(end.left().skip(l0) =~= Seq::<AsyncFunctionListener<F, W>>::empty());
    assert(fronts(end, l0)[0] == end.listeners()[0]);
    assert(continues(fronts(end, l0)[0], listeners[0]));
}

/// `gained` reads only what the first `n` later listeners were handed.
proof fn lemma_gained_ext<F: FnMut(String) -> W, W>(
    start: Seq<AsyncFunctionListener<F, W>>,
    e1: Seq<AsyncFunctionListener<F, W>>,
    e2: Seq<AsyncFunctionListener<F, W>>,
    n: int,
)
    requires
        0 <= n <= e1.len(),
        n <= e2.len(),
        forall|i: int| 0 <= i < n ==> #[trigger] e1[i].received() == e2[i].received(),
    ensures
        gained(start, e1, n) == gained(start, e2, n),
    decreases n,
{
    if n > 0 {
        lemma_gained_ext(start, e1, e2, n - 1);
        assert(e1[n - 1].received() == e2[n - 1].received());
    }
}

/// Handing the last listener one more message adds it to what was gained.
proof fn lemma_gained_push<F: FnMut(String) -> W, W>(
    start: Seq<AsyncFunctionListener<F, W>>,
    ends: Seq<AsyncFunctionListener<F, W>>,
    message: String,
    x: AsyncFunctionListener<F, W>,
)
    requires
        0 < ends.len() <= start.len(),
        start[ends.len() - 1].received().len() <= ends[ends.len() - 1].received().len(),
        x.received() == ends[ends.len() - 1].received().push(message),
    ensures
        gained(start, ends.update(ends.len() - 1, x), ends.len() as int) == gained(
            start,
            ends,
            ends.len() as int,
        ).push(message),
{
    let n = ends.len() as int;
    let e2 = ends.update(n - 1, x);
    lemma_gained_ext(start, ends, e2, n - 1);
    let k = start[n - 1].received().len() as int;
    assert(x.received().skip(k) =~= ends[n - 1].received().skip(k).push(message));
    assert(gained(start, e2, n) =~= gained(start, ends, n).push(message));
}

/// A listener that joins the ones in turn before being handed anything adds
/// nothing to what was gained.
proof fn lemma_gained_fresh<F: FnMut(String) -> W, W>(
    start: Seq<AsyncFunctionListener<F, W>>,
    ends: Seq<AsyncFunctionListener<F, W>>,
    x: AsyncFunctionListener<F, W>,
)
    requires
        ends.len() < start.len(),
        x.received() == start[ends.len() as int].received(),
    ensures
        gained(start, ends.push(x), ends.len() as int + 1) == gained(start, ends, ends.len() as int),
{
    let n = ends.len() as int;
    lemma_gained_ext(start, ends, ends.push(x), n);
    assert(x.received().skip(x.received().len() as int) =~= Seq::<String>::empty());
    assert(gained(start, ends.push(x), n + 1) =~= gained(start, ends, n));
}

/// A run in turn, followed by a step of the front listener that keeps it at
/// the front (a poll, or a poll and one more message), is a run in turn.
proof fn lemma_in_turn_front<F: FnMut(String) -> W, W>(
    listeners: Seq<AsyncFunctionListener<F, W>>,
    left: Seq<AsyncFunctionListener<F, W>>,
    handed: Seq<String>,
    p: StreamState<F, W>,
    q: StreamState<F, W>,
    added: Seq<String>,
)
    requires
        ran_in_turn(listeners, left, handed, p),
        p.listeners().len() > 0,
        q.listeners().len() == p.listeners().len(),
        q.left() == p.left(),
        added.len() <= 1,
        q.listeners()[0].origin() == p.listeners()[0].origin(),
        q.listeners()[0].received() == p.listeners()[0].received() + added,
        p.listeners()[0].polls() <= q.listeners()[0].polls(),
        q.handed() == p.handed() + added,
    ensures
        ran_in_turn(listeners, left, handed, q),
        fronts(q, left.len() as int).len() == fronts(p, left.len() as int).len(),
        fronts(q, left.len() as int)[0].polls() >= fronts(p, left.len() as int)[0].polls(),
{
    let l0 = left.len() as int;
    let ep = fronts(p, l0);
    let eq = fronts(q, l0);
    let n = ep.len() as int;
    assert(eq =~= ep.update(n - 1, q.listeners()[0]));
    let k = listeners[n - 1].received().len() as int;
    assert(continues(ep[n - 1], listeners[n - 1]));
    assert forall|i: int| 0 <= i < eq.len() implies continues(#[trigger] eq[i], listeners[i]) by {
        if i == n - 1 {
            assert(ep[n - 1] == p.listeners()[0]);
            assert(q.listeners()[0].received().take(k) =~= p.listeners()[0].received().take(k));
        } else {
            assert(eq[i] == ep[i]);
            assert(continues(ep[i], listeners[i]));
        }
    }
    if added.len() == 0 {
        assert(q.listeners()[0].received() =~= p.listeners()[0].received());
        lemma_gained_ext(listeners, ep, eq, n);
        assert(q.handed() =~= p.handed());
    } else {
        assert(q.listeners()[0].received() =~= p.listeners()[0].received().push(added[0]));
        lemma_gained_push(listeners, ep, added[0], q.listeners()[0]);
        assert(q.handed() =~= p.handed().push(added[0]));
        assert(handed + gained(listeners, eq, n) =~= (handed + gained(listeners, ep, n)).push(added[0]));
    }
}

/// A run in turn, followed by the front listener leaving and, maybe, the
/// next one being handed one message, is a run in turn.
proof fn lemma_in_turn_leave<F: FnMut(String) -> W, W>(
    listeners: Seq<AsyncFunctionListener<F, W>>,
    left: Seq<AsyncFunctionListener<F, W>>,
    handed: Seq<String>,
    p: StreamState<F, W>,
    q: StreamState<F, W>,
    added: Seq<String>,
)
    requires
        ran_in_turn(listeners, left, handed, p),
        p.listeners().len() > 0,
        p.listeners().len() > 1 ==> p.listeners().drop_first() == listeners.skip(
            listeners.len() - p.listeners().len() + 1,
        ),
        q.left() == p.left().push(p.listeners()[0]),
        q.listeners().len() + 1 == p.listeners().len(),
        added.len() <= 1,
        q.listeners().len() == 0 ==> added.len() == 0,
        q.listeners().len() > 0 ==> {
            &&& q.listeners()[0].origin() == p.listeners()[1].origin()
            &&& q.listeners()[0].received() == p.listeners()[1].received() + added
            &&& p.listeners()[1].polls() <= q.listeners()[0].polls()
        },
        q.handed() == p.handed() + added,
    ensures
        ran_in_turn(listeners, left, handed, q),
        fronts(q, left.len() as int).len() >= fronts(p, left.len() as int).len(),
        fronts(q, left.len() as int)[0] == fronts(p, left.len() as int)[0],
{
    let l0 = left.len() as int;
    let ep = fronts(p, l0);
    let eq = fronts(q, l0);
    let n = ep.len() as int;
    assert(q.left().skip(l0) =~= ep);
    assert(q.left().take(l0) =~= p.left().take(l0));
    if q.listeners().len() == 0 {
        assert(eq =~= ep);
        assert(q.handed() =~= p.handed());
    } else {
        let nx = q.listeners()[0];
        assert(eq =~= ep.push(nx));
        assert(p.listeners()[1] == listeners[n]) by {
            assert(p.listeners()[1] == p.listeners().drop_first()[0]);
        }
        let fresh = p.listeners()[1];
        assert(continues(fresh, listeners[n])) by {
            assert(fresh.received().take(fresh.received().len() as int) =~= fresh.received());
        }
        assert forall|i: int| 0 <= i < eq.len() implies continues(#[trigger] eq[i], listeners[i]) by {
            if i < n {
                assert(eq[i] == ep[i]);
                assert(continues(ep[i], listeners[i]));
            } else {
                let k = listeners[n].received().len() as int;
                assert(nx.received().take(k) =~= fresh.received().take(k));
            }
        }
        let mid = ep.push(fresh);
        lemma_gained_fresh(listeners, ep, fresh);
        if added.len() == 0 {
            assert(nx.received() =~= fresh.received());
            lemma_gained_ext(listeners, mid, eq, n + 1);
            assert(q.handed() =~= p.handed());
        } else {
            assert(nx.received() =~= fresh.received().push(added[0]));
            assert(mid.update(n, nx) =~= eq);
            lemma_gained_push(listeners, mid, added[0], nx);
            assert(q.handed() =~= p.handed().push(added[0]));
            assert(handed + gained(listeners, eq, n + 1) =~= (handed + gained(listeners, ep, n)).push(
                added[0],
            ));
        }
    }
}

/// A channel that did not run at all ran in turn from where it is.
proof fn lemma_in_turn_still<F: FnMut(String) -> W, W>(state: StreamState<F, W>)
    ensures
        ran_in_turn(state.listeners(), state.left(), state.handed(), state),
{
    let l0 = state.left().len() as int;
    let ends = fronts(state, l0);
    assert(state.left().skip(l0) =~= Seq::<AsyncFunctionListener<F, W>>::empty());
    assert(state.left().take(l0) =~= state.left());
    assert forall|i: int| 0 <= i < ends.len() implies continues(#[trigger] ends[i], state.listeners()[i]) by {
        let r = state.listeners()[0].received();
        assert(r.take(r.len() as int) =~= r);
    }
    if ends.len() > 0 {
        assert(ends[0].received().skip(ends[0].received().len() as int) =~= Seq::<String>::empty());
        assert(gained(state.listeners(), ends, 0) == Seq::<String>::empty());
    }
    assert(state.handed() + gained(state.listeners(), ends, ends.len() as int) =~= state.handed());
}
} // verus!
