//! Bounded transfer channels between the threads of the engine.
//!
//! The queues themselves are `crossbeam` channels. Each endpoint here wraps
//! one side of a queue and keeps, as ghost state, the history of what went
//! through it, so that the contracts of the application can say which
//! messages were offered and which were taken, and in which order.
use vstd::prelude::*;
use crossbeam::channel::{Receiver, Sender, TryRecvError, TrySendError};
use crate::events::{CaptureFrame, EngineEvent, HostEvent, HostEventView, ScriptEvent, ScriptEventView};

verus! {

/// `crossbeam::channel::Sender`, carried as it is.
#[verifier::external_type_specification]
#[verifier::external_body]
#[verifier::reject_recursive_types(T)]
pub struct ExSender<T>(Sender<T>);

/// `crossbeam::channel::Receiver`, carried as it is.
#[verifier::external_type_specification]
#[verifier::external_body]
#[verifier::reject_recursive_types(T)]
pub struct ExReceiver<T>(Receiver<T>);

/// Slots of the queue from the device thread to the application.
pub const CAPTURE_SLOTS: usize = 100;

/// Slots of the queue from the application to the script worker.
pub const HOST_SLOTS: usize = 1000;

/// Slots of the queue from the script worker to the application.
pub const SCRIPT_SLOTS: usize = 1000;

/// Slots of the queue on which the script worker reports its own life.
pub const ENGINE_SLOTS: usize = 16;

/// Largest queue that [`channel`] makes.
pub const MAX_SLOTS: usize = 65536;

/// How a non-blocking send ended. A message that was not taken comes back.
pub enum Offer<T> {
    Sent,
    Full(T),
    Disconnected(T),
}

/// What became of a message that was offered to a queue.
#[derive(Clone, Copy, Debug, PartialEq, Eq, Structural)]
pub enum Fate {
    /// The queue took it.
    Taken,
    /// The queue was full.
    Full,
    /// The other end of the queue is gone.
    Gone,
}

/// What became of the message of an offer that ended as `offer` did.
pub open spec fn fate_of<T>(offer: Offer<T>) -> Fate {
    match offer {
        Offer::Sent => Fate::Taken,
        Offer::Full(_) => Fate::Full,
        Offer::Disconnected(_) => Fate::Gone,
    }
}

/// Calls `crossbeam::channel::bounded`. It panics when the capacity is too
/// large for its index arithmetic, and the allocation of its slots panics
/// when they take more bytes than an allocation may have, which depends on
/// the size of a message. The bound keeps far away from the first and, for
/// messages of ordinary size, from the second.
#[verifier::external_body]
fn bounded<T>(slots: usize) -> (ends: (Sender<T>, Receiver<T>))
    requires
        slots <= MAX_SLOTS,
{
    crossbeam::channel::bounded(slots)
}

/// Calls `Sender::try_send`. Whether the queue takes the message depends on
/// the other thread; what is claimed is that a refused message is handed
/// back as it was given.
#[verifier::external_body]
fn try_send<T>(tx: &Sender<T>, msg: T) -> (offer: Offer<T>)
    ensures
        offer matches Offer::Full(m) ==> m == msg,
        offer matches Offer::Disconnected(m) ==> m == msg,
{
    match tx.try_send(msg) {
        Ok(()) => Offer::Sent,
        Err(TrySendError::Full(m)) => Offer::Full(m),
        Err(TrySendError::Disconnected(m)) => Offer::Disconnected(m),
    }
}

/// Calls `Receiver::try_recv`. `None` stands for a queue that is empty or
/// disconnected; nothing is claimed of what arrives.
#[verifier::external_body]
pub(crate) fn try_recv<T>(rx: &Receiver<T>) -> Option<T> {
    match rx.try_recv() {
        Ok(msg) => Some(msg),
        Err(TryRecvError::Empty) => None,
        Err(TryRecvError::Disconnected) => None,
    }
}

/// Calls `Receiver::recv`, which blocks until a message arrives or the last
/// sender is gone. `None` stands for a queue that is empty and disconnected;
/// nothing is claimed of what arrives.
#[verifier::external_body]
fn recv<T>(rx: &Receiver<T>) -> Option<T> {
    rx.recv().ok()
}

/// Calls `Sender::clone`: one more handle on the sending side of the queue.
#[verifier::external_body]
fn another_sender<T>(tx: &Sender<T>) -> Sender<T> {
    tx.clone()
}

/// What was added to a record between two moments.
pub open spec fn added<A>(before: Seq<A>, after: Seq<A>) -> Seq<A> {
    after.skip(before.len() as int)
}

/// Whether a record only grew between two moments.
pub open spec fn grew<A>(before: Seq<A>, after: Seq<A>) -> bool {
    before.len() <= after.len() && after.take(before.len() as int) == before
}

/// A record that grew twice grew by the two additions, one after the other.
pub proof fn lemma_grew_twice<A>(a: Seq<A>, b: Seq<A>, c: Seq<A>)
    requires
        grew(a, b),
        grew(b, c),
    ensures
        grew(a, c),
        added(a, c) == added(a, b) + added(b, c),
{
    assert forall|i: int| 0 <= i < b.len() implies c[i] == b[i] by {
        assert(c.take(b.len() as int)[i] == b[i]);
    }
    assert forall|i: int| 0 <= i < a.len() implies b[i] == a[i] by {
        assert(b.take(a.len() as int)[i] == a[i]);
    }
    assert(c.take(a.len() as int) =~= a);
    assert(added(a, c) =~= added(a, b) + added(b, c));
}

/// A record that was extended grew by the extension.
pub proof fn lemma_grew_by<A>(a: Seq<A>, more: Seq<A>)
    ensures
        grew(a, a + more),
        added(a, a + more) == more,
{
    assert((a + more).take(a.len() as int) =~= a);
    assert(added(a, a + more) =~= more);
}

/// A record that did not change grew by nothing.
pub proof fn lemma_grew_not<A>(a: Seq<A>)
    ensures
        grew(a, a),
        added(a, a) == Seq::<A>::empty(),
{
    assert(a.take(a.len() as int) =~= a);
    assert(added(a, a) =~= Seq::<A>::empty());
}

/// Sending side of a queue.
#[verifier::reject_recursive_types(T)]
pub struct Outbox<T: View> {
    tx: Sender<T>,
    offered: Ghost<Seq<T::V>>,
    accepted: Ghost<Seq<T::V>>,
    fates: Ghost<Seq<Fate>>,
}

/// Receiving side of a queue.
#[verifier::reject_recursive_types(T)]
pub struct Inbox<T: View> {
    rx: Receiver<T>,
    answers: Ghost<Seq<Option<T::V>>>,
}

/// The messages among the answers of a queue, in their order. An answer is
/// a message, or nothing where the queue had none to give.
pub open spec fn messages_of<V>(answers: Seq<Option<V>>) -> Seq<V>
    decreases answers.len(),
{
    if answers.len() == 0 {
        Seq::empty()
    } else {
        match answers.last() {
            Some(message) => messages_of(answers.drop_last()).push(message),
            None => messages_of(answers.drop_last()),
        }
    }
}

/// The answer that handing out `message` records.
pub open spec fn answer_of<T: View>(message: Option<T>) -> Option<T::V> {
    match message {
        Some(m) => Some(m@),
        None => None,
    }
}

/// The answers that a queue gave while `items` were taken from it one after
/// the other: each item, and at the end nothing if the queue ran dry.
pub open spec fn drained<V>(items: Seq<V>, ran_dry: bool) -> Seq<Option<V>> {
    let taken = Seq::new(items.len(), |i: int| Some(items[i]));
    if ran_dry {
        taken.push(None)
    } else {
        taken
    }
}

/// Whether a pump that took `taken` of at most `budget` items, and was or
/// was not ended by the last of them, was answered nothing in the end.
pub open spec fn ran_dry(taken: nat, budget: nat, ended: bool) -> bool {
    taken < budget && !ended
}

/// One more answer adds its message, if it is one, to the messages.
pub proof fn lemma_messages_of_push<V>(answers: Seq<Option<V>>, answer: Option<V>)
    ensures
        messages_of(answers.push(answer)) == match answer {
            Some(message) => messages_of(answers).push(message),
            None => messages_of(answers),
        },
{
    assert(answers.push(answer).drop_last() =~= answers);
}

/// The messages among two runs of answers are those of the first and then
/// those of the second.
pub proof fn lemma_messages_of_concat<V>(first: Seq<Option<V>>, second: Seq<Option<V>>)
    ensures
        messages_of(first + second) == messages_of(first) + messages_of(second),
    decreases second.len(),
{
    if second.len() == 0 {
        assert(first + second =~= first);
        assert(messages_of(first) + messages_of(second) =~= messages_of(first));
    } else {
        lemma_messages_of_concat(first, second.drop_last());
        assert((first + second).drop_last() =~= first + second.drop_last());
        assert((first + second).last() == second.last());
        match second.last() {
            Some(message) => {
                assert(messages_of(first) + messages_of(second) =~= (messages_of(first)
                    + messages_of(second.drop_last())).push(message));
            },
            None => {},
        }
    }
}

/// The messages among the answers of a drain are the items that it took.
pub proof fn lemma_messages_of_drained<V>(answers: Seq<Option<V>>, items: Seq<V>, ran_dry: bool)
    ensures
        messages_of(answers + drained(items, ran_dry)) == messages_of(answers) + items,
    decreases items.len(),
        if ran_dry {
            1nat
        } else {
            0nat
        },
{
    if ran_dry {
        lemma_messages_of_drained(answers, items, false);
        assert(answers + drained(items, true) =~= (answers + drained(items, false)).push(None));
        lemma_messages_of_push(answers + drained(items, false), None);
    } else if items.len() == 0 {
        assert(answers + drained(items, false) =~= answers);
        assert(messages_of(answers) + items =~= messages_of(answers));
    } else {
        let front = items.drop_last();
        lemma_messages_of_drained(answers, front, false);
        assert(answers + drained(items, false) =~= (answers + drained(front, false)).push(
            Some(items.last()),
        ));
        lemma_messages_of_push(answers + drained(front, false), Some(items.last()));
        assert(messages_of(answers) + items =~= (messages_of(answers) + front).push(items.last()));
    }
}

/// The views of a run of items.
pub open spec fn views<T: View>(items: Seq<T>) -> Seq<T::V> {
    Seq::new(items.len(), |i: int| items[i]@)
}

/// A queue of `slots` slots, as its two ends. No queue is made larger than
/// [`MAX_SLOTS`]: where more slots are asked for, that many are given.
pub fn channel<T: View>(slots: usize) -> (ends: (Outbox<T>, Inbox<T>))
    ensures
        ends.0.offered() == Seq::<T::V>::empty(),
        ends.0.accepted() == Seq::<T::V>::empty(),
        ends.0.fates() == Seq::<Fate>::empty(),
        ends.1.answers() == Seq::<Option<T::V>>::empty(),
        ends.1.received() == Seq::<T::V>::empty(),
{
    let (tx, rx) = if slots <= MAX_SLOTS {
        bounded(slots)
    } else {
        bounded(MAX_SLOTS)
    };
    (
        Outbox {
            tx,
            offered: Ghost(Seq::empty()),
            accepted: Ghost(Seq::empty()),
            fates: Ghost(Seq::empty()),
        },
        Inbox { rx, answers: Ghost(Seq::empty()) },
    )
}

impl<T: View> Outbox<T> {
    /// Everything that was offered through this handle, oldest first.
    pub closed spec fn offered(&self) -> Seq<T::V> {
        self.offered@
    }

    /// What the queue took of it, oldest first.
    pub closed spec fn accepted(&self) -> Seq<T::V> {
        self.accepted@
    }

    /// What became of each message that was offered, in the order of the
    /// offers.
    pub closed spec fn fates(&self) -> Seq<Fate> {
        self.fates@
    }

    /// Makes one attempt to put `msg` in the queue and returns at once.
    pub fn offer(&mut self, msg: T) -> (offer: Offer<T>)
        ensures
            final(self).offered() == old(self).offered().push(msg@),
            final(self).fates() == old(self).fates().push(fate_of(offer)),
            final(self).accepted() == if offer is Sent {
                old(self).accepted().push(msg@)
            } else {
                old(self).accepted()
            },
            offer matches Offer::Full(m) ==> m == msg,
            offer matches Offer::Disconnected(m) ==> m == msg,
    {
        let ghost view = msg@;
        let offer = try_send(&self.tx, msg);
        self.offered = Ghost(self.offered@.push(view));
        self.fates = Ghost(self.fates@.push(fate_of(offer)));
        if let Offer::Sent = offer {
            self.accepted = Ghost(self.accepted@.push(view));
        }
        offer
    }

    /// Another handle on the same queue, with a history of its own.
    pub fn handle(&self) -> (other: Outbox<T>)
        ensures
            other.offered() == Seq::<T::V>::empty(),
            other.accepted() == Seq::<T::V>::empty(),
            other.fates() == Seq::<Fate>::empty(),
    {
        Outbox {
            tx: another_sender(&self.tx),
            offered: Ghost(Seq::empty()),
            accepted: Ghost(Seq::empty()),
            fates: Ghost(Seq::empty()),
        }
    }
}

impl<T: View> Inbox<T> {
    /// Every answer that the queue gave through this end, oldest first: a
    /// message, or nothing where it had none to give.
    pub closed spec fn answers(&self) -> Seq<Option<T::V>> {
        self.answers@
    }

    /// Everything that was taken through this end, oldest first.
    pub closed spec fn received(&self) -> Seq<T::V> {
        messages_of(self.answers@)
    }

    /// What was taken is the messages among the answers.
    pub proof fn lemma_received(&self)
        ensures
            self.received() == messages_of(self.answers()),
    {
    }

    /// Asks the queue once, without blocking, and hands out its answer: the
    /// next message if one is waiting.
    pub fn poll(&mut self) -> (msg: Option<T>)
        ensures
            final(self).answers() == old(self).answers().push(answer_of(msg)),
            final(self).received() == match msg {
                Some(m) => old(self).received().push(m@),
                None => old(self).received(),
            },
    {
        let msg = try_recv(&self.rx);
        let ghost answer = answer_of(msg);
        proof {
            lemma_messages_of_push(self.answers@, answer);
        }
        self.answers = Ghost(self.answers@.push(answer));
        msg
    }

    /// Asks the queue once and waits for its answer: the next message, or
    /// nothing once no message waits and every sender is gone, so that none
    /// will come.
    pub fn wait(&mut self) -> (msg: Option<T>)
        ensures
            final(self).answers() == old(self).answers().push(answer_of(msg)),
            final(self).received() == match msg {
                Some(m) => old(self).received().push(m@),
                None => old(self).received(),
            },
    {
        let msg = recv(&self.rx);
        let ghost answer = answer_of(msg);
        proof {
            lemma_messages_of_push(self.answers@, answer);
        }
        self.answers = Ghost(self.answers@.push(answer));
        msg
    }

    /// Takes what is waiting, oldest first and without blocking: the queue is
    /// asked until it has nothing to give or `budget` messages are taken. A
    /// drain that hands out fewer than `budget` messages has seen the queue
    /// empty behind the last of them.
    pub fn drain(&mut self, budget: usize) -> (items: Vec<T>)
        ensures
            items.len() <= budget,
            final(self).answers() == old(self).answers() + drained(
                views(items@),
                items.len() < budget,
            ),
            final(self).received() == old(self).received() + views(items@),
    {
        let mut items: Vec<T> = Vec::new();
        let mut left: usize = budget;
        let ghost mut dry = false;
        assert(self.answers() =~= old(self).answers() + drained(views(items@), false));
        while left > 0
            invariant
                items.len() + left <= budget,
                dry ==> left == 0 && items.len() < budget,
                !dry ==> items.len() + left == budget,
                self.answers() == old(self).answers() + drained(views(items@), dry),
            decreases left,
        {
            let ghost taken = views(items@);
            match self.poll() {
                Some(m) => {
                    items.push(m);
                    assert(views(items@) =~= taken.push(m@));
                    assert(self.answers() =~= old(self).answers() + drained(views(items@), false));
                    left = left - 1;
                },
                None => {
                    proof {
                        dry = true;
                    }
                    assert(self.answers() =~= old(self).answers() + drained(views(items@), true));
                    left = 0;
                },
            }
        }
        proof {
            lemma_messages_of_drained(old(self).answers(), views(items@), dry);
        }
        items
    }
}

/// What the queue has accepted after `frames` were offered to it one after
/// the other, where `kept` says of each whether the queue took it.
pub open spec fn retained<V>(accepted: Seq<V>, frames: Seq<V>, kept: Seq<bool>) -> Seq<V>
    decreases frames.len(),
{
    if frames.len() == 0 || kept.len() != frames.len() {
        accepted
    } else {
        let before = retained(accepted, frames.drop_last(), kept.drop_last());
        if kept.last() {
            before.push(frames.last())
        } else {
            before
        }
    }
}

/// Overflow drops the newest: when a producer offers more frames than the
/// queue takes while nobody empties it, so that the queue takes the first
/// `room` of them and refuses the rest, what the queue holds in the end is
/// what it held and those first frames in their order. None of the frames
/// that came too late has displaced an older one.
pub proof fn lemma_overflow_drops_the_newest<V>(
    accepted: Seq<V>,
    frames: Seq<V>,
    kept: Seq<bool>,
    room: int,
)
    requires
        kept.len() == frames.len(),
        0 <= room <= frames.len(),
        forall|i: int| 0 <= i < kept.len() ==> kept[i] == (i < room),
    ensures
        retained(accepted, frames, kept) == accepted + frames.take(room),
    decreases frames.len(),
{
    if frames.len() == 0 {
        assert(accepted + frames.take(room) =~= accepted);
    } else {
        let front = frames.drop_last();
        let front_kept = kept.drop_last();
        let last = frames.len() - 1;
        if room == frames.len() {
            lemma_overflow_drops_the_newest(accepted, front, front_kept, room - 1);
            assert(kept[last]);
            assert(accepted + frames.take(room) =~= (accepted + front.take(room - 1)).push(
                frames.last(),
            ));
        } else {
            lemma_overflow_drops_the_newest(accepted, front, front_kept, room);
            assert(!kept[last]);
            assert(frames.take(room) =~= front.take(room));
        }
    }
}

/// The end of the capture queue that lives on the device thread.
///
/// The device callback may not block, so a frame that finds the queue full is
/// dropped: the queue keeps what it already holds and the newest frame is the
/// one that is lost.
pub struct CaptureProducer {
    out: Outbox<CaptureFrame>,
    lost: u64,
}

/// The capture queue: the producer's end and the application's end.
pub fn capture_channel() -> (ends: (CaptureProducer, Inbox<CaptureFrame>))
    ensures
        ends.0.offered() == Seq::<crate::events::FrameView>::empty(),
        ends.0.accepted() == Seq::<crate::events::FrameView>::empty(),
        ends.0.dropped() == 0,
        ends.1.answers() == Seq::<Option<crate::events::FrameView>>::empty(),
        ends.1.received() == Seq::<crate::events::FrameView>::empty(),
{
    let (out, inbox) = channel::<CaptureFrame>(CAPTURE_SLOTS);
    (CaptureProducer { out, lost: 0 }, inbox)
}

impl CaptureProducer {
    pub closed spec fn offered(&self) -> Seq<crate::events::FrameView> {
        self.out.offered()
    }

    pub closed spec fn accepted(&self) -> Seq<crate::events::FrameView> {
        self.out.accepted()
    }

    /// Frames lost so far; the count stops at `u64::MAX`.
    pub closed spec fn dropped(&self) -> nat {
        self.lost as nat
    }

    /// Makes one non-blocking attempt to queue `frame`. Returns whether the
    /// queue took it; a frame that was not taken is dropped and counted.
    pub fn push(&mut self, frame: CaptureFrame) -> (kept: bool)
        ensures
            final(self).offered() == old(self).offered().push(frame@),
            final(self).accepted() == retained(old(self).accepted(), seq![frame@], seq![kept]),
            final(self).accepted() == if kept {
                old(self).accepted().push(frame@)
            } else {
                old(self).accepted()
            },
            final(self).dropped() == if kept || old(self).dropped() == u64::MAX {
                old(self).dropped()
            } else {
                old(self).dropped() + 1
            },
    {
        proof {
            reveal_with_fuel(retained, 2);
            assert(seq![frame@].drop_last() =~= Seq::<crate::events::FrameView>::empty());
            assert(seq![true].drop_last() =~= Seq::<bool>::empty());
            assert(seq![false].drop_last() =~= Seq::<bool>::empty());
        }
        match self.out.offer(frame) {
            Offer::Sent => true,
            _ => {
                if self.lost < u64::MAX {
                    self.lost = self.lost + 1;
                }
                false
            },
        }
    }

    /// Makes one non-blocking attempt to queue `frame`, and hands the frame
    /// back if the queue did not take it, so that its buffers can be used
    /// again. A frame that comes back is counted as lost.
    pub fn offer(&mut self, frame: CaptureFrame) -> (back: Option<CaptureFrame>)
        ensures
            back matches Some(f) ==> f == frame,
            final(self).offered() == old(self).offered().push(frame@),
            final(self).accepted() == if back is None {
                old(self).accepted().push(frame@)
            } else {
                old(self).accepted()
            },
            final(self).dropped() == if back is None || old(self).dropped() == u64::MAX {
                old(self).dropped()
            } else {
                old(self).dropped() + 1
            },
    {
        match self.out.offer(frame) {
            Offer::Sent => None,
            Offer::Full(frame) => {
                if self.lost < u64::MAX {
                    self.lost = self.lost + 1;
                }
                Some(frame)
            },
            Offer::Disconnected(frame) => {
                if self.lost < u64::MAX {
                    self.lost = self.lost + 1;
                }
                Some(frame)
            },
        }
    }

    pub fn lost(&self) -> (lost: u64)
        ensures
            lost == self.dropped(),
    {
        self.lost
    }

    /// Another producer on the same queue, with a history and a count of its
    /// own.
    pub fn handle(&self) -> (other: CaptureProducer)
        ensures
            other.offered() == Seq::<crate::events::FrameView>::empty(),
            other.accepted() == Seq::<crate::events::FrameView>::empty(),
            other.dropped() == 0,
    {
        CaptureProducer { out: self.out.handle(), lost: 0 }
    }
}

/// How an event for the script worker fared.
#[derive(Clone, Copy, Debug, PartialEq, Eq, Structural)]
pub enum Delivery {
    /// The queue took it.
    Sent,
    /// The queue was full or the worker is gone; the event is lost.
    Dropped,
    /// The link was closed before; the event was not offered.
    Closed,
}

/// The application's end of the queue to the script worker.
///
/// Once the queue has taken `Terminate`, or the worker is known to be dead,
/// the link is closed and offers nothing more.
pub struct HostLink {
    out: Outbox<HostEvent>,
    closed: bool,
}

impl HostLink {
    pub closed spec fn offered(&self) -> Seq<HostEventView> {
        self.out.offered()
    }

    pub closed spec fn accepted(&self) -> Seq<HostEventView> {
        self.out.accepted()
    }

    pub closed spec fn is_closed(&self) -> bool {
        self.closed
    }

    /// `Terminate` is the last event that the queue ever takes, and the link
    /// is closed from then on.
    pub open spec fn wf(&self) -> bool {
        forall|i: int|
            0 <= i < self.accepted().len() && #[trigger] self.accepted()[i] is Terminate ==> i
                == self.accepted().len() - 1 && self.is_closed()
    }

    pub fn new(out: Outbox<HostEvent>) -> (link: Self)
        requires
            out.accepted() == Seq::<HostEventView>::empty(),
        ensures
            link.wf(),
            !link.is_closed(),
            link.offered() == out.offered(),
            link.accepted() == out.accepted(),
    {
        HostLink { out, closed: false }
    }

    pub fn closed(&self) -> (closed: bool)
        ensures
            closed == self.is_closed(),
    {
        self.closed
    }

    /// Offers `event` to the worker unless the link is closed. Never blocks.
    pub fn offer(&mut self, event: HostEvent) -> (delivery: Delivery)
        requires
            old(self).wf(),
        ensures
            final(self).wf(),
            old(self).is_closed() ==> delivery == Delivery::Closed && final(self).is_closed()
                && final(self).offered() == old(self).offered() && final(self).accepted() == old(
                self,
            ).accepted(),
            !old(self).is_closed() ==> delivery != Delivery::Closed && final(self).offered() == old(
                self,
            ).offered().push(event@) && final(self).accepted() == (if delivery == Delivery::Sent {
                old(self).accepted().push(event@)
            } else {
                old(self).accepted()
            }) && final(self).is_closed() == (delivery == Delivery::Sent && event@ is Terminate),
    {
        if self.closed {
            return Delivery::Closed;
        }
        let last = match &event {
            HostEvent::Terminate => true,
            _ => false,
        };
        match self.out.offer(event) {
            Offer::Sent => {
                if last {
                    self.closed = true;
                }
                Delivery::Sent
            },
            _ => Delivery::Dropped,
        }
    }

    /// Closes the link without a word to the worker.
    pub fn close(&mut self)
        requires
            old(self).wf(),
        ensures
            final(self).wf(),
            final(self).is_closed(),
            final(self).offered() == old(self).offered(),
            final(self).accepted() == old(self).accepted(),
    {
        self.closed = true;
    }
}

/// The worker's ends of the queues between the application and the worker.
pub struct WorkerEnds {
    pub host: Inbox<HostEvent>,
    pub scripts: Outbox<ScriptEvent>,
    pub engine: Outbox<EngineEvent>,
}

/// The application's ends of the queues between the application and the
/// worker.
pub struct HostEnds {
    pub host: HostLink,
    pub scripts: Inbox<ScriptEvent>,
    pub engine: Inbox<EngineEvent>,
}

/// The three queues between the application and the script worker, fresh and
/// empty, as the ends of each side.
pub fn engine_channels() -> (ends: (HostEnds, WorkerEnds))
    ensures
        ends.0.host.wf(),
        !ends.0.host.is_closed(),
        ends.0.host.offered() == Seq::<HostEventView>::empty(),
        ends.0.host.accepted() == Seq::<HostEventView>::empty(),
        ends.0.scripts.answers() == Seq::<Option<ScriptEventView>>::empty(),
        ends.0.scripts.received() == Seq::<ScriptEventView>::empty(),
        ends.0.engine.answers() == Seq::<Option<EngineEvent>>::empty(),
        ends.0.engine.received() == Seq::<EngineEvent>::empty(),
        ends.1.host.answers() == Seq::<Option<HostEventView>>::empty(),
        ends.1.host.received() == Seq::<HostEventView>::empty(),
        ends.1.scripts.offered() == Seq::<ScriptEventView>::empty(),
        ends.1.scripts.accepted() == Seq::<ScriptEventView>::empty(),
        ends.1.engine.offered() == Seq::<EngineEvent>::empty(),
        ends.1.engine.accepted() == Seq::<EngineEvent>::empty(),
{
    let (host_out, host_in) = channel::<HostEvent>(HOST_SLOTS);
    let (script_out, script_in) = channel::<ScriptEvent>(SCRIPT_SLOTS);
    let (engine_out, engine_in) = channel::<EngineEvent>(ENGINE_SLOTS);
    (
        HostEnds { host: HostLink::new(host_out), scripts: script_in, engine: engine_in },
        WorkerEnds { host: host_in, scripts: script_out, engine: engine_out },
    )
}

} // verus!
