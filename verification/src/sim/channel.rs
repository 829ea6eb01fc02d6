//! The two message queues between the foreground and the background.
//!
//! Each end of a queue is held together with a record of what this end
//! has handed to the queue, or taken from it, so far.  The record says
//! nothing of what the queue holds: that depends on the other end.
use vstd::prelude::*;

verus! {

/// `flume::Sender`, which the verifier carries as an opaque value.
#[verifier::external_type_specification]
#[verifier::external_body]
#[verifier::reject_recursive_types(T)]
pub struct ExSender<T>(flume::Sender<T>);

/// `flume::Receiver`, which the verifier carries as an opaque value.
#[verifier::external_type_specification]
#[verifier::external_body]
#[verifier::reject_recursive_types(T)]
pub struct ExReceiver<T>(flume::Receiver<T>);

/// `flume::Sender::try_send`, its result dropped: when every receiver is
/// gone, or a bounded queue is full, the message is lost, and nobody is
/// told.  The call never waits.  Nothing is claimed of the queue.
#[verifier::external_body]
fn send_or_drop<M>(tx: &flume::Sender<M>, message: M) {
    let _ = tx.try_send(message);
}

/// `flume::Receiver::drain`: the messages that sit in the queue at the
/// moment of the call, oldest first, none of them left behind.  It does
/// not wait.  What they are depends on the other end, so nothing is
/// claimed of them.
#[verifier::external_body]
fn take_pending<M>(rx: &flume::Receiver<M>) -> Vec<M> {
    rx.drain().collect()
}

/// The sending end of a queue, and what has been offered to the queue
/// through it.
#[verifier::reject_recursive_types(M)]
pub struct Outbox<M> {
    tx: flume::Sender<M>,
    offered: Ghost<Seq<M>>,
}

/// The receiving end of a queue, and what has been taken from the queue
/// through it.
#[verifier::reject_recursive_types(M)]
pub struct Inbox<M> {
    rx: flume::Receiver<M>,
    taken: Ghost<Seq<M>>,
}

impl<M> Outbox<M> {
    /// The messages offered so far, first to last.
    pub closed spec fn offered(&self) -> Seq<M> {
        self.offered@
    }

    /// An outbox through which nothing has been offered yet.
    pub fn new(tx: flume::Sender<M>) -> (r: Self)
        ensures
            r.offered() == Seq::<M>::empty(),
    {
        Outbox { tx, offered: Ghost(Seq::empty()) }
    }

    /// Offers `message` to the queue.  The queue takes it unless the
    /// other end is gone or the queue is full; the caller is not told,
    /// and never waits.
    pub fn offer(&mut self, message: M)
        ensures
            final(self).offered() == old(self).offered().push(message),
    {
        self.offered = Ghost(self.offered@.push(message));
        send_or_drop(&self.tx, message);
    }
}

impl<M> Inbox<M> {
    /// The messages taken so far, first to last.
    pub closed spec fn taken(&self) -> Seq<M> {
        self.taken@
    }

    /// An inbox through which nothing has been taken yet.
    pub fn new(rx: flume::Receiver<M>) -> (r: Self)
        ensures
            r.taken() == Seq::<M>::empty(),
    {
        Inbox { rx, taken: Ghost(Seq::empty()) }
    }

    /// Takes every message that waits in the queue, oldest first.  It
    /// does not wait: from an empty queue it takes nothing.
    pub fn take(&mut self) -> (r: Vec<M>)
        ensures
            final(self).taken() == old(self).taken() + r@,
    {
        let r = take_pending(&self.rx);
        self.taken = Ghost(self.taken@ + r@);
        r
    }
}

} // verus!
