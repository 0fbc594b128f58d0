//! The sending half of one connection's delivery queue.
//!
//! What a queue does with a message is invisible here, so an `Outbox` keeps,
//! as ghost state, the sequence of texts handed to its queue. Only
//! `offer_text`, which makes the send, extends that record.

use tokio::sync::mpsc::UnboundedSender;
use vstd::prelude::*;
use warp::ws::Message;

verus! {

#[verifier::external_type_specification]
#[verifier::external_body]
#[verifier::reject_recursive_types(T)]
pub struct ExUnboundedSender<T>(UnboundedSender<T>);

#[verifier::external_type_specification]
#[verifier::external_body]
pub struct ExMessage(Message);

/// The sending half of an unbounded delivery queue, with the texts handed to
/// it so far.
pub struct Outbox {
    tx: UnboundedSender<Message>,
    sent: Ghost<Seq<Seq<char>>>,
}

impl View for Outbox {
    type V = Seq<Seq<char>>;

    /// The texts handed to this queue so far, in order.
    closed spec fn view(&self) -> Seq<Seq<char>> {
        self.sent@
    }
}

impl Outbox {
    /// An outbox over `tx`, to which nothing has been handed yet.
    pub fn new(tx: UnboundedSender<Message>) -> (r: Outbox)
        ensures
            r@ == Seq::<Seq<char>>::empty(),
    {
        Outbox { tx, sent: Ghost(Seq::empty()) }
    }
}

/// Relies on `warp::ws::Message::text` to make a text frame of `text`, and on
/// `tokio::sync::mpsc::UnboundedSender::send`, which hands it to the queue
/// without waiting and refuses it only when the receiving half has been closed
/// or dropped. The text is recorded as handed over either way.
#[verifier::external_body]
pub fn offer_text(out: &mut Outbox, text: &str) -> (accepted: bool)
    ensures
        final(out)@ == old(out)@.push(text@),
{
    out.tx.send(Message::text(text)).is_ok()
}

} // verus!
