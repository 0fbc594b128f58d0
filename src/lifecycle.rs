//! What a connection's inbound loop does with each thing its transport yields.

use crate::history::bounded_push;
use crate::relay::Relay;
use vstd::prelude::*;

verus! {

/// One result of reading from a connection's transport.
pub enum Inbound {
    /// A text frame.
    Text(String),
    /// A frame that holds no text (binary, ping, and the like).
    Other,
    /// The read failed; the connection is finished.
    ReadFailed,
    /// The transport reported that the connection closed.
    Closed,
}

/// What became of one inbound event.
pub enum Outcome {
    /// The text was broadcast; these identities' queues refused it.
    Relayed(Vec<u128>),
    /// The frame held no text and was dropped.
    Dropped,
    /// The connection was deregistered; its inbound loop ends here.
    Ended,
}

impl Outcome {
    pub open spec fn ends(self) -> bool {
        self matches Outcome::Ended
    }

    /// Whether the inbound loop stops after this outcome.
    pub fn is_end(&self) -> (r: bool)
        ensures
            r == self.ends(),
    {
        matches!(self, Outcome::Ended)
    }
}

impl Relay {
    /// Handles one event of connection `id`'s inbound loop: a text is
    /// broadcast, a frame without text is dropped, and a failed read or a
    /// closure deregisters the connection and ends the loop.
    pub fn receive(&mut self, id: u128, event: Inbound) -> (r: Outcome)
        requires
            old(self).wf(),
        ensures
            final(self).wf(),
            final(self).limit() == old(self).limit(),
            match event {
                Inbound::Text(t) => {
                    &&& r matches Outcome::Relayed(refused)
                    &&& forall|i: int| 0 <= i < refused@.len() ==> old(self).queues().contains_key(
                        #[trigger] refused@[i],
                    )
                    &&& final(self).broadcasts() == old(self).broadcasts().push(t@)
                    &&& final(self).history() == bounded_push(
                        old(self).history(),
                        t@,
                        old(self).limit(),
                    )
                    &&& final(self).queues().dom() == old(self).queues().dom()
                    &&& forall|k: u128| #[trigger]
                        final(self).queues().contains_key(k) ==> final(self).queues()[k]
                            == old(self).queues()[k].push(t@)
                },
                Inbound::Other => {
                    &&& r matches Outcome::Dropped
                    &&& final(self).broadcasts() == old(self).broadcasts()
                    &&& final(self).history() == old(self).history()
                    &&& final(self).queues() == old(self).queues()
                },
                _ => {
                    &&& r matches Outcome::Ended
                    &&& final(self).broadcasts() == old(self).broadcasts()
                    &&& final(self).history() == old(self).history()
                    &&& final(self).queues() == old(self).queues().remove(id)
                },
            },
    {
        match event {
            Inbound::Text(text) => Outcome::Relayed(self.broadcast(text)),
            Inbound::Other => Outcome::Dropped,
            Inbound::ReadFailed | Inbound::Closed => {
                self.leave(id);
                Outcome::Ended
            },
        }
    }
}

} // verus!
