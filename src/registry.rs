//! Connection handles and the registry that fans a message out to all of them.
//!
//! Each handle's `Outbox` records the texts handed to its queue; the contracts
//! here speak of those records.

use crate::history::History;
use crate::outbox::{offer_text, Outbox};
use std::collections::HashMap;
use tokio::sync::mpsc::UnboundedSender;
use vstd::prelude::*;
use warp::ws::Message;

verus! {

broadcast use vstd::std_specs::hash::group_hash_axioms;

/// Relies on `uuid::Uuid::new_v4`, a random identifier, read as its 128-bit value.
#[verifier::external_body]
fn fresh_identity() -> (id: u128) {
    uuid::Uuid::new_v4().as_u128()
}

/// One connection's outbound side: its identity and the sending half of its
/// unbounded delivery queue.
pub struct Connection {
    id: u128,
    out: Outbox,
}

impl View for Connection {
    type V = Seq<Seq<char>>;

    /// The texts offered to this connection's queue so far, in order.
    closed spec fn view(&self) -> Seq<Seq<char>> {
        self.out@
    }
}

impl Connection {
    pub closed spec fn spec_id(&self) -> u128 {
        self.id
    }

    /// A handle with a freshly drawn identity, to which nothing has been offered.
    pub fn open(tx: UnboundedSender<Message>) -> (r: Connection)
        ensures
            r@ == Seq::<Seq<char>>::empty(),
    {
        Connection { id: fresh_identity(), out: Outbox::new(tx) }
    }

    /// A handle under the given identity, to which nothing has been offered.
    pub fn with_id(id: u128, tx: UnboundedSender<Message>) -> (r: Connection)
        ensures
            r.spec_id() == id,
            r@ == Seq::<Seq<char>>::empty(),
    {
        Connection { id, out: Outbox::new(tx) }
    }

    pub fn id(&self) -> (r: u128)
        ensures
            r == self.spec_id(),
    {
        self.id
    }

    /// Offers `text` to this connection's queue; `false` when the queue's
    /// receiving end is gone and the text was refused.
    pub fn offer(&mut self, text: &str) -> (accepted: bool)
        ensures
            final(self).spec_id() == old(self).spec_id(),
            final(self)@ == old(self)@.push(text@),
    {
        offer_text(&mut self.out, text)
    }

    /// Offers every message of `history`, oldest first, to this connection's
    /// queue; returns how many were refused.
    pub fn replay(&mut self, history: &History) -> (refused: usize)
        ensures
            final(self).spec_id() == old(self).spec_id(),
            final(self)@ == old(self)@ + history@,
            refused <= history@.len(),
    {
        let entries = history.snapshot();
        let ghost start = self@;
        let mut refused: usize = 0;
        let mut i: usize = 0;
        while i < entries.len()
            invariant
                entries@.map_values(|e: String| e@) == history@,
                i <= entries@.len(),
                refused <= i,
                self.spec_id() == old(self).spec_id(),
                self@ == start + history@.subrange(0, i as int),
            decreases entries@.len() - i,
        {
            if !self.offer(entries[i].as_str()) {
                refused = refused + 1;
            }
            assert(history@.subrange(0, i + 1) =~= history@.subrange(0, i as int).push(
                entries@[i as int]@,
            ));
            i = i + 1;
        }
        assert(history@.subrange(0, history@.len() as int) =~= history@);
        refused
    }
}

/// The registered connections, by identity.
pub struct Registry {
    queues: HashMap<u128, Outbox>,
}

impl View for Registry {
    type V = Map<u128, Seq<Seq<char>>>;

    /// For each registered identity, the texts handed to its queue so far.
    closed spec fn view(&self) -> Map<u128, Seq<Seq<char>>> {
        self.queues@.map_values(|o: Outbox| o@)
    }
}

impl Registry {
    /// A registry with no connection.
    pub fn new() -> (r: Registry)
        ensures
            r@ == Map::<u128, Seq<Seq<char>>>::empty(),
    {
        let r = Registry { queues: HashMap::new() };
        assert(r@ =~= Map::<u128, Seq<Seq<char>>>::empty());
        r
    }

    pub fn len(&self) -> (r: usize)
        ensures
            r == self@.dom().len(),
    {
        assert(self@.dom() =~= self.queues@.dom());
        self.queues.len()
    }

    pub fn contains(&self, id: u128) -> (r: bool)
        ensures
            r == self@.contains_key(id),
    {
        self.queues.contains_key(&id)
    }

    /// Makes `conn` visible to later broadcasts, under its identity; an entry
    /// already there under that identity is replaced.
    pub fn register(&mut self, conn: Connection)
        ensures
            final(self)@ == old(self)@.insert(conn.spec_id(), conn@),
    {
        let Connection { id, out } = conn;
        self.queues.insert(id, out);
        assert(self@ =~= old(self)@.insert(id, out@));
    }

    /// Removes the entry for `id`, if there is one.
    pub fn deregister(&mut self, id: u128)
        ensures
            final(self)@ == old(self)@.remove(id),
    {
        self.queues.remove(&id);
        assert(self@ =~= old(self)@.remove(id));
    }

    /// The registered identities, each once.
    fn identities(&self) -> (ids: Vec<u128>)
        ensures
            ids@.no_duplicates(),
            forall|j: int| 0 <= j < ids@.len() ==> self@.contains_key(#[trigger] ids@[j]),
            forall|k: u128| #[trigger]
                self@.contains_key(k) ==> exists|j: int| 0 <= j < ids@.len() && ids@[j] == k,
    {
        let mut ids: Vec<u128> = Vec::new();
        for (id, _out) in it: self.queues.iter()
            invariant
                it.seq().no_duplicates(),
                forall|j: int|
                    0 <= j < it.seq().len() ==> self.queues@.contains_key(*(#[trigger] it.seq()[j]).0)
                        && self.queues@[*it.seq()[j].0] == *it.seq()[j].1,
                forall|k: u128|
                    #[trigger] self.queues@.contains_key(k) ==> it.seq().contains((&k, &self.queues@[k])),
                ids@.len() == it.index(),
                forall|j: int| 0 <= j < it.index() ==> ids@[j] == *(#[trigger] it.seq()[j]).0,
                ids@.no_duplicates(),
                forall|j: int| 0 <= j < ids@.len() ==> self.queues@.contains_key(#[trigger] ids@[j]),
                forall|k: u128| #[trigger]
                    self.queues@.contains_key(k) ==> (exists|j: int| 0 <= j < ids@.len() && ids@[j] == k)
                        || (exists|j: int| it.index() <= j < it.seq().len() && *it.seq()[j].0 == k),
        {
            let ghost n = it.index();
            let ghost prev = ids@;
            proof {
                assert forall|j: int| 0 <= j < n implies prev[j] != *id by {
                    if prev[j] == *id {
                        assert(it.seq()[j] == it.seq()[n]);
                    }
                }
            }
            ids.push(*id);
            proof {
                assert(ids@[n] == *id);
                assert forall|k: u128| #[trigger] self.queues@.contains_key(k) implies (exists|j: int|
                    0 <= j < ids@.len() && ids@[j] == k) || (exists|j: int|
                    n + 1 <= j < it.seq().len() && *it.seq()[j].0 == k) by {
                    if exists|j: int| 0 <= j < prev.len() && prev[j] == k {
                        let j = choose|j: int| 0 <= j < prev.len() && prev[j] == k;
                        assert(ids@[j] == k);
                    } else {
                        let j = choose|j: int| n <= j < it.seq().len() && *it.seq()[j].0 == k;
                        if j == n {
                            assert(ids@[n] == k);
                        }
                    }
                }
            }
        }
        assert(self@.dom() =~= self.queues@.dom());
        ids
    }

    /// Hands `text` to the queue of every registered connection, once each,
    /// whatever the others do with it; returns the identities whose queue
    /// refused it.
    pub fn broadcast(&mut self, text: &str) -> (refused: Vec<u128>)
        ensures
            final(self)@.dom() == old(self)@.dom(),
            forall|id: u128| #[trigger]
                final(self)@.contains_key(id) ==> final(self)@[id] == old(self)@[id].push(
                    text@,
                ),
            forall|i: int| 0 <= i < refused@.len() ==> old(self)@.contains_key(#[trigger] refused@[i]),
            refused@.no_duplicates(),
    {
        let ids = self.identities();
        let ghost start = self@;
        let mut refused: Vec<u128> = Vec::new();
        let mut i: usize = 0;
        while i < ids.len()
            invariant
                ids@.no_duplicates(),
                forall|j: int| 0 <= j < ids@.len() ==> start.contains_key(#[trigger] ids@[j]),
                forall|k: u128| #[trigger]
                    start.contains_key(k) ==> exists|j: int| 0 <= j < ids@.len() && ids@[j] == k,
                i <= ids@.len(),
                self@.dom() == start.dom(),
                forall|j: int| 0 <= j < ids@.len() ==> self@[#[trigger] ids@[j]] == if j < i {
                    start[ids@[j]].push(text@)
                } else {
                    start[ids@[j]]
                },
                forall|j: int| 0 <= j < refused@.len() ==> start.contains_key(#[trigger] refused@[j]),
                forall|j: int, m: int|
                    0 <= j < refused@.len() && i <= m < ids@.len() ==> #[trigger] refused@[j] != #[trigger] ids@[m],
                refused@.no_duplicates(),
            decreases ids@.len() - i,
        {
            let id = ids[i];
            let ghost before = self@;
            let ghost prev_refused = refused@;
            let removed = self.queues.remove(&id);
            match removed {
                Some(mut out) => {
                    if !offer_text(&mut out, text) {
                        refused.push(id);
                    }
                    self.queues.insert(id, out);
                },
                None => {},
            }
            proof {
                assert(self@ =~= before.insert(id, start[id].push(text@)));
                assert forall|j: int| 0 <= j < ids@.len() && j != i implies ids@[j] != id by {
                    assert(ids@[j] != ids@[i as int]);
                }
                assert forall|j: int| 0 <= j < prev_refused.len() implies prev_refused[j] != id by {
                    assert(prev_refused[j] != ids@[i as int]);
                }
            }
            i = i + 1;
        }
        proof {
            assert forall|k: u128| #[trigger] self@.contains_key(k) implies self@[k] == start[k].push(text@) by {
                let j = choose|j: int| 0 <= j < ids@.len() && ids@[j] == k;
            }
        }
        refused
    }
}

} // verus!
