//! The shared relay state: the history window, the registry, and the
//! operations that keep the two consistent.

use crate::config::{history_limit, history_limit_spec, ConfigError};
use crate::history::{bounded_push, History};
use crate::registry::{Connection, Registry};
use tokio::sync::mpsc::UnboundedSender;
use vstd::prelude::*;
use warp::ws::Message;

verus! {

/// The relay's shared state.
///
/// Besides the executable state it keeps, as ghost state, every message ever
/// broadcast and, for each registered connection, the position in that
/// sequence of the first message its queue was offered.
pub struct Relay {
    history: History,
    registry: Registry,
    broadcasts: Ghost<Seq<Seq<char>>>,
    first: Ghost<Map<u128, int>>,
}

impl Relay {
    /// The history window, oldest first.
    pub closed spec fn history(&self) -> Seq<Seq<char>> {
        self.history@
    }

    /// The configured size of the history window.
    pub closed spec fn limit(&self) -> nat {
        self.history.spec_limit()
    }

    /// For each registered identity, the texts offered to its queue, in order.
    pub closed spec fn queues(&self) -> Map<u128, Seq<Seq<char>>> {
        self.registry@
    }

    /// Every message broadcast since the relay was made, in order.
    pub closed spec fn broadcasts(&self) -> Seq<Seq<char>> {
        self.broadcasts@
    }

    /// The position in `broadcasts()` of the first message offered to `id`.
    pub closed spec fn first_offered(&self, id: u128) -> int {
        self.first@[id]
    }

    pub closed spec fn wf(&self) -> bool {
        let n = self.broadcasts@.len();
        &&& self.history.wf()
        &&& self.history@.len() == if n < self.limit() { n } else { self.limit() }
        &&& self.history@ == self.broadcasts@.subrange(n - self.history@.len(), n as int)
        &&& self.first@.dom() == self.registry@.dom()
        &&& forall|id: u128| #[trigger]
            self.registry@.contains_key(id) ==> {
                &&& 0 <= self.first@[id] <= n
                &&& self.registry@[id] == self.broadcasts@.subrange(self.first@[id], n as int)
            }
    }

    /// A relay with an empty history window of size `limit` and no connection.
    pub fn new(limit: usize) -> (r: Relay)
        requires
            limit > 0,
        ensures
            r.wf(),
            r.limit() == limit,
            r.history() == Seq::<Seq<char>>::empty(),
            r.broadcasts() == Seq::<Seq<char>>::empty(),
            r.queues() == Map::<u128, Seq<Seq<char>>>::empty(),
    {
        let r = Relay {
            history: History::new(limit),
            registry: Registry::new(),
            broadcasts: Ghost(Seq::empty()),
            first: Ghost(Map::empty()),
        };
        assert(r.history@ =~= r.broadcasts@.subrange(0, 0));
        assert(r.first@.dom() =~= r.registry@.dom());
        r
    }

    /// A relay whose history size comes from its textual setting; the setting
    /// must be a positive decimal number, else no relay is made.
    pub fn from_setting(setting: Option<&str>) -> (r: Result<Relay, ConfigError>)
        ensures
            match history_limit_spec(match setting { Some(t) => Some(t@), None => None }) {
                Ok(limit) => r matches Ok(relay) && relay.wf() && relay.limit() == limit
                    && relay.history() == Seq::<Seq<char>>::empty()
                    && relay.broadcasts() == Seq::<Seq<char>>::empty()
                    && relay.queues() == Map::<u128, Seq<Seq<char>>>::empty(),
                Err(e) => r matches Err(e2) && e2 == e,
            },
    {
        match history_limit(setting) {
            Ok(limit) => Ok(Relay::new(limit)),
            Err(e) => Err(e),
        }
    }

    pub fn is_registered(&self, id: u128) -> (r: bool)
        requires
            self.wf(),
        ensures
            r == self.queues().contains_key(id),
    {
        self.registry.contains(id)
    }

    pub fn connection_count(&self) -> (r: usize)
        requires
            self.wf(),
        ensures
            r == self.queues().dom().len(),
    {
        self.registry.len()
    }

    /// The history window, oldest first.
    pub fn history_snapshot(&self) -> (r: Vec<String>)
        ensures
            r@.map_values(|e: String| e@) == self.history(),
    {
        self.history.snapshot()
    }

    /// Admits a connection whose queue is fed by `tx`: draws its identity,
    /// offers it the history window, oldest first, and registers it. Returns
    /// the identity and how many history messages its queue refused.
    pub fn join(&mut self, tx: UnboundedSender<Message>) -> (r: (u128, usize))
        requires
            old(self).wf(),
        ensures
            final(self).wf(),
            final(self).queues() == old(self).queues().insert(r.0, old(self).history()),
            final(self).first_offered(r.0) == old(self).broadcasts().len() - old(self).history().len(),
            final(self).history() == old(self).history(),
            final(self).broadcasts() == old(self).broadcasts(),
            final(self).limit() == old(self).limit(),
            r.1 <= old(self).history().len(),
    {
        let mut conn = Connection::open(tx);
        let refused = conn.replay(&self.history);
        let id = conn.id();
        assert(conn@ =~= self.history@);
        self.registry.register(conn);
        let ghost n = self.broadcasts@.len();
        self.first = Ghost(self.first@.insert(id, n - self.history@.len()));
        (id, refused)
    }

    /// Removes the connection `id`, if it is registered; later broadcasts are
    /// not offered to it.
    pub fn leave(&mut self, id: u128)
        requires
            old(self).wf(),
        ensures
            final(self).wf(),
            final(self).queues() == old(self).queues().remove(id),
            final(self).history() == old(self).history(),
            final(self).broadcasts() == old(self).broadcasts(),
            final(self).limit() == old(self).limit(),
    {
        self.registry.deregister(id);
        self.first = Ghost(self.first@.remove(id));
    }

    /// Adds `text` to the history window and offers it once to the queue of
    /// every registered connection, whatever the other queues do with it.
    /// Returns the identities whose queue refused it.
    pub fn broadcast(&mut self, text: String) -> (refused: Vec<u128>)
        requires
            old(self).wf(),
        ensures
            final(self).wf(),
            final(self).broadcasts() == old(self).broadcasts().push(text@),
            final(self).history() == bounded_push(old(self).history(), text@, old(self).limit()),
            final(self).limit() == old(self).limit(),
            final(self).queues().dom() == old(self).queues().dom(),
            forall|id: u128| #[trigger]
                final(self).queues().contains_key(id) ==> final(self).queues()[id]
                    == old(self).queues()[id].push(text@),
            forall|i: int|
                0 <= i < refused@.len() ==> old(self).queues().contains_key(#[trigger] refused@[i]),
            refused@.no_duplicates(),
    {
        let ghost old_all = self.broadcasts@;
        let ghost old_hist = self.history@;
        let refused = self.registry.broadcast(text.as_str());
        self.history.append(text);
        self.broadcasts = Ghost(self.broadcasts@.push(text@));
        proof {
            let n = self.broadcasts@.len();
            let limit = self.limit();
            let s = old_hist.push(text@);
            assert(s =~= self.broadcasts@.subrange(n - s.len(), n as int));
            if s.len() > limit {
                assert(self.history@ =~= self.broadcasts@.subrange(n - limit, n as int));
            }
            assert forall|id: u128| #[trigger] self.registry@.contains_key(id) implies {
                &&& 0 <= self.first@[id] <= n
                &&& self.registry@[id] == self.broadcasts@.subrange(self.first@[id], n as int)
            } by {
                assert(self.registry@[id] =~= self.broadcasts@.subrange(self.first@[id], n as int));
            }
        }
        refused
    }
}

/// However many messages have been broadcast, the history window never holds
/// more than its limit, and it holds exactly the most recent ones, in order.
pub proof fn lemma_history_bound(r: &Relay)
    requires
        r.wf(),
    ensures
        r.limit() > 0,
        r.history().len() <= r.limit(),
        r.history().len() == if r.broadcasts().len() < r.limit() {
            r.broadcasts().len()
        } else {
            r.limit()
        },
        r.history() == r.broadcasts().subrange(
            r.broadcasts().len() - r.history().len(),
            r.broadcasts().len() as int,
        ),
{
    r.history.lemma_limit_positive();
}

/// No connection is offered the same broadcast twice: the texts offered to a
/// registered connection are the broadcasts from `first_offered` on, each one
/// exactly once and in the order they were broadcast.
pub proof fn lemma_offered_once_in_order(r: &Relay, id: u128)
    requires
        r.wf(),
        r.queues().contains_key(id),
    ensures
        0 <= r.first_offered(id) <= r.broadcasts().len(),
        r.queues()[id].len() == r.broadcasts().len() - r.first_offered(id),
        forall|k: int|
            0 <= k < r.queues()[id].len() ==> #[trigger] r.queues()[id][k] == r.broadcasts()[r.first_offered(id) + k],
{
}

} // verus!
