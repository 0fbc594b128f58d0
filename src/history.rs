//! The bounded window of recent broadcast messages.

use std::collections::VecDeque;
use vstd::prelude::*;

verus! {

/// `h` with `m` added at the tail, then the oldest entries dropped until at
/// most `limit` remain.
pub open spec fn bounded_push(h: Seq<Seq<char>>, m: Seq<char>, limit: nat) -> Seq<Seq<char>> {
    let s = h.push(m);
    if s.len() > limit {
        s.subrange(s.len() - limit, s.len() as int)
    } else {
        s
    }
}

/// The most recent messages, oldest first, never more than `limit` of them.
pub struct History {
    entries: VecDeque<String>,
    limit: usize,
}

impl View for History {
    type V = Seq<Seq<char>>;

    closed spec fn view(&self) -> Seq<Seq<char>> {
        self.entries@.map_values(|e: String| e@)
    }
}

impl History {
    pub closed spec fn spec_limit(&self) -> nat {
        self.limit as nat
    }

    pub closed spec fn wf(&self) -> bool {
        0 < self.limit && self.entries@.len() <= self.limit
    }

    pub proof fn lemma_limit_positive(&self)
        requires
            self.wf(),
        ensures
            self.spec_limit() > 0,
    {
    }

    /// An empty window that holds at most `limit` messages.
    pub fn new(limit: usize) -> (r: History)
        requires
            limit > 0,
        ensures
            r.wf(),
            r@ == Seq::<Seq<char>>::empty(),
            r.spec_limit() == limit,
    {
        let r = History { entries: VecDeque::new(), limit };
        assert(r@ =~= Seq::<Seq<char>>::empty());
        r
    }

    pub fn limit(&self) -> (r: usize)
        ensures
            r == self.spec_limit(),
    {
        self.limit
    }

    pub fn len(&self) -> (r: usize)
        ensures
            r == self@.len(),
    {
        self.entries.len()
    }

    /// Adds `message` at the tail, evicting the oldest entry when the window
    /// would otherwise exceed its limit.
    pub fn append(&mut self, message: String)
        requires
            old(self).wf(),
        ensures
            final(self).wf(),
            final(self).spec_limit() == old(self).spec_limit(),
            final(self)@ == bounded_push(old(self)@, message@, old(self).spec_limit()),
            final(self)@.len() <= final(self).spec_limit(),
    {
        self.entries.push_back(message);
        assert(self.entries@.map_values(|e: String| e@) =~= old(self)@.push(message@));
        if self.entries.len() > self.limit {
            let ghost full = self.entries@;
            let _evicted = self.entries.pop_front();
            assert(self.entries@.map_values(|e: String| e@) =~= full.map_values(
                |e: String| e@,
            ).subrange(1, full.len() as int));
        }
    }

    /// The messages of the window, oldest first.
    pub fn snapshot(&self) -> (r: Vec<String>)
        ensures
            r@.map_values(|e: String| e@) == self@,
    {
        let mut out: Vec<String> = Vec::new();
        let n = self.entries.len();
        let mut i: usize = 0;
        while i < n
            invariant
                n == self.entries@.len(),
                i <= n,
                out@.len() == i,
                forall|j: int| 0 <= j < i ==> #[trigger] out@[j]@ == self.entries@[j]@,
            decreases n - i,
        {
            let c = self.entries[i].clone();
            out.push(c);
            i = i + 1;
        }
        assert(out@.map_values(|e: String| e@) =~= self@);
        out
    }
}

} // verus!
