//! What a client keeps of a server's broadcasts: the latest view of the world, and a
//! bounded log of recent events.

use std::collections::VecDeque;
use vstd::prelude::*;
use vstd::string::StringExecFns;

use crate::event::SimEvent;

verus! {

/// How many recent events a client keeps.
pub const EVENT_LOG_CAP: usize = 2000;

/// A client's state, as broadcasts have shaped it.
#[derive(Debug)]
pub struct Feed<V> {
    /// The most recent view of the world.
    pub latest: Option<V>,
    /// Recent events, oldest first.
    pub events: VecDeque<SimEvent>,
    /// Whether the connection is believed live.
    pub connected: bool,
}

/// The last of these, no more than the cap.
pub open spec fn recent<T>(all: Seq<T>) -> Seq<T> {
    if all.len() <= EVENT_LOG_CAP {
        all
    } else {
        all.skip(all.len() - EVENT_LOG_CAP)
    }
}

impl<V> Feed<V> {
    /// A fresh connection.
    pub fn new() -> (f: Self)
        ensures
            f.latest is None,
            f.events@ == Seq::<SimEvent>::empty(),
            f.connected,
    {
        Feed { latest: None, events: VecDeque::new(), connected: true }
    }

    /// Fold in one broadcast: its events, and the view of the world if it came with one.
    pub fn apply(&mut self, events: Vec<SimEvent>, view: Option<V>)
        ensures
            final(self).events@ == recent(old(self).events@ + events@),
            final(self).latest == (if view is Some {
                view
            } else {
                old(self).latest
            }),
            final(self).connected == old(self).connected,
    {
        let ghost start = self.events@;
        let ghost given = events@;
        let mut queue = events;
        let ghost mut k: int = 0;
        assert(given.skip(0) =~= given);
        assert(self.events@ =~= start + given.take(0));
        while queue.len() > 0
            invariant
                0 <= k <= given.len(),
                queue@ == given.skip(k),
                self.events@ == start + given.take(k),
                self.latest == old(self).latest,
                self.connected == old(self).connected,
            decreases queue@.len(),
        {
            let e = queue.remove(0);
            self.events.push_back(e);
            proof {
                k = k + 1;
                assert(queue@ =~= given.skip(k));
                assert(self.events@ =~= start + given.take(k));
            }
        }
        let ghost all = self.events@;
        assert(given.take(k) =~= given);
        let ghost mut gone: int = 0;
        assert(all.skip(0) =~= all);
        while self.events.len() > EVENT_LOG_CAP
            invariant
                0 <= gone,
                self.events@ == all.skip(gone),
                gone == 0 || all.len() - gone >= EVENT_LOG_CAP,
                gone <= all.len(),
                self.latest == old(self).latest,
                self.connected == old(self).connected,
            decreases self.events@.len(),
        {
            let _oldest = self.events.pop_front();
            proof {
                gone = gone + 1;
                assert(self.events@ =~= all.skip(gone));
            }
        }
        assert(self.events@ =~= recent(all));
        if view.is_some() {
            self.latest = view;
        }
    }

    /// The connection is gone.
    pub fn lose(&mut self)
        ensures
            !final(self).connected,
            final(self).latest == old(self).latest,
            final(self).events@ == old(self).events@,
    {
        self.connected = false;
    }
}

/// "server refused connection: " and the reason.
pub open spec fn refusal(reason: Seq<char>) -> Seq<char> {
    "server refused connection: "@ + reason
}

/// How a refused handshake reads.
pub fn refusal_text(reason: &str) -> (s: String)
    ensures
        s@ == refusal(reason@),
{
    let mut s = String::new();
    s.append("server refused connection: ");
    s.append(reason);
    assert(s@ =~= refusal(reason@));
    s
}

/// However many broadcasts come in, one after the other or at once, the log holds the
/// same: the most recent events, no more than the cap.
pub proof fn lemma_feed_bounded(start: Seq<SimEvent>, a: Seq<SimEvent>, b: Seq<SimEvent>)
    ensures
        recent(recent(start + a) + b) == recent(start + (a + b)),
        recent(start + a).len() <= EVENT_LOG_CAP,
{
    let all = start + (a + b);
    assert(all =~= (start + a) + b);
    assert(recent(recent(start + a) + b) =~= recent(all));
}

/// The log keeps the newest two thousand events, all of them while there are no more, in
/// their order.
pub proof fn lemma_log_is_the_tail(all: Seq<SimEvent>)
    ensures
        all.len() <= 2000 ==> recent(all) == all,
        all.len() > 2000 ==> recent(all).len() == 2000,
        forall|i: int|
            0 <= i < recent(all).len() ==> #[trigger] recent(all)[i] == all[all.len()
                - recent(all).len() + i],
{
}

} // verus!
