//! The bounded, time-ordered log of observed events.
//!
//! Events are appended in arrival order; when the log grows past its
//! capacity, [`History::clean`] evicts the oldest entries so that only
//! the most recent `capacity` remain.

use vstd::prelude::*;

use crate::key::Event;

verus! {

/// The most recent `n` entries of `entries`, in arrival order; the whole
/// sequence when it holds fewer than `n`.
pub open spec fn last_n_spec(entries: Seq<Event>, n: int) -> Seq<Event> {
    if n >= entries.len() {
        entries
    } else {
        entries.skip(entries.len() - n)
    }
}

/// What eviction leaves: the sequence itself while it fits, otherwise
/// only its most recent `cap` entries.
pub open spec fn evict_spec(entries: Seq<Event>, cap: nat) -> Seq<Event> {
    if entries.len() <= cap {
        entries
    } else {
        entries.skip(entries.len() - cap)
    }
}

/// A bounded log of events in arrival order.
///
/// A push may transiently leave more than `capacity` entries; the owner
/// calls [`History::clean`] after every push that could overshoot, which
/// restores the bound by dropping the oldest entries.
#[derive(Debug)]
pub struct History {
    capacity: usize,
    entries: Vec<Event>,
}

impl View for History {
    type V = Seq<Event>;

    closed spec fn view(&self) -> Seq<Event> {
        self.entries@
    }
}

impl History {
    /// The number of entries the log retains across an eviction pass.
    pub closed spec fn cap(&self) -> nat {
        self.capacity as nat
    }

    /// An empty log that will retain at most `capacity` entries.
    pub fn new(capacity: usize) -> (r: Self)
        ensures
            r@ == Seq::<Event>::empty(),
            r.cap() == capacity,
    {
        History { capacity, entries: Vec::new() }
    }

    /// Appends an event at the end; never fails, and never evicts.
    pub fn push(&mut self, event: Event)
        ensures
            final(self)@ == old(self)@.push(event),
            final(self).cap() == old(self).cap(),
    {
        self.entries.push(event);
    }

    /// The most recent `n` entries in arrival order, or all of them when
    /// the log holds fewer than `n`.
    pub fn last_n(&self, n: usize) -> (r: Vec<Event>)
        ensures
            r@ == last_n_spec(self@, n as int),
    {
        let len = self.entries.len();
        let start = if n >= len {
            0
        } else {
            len - n
        };
        let mut r: Vec<Event> = Vec::new();
        let mut i: usize = start;
        while i < len
            invariant
                start <= i <= len,
                len == self.entries@.len(),
                r@ == self.entries@.subrange(start as int, i as int),
            decreases len - i,
        {
            r.push(self.entries[i]);
            proof {
                assert(r@ =~= self.entries@.subrange(start as int, i + 1 as int));
            }
            i += 1;
        }
        proof {
            assert(self.entries@.subrange(start as int, len as int) =~= last_n_spec(
                self@,
                n as int,
            ));
        }
        r
    }

    /// The most recent entry, or `None` while the log is empty.
    pub fn last(&self) -> (r: Option<&Event>)
        ensures
            self@.len() == 0 ==> r is None,
            self@.len() > 0 ==> (r matches Some(e) && *e == self@.last()),
    {
        if self.entries.len() == 0 {
            None
        } else {
            Some(&self.entries[self.entries.len() - 1])
        }
    }

    /// How many entries the log currently holds.
    pub fn len(&self) -> (n: usize)
        ensures
            n == self@.len(),
    {
        self.entries.len()
    }

    /// Drops the oldest entries until at most the capacity remain; a
    /// no-op while the log already fits.
    pub fn clean(&mut self)
        ensures
            final(self)@ == evict_spec(old(self)@, old(self).cap()),
            final(self).cap() == old(self).cap(),
    {
        let tail = self.last_n(self.capacity);
        self.entries = tail;
    }

    /// Whether the given events are exactly the most recent entries of
    /// the log, compared with full event equality (kind and timestamp).
    pub fn matches(&self, events: &Vec<Event>) -> (r: bool)
        ensures
            r == (last_n_spec(self@, events@.len() as int) == events@),
    {
        let tail = self.last_n(events.len());
        if tail.len() != events.len() {
            return false;
        }
        let mut i: usize = 0;
        while i < tail.len()
            invariant
                i <= tail@.len(),
                tail@.len() == events@.len(),
                tail@ == last_n_spec(self@, events@.len() as int),
                forall|j: int| 0 <= j < i ==> tail@[j] == events@[j],
            decreases tail@.len() - i,
        {
            if tail[i] != events[i] {
                return false;
            }
            i += 1;
        }
        proof {
            assert(tail@ =~= events@);
        }
        true
    }
}

impl From<Vec<Event>> for History {
    /// A log holding the given events, with the default capacity of 256.
    fn from(events: Vec<Event>) -> (r: Self)
        ensures
            r@ == events@,
            r.cap() == 256,
    {
        History { capacity: 256, entries: events }
    }
}

impl vstd::std_specs::convert::FromSpecImpl<Vec<Event>> for History {
    open spec fn obeys_from_spec() -> bool {
        true
    }

    closed spec fn from_spec(v: Vec<Event>) -> Self {
        History { capacity: 256, entries: v }
    }
}

/// The log left by feeding `events` one at a time into a log that starts
/// as `entries`: each event is pushed and eviction runs right after, as
/// [`crate::listener::Listener::handle_event`] does.
pub open spec fn feed_all(entries: Seq<Event>, cap: nat, events: Seq<Event>) -> Seq<Event>
    decreases events.len(),
{
    if events.len() == 0 {
        entries
    } else {
        feed_all(evict_spec(entries.push(events[0]), cap), cap, events.drop_first())
    }
}

/// Feeding events one at a time, evicting after each push, leaves the
/// same log as pushing them all and evicting once at the end.
pub proof fn lemma_feed_all(entries: Seq<Event>, cap: nat, events: Seq<Event>)
    requires
        entries.len() <= cap,
    ensures
        feed_all(entries, cap, events) == evict_spec(entries + events, cap),
    decreases events.len(),
{
    if events.len() == 0 {
        assert(entries + events =~= entries);
    } else {
        let pushed = entries.push(events[0]);
        let evicted = evict_spec(pushed, cap);
        lemma_feed_all(evicted, cap, events.drop_first());
        assert(entries + events =~= pushed + events.drop_first());
        assert(evict_spec(evicted + events.drop_first(), cap) =~= evict_spec(
            pushed + events.drop_first(),
            cap,
        ));
    }
}

/// Feeding at least `cap` events into a log that fits its capacity
/// leaves exactly the most recent `cap` of them, in arrival order.
pub proof fn lemma_history_eviction(entries: Seq<Event>, cap: nat, events: Seq<Event>)
    requires
        entries.len() <= cap,
        events.len() >= cap,
    ensures
        feed_all(entries, cap, events) == events.skip(events.len() - cap),
        feed_all(entries, cap, events).len() == cap,
{
    lemma_feed_all(entries, cap, events);
    assert(evict_spec(entries + events, cap) =~= events.skip(events.len() - cap));
}

} // verus!
