//! The registry of bindings and the per-event dispatch step.
//!
//! A [`Listener`] owns the history and the list of registered bindings.
//! Feeding it one event with [`Listener::handle_event`] appends the
//! event, evicts the oldest entries when the history outgrows its
//! capacity, evaluates every binding against the updated history, and
//! reports the callbacks that fired.
//!
//! Callbacks themselves are asynchronous actions of the embedding
//! application; here each is identified by a caller-chosen token, and
//! the application schedules the actions behind the tokens this module
//! hands back. Failures of one callback are the application's to report
//! and never disturb the other bindings.

use vstd::prelude::*;

use crate::exception::Error;
use crate::history::{History, evict_spec};
use crate::key::{KeySet, key_set_eq, total_len};
use crate::matcher;
use crate::matcher::spec_matches;
use crate::key::Event;

verus! {

/// One registered binding: a pattern and the token of the callback to
/// schedule whenever the pattern completes.
#[derive(Debug)]
pub struct Binding {
    /// The pattern to watch for.
    pub key_set: KeySet,
    /// The caller-chosen token naming the callback.
    pub callback: u64,
}

/// The callback tokens fired by the given history state, one for each
/// binding whose pattern the history completes, in binding order. Every
/// binding is evaluated independently: whether one matches never
/// influences another.
pub open spec fn fired_callbacks(bindings: Seq<Binding>, entries: Seq<Event>) -> Seq<u64>
    decreases bindings.len(),
{
    if bindings.len() == 0 {
        Seq::empty()
    } else {
        let rest = fired_callbacks(bindings.drop_last(), entries);
        if spec_matches(bindings.last().key_set, entries) {
            rest.push(bindings.last().callback)
        } else {
            rest
        }
    }
}

/// The registry and dispatch core: the bounded history of observed
/// events and the list of registered bindings.
#[derive(Debug)]
pub struct Listener {
    history: History,
    hooks: Vec<Binding>,
}

impl Listener {
    /// The events currently recorded, in arrival order.
    pub closed spec fn recorded(&self) -> Seq<Event> {
        self.history@
    }

    /// The number of events the history retains across an eviction.
    pub closed spec fn cap(&self) -> nat {
        self.history.cap()
    }

    /// The registered bindings, in registration order.
    pub closed spec fn bindings(&self) -> Seq<Binding> {
        self.hooks@
    }

    /// A listener whose history retains at most `max_history` events,
    /// with the given bindings already registered.
    pub fn new(max_history: usize, hooks: Vec<Binding>) -> (r: Self)
        ensures
            r.recorded() == Seq::<Event>::empty(),
            r.cap() == max_history,
            r.bindings() == hooks@,
    {
        Listener { history: History::new(max_history), hooks }
    }

    /// Registers `key_set`, to fire the callback named by `callback`
    /// whenever the pattern completes. A pattern of total length zero is
    /// rejected with `InvalidPattern`, and nothing is stored.
    pub fn register(&mut self, key_set: KeySet, callback: u64) -> (r: Result<(), Error>)
        ensures
            final(self).recorded() == old(self).recorded(),
            final(self).cap() == old(self).cap(),
            total_len(key_set.bind_keys@) == 0 ==> r == Err::<(), Error>(Error::InvalidPattern),
            total_len(key_set.bind_keys@) == 0 ==> final(self).bindings() == old(self).bindings(),
            total_len(key_set.bind_keys@) != 0 ==> r == Ok::<(), Error>(()),
            total_len(key_set.bind_keys@) != 0 ==> final(self).bindings() == old(
                self,
            ).bindings().push(Binding { key_set, callback }),
    {
        if key_set.is_empty() {
            Err(Error::InvalidPattern)
        } else {
            self.hooks.push(Binding { key_set, callback });
            Ok(())
        }
    }

    /// Removes every binding whose pattern equals `key_set`
    /// structurally; removing a pattern that was never registered is a
    /// no-op, not an error.
    #[verifier::rlimit(50)]
    #[verifier::loop_isolation(false)]
    pub fn unregister(&mut self, key_set: KeySet)
        ensures
            final(self).recorded() == old(self).recorded(),
            final(self).cap() == old(self).cap(),
            final(self).bindings() == old(self).bindings().filter(
                |b: Binding| !key_set_eq(b.key_set, key_set),
            ),
    {
        broadcast use vstd::prelude::Seq::lemma_filter_push;

        let ghost pred = |b: Binding| !key_set_eq(b.key_set, key_set);
        let ghost hooks0 = self.hooks@;
        let ghost mut m: int = 0;
        let mut i: usize = 0;
        proof {
            reveal(Seq::filter);
            assert(hooks0.take(0) =~= Seq::<Binding>::empty());
            assert(hooks0.skip(0) =~= hooks0);
            assert(self.hooks@ =~= hooks0.take(0).filter(pred) + hooks0.skip(0));
        }
        while i < self.hooks.len()
            invariant
                0 <= m <= hooks0.len(),
                i == hooks0.take(m).filter(pred).len(),
                self.hooks@ == hooks0.take(m).filter(pred) + hooks0.skip(m),
                self.history == old(self).history,
            decreases hooks0.len() - m,
        {
            proof {
                assert(self.hooks@[i as int] == hooks0.skip(m)[0]);
                assert(hooks0.skip(m)[0] == hooks0[m]);
                assert(hooks0.take(m + 1) =~= hooks0.take(m).push(hooks0[m]));
            }
            if self.hooks[i].key_set == key_set {
                self.hooks.remove(i);
                proof {
                    assert(!pred(hooks0[m]));
                    assert(self.hooks@ =~= hooks0.take(m + 1).filter(pred) + hooks0.skip(
                        m + 1,
                    ));
                }
            } else {
                proof {
                    assert(pred(hooks0[m]));
                    assert(self.hooks@ =~= hooks0.take(m + 1).filter(pred) + hooks0.skip(
                        m + 1,
                    ));
                }
                i += 1;
            }
            proof {
                m = m + 1;
            }
        }
        proof {
            assert(hooks0.take(hooks0.len() as int) =~= hooks0);
            assert(hooks0.skip(hooks0.len() as int) =~= Seq::<Binding>::empty());
            assert(self.hooks@ =~= hooks0.filter(pred));
        }
    }

    /// The most recent recorded event, or `None` while the history is
    /// empty.
    pub fn priorkey(&self) -> (r: Option<Event>)
        ensures
            self.recorded().len() == 0 ==> r is None,
            self.recorded().len() > 0 ==> (r matches Some(e) && e == self.recorded().last()),
    {
        match self.history.last() {
            None => None,
            Some(e) => Some(*e),
        }
    }

    /// Records `event`, evicts down to the capacity, then evaluates
    /// every binding, independently and in registration order, against
    /// the history that now ends with `event`. The returned tokens name
    /// the callbacks the application should schedule; scheduling and
    /// awaiting them is not this type's concern.
    #[verifier::loop_isolation(false)]
    pub fn handle_event(&mut self, event: Event) -> (fired: Vec<u64>)
        ensures
            final(self).cap() == old(self).cap(),
            final(self).bindings() == old(self).bindings(),
            final(self).recorded() == evict_spec(
                old(self).recorded().push(event),
                old(self).cap(),
            ),
            fired@ == fired_callbacks(old(self).bindings(), final(self).recorded()),
    {
        self.history.push(event);
        self.history.clean();
        let mut fired: Vec<u64> = Vec::new();
        let mut i: usize = 0;
        proof {
            assert(self.hooks@.take(0) =~= Seq::<Binding>::empty());
        }
        while i < self.hooks.len()
            invariant
                i <= self.hooks@.len(),
                fired@ == fired_callbacks(self.hooks@.take(i as int), self.history@),
            decreases self.hooks@.len() - i,
        {
            proof {
                assert(self.hooks@.take(i + 1).drop_last() =~= self.hooks@.take(i as int));
                assert(self.hooks@.take(i + 1).last() == self.hooks@[i as int]);
            }
            if matcher::matches(&self.hooks[i].key_set, &self.history) {
                fired.push(self.hooks[i].callback);
            }
            i += 1;
        }
        proof {
            assert(self.hooks@.take(self.hooks@.len() as int) =~= self.hooks@);
        }
        fired
    }
}

impl Default for Listener {
    /// A listener with no bindings whose history retains at most 512
    /// events.
    fn default() -> (r: Self)
        ensures
            r.recorded() == Seq::<Event>::empty(),
            r.cap() == 512,
            r.bindings() == Seq::<Binding>::empty(),
    {
        Listener { history: History::new(512), hooks: Vec::new() }
    }
}

/// Unregistering a pattern that no binding holds leaves the binding
/// list unchanged: no error, no state change.
pub proof fn lemma_unregister_absent(bindings: Seq<Binding>, key_set: KeySet)
    requires
        forall|i: int| 0 <= i < bindings.len() ==> !key_set_eq(
            #[trigger] bindings[i].key_set,
            key_set,
        ),
    ensures
        bindings.filter(|b: Binding| !key_set_eq(b.key_set, key_set)) == bindings,
    decreases bindings.len(),
{
    broadcast use vstd::prelude::Seq::lemma_filter_push;

    let pred = |b: Binding| !key_set_eq(b.key_set, key_set);
    if bindings.len() == 0 {
        reveal(Seq::filter);
    } else {
        lemma_unregister_absent(bindings.drop_last(), key_set);
        assert(bindings.drop_last().push(bindings.last()) =~= bindings);
        assert(pred(bindings.last()));
        assert(bindings.drop_last().push(bindings.last()).filter(pred) == bindings.drop_last()
            .filter(pred).push(bindings.last()));
    }
}

} // verus!
