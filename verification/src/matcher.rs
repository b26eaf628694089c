//! The matching algorithm: deciding whether a pattern is completed by
//! the most recent events of a history.
//!
//! A pattern of total length `n` is evaluated only against the window of
//! the `n` most recent events. The window is consumed from its front,
//! step by step: each step claims as many events as it requires, and the
//! claimed stretch must contain every required kind, duplicates counted
//! separately and order ignored. Between a step and the next, the gap
//! from the last event of the step's stretch to the first event of the
//! remainder must stay within the step's budget, when one is set.

use vstd::multiset::Multiset;
use vstd::prelude::*;

use crate::history::History;
use crate::key::{BindKey, Event, Key, KeySet, lemma_total_len_nonneg, lemma_total_len_split,
    lemma_total_len_take_succ, total_len};

verus! {

/// The kinds of a stretch of events, in arrival order.
pub open spec fn kinds_of(events: Seq<Event>) -> Seq<Key> {
    events.map_values(|e: Event| e.kind)
}

/// Whether `chunk` satisfies the step's requirement: every required kind
/// is present, each occurrence claiming a distinct event. Order within
/// the chunk carries no meaning; this is multiset containment.
pub open spec fn step_matches(step: BindKey, chunk: Seq<Event>) -> bool {
    step.keys@.to_multiset().subset_of(kinds_of(chunk).to_multiset())
}

/// Whether the gap from the step's stretch to the remainder of the
/// window respects the step's budget. A budget of zero, an empty
/// remainder (the step is last) and an empty stretch impose nothing; a
/// remainder that jumps backwards in time never qualifies.
pub open spec fn gap_ok(step: BindKey, chunk: Seq<Event>, rest: Seq<Event>) -> bool {
    if step.delay_time == 0 || rest.len() == 0 || chunk.len() == 0 {
        true
    } else {
        rest[0].time >= chunk.last().time && rest[0].time - chunk.last().time
            <= step.delay_time
    }
}

/// Whether the steps, in declared order, consume the whole window: each
/// step claims its stretch from the front, satisfies it, and respects
/// its gap budget towards what remains.
pub open spec fn steps_match(steps: Seq<BindKey>, window: Seq<Event>) -> bool
    decreases steps.len(),
{
    if steps.len() == 0 {
        true
    } else {
        let k = steps[0].keys@.len() as int;
        &&& step_matches(steps[0], window.take(k))
        &&& gap_ok(steps[0], window.take(k), window.skip(k))
        &&& steps_match(steps.drop_first(), window.skip(k))
    }
}

/// Whether the pattern is completed by the most recent events: the
/// history holds at least the pattern's total length, and the window of
/// exactly that many most recent events satisfies the steps. Events
/// older than the window are never consulted.
pub open spec fn spec_matches(key_set: KeySet, entries: Seq<Event>) -> bool {
    let total = total_len(key_set.bind_keys@);
    &&& total <= entries.len()
    &&& steps_match(key_set.bind_keys@, entries.skip(entries.len() - total))
}

/// A history shorter than the pattern's total length never matches.
pub proof fn lemma_short_history_no_match(key_set: KeySet, entries: Seq<Event>)
    requires
        entries.len() < total_len(key_set.bind_keys@),
    ensures
        !spec_matches(key_set, entries),
{
}

/// Matching is a pure function of the pattern and the history: any two
/// evaluations against an unchanged history for the same pattern — such
/// as two calls of [`matches`], whose result always equals
/// [`spec_matches`] of its inputs — yield the same answer.
pub proof fn lemma_match_deterministic(key_set: KeySet, entries: Seq<Event>, r1: bool, r2: bool)
    requires
        r1 == spec_matches(key_set, entries),
        r2 == spec_matches(key_set, entries),
    ensures
        r1 == r2,
{
}

/// Order within a step's stretch is irrelevant: two stretches holding
/// the same kinds, duplicates counted, satisfy the same steps.
pub proof fn lemma_step_order_irrelevant(step: BindKey, chunk1: Seq<Event>, chunk2: Seq<Event>)
    requires
        kinds_of(chunk1).to_multiset() == kinds_of(chunk2).to_multiset(),
    ensures
        step_matches(step, chunk1) == step_matches(step, chunk2),
{
}

/// Removing one shared value from two multisets preserves containment,
/// in both directions.
proof fn lemma_subset_remove(a: Multiset<Key>, b: Multiset<Key>, x: Key)
    requires
        a.count(x) >= 1,
        b.count(x) >= 1,
    ensures
        a.subset_of(b) == a.remove(x).subset_of(b.remove(x)),
{
    broadcast use vstd::multiset::group_multiset_axioms;

    if a.subset_of(b) {
        assert forall|v: Key| a.remove(x).count(v) <= b.remove(x).count(v) by {
            assert(a.count(v) <= b.count(v));
        }
    }
    if a.remove(x).subset_of(b.remove(x)) {
        assert forall|v: Key| a.count(v) <= b.count(v) by {
            assert(a.remove(x).count(v) <= b.remove(x).count(v));
        }
    }
}

/// The index of some event of `events` whose kind equals `kind`, or
/// `None` when no event qualifies.
fn find_kind(events: &Vec<Event>, kind: Key) -> (r: Option<usize>)
    ensures
        r matches Some(j) ==> (j as int) < events@.len() && events@[j as int].kind == kind,
        r is None ==> forall|j: int| 0 <= j < events@.len() ==> events@[j].kind != kind,
{
    let mut i: usize = 0;
    while i < events.len()
        invariant
            i <= events@.len(),
            forall|j: int| 0 <= j < i ==> events@[j].kind != kind,
        decreases events@.len() - i,
    {
        if events[i].kind == kind {
            return Some(i);
        }
        i += 1;
    }
    None
}

/// Whether the chunk satisfies the required kinds: every required kind,
/// duplicates counted separately, claims a distinct event of the chunk.
#[verifier::loop_isolation(false)]
fn step_chunk_matches(keys: &Vec<Key>, chunk: Vec<Event>) -> (r: bool)
    ensures
        r == keys@.to_multiset().subset_of(kinds_of(chunk@).to_multiset()),
{
    broadcast use vstd::seq_lib::group_to_multiset_ensures;

    let ghost chunk0 = chunk@;
    let mut remaining = chunk;
    let mut i: usize = 0;
    proof {
        assert(keys@.skip(0) =~= keys@);
    }
    while i < keys.len()
        invariant
            i <= keys@.len(),
            keys@.to_multiset().subset_of(kinds_of(chunk0).to_multiset())
                <==> keys@.skip(i as int).to_multiset().subset_of(
                kinds_of(remaining@).to_multiset(),
            ),
        decreases keys@.len() - i,
    {
        broadcast use vstd::seq_lib::group_to_multiset_ensures;

        let k = keys[i];
        let ghost rem0 = remaining@;
        let ghost req = keys@.skip(i as int);
        proof {
            assert(req[0] == keys@[i as int]);
            assert(req.contains(k));
            assert(req.to_multiset().count(k) >= 1);
        }
        match find_kind(&remaining, k) {
            None => {
                proof {
                    assert forall|j: int| 0 <= j < kinds_of(rem0).len() implies kinds_of(
                        rem0,
                    )[j] != k by {
                        assert(kinds_of(rem0)[j] == rem0[j].kind);
                    }
                    assert(!kinds_of(rem0).contains(k));
                    assert(kinds_of(rem0).to_multiset().count(k) == 0);
                    assert(!req.to_multiset().subset_of(kinds_of(rem0).to_multiset()));
                }
                return false;
            },
            Some(j) => {
                remaining.remove(j);
                proof {
                    assert(kinds_of(rem0.remove(j as int)) =~= kinds_of(rem0).remove(j as int));
                    assert(kinds_of(rem0)[j as int] == k);
                    assert(kinds_of(rem0).remove(j as int).to_multiset() == kinds_of(
                        rem0,
                    ).to_multiset().remove(k));
                    assert(kinds_of(rem0).to_multiset().count(k) >= 1) by {
                        assert(kinds_of(rem0).contains(k));
                    }
                    assert(req.remove(0) =~= keys@.skip(i as int + 1));
                    assert(keys@.skip(i as int + 1).to_multiset() == req.to_multiset().remove(
                        k,
                    ));
                    lemma_subset_remove(
                        req.to_multiset(),
                        kinds_of(rem0).to_multiset(),
                        k,
                    );
                }
            },
        }
        i += 1;
    }
    proof {
        assert(keys@.skip(keys@.len() as int) =~= Seq::<Key>::empty());
        assert(Seq::<Key>::empty().to_multiset() =~= Multiset::<Key>::empty());
        broadcast use vstd::multiset::group_multiset_axioms;

        assert(Multiset::<Key>::empty().subset_of(kinds_of(remaining@).to_multiset()));
    }
    true
}

/// The events of `v` from `from` (inclusive) to `to` (exclusive), in
/// order.
fn subvec(v: &Vec<Event>, from: usize, to: usize) -> (r: Vec<Event>)
    requires
        from <= to <= v@.len(),
    ensures
        r@ == v@.subrange(from as int, to as int),
{
    let mut r: Vec<Event> = Vec::new();
    let mut i: usize = from;
    while i < to
        invariant
            from <= i <= to <= v@.len(),
            r@ == v@.subrange(from as int, i as int),
        decreases to - i,
    {
        r.push(v[i]);
        proof {
            assert(r@ =~= v@.subrange(from as int, i + 1 as int));
        }
        i += 1;
    }
    r
}

/// Decides whether `key_set` is completed by the most recent events of
/// `history`. The result is a pure function of the pattern and the
/// history: evaluating it twice against unchanged inputs yields the same
/// answer. Too little history is a mismatch, never an error.
pub fn matches(key_set: &KeySet, history: &History) -> (r: bool)
    ensures
        r == spec_matches(*key_set, history@),
{
    let ghost steps = key_set.bind_keys@;
    let hlen = history.len();
    // First pass: the pattern's total length, bailing out as soon as it
    // exceeds the history length (which also rules out overflow).
    let mut total: usize = 0;
    let mut i: usize = 0;
    while i < key_set.bind_keys.len()
        invariant
            i <= steps.len(),
            steps == key_set.bind_keys@,
            hlen == history@.len(),
            total == total_len(steps.take(i as int)),
            total <= hlen,
        decreases steps.len() - i,
    {
        let k = key_set.bind_keys[i].len();
        proof {
            lemma_total_len_take_succ(steps, i as int);
            lemma_total_len_split(steps, i as int + 1);
            lemma_total_len_nonneg(steps.skip(i as int + 1));
        }
        if k > hlen - total {
            return false;
        }
        total = total + k;
        i += 1;
    }
    proof {
        assert(steps.take(steps.len() as int) =~= steps);
    }
    // total == total_len(steps) <= hlen: the insufficient-history case
    // is behind us, and the window below holds exactly `total` events.
    let window = history.last_n(total);
    let wlen = window.len();
    proof {
        assert(window@ =~= history@.skip(history@.len() - total as int));
        assert(steps.skip(0) =~= steps);
        assert(window@.skip(0) =~= window@);
    }
    let mut offset: usize = 0;
    let mut j: usize = 0;
    while j < key_set.bind_keys.len()
        invariant
            j <= steps.len(),
            steps == key_set.bind_keys@,
            offset == total_len(steps.take(j as int)),
            offset <= window@.len(),
            wlen == window@.len(),
            window@.len() == total_len(steps),
            spec_matches(*key_set, history@) == steps_match(steps, window@),
            steps_match(steps, window@) <==> steps_match(
                steps.skip(j as int),
                window@.skip(offset as int),
            ),
        decreases steps.len() - j,
    {
        let k = key_set.bind_keys[j].len();
        proof {
            lemma_total_len_take_succ(steps, j as int);
            lemma_total_len_split(steps, j as int + 1);
            lemma_total_len_nonneg(steps.skip(j as int + 1));
            assert(offset + k <= wlen);
        }
        // offset + k == total_len(take(j + 1)) <= window.len()
        let chunk = subvec(&window, offset, offset + k);
        let ghost tail = steps.skip(j as int);
        proof {
            assert(tail[0] == steps[j as int]);
            assert(window@.skip(offset as int).take(k as int) =~= chunk@);
            assert(window@.skip(offset as int).skip(k as int) =~= window@.skip(
                offset + k as int,
            ));
            assert(tail.drop_first() =~= steps.skip(j as int + 1));
        }
        let sm = step_chunk_matches(&key_set.bind_keys[j].keys, chunk);
        if !sm {
            return false;
        }
        let d = key_set.bind_keys[j].delay_time;
        if d != 0 && k > 0 && offset + k < window.len() {
            let last_t = window[offset + k - 1].time;
            let next_t = window[offset + k].time;
            proof {
                assert(window@.subrange(offset as int, offset + k as int).last() == window@[
                    offset + k - 1 as int
                ]);
            }
            if next_t < last_t || next_t - last_t > d {
                return false;
            }
        }
        offset = offset + k;
        j += 1;
    }
    proof {
        assert(steps.skip(steps.len() as int) =~= Seq::<BindKey>::empty());
    }
    true
}

} // verus!
