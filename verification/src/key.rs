//! The event model and the pattern model.
//!
//! A [`Key`] names the kind of a single input occurrence; an [`Event`] is
//! one recorded occurrence, a kind together with its timestamp. A
//! [`BindKey`] is one step of a chord: the multiset of kinds that must be
//! present together, plus the largest gap allowed before the following
//! step. A [`KeySet`] is a whole pattern, an ordered sequence of steps.

use vstd::prelude::*;

use crate::exception::Error;

verus! {

/// The kind of a single input occurrence.
///
/// Two events satisfy the same pattern requirement exactly when their
/// kinds are equal; timestamps never take part in this equality. The
/// codes carried by the first four variants identify the physical key or
/// button; the embedding application chooses the code assignment when it
/// translates raw events.
#[derive(Clone, Copy, Debug, PartialEq, Eq, Structural)]
pub enum Key {
    /// A keyboard key with the given code went down.
    KeyDown(u32),
    /// A keyboard key with the given code came up.
    KeyUp(u32),
    /// A mouse button with the given code went down.
    ButtonDown(u32),
    /// A mouse button with the given code came up.
    ButtonUp(u32),
    /// The pointer moved.
    PointerMove,
    /// The wheel turned.
    Wheel,
    /// A raw event the producer could not map to any of the kinds above.
    Unknown,
}

/// One recorded input occurrence: its kind and the moment it arrived,
/// in milliseconds on the producer's monotonic clock.
#[derive(Clone, Copy, Debug, PartialEq, Eq, Structural)]
pub struct Event {
    /// What happened.
    pub kind: Key,
    /// When it happened, in milliseconds.
    pub time: u64,
}

/// One step of a pattern: the event kinds that must all be present in the
/// step's stretch of history (duplicates are meaningful: two equal entries
/// demand two distinct events), and `delay_time`, the largest gap in
/// milliseconds allowed between this step's stretch and the first event of
/// the following step. A `delay_time` of zero means no constraint.
#[derive(Debug)]
pub struct BindKey {
    /// The required event kinds. Order carries no meaning.
    pub keys: Vec<Key>,
    /// Largest allowed gap to the next step, in milliseconds; zero means
    /// unconstrained.
    pub delay_time: u64,
}

/// Structural equality of two steps: same required kinds in the same
/// stored order, same gap budget.
pub open spec fn bind_key_eq(a: BindKey, b: BindKey) -> bool {
    a.keys@ == b.keys@ && a.delay_time == b.delay_time
}

impl BindKey {
    /// A step requiring the given kinds, with no gap constraint.
    pub fn new(keys: Vec<Key>) -> (r: Self)
        ensures
            r.keys@ == keys@,
            r.delay_time == 0,
    {
        BindKey { keys, delay_time: 0 }
    }

    /// Sets the gap budget to `time` milliseconds and returns the updated
    /// step, so that construction can be chained.
    pub fn delay(&mut self, time: u64) -> (r: Self)
        ensures
            final(self).keys@ == old(self).keys@,
            final(self).delay_time == time,
            bind_key_eq(r, *final(self)),
    {
        self.delay_time = time;
        self.clone()
    }

    /// How many events this step requires.
    pub fn len(&self) -> (n: usize)
        ensures
            n == self.keys@.len(),
    {
        self.keys.len()
    }
}

impl Clone for BindKey {
    fn clone(&self) -> (r: Self)
        ensures
            bind_key_eq(r, *self),
    {
        let keys = self.keys.clone();
        proof {
            assert(keys@ =~= self.keys@);
        }
        BindKey { keys, delay_time: self.delay_time }
    }
}

impl PartialEq for BindKey {
    fn eq(&self, other: &Self) -> (r: bool) {
        if self.delay_time != other.delay_time {
            return false;
        }
        if self.keys.len() != other.keys.len() {
            return false;
        }
        let mut i: usize = 0;
        while i < self.keys.len()
            invariant
                i <= self.keys@.len(),
                self.keys@.len() == other.keys@.len(),
                forall|j: int| 0 <= j < i ==> self.keys@[j] == other.keys@[j],
            decreases self.keys@.len() - i,
        {
            if self.keys[i] != other.keys[i] {
                return false;
            }
            i += 1;
        }
        proof {
            assert(self.keys@ =~= other.keys@);
        }
        true
    }
}

impl vstd::std_specs::cmp::PartialEqSpecImpl for BindKey {
    open spec fn obeys_eq_spec() -> bool {
        true
    }

    open spec fn eq_spec(&self, other: &Self) -> bool {
        bind_key_eq(*self, *other)
    }
}

/// A pattern: the ordered steps of a chord. Its total length is the sum
/// of the steps' required-event counts; a pattern of total length zero is
/// invalid and rejected at registration time.
#[derive(Debug)]
pub struct KeySet {
    /// The steps, in the order the chord must be performed.
    pub bind_keys: Vec<BindKey>,
}

/// The total number of events a sequence of steps requires.
pub open spec fn total_len(steps: Seq<BindKey>) -> int
    decreases steps.len(),
{
    if steps.len() == 0 {
        0
    } else {
        steps[0].keys@.len() + total_len(steps.drop_first())
    }
}

/// Structural equality of two patterns: pairwise equal steps.
pub open spec fn key_set_eq(a: KeySet, b: KeySet) -> bool {
    &&& a.bind_keys@.len() == b.bind_keys@.len()
    &&& forall|i: int|
        0 <= i < a.bind_keys@.len() ==> bind_key_eq(#[trigger] a.bind_keys@[i], b.bind_keys@[i])
}

/// A sequence of steps requires a non-negative number of events.
pub proof fn lemma_total_len_nonneg(steps: Seq<BindKey>)
    ensures
        total_len(steps) >= 0,
    decreases steps.len(),
{
    if steps.len() > 0 {
        lemma_total_len_nonneg(steps.drop_first());
    }
}

/// The total length splits at any index into the totals of the prefix and
/// the suffix.
pub proof fn lemma_total_len_split(steps: Seq<BindKey>, i: int)
    requires
        0 <= i <= steps.len(),
    ensures
        total_len(steps) == total_len(steps.take(i)) + total_len(steps.skip(i)),
    decreases steps.len(),
{
    if i == 0 {
        assert(steps.take(0) =~= Seq::<BindKey>::empty());
        assert(steps.skip(0) =~= steps);
    } else {
        lemma_total_len_split(steps.drop_first(), i - 1);
        assert(steps.drop_first().take(i - 1) =~= steps.take(i).drop_first());
        assert(steps.drop_first().skip(i - 1) =~= steps.skip(i));
        assert(steps.take(i)[0] == steps[0]);
    }
}

/// Extending a prefix of steps by one adds that step's requirement count.
pub proof fn lemma_total_len_take_succ(steps: Seq<BindKey>, i: int)
    requires
        0 <= i < steps.len(),
    ensures
        total_len(steps.take(i + 1)) == total_len(steps.take(i)) + steps[i].keys@.len(),
    decreases steps.len(),
{
    if i == 0 {
        assert(steps.take(0) =~= Seq::<BindKey>::empty());
        assert(steps.take(1).drop_first() =~= Seq::<BindKey>::empty());
    } else {
        lemma_total_len_take_succ(steps.drop_first(), i - 1);
        assert(steps.drop_first().take(i) =~= steps.take(i + 1).drop_first());
        assert(steps.drop_first().take(i - 1) =~= steps.take(i).drop_first());
        assert(steps.take(i + 1)[0] == steps[0]);
        assert(steps.take(i)[0] == steps[0]);
    }
}

impl KeySet {
    /// A pattern made of the given steps.
    pub fn new(key: Vec<BindKey>) -> (r: Self)
        ensures
            r.bind_keys@ == key@,
    {
        KeySet { bind_keys: key }
    }

    /// Appends a step and returns the updated pattern, so that
    /// construction can be chained.
    pub fn bind(&mut self, bind_key: BindKey) -> (r: Self)
        ensures
            final(self).bind_keys@ == old(self).bind_keys@.push(bind_key),
            key_set_eq(r, *final(self)),
    {
        self.bind_keys.push(bind_key);
        self.clone()
    }

    /// The pattern's total length: how many events it requires in all.
    pub fn len(&self) -> (n: usize)
        requires
            total_len(self.bind_keys@) <= usize::MAX,
        ensures
            n == total_len(self.bind_keys@),
    {
        let mut count: usize = 0;
        let mut i: usize = 0;
        while i < self.bind_keys.len()
            invariant
                i <= self.bind_keys@.len(),
                count == total_len(self.bind_keys@.take(i as int)),
                total_len(self.bind_keys@) <= usize::MAX,
            decreases self.bind_keys@.len() - i,
        {
            proof {
                lemma_total_len_take_succ(self.bind_keys@, i as int);
                lemma_total_len_split(self.bind_keys@, i as int + 1);
                lemma_total_len_nonneg(self.bind_keys@.skip(i as int + 1));
                lemma_total_len_nonneg(self.bind_keys@.take(i as int));
            }
            count = count + self.bind_keys[i].len();
            i += 1;
        }
        proof {
            assert(self.bind_keys@.take(self.bind_keys@.len() as int) =~= self.bind_keys@);
        }
        count
    }

    /// How many events the step at `idx` requires, or `OutOfIndex` when
    /// `idx` does not name a step.
    pub fn count(&self, idx: usize) -> (r: Result<usize, Error>)
        ensures
            idx < self.bind_keys@.len() ==> r == Ok::<usize, Error>(
                self.bind_keys@[idx as int].keys@.len() as usize,
            ),
            idx >= self.bind_keys@.len() ==> r == Err::<usize, Error>(Error::OutOfIndex),
    {
        if idx >= self.bind_keys.len() {
            return Err(Error::OutOfIndex);
        }
        Ok(self.bind_keys[idx].len())
    }

    /// The last step, or `None` for a pattern without steps.
    pub fn last(&self) -> (r: Option<&BindKey>)
        ensures
            self.bind_keys@.len() == 0 ==> r is None,
            self.bind_keys@.len() > 0 ==> (r matches Some(k) && *k == self.bind_keys@.last()),
    {
        if self.bind_keys.len() == 0 {
            None
        } else {
            Some(&self.bind_keys[self.bind_keys.len() - 1])
        }
    }

    /// Whether the pattern requires no events at all.
    pub fn is_empty(&self) -> (r: bool)
        ensures
            r == (total_len(self.bind_keys@) == 0),
    {
        let mut i: usize = 0;
        while i < self.bind_keys.len()
            invariant
                i <= self.bind_keys@.len(),
                total_len(self.bind_keys@.take(i as int)) == 0,
            decreases self.bind_keys@.len() - i,
        {
            if self.bind_keys[i].len() > 0 {
                proof {
                    lemma_total_len_take_succ(self.bind_keys@, i as int);
                    lemma_total_len_split(self.bind_keys@, i as int + 1);
                    lemma_total_len_nonneg(self.bind_keys@.skip(i as int + 1));
                }
                return false;
            }
            proof {
                lemma_total_len_take_succ(self.bind_keys@, i as int);
            }
            i += 1;
        }
        proof {
            assert(self.bind_keys@.take(self.bind_keys@.len() as int) =~= self.bind_keys@);
        }
        true
    }
}

impl Clone for KeySet {
    fn clone(&self) -> (r: Self)
        ensures
            key_set_eq(r, *self),
    {
        KeySet { bind_keys: self.bind_keys.clone() }
    }
}

impl PartialEq for KeySet {
    fn eq(&self, other: &Self) -> (r: bool) {
        if self.bind_keys.len() != other.bind_keys.len() {
            return false;
        }
        let mut i: usize = 0;
        while i < self.bind_keys.len()
            invariant
                i <= self.bind_keys@.len(),
                self.bind_keys@.len() == other.bind_keys@.len(),
                forall|j: int|
                    0 <= j < i ==> bind_key_eq(
                        #[trigger] self.bind_keys@[j],
                        other.bind_keys@[j],
                    ),
            decreases self.bind_keys@.len() - i,
        {
            if !(self.bind_keys[i] == other.bind_keys[i]) {
                return false;
            }
            i += 1;
        }
        true
    }
}

impl vstd::std_specs::cmp::PartialEqSpecImpl for KeySet {
    open spec fn obeys_eq_spec() -> bool {
        true
    }

    open spec fn eq_spec(&self, other: &Self) -> bool {
        key_set_eq(*self, *other)
    }
}

impl Default for KeySet {
    /// A pattern with no steps; steps are then added with
    /// [`KeySet::bind`].
    fn default() -> (r: Self)
        ensures
            r.bind_keys@.len() == 0,
    {
        KeySet { bind_keys: Vec::new() }
    }
}

impl From<Vec<BindKey>> for KeySet {
    fn from(value: Vec<BindKey>) -> (r: Self) {
        KeySet { bind_keys: value }
    }
}

impl vstd::std_specs::convert::FromSpecImpl<Vec<BindKey>> for KeySet {
    open spec fn obeys_from_spec() -> bool {
        true
    }

    open spec fn from_spec(v: Vec<BindKey>) -> Self {
        KeySet { bind_keys: v }
    }
}

impl From<BindKey> for KeySet {
    fn from(value: BindKey) -> (r: Self)
        ensures
            r.bind_keys@.len() == 1,
            r.bind_keys@[0] == value,
    {
        let mut bind_keys: Vec<BindKey> = Vec::new();
        bind_keys.push(value);
        KeySet { bind_keys }
    }
}

impl vstd::std_specs::convert::FromSpecImpl<BindKey> for KeySet {
    // The singleton vector this conversion builds has no spec-level
    // constructor, so the contract stands on `from` itself instead.
    open spec fn obeys_from_spec() -> bool {
        false
    }

    open spec fn from_spec(v: BindKey) -> Self {
        arbitrary()
    }
}

} // verus!
