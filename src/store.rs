use vstd::prelude::*;

use crate::envelope::{
    assigned_sequences, committed, committed_all, expected_for, latest_of, models, revision_matches,
    sequences_after, EnvelopeModel, EventEnvelope, ExpectedRevision, NewEvent, StreamId,
};
use crate::error::Error;

verus! {

/// The events of one stream, in sequence order.
struct StreamLog {
    aggregate_type: String,
    aggregate_id: String,
    envelopes: Vec<EventEnvelope>,
}

/// An event store that keeps its streams in memory. The revision check and
/// the write of an append are one step, so of any appends that present the
/// same revision at most one can succeed.
pub struct MemoryEventStore {
    streams: Vec<StreamLog>,
}

/// The expected revision as the last sequence it names.
pub open spec fn expected_latest(expected: ExpectedRevision) -> Option<u64> {
    match expected {
        ExpectedRevision::NoStream => None,
        ExpectedRevision::Exact(v) => Some(v),
    }
}

/// A log whose envelopes carry the sequences 0, 1, 2, ... in order.
pub open spec fn contiguous(log: Seq<EnvelopeModel>) -> bool {
    forall|k: int| 0 <= k < log.len() ==> (#[trigger] log[k]).sequence == k
}

/// The log after appending `events` with the revision `expected`, or `None`
/// where the revision does not match and nothing is written.
pub open spec fn append_to_log(
    log: Seq<EnvelopeModel>,
    key: (Seq<char>, Seq<char>),
    expected: ExpectedRevision,
    events: Seq<NewEvent>,
    created_at: int,
) -> Option<Seq<EnvelopeModel>> {
    if revision_matches(expected, log.len()) {
        Some(log + committed_all(key, created_at, log.len(), events))
    } else {
        None
    }
}

/// The envelopes of `log` whose sequences are among `ids`, in stream order.
pub open spec fn select(log: Seq<EnvelopeModel>, ids: Seq<u64>) -> Seq<EnvelopeModel> {
    log.filter(|e: EnvelopeModel| ids.contains(e.sequence as u64))
}

/// The log and the number of successful appends after `attempts` (each a
/// batch of events and its timestamp) are made in turn, all presenting the
/// revision `expected`.
pub open spec fn race(
    log: Seq<EnvelopeModel>,
    key: (Seq<char>, Seq<char>),
    expected: ExpectedRevision,
    attempts: Seq<(Seq<NewEvent>, int)>,
) -> (Seq<EnvelopeModel>, nat)
    decreases attempts.len(),
{
    if attempts.len() == 0 {
        (log, 0)
    } else {
        let (l, wins) = race(log, key, expected, attempts.drop_last());
        match append_to_log(l, key, expected, attempts.last().0, attempts.last().1) {
            Some(l2) => (l2, wins + 1),
            None => (l, wins),
        }
    }
}

/// Of several appends of non-empty batches that present the stream's current
/// revision, exactly one succeeds: the first to reach the store. The others
/// fail, and the stream ends up holding the winner's events alone.
pub proof fn lemma_single_winner(
    log: Seq<EnvelopeModel>,
    key: (Seq<char>, Seq<char>),
    expected: ExpectedRevision,
    attempts: Seq<(Seq<NewEvent>, int)>,
)
    requires
        revision_matches(expected, log.len()),
        attempts.len() >= 1,
        forall|i: int| 0 <= i < attempts.len() ==> (#[trigger] attempts[i]).0.len() > 0,
    ensures
        race(log, key, expected, attempts) == (
            log + committed_all(key, attempts[0].1, log.len(), attempts[0].0),
            1nat,
        ),
    decreases attempts.len(),
{
    if attempts.len() > 1 {
        let prefix = attempts.drop_last();
        assert(prefix[0] == attempts[0]);
        assert forall|i: int| 0 <= i < prefix.len() implies (#[trigger] prefix[i]).0.len() > 0 by {
            assert(prefix[i] == attempts[i]);
        }
        lemma_single_winner(log, key, expected, prefix);
        assert(attempts[0].0.len() > 0);
        let l1 = log + committed_all(key, attempts[0].1, log.len(), attempts[0].0);
        assert(l1.len() > log.len());
        assert(!revision_matches(expected, l1.len()));
        assert(append_to_log(l1, key, expected, attempts.last().0, attempts.last().1) is None);
    } else {
        assert(attempts.drop_last().len() == 0);
        assert(race(log, key, expected, attempts.drop_last()) == (log, 0nat));
        assert(attempts.last() == attempts[0]);
    }
}

/// Events read back by the sequences that their append returned are the
/// events that were appended: same type tags, same payloads, in order.
pub proof fn lemma_round_trip(
    log: Seq<EnvelopeModel>,
    key: (Seq<char>, Seq<char>),
    expected: ExpectedRevision,
    events: Seq<NewEvent>,
    created_at: int,
)
    requires
        contiguous(log),
        revision_matches(expected, log.len()),
        log.len() + events.len() < u64::MAX,
    ensures
        append_to_log(log, key, expected, events, created_at) matches Some(l2) && {
            let read = select(l2, assigned_sequences(latest_of(log.len()), events.len()));
            &&& read == committed_all(key, created_at, log.len(), events)
            &&& read.len() == events.len()
            &&& forall|i: int|
                0 <= i < events.len() ==> (#[trigger] read[i]).event_type == events[i].event_type@
                    && read[i].event_data == events[i].event_data@
        },
{
    let ids = assigned_sequences(latest_of(log.len()), events.len());
    let fresh = committed_all(key, created_at, log.len(), events);
    let pred = |e: EnvelopeModel| ids.contains(e.sequence as u64);
    assert forall|k: int| 0 <= k < log.len() implies !pred(#[trigger] log[k]) by {
        if ids.contains(log[k].sequence as u64) {
            let j = choose|j: int| 0 <= j < ids.len() && ids[j] == log[k].sequence as u64;
        }
    }
    assert forall|k: int| 0 <= k < fresh.len() implies pred(#[trigger] fresh[k]) by {
        assert(ids[k] == fresh[k].sequence as u64);
    }
    lemma_filter_none(log, pred);
    lemma_filter_all(fresh, pred);
    Seq::filter_distributes_over_add(log, fresh, pred);
    assert(log.filter(pred) + fresh.filter(pred) =~= fresh);
}

/// Two successive appends, each presenting the latest sequence read just
/// before it, both succeed; the second batch's sequences continue the first's
/// without a gap, and the log stays numbered 0, 1, 2, ...
pub proof fn lemma_successive_appends(
    log: Seq<EnvelopeModel>,
    key: (Seq<char>, Seq<char>),
    first: Seq<NewEvent>,
    second: Seq<NewEvent>,
    t1: int,
    t2: int,
)
    requires
        contiguous(log),
        first.len() > 0,
        second.len() > 0,
        log.len() + first.len() + second.len() < u64::MAX,
    ensures
        append_to_log(log, key, expected_for(latest_of(log.len())), first, t1) matches Some(l1) && {
            let ids1 = assigned_sequences(latest_of(log.len()), first.len());
            let ids2 = assigned_sequences(latest_of(l1.len()), second.len());
            &&& ids1[0] == log.len()
            &&& append_to_log(l1, key, expected_for(latest_of(l1.len())), second, t2) matches Some(
                l2,
            ) && contiguous(l2)
            &&& ids2[0] == ids1[ids1.len() - 1] + 1
            &&& forall|i: int| 0 <= i < ids1.len() - 1 ==> #[trigger] ids1[i + 1] == ids1[i] + 1
            &&& forall|i: int| 0 <= i < ids2.len() - 1 ==> #[trigger] ids2[i + 1] == ids2[i] + 1
        },
{
    let l1 = log + committed_all(key, t1, log.len(), first);
    assert(contiguous(l1)) by {
        assert forall|k: int| 0 <= k < l1.len() implies (#[trigger] l1[k]).sequence == k by {
            if k >= log.len() {
                assert(l1[k] == committed_all(key, t1, log.len(), first)[k - log.len()]);
            }
        }
    }
    let l2 = l1 + committed_all(key, t2, l1.len(), second);
    assert(contiguous(l2)) by {
        assert forall|k: int| 0 <= k < l2.len() implies (#[trigger] l2[k]).sequence == k by {
            if k >= l1.len() {
                assert(l2[k] == committed_all(key, t2, l1.len(), second)[k - l1.len()]);
            } else {
                assert(l2[k] == l1[k]);
            }
        }
    }
}

proof fn lemma_filter_none(s: Seq<EnvelopeModel>, pred: spec_fn(EnvelopeModel) -> bool)
    requires
        forall|k: int| 0 <= k < s.len() ==> !pred(#[trigger] s[k]),
    ensures
        s.filter(pred) == Seq::<EnvelopeModel>::empty(),
    decreases s.len(),
{
    reveal(Seq::filter);
    if s.len() > 0 {
        assert forall|k: int| 0 <= k < s.drop_last().len() implies !pred(#[trigger] s.drop_last()[k]) by {
            assert(s.drop_last()[k] == s[k]);
        }
        lemma_filter_none(s.drop_last(), pred);
    }
}

proof fn lemma_filter_all(s: Seq<EnvelopeModel>, pred: spec_fn(EnvelopeModel) -> bool)
    requires
        forall|k: int| 0 <= k < s.len() ==> pred(#[trigger] s[k]),
    ensures
        s.filter(pred) == s,
    decreases s.len(),
{
    reveal(Seq::filter);
    if s.len() > 0 {
        assert forall|k: int| 0 <= k < s.drop_last().len() implies pred(#[trigger] s.drop_last()[k]) by {
            assert(s.drop_last()[k] == s[k]);
        }
        lemma_filter_all(s.drop_last(), pred);
        assert(s.drop_last().push(s.last()) =~= s);
    }
}

/// A stream that was never appended to has no latest sequence. Its first
/// append must present `NoStream` and commits sequence 0; a second append that
/// presents `NoStream` fails.
pub proof fn lemma_absent_stream(
    key: (Seq<char>, Seq<char>),
    first: Seq<NewEvent>,
    second: Seq<NewEvent>,
    t1: int,
    t2: int,
    v: u64,
)
    requires
        first.len() > 0,
    ensures
        latest_of(0) == None::<u64>,
        append_to_log(Seq::empty(), key, ExpectedRevision::Exact(v), first, t1) is None,
        append_to_log(Seq::empty(), key, ExpectedRevision::NoStream, first, t1) matches Some(l) && {
            &&& l[0].sequence == 0
            &&& append_to_log(l, key, ExpectedRevision::NoStream, second, t2) is None
        },
{
}

/// Whether `x` is among `ids`.
pub(crate) fn contains_id(ids: &Vec<u64>, x: u64) -> (r: bool)
    ensures
        r == ids@.contains(x),
{
    let mut i: usize = 0;
    while i < ids.len()
        invariant
            i <= ids@.len(),
            forall|j: int| 0 <= j < i ==> ids@[j] != x,
        decreases ids@.len() - i,
    {
        if ids[i] == x {
            assert(ids@[i as int] == x);
            return true;
        }
        i = i + 1;
    }
    false
}

impl MemoryEventStore {
    spec fn key_at(self, i: int) -> (Seq<char>, Seq<char>) {
        (self.streams@[i].aggregate_type@, self.streams@[i].aggregate_id@)
    }

    spec fn has(self, key: (Seq<char>, Seq<char>)) -> bool {
        exists|i: int| 0 <= i < self.streams@.len() && self.key_at(i) == key
    }

    /// The envelopes of the stream `key`; empty for an absent stream.
    pub closed spec fn log(self, key: (Seq<char>, Seq<char>)) -> Seq<EnvelopeModel> {
        if self.has(key) {
            let i = choose|i: int| 0 <= i < self.streams@.len() && self.key_at(i) == key;
            models(self.streams@[i].envelopes@)
        } else {
            Seq::empty()
        }
    }

    /// Stream keys are unique and each stream's envelopes carry its key and
    /// the sequences 0, 1, 2, ... in order.
    pub closed spec fn wf(self) -> bool {
        &&& forall|i: int, j: int|
            0 <= i < self.streams@.len() && 0 <= j < self.streams@.len() && self.key_at(i)
                == self.key_at(j) ==> i == j
        &&& forall|i: int, k: int|
            0 <= i < self.streams@.len() && 0 <= k < self.streams@[i].envelopes@.len() ==> {
                let e = #[trigger] self.streams@[i].envelopes@[k];
                &&& e.sequence == k
                &&& e.aggregate_type@ == self.streams@[i].aggregate_type@
                &&& e.aggregate_id@ == self.streams@[i].aggregate_id@
            }
    }

    proof fn lemma_log_at(self, i: int)
        requires
            self.wf(),
            0 <= i < self.streams@.len(),
        ensures
            self.log(self.key_at(i)) == models(self.streams@[i].envelopes@),
    {
        assert(self.has(self.key_at(i)));
    }

    /// Every stream of a well-formed store numbers its events 0, 1, 2, ...
    /// without gaps, so successive appends assign strictly increasing
    /// sequences that start at 0.
    pub proof fn lemma_sequences_contiguous(self, key: (Seq<char>, Seq<char>))
        requires
            self.wf(),
        ensures
            contiguous(self.log(key)),
            self.log(key).len() <= u64::MAX + 1,
            forall|k: int| 0 <= k < self.log(key).len() ==> (#[trigger] self.log(key)[k]).aggregate_type == key.0
                && self.log(key)[k].aggregate_id == key.1,
    {
        if self.has(key) {
            let i = choose|i: int| 0 <= i < self.streams@.len() && self.key_at(i) == key;
            self.lemma_log_at(i);
            assert forall|k: int| 0 <= k < self.log(key).len() implies (#[trigger] self.log(key)[k]).sequence == k
                && self.log(key)[k].aggregate_type == key.0
                && self.log(key)[k].aggregate_id == key.1 by {
                let e = self.streams@[i].envelopes@[k];
            }
            let n = self.log(key).len();
            if n > 0 {
                assert(self.log(key)[n - 1].sequence == n - 1);
                assert(self.log(key)[n - 1] == self.streams@[i].envelopes@[n - 1]@);
            }
        }
    }

    /// An empty store: every stream is absent.
    pub fn new() -> (r: MemoryEventStore)
        ensures
            r.wf(),
            forall|key: (Seq<char>, Seq<char>)| (#[trigger] r.log(key)).len() == 0,
    {
        MemoryEventStore { streams: Vec::new() }
    }

    fn find(&self, stream: &StreamId) -> (r: Option<usize>)
        requires
            self.wf(),
        ensures
            match r {
                Some(i) => i < self.streams@.len() && self.key_at(i as int) == stream.key(),
                None => !self.has(stream.key()) && self.log(stream.key()).len() == 0,
            },
    {
        let mut i: usize = 0;
        while i < self.streams.len()
            invariant
                i <= self.streams@.len(),
                forall|j: int| 0 <= j < i ==> self.key_at(j) != stream.key(),
            decreases self.streams@.len() - i,
        {
            if self.streams[i].aggregate_type == stream.aggregate_type
                && self.streams[i].aggregate_id == stream.aggregate_id {
                return Some(i);
            }
            i = i + 1;
        }
        None
    }

    /// The number of events in the stream.
    pub fn stream_len(&self, stream: &StreamId) -> (r: usize)
        requires
            self.wf(),
        ensures
            r == self.log(stream.key()).len(),
    {
        match self.find(stream) {
            None => 0,
            Some(i) => {
                proof { self.lemma_log_at(i as int); }
                self.streams[i].envelopes.len()
            },
        }
    }

    /// The highest committed sequence of the stream, or `None` if nothing was
    /// ever appended to it.
    pub fn latest_sequence(&self, stream: &StreamId) -> (r: Option<u64>)
        requires
            self.wf(),
        ensures
            r == latest_of(self.log(stream.key()).len()),
    {
        let n = self.stream_len(stream);
        if n == 0 {
            None
        } else {
            proof { self.lemma_sequences_contiguous(stream.key()); }
            Some((n - 1) as u64)
        }
    }

    /// Appends `events` to the stream if its revision is `expected`, as one
    /// step: either all events are committed with consecutive sequences, or
    /// nothing changes and the append fails with `Conflict`.
    pub fn append_conditional(
        &mut self,
        stream: &StreamId,
        expected: ExpectedRevision,
        events: &Vec<NewEvent>,
        created_at: i64,
    ) -> (r: Result<Vec<u64>, Error>)
        requires
            old(self).wf(),
            old(self).log(stream.key()).len() + events@.len() < u64::MAX,
        ensures
            final(self).wf(),
            (r is Ok) == revision_matches(expected, old(self).log(stream.key()).len()),
            r matches Ok(ids) ==> {
                &&& Some(final(self).log(stream.key())) == append_to_log(
                    old(self).log(stream.key()),
                    stream.key(),
                    expected,
                    events@,
                    created_at as int,
                )
                &&& ids@ == assigned_sequences(
                    latest_of(old(self).log(stream.key()).len()),
                    events@.len(),
                )
            },
            r is Err ==> *final(self) == *old(self) && r == Err::<Vec<u64>, Error>(
                Error::Conflict {
                    expected: expected_latest(expected),
                    actual: latest_of(old(self).log(stream.key()).len()),
                },
            ),
            forall|k: (Seq<char>, Seq<char>)|
                k != stream.key() ==> #[trigger] final(self).log(k) == old(self).log(k),
    {
        let len = self.stream_len(stream);
        let matches = match expected {
            ExpectedRevision::NoStream => len == 0,
            ExpectedRevision::Exact(v) => len as u64 > 0 && v == (len - 1) as u64,
        };
        if !matches {
            let actual = if len == 0 { None } else { Some((len - 1) as u64) };
            let exp = match expected {
                ExpectedRevision::NoStream => None,
                ExpectedRevision::Exact(v) => Some(v),
            };
            return Err(Error::Conflict { expected: exp, actual });
        }
        let latest = if len == 0 { None } else { Some((len - 1) as u64) };
        let ids = sequences_after(latest, events.len());
        let ghost key = stream.key();
        let ghost old_store = *self;
        let idx: usize = match self.find(stream) {
            Some(i) => i,
            None => {
                self.streams.push(
                    StreamLog {
                        aggregate_type: stream.aggregate_type.clone(),
                        aggregate_id: stream.aggregate_id.clone(),
                        envelopes: Vec::new(),
                    },
                );
                proof {
                    let n = old_store.streams@.len() as int;
                    assert(self.key_at(n) == key);
                    assert forall|i: int, j: int|
                        0 <= i < self.streams@.len() && 0 <= j < self.streams@.len()
                            && self.key_at(i) == self.key_at(j) implies i == j by {
                        if i < n {
                            assert(self.streams@[i] == old_store.streams@[i]);
                            assert(old_store.key_at(i) == self.key_at(i));
                        }
                        if j < n {
                            assert(self.streams@[j] == old_store.streams@[j]);
                            assert(old_store.key_at(j) == self.key_at(j));
                        }
                        if i < n && j < n {
                            assert(old_store.key_at(i) == old_store.key_at(j));
                        }
                        if i < old_store.streams@.len() && j == old_store.streams@.len() {
                            assert(old_store.key_at(i) == self.key_at(i));
                            assert(old_store.has(key));
                        }
                        if j < old_store.streams@.len() && i == old_store.streams@.len() {
                            assert(old_store.key_at(j) == self.key_at(j));
                            assert(old_store.has(key));
                        }
                    }
                    assert forall|k: (Seq<char>, Seq<char>)| k != key implies #[trigger] self.log(k)
                        == old_store.log(k) by {
                        if old_store.has(k) {
                            let i = choose|i: int| 0 <= i < old_store.streams@.len() && old_store.key_at(i) == k;
                            assert(self.key_at(i) == k);
                            self.lemma_log_at(i);
                            old_store.lemma_log_at(i);
                        } else if self.has(k) {
                            let i = choose|i: int| 0 <= i < self.streams@.len() && self.key_at(i) == k;
                            if i < old_store.streams@.len() {
                                assert(old_store.key_at(i) == k);
                            }
                        }
                    }
                    self.lemma_log_at(self.streams@.len() - 1);
                }
                self.streams.len() - 1
            },
        };
        let ghost mid = *self;
        proof {
            mid.lemma_log_at(idx as int);
        }
        let mut i: usize = 0;
        while i < events.len()
            invariant
                0 <= idx < self.streams@.len(),
                self.streams@.len() == mid.streams@.len(),
                mid.wf(),
                mid.key_at(idx as int) == key,
                key == stream.key(),
                len == mid.streams@[idx as int].envelopes@.len(),
                len + events@.len() < u64::MAX,
                i <= events@.len(),
                forall|j: int| 0 <= j < self.streams@.len() && j != idx ==> self.streams@[j] == mid.streams@[j],
                self.streams@[idx as int].aggregate_type == mid.streams@[idx as int].aggregate_type,
                self.streams@[idx as int].aggregate_id == mid.streams@[idx as int].aggregate_id,
                models(self.streams@[idx as int].envelopes@) == models(mid.streams@[idx as int].envelopes@)
                    + committed_all(key, created_at as int, len as nat, events@.take(i as int)),
                self.streams@[idx as int].envelopes@.len() == len + i,
                forall|k: int| 0 <= k < self.streams@[idx as int].envelopes@.len() ==> {
                    let e = #[trigger] self.streams@[idx as int].envelopes@[k];
                    &&& e.sequence == k
                    &&& e.aggregate_type@ == key.0
                    &&& e.aggregate_id@ == key.1
                },
            decreases events@.len() - i,
        {
            let env = EventEnvelope {
                sequence: len as u64 + i as u64,
                created_at,
                aggregate_type: stream.aggregate_type.clone(),
                aggregate_id: stream.aggregate_id.clone(),
                event_type: events[i].event_type.clone(),
                event_data: events[i].event_data.clone(),
            };
            let ghost before = self.streams@[idx as int].envelopes@;
            self.streams[idx].envelopes.push(env);
            proof {
                assert(events@.take(i + 1) == events@.take(i as int).push(events@[i as int]));
                assert(models(before.push(env)) =~= models(before).push(env@));
                assert(env@ == committed(key, created_at as int, (len + i) as nat, events@[i as int]));
                assert(committed_all(key, created_at as int, len as nat, events@.take(i + 1))
                    =~= committed_all(key, created_at as int, len as nat, events@.take(i as int)).push(env@));
            }
            i = i + 1;
        }
        proof {
            assert(events@.take(events@.len() as int) =~= events@);
            assert forall|a: int, b: int|
                0 <= a < self.streams@.len() && 0 <= b < self.streams@.len() && self.key_at(a)
                    == self.key_at(b) implies a == b by {
                assert(self.key_at(a) == mid.key_at(a));
                assert(self.key_at(b) == mid.key_at(b));
            }
            assert forall|a: int, k: int|
                0 <= a < self.streams@.len() && 0 <= k < self.streams@[a].envelopes@.len() implies {
                    let e = #[trigger] self.streams@[a].envelopes@[k];
                    &&& e.sequence == k
                    &&& e.aggregate_type@ == self.streams@[a].aggregate_type@
                    &&& e.aggregate_id@ == self.streams@[a].aggregate_id@
                } by {
                if a != idx {
                    assert(self.streams@[a] == mid.streams@[a]);
                }
            }
            assert(self.wf());
            self.lemma_log_at(idx as int);
            assert(self.key_at(idx as int) == key);
            assert forall|k: (Seq<char>, Seq<char>)| k != key implies #[trigger] self.log(k)
                == mid.log(k) by {
                if mid.has(k) {
                    let a = choose|a: int| 0 <= a < mid.streams@.len() && mid.key_at(a) == k;
                    assert(self.key_at(a) == k);
                    self.lemma_log_at(a);
                    mid.lemma_log_at(a);
                } else if self.has(k) {
                    let a = choose|a: int| 0 <= a < self.streams@.len() && self.key_at(a) == k;
                    assert(mid.key_at(a) == k);
                }
            }
        }
        Ok(ids)
    }

    /// The envelopes of the stream from sequence `from` on, in order.
    pub fn read_stream(&self, stream: &StreamId, from: u64) -> (r: Vec<EventEnvelope>)
        requires
            self.wf(),
        ensures
            models(r@) == if from < self.log(stream.key()).len() {
                self.log(stream.key()).subrange(from as int, self.log(stream.key()).len() as int)
            } else {
                Seq::empty()
            },
    {
        let mut r: Vec<EventEnvelope> = Vec::new();
        match self.find(stream) {
            None => {
                assert(models(r@) =~= Seq::<EnvelopeModel>::empty());
                r
            },
            Some(idx) => {
                proof { self.lemma_log_at(idx as int); }
                let envs = &self.streams[idx].envelopes;
                let ghost log = models(envs@);
                if from as u128 >= envs.len() as u128 {
                    assert(models(r@) =~= Seq::<EnvelopeModel>::empty());
                    return r;
                }
                let mut k: usize = from as usize;
                while k < envs.len()
                    invariant
                        from <= k <= envs@.len(),
                        log == models(envs@),
                        models(r@) == log.subrange(from as int, k as int),
                    decreases envs@.len() - k,
                {
                    let ghost before = r@;
                    let e = envs[k].duplicate();
                    r.push(e);
                    assert(models(before.push(e)) =~= models(before).push(e@));
                    k = k + 1;
                    assert(models(r@) =~= log.subrange(from as int, k as int));
                }
                r
            },
        }
    }

    /// The envelopes of the stream whose sequences are among `ids`, in stream
    /// order.
    pub fn read_by_ids(&self, stream: &StreamId, ids: &Vec<u64>) -> (r: Vec<EventEnvelope>)
        requires
            self.wf(),
        ensures
            models(r@) == select(self.log(stream.key()), ids@),
    {
        let mut r: Vec<EventEnvelope> = Vec::new();
        match self.find(stream) {
            None => {
                proof { reveal(Seq::filter); }
                assert(models(r@) =~= select(self.log(stream.key()), ids@));
                r
            },
            Some(idx) => {
                proof { self.lemma_log_at(idx as int); }
                let envs = &self.streams[idx].envelopes;
                let ghost log = models(envs@);
                let mut k: usize = 0;
                while k < envs.len()
                    invariant
                        k <= envs@.len(),
                        log == models(envs@),
                        models(r@) == select(log.take(k as int), ids@),
                    decreases envs@.len() - k,
                {
                    let ghost before = r@;
                    if contains_id(ids, envs[k].sequence) {
                        let e = envs[k].duplicate();
                        r.push(e);
                    }
                    proof {
                        reveal(Seq::filter);
                        assert(log.take(k + 1).drop_last() =~= log.take(k as int));
                        assert(models(before.push(envs@[k as int])) =~= models(before).push(envs@[k as int]@));
                    }
                    k = k + 1;
                }
                assert(log.take(envs@.len() as int) =~= log);
                r
            },
        }
    }
}

} // verus!
