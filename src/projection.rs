use vstd::prelude::*;

use crate::envelope::StreamId;
use crate::error::Error;
use crate::event::EventHandler;

verus! {

/// How many events of one stream a projection has applied.
struct Cursor {
    aggregate_type: String,
    aggregate_id: String,
    applied: u64,
}

/// A projection's progress: per stream, the number of events applied, which
/// is also the sequence of the next event it accepts.
pub struct Progress {
    cursors: Vec<Cursor>,
}

/// What to do with an envelope of a given sequence.
#[derive(Clone, Copy, PartialEq, Eq, Structural, Debug)]
pub enum Admission {
    /// It is the next one: apply it.
    Apply,
    /// It was applied already: skip it.
    Duplicate,
    /// Envelopes are missing before it: fetch them from `missing_from` on.
    Gap { missing_from: u64 },
}

/// What became of an envelope offered to a projection.
pub enum Applied<V> {
    /// Applied; the updated view.
    Applied(V),
    /// Applied before; the view unchanged.
    Skipped(V),
    /// Earlier envelopes are missing; the view unchanged.
    Gap(V, u64),
    /// The handler failed.
    Failed(Error),
}

/// The admission of sequence `sequence` after `applied` events.
pub open spec fn admission(applied: nat, sequence: u64) -> Admission {
    if sequence == applied {
        Admission::Apply
    } else if sequence < applied {
        Admission::Duplicate
    } else {
        Admission::Gap { missing_from: applied as u64 }
    }
}

/// A handler that relates each argument list to exactly one result.
pub open spec fn pure_handler<H: EventHandler>(handler: H) -> bool {
    forall|v: H::View, e: H::Event, id: i64, seq: i64, r1: Result<H::View, Error>, r2: Result<H::View, Error>|
        handler.handles(v, e, id, seq, r1) && handler.handles(v, e, id, seq, r2) ==> r1 == r2
}

/// A result that the handler relates to these arguments.
pub open spec fn handled<H: EventHandler>(
    handler: H,
    view: H::View,
    event: H::Event,
    event_id: i64,
    event_sequence: i64,
) -> Result<H::View, Error> {
    choose|r: Result<H::View, Error>| handler.handles(view, event, event_id, event_sequence, r)
}

/// The view after `events` (each an event, its id and its sequence) are
/// handled in order by `handler`, starting from `view`; the first failure
/// stops the fold.
pub open spec fn replay<H: EventHandler>(
    handler: H,
    view: Result<H::View, Error>,
    events: Seq<(H::Event, i64, i64)>,
) -> Result<H::View, Error>
    decreases events.len(),
{
    if events.len() == 0 {
        view
    } else {
        match replay(handler, view, events.drop_last()) {
            Ok(v) => handled(handler, v, events.last().0, events.last().1, events.last().2),
            Err(e) => Err(e),
        }
    }
}

/// What a pure handler returns is the step of [`replay`]: the view that
/// `apply_envelope` hands back for the next event is the one the fold gives.
pub proof fn lemma_handle_is_replay_step<H: EventHandler>(
    handler: H,
    view: H::View,
    event: H::Event,
    event_id: i64,
    event_sequence: i64,
    r: Result<H::View, Error>,
)
    requires
        pure_handler(handler),
        handler.handles(view, event, event_id, event_sequence, r),
    ensures
        replay(handler, Ok(view), seq![(event, event_id, event_sequence)]) == r,
{
    let s = seq![(event, event_id, event_sequence)];
    assert(s.drop_last().len() == 0);
    assert(replay(handler, Ok(view), s.drop_last()) == Ok::<H::View, Error>(view));
    let c = handled(handler, view, event, event_id, event_sequence);
    assert(handler.handles(view, event, event_id, event_sequence, c));
}

/// Folding a stream's events from scratch into a fresh view gives the same
/// view as applying them incrementally through the handler, batch by batch,
/// as they were committed.
pub proof fn lemma_replay_incremental<H: EventHandler>(
    handler: H,
    view: Result<H::View, Error>,
    earlier: Seq<(H::Event, i64, i64)>,
    later: Seq<(H::Event, i64, i64)>,
)
    ensures
        replay(handler, view, earlier + later) == replay(
            handler,
            replay(handler, view, earlier),
            later,
        ),
    decreases later.len(),
{
    if later.len() == 0 {
        assert(earlier + later =~= earlier);
    } else {
        assert((earlier + later).drop_last() =~= earlier + later.drop_last());
        assert((earlier + later).last() == later.last());
        lemma_replay_incremental(handler, view, earlier, later.drop_last());
    }
}

impl Progress {
    spec fn key_at(self, i: int) -> (Seq<char>, Seq<char>) {
        (self.cursors@[i].aggregate_type@, self.cursors@[i].aggregate_id@)
    }

    spec fn has(self, key: (Seq<char>, Seq<char>)) -> bool {
        exists|i: int| 0 <= i < self.cursors@.len() && self.key_at(i) == key
    }

    /// The number of events of stream `key` applied so far.
    pub closed spec fn applied(self, key: (Seq<char>, Seq<char>)) -> nat {
        if self.has(key) {
            let i = choose|i: int| 0 <= i < self.cursors@.len() && self.key_at(i) == key;
            self.cursors@[i].applied as nat
        } else {
            0
        }
    }

    /// Each stream has at most one cursor.
    pub closed spec fn wf(self) -> bool {
        forall|i: int, j: int|
            0 <= i < self.cursors@.len() && 0 <= j < self.cursors@.len() && self.key_at(i)
                == self.key_at(j) ==> i == j
    }

    proof fn lemma_applied_at(self, i: int)
        requires
            self.wf(),
            0 <= i < self.cursors@.len(),
        ensures
            self.applied(self.key_at(i)) == self.cursors@[i].applied,
    {
        assert(self.has(self.key_at(i)));
    }

    /// No stream has been applied yet.
    pub fn new() -> (r: Progress)
        ensures
            r.wf(),
            forall|key: (Seq<char>, Seq<char>)| #[trigger] r.applied(key) == 0,
    {
        Progress { cursors: Vec::new() }
    }

    fn find(&self, stream: &StreamId) -> (r: Option<usize>)
        requires
            self.wf(),
        ensures
            match r {
                Some(i) => i < self.cursors@.len() && self.key_at(i as int) == stream.key(),
                None => !self.has(stream.key()) && self.applied(stream.key()) == 0,
            },
    {
        let mut i: usize = 0;
        while i < self.cursors.len()
            invariant
                i <= self.cursors@.len(),
                forall|j: int| 0 <= j < i ==> self.key_at(j) != stream.key(),
            decreases self.cursors@.len() - i,
        {
            if self.cursors[i].aggregate_type == stream.aggregate_type
                && self.cursors[i].aggregate_id == stream.aggregate_id {
                return Some(i);
            }
            i = i + 1;
        }
        None
    }

    /// The number of events of the stream applied so far.
    pub fn applied_count(&self, stream: &StreamId) -> (r: u64)
        requires
            self.wf(),
        ensures
            r == self.applied(stream.key()),
    {
        match self.find(stream) {
            None => 0,
            Some(i) => {
                proof { self.lemma_applied_at(i as int); }
                self.cursors[i].applied
            },
        }
    }

    /// Whether an envelope of the stream with sequence `sequence` is the next
    /// one to apply, a repeat, or comes after a gap.
    pub fn admission_of(&self, stream: &StreamId, sequence: u64) -> (r: Admission)
        requires
            self.wf(),
        ensures
            r == admission(self.applied(stream.key()), sequence),
    {
        let applied = self.applied_count(stream);
        if sequence == applied {
            Admission::Apply
        } else if sequence < applied {
            Admission::Duplicate
        } else {
            Admission::Gap { missing_from: applied }
        }
    }

    /// Records that one more event of the stream was applied.
    pub fn advance(&mut self, stream: &StreamId)
        requires
            old(self).wf(),
            old(self).applied(stream.key()) < u64::MAX,
        ensures
            final(self).wf(),
            final(self).applied(stream.key()) == old(self).applied(stream.key()) + 1,
            forall|k: (Seq<char>, Seq<char>)|
                k != stream.key() ==> #[trigger] final(self).applied(k) == old(self).applied(k),
    {
        let ghost pre = *self;
        let ghost key = stream.key();
        match self.find(stream) {
            Some(i) => {
                proof { pre.lemma_applied_at(i as int); }
                let n = self.cursors[i].applied;
                self.cursors[i].applied = n + 1;
                proof {
                    assert forall|a: int, b: int|
                        0 <= a < self.cursors@.len() && 0 <= b < self.cursors@.len()
                            && self.key_at(a) == self.key_at(b) implies a == b by {
                        assert(self.key_at(a) == pre.key_at(a));
                        assert(self.key_at(b) == pre.key_at(b));
                    }
                    self.lemma_applied_at(i as int);
                    assert forall|k: (Seq<char>, Seq<char>)| k != key implies #[trigger] self.applied(k)
                        == pre.applied(k) by {
                        if pre.has(k) {
                            let a = choose|a: int| 0 <= a < pre.cursors@.len() && pre.key_at(a) == k;
                            assert(self.key_at(a) == k);
                            self.lemma_applied_at(a);
                            pre.lemma_applied_at(a);
                        } else if self.has(k) {
                            let a = choose|a: int| 0 <= a < self.cursors@.len() && self.key_at(a) == k;
                            assert(pre.key_at(a) == k);
                        }
                    }
                }
            },
            None => {
                self.cursors.push(
                    Cursor {
                        aggregate_type: stream.aggregate_type.clone(),
                        aggregate_id: stream.aggregate_id.clone(),
                        applied: 1,
                    },
                );
                proof {
                    let n = pre.cursors@.len() as int;
                    assert(self.key_at(n) == key);
                    assert forall|a: int, b: int|
                        0 <= a < self.cursors@.len() && 0 <= b < self.cursors@.len()
                            && self.key_at(a) == self.key_at(b) implies a == b by {
                        if a < n {
                            assert(self.cursors@[a] == pre.cursors@[a]);
                            assert(pre.key_at(a) == self.key_at(a));
                        }
                        if b < n {
                            assert(self.cursors@[b] == pre.cursors@[b]);
                            assert(pre.key_at(b) == self.key_at(b));
                        }
                        if a < n && b == n {
                            assert(pre.has(key));
                        }
                        if b < n && a == n {
                            assert(pre.has(key));
                        }
                    }
                    self.lemma_applied_at(n);
                    assert forall|k: (Seq<char>, Seq<char>)| k != key implies #[trigger] self.applied(k)
                        == pre.applied(k) by {
                        if pre.has(k) {
                            let a = choose|a: int| 0 <= a < pre.cursors@.len() && pre.key_at(a) == k;
                            assert(self.cursors@[a] == pre.cursors@[a]);
                            assert(self.key_at(a) == k);
                            self.lemma_applied_at(a);
                            pre.lemma_applied_at(a);
                        } else if self.has(k) {
                            let a = choose|a: int| 0 <= a < self.cursors@.len() && self.key_at(a) == k;
                            if a < n {
                                assert(self.cursors@[a] == pre.cursors@[a]);
                                assert(pre.key_at(a) == k);
                            }
                        }
                    }
                }
            },
        }
    }
}

/// Records the handler's result for the next event of `stream`: a new view
/// advances the stream's progress, a failure leaves it as it was.
pub fn settle<V>(progress: &mut Progress, stream: &StreamId, outcome: Result<V, Error>) -> (r:
    Applied<V>)
    requires
        old(progress).wf(),
        old(progress).applied(stream.key()) < u64::MAX,
    ensures
        final(progress).wf(),
        match outcome {
            Ok(v) => r == Applied::Applied(v) && final(progress).applied(stream.key())
                == old(progress).applied(stream.key()) + 1,
            Err(e) => r == Applied::<V>::Failed(e) && *final(progress) == *old(progress),
        },
        forall|k: (Seq<char>, Seq<char>)|
            k != stream.key() ==> #[trigger] final(progress).applied(k) == old(progress).applied(k),
{
    match outcome {
        Ok(v) => {
            progress.advance(stream);
            Applied::Applied(v)
        },
        Err(e) => Applied::Failed(e),
    }
}

/// Offers the event of stream `stream` with sequence `sequence` to the
/// projection. Only the next event in sequence is handed to the handler; a
/// repeat leaves the view as it was, and an event after a gap is refused
/// with the sequence from which events must be fetched again.
pub fn apply_envelope<H: EventHandler>(
    handler: &H,
    progress: &mut Progress,
    view: H::View,
    stream: &StreamId,
    sequence: u64,
    event_id: i64,
    event: H::Event,
) -> (r: Applied<H::View>)
    requires
        old(progress).wf(),
        sequence <= i64::MAX,
    ensures
        final(progress).wf(),
        match admission(old(progress).applied(stream.key()), sequence) {
            Admission::Apply => (r matches Applied::Applied(v) && handler.handles(
                view,
                event,
                event_id,
                sequence as i64,
                Ok(v),
            ) && final(progress).applied(stream.key()) == old(progress).applied(stream.key()) + 1)
                || (r matches Applied::Failed(e) && handler.handles(
                view,
                event,
                event_id,
                sequence as i64,
                Err(e),
            ) && *final(progress) == *old(progress)),
            Admission::Duplicate => r == Applied::Skipped(view) && *final(progress) == *old(progress),
            Admission::Gap { missing_from } => r == Applied::Gap(view, missing_from)
                && *final(progress) == *old(progress),
        },
        forall|k: (Seq<char>, Seq<char>)|
            k != stream.key() ==> #[trigger] final(progress).applied(k) == old(progress).applied(k),
{
    match progress.admission_of(stream, sequence) {
        Admission::Apply => {
            let outcome = handler.handle(view, event, event_id, sequence as i64);
            settle(progress, stream, outcome)
        },
        Admission::Duplicate => Applied::Skipped(view),
        Admission::Gap { missing_from } => Applied::Gap(view, missing_from),
    }
}

} // verus!
