use vstd::prelude::*;

use crate::bus::{broadcast, EventBus};
use crate::envelope::{
    committed_all, expected_after, latest_of, models, revision_matches, EventEnvelope, NewEvent,
    StreamId,
};
use crate::error::Error;
use crate::store::{lemma_round_trip, MemoryEventStore};

verus! {

/// The acknowledgment of a durable commit.
pub struct Committed {
    /// The envelopes that the command appended, in sequence order.
    pub envelopes: Vec<EventEnvelope>,
    /// Deliveries to subscribers that were dropped; the commit stands anyway.
    pub undelivered: u64,
}

/// The state of a stream as a command finds it.
pub struct Loaded {
    /// Every envelope of the stream, in sequence order.
    pub envelopes: Vec<EventEnvelope>,
    /// The last sequence, or `None` for an absent stream.
    pub latest: Option<u64>,
}

/// Reads the whole stream and its latest sequence, from which the caller
/// rebuilds the aggregate and decides on a command.
pub fn load(store: &MemoryEventStore, stream: &StreamId) -> (r: Loaded)
    requires
        store.wf(),
    ensures
        models(r.envelopes@) == store.log(stream.key()),
        r.latest == latest_of(store.log(stream.key()).len()),
{
    let envelopes = store.read_stream(stream, 0);
    let latest = store.latest_sequence(stream);
    assert(store.log(stream.key()).subrange(0, store.log(stream.key()).len() as int)
        =~= store.log(stream.key()));
    Loaded { envelopes, latest }
}

/// Like [`load`], for a command that needs the stream to exist: fails with
/// `NotFound` exactly when the stream is absent.
pub fn load_existing(store: &MemoryEventStore, stream: &StreamId) -> (r: Result<Loaded, Error>)
    requires
        store.wf(),
    ensures
        (r is Err) == (store.log(stream.key()).len() == 0),
        r is Err ==> r == Err::<Loaded, Error>(Error::NotFound),
        r matches Ok(l) ==> models(l.envelopes@) == store.log(stream.key()) && l.latest == latest_of(
            store.log(stream.key()).len(),
        ),
{
    let loaded = load(store, stream);
    if loaded.latest.is_none() {
        Err(Error::NotFound)
    } else {
        Ok(loaded)
    }
}

impl Committed {
    /// The delivery failure to report beside the commit, if any deliveries
    /// were dropped. The commit itself stands either way.
    pub fn delivery_error(&self) -> (r: Option<Error>)
        ensures
            self.undelivered == 0 ==> r is None,
            self.undelivered > 0 ==> r == Some(Error::Delivery(self.undelivered)),
    {
        if self.undelivered == 0 {
            None
        } else {
            Some(Error::Delivery(self.undelivered))
        }
    }
}

/// Commits the outcome of a command's decision and publishes it.
///
/// `observed` is the latest sequence that the command loaded, `decision` what
/// the business rules returned for it. A rejected decision writes nothing.
/// Otherwise the events are appended on the condition that the stream is
/// still at `observed`; if it moved on, nothing is written and the command
/// fails with `Conflict`, to be reloaded and retried. On success the new
/// envelopes are read back, published on `bus`, and returned.
pub fn execute(
    store: &mut MemoryEventStore,
    bus: &mut EventBus,
    stream: &StreamId,
    observed: Option<u64>,
    decision: Result<Vec<NewEvent>, String>,
    created_at: i64,
) -> (r: Result<Committed, Error>)
    requires
        old(store).wf(),
        decision matches Ok(events) ==> old(store).log(stream.key()).len() + events@.len()
            < u64::MAX,
    ensures
        final(store).wf(),
        forall|k: (Seq<char>, Seq<char>)|
            k != stream.key() ==> #[trigger] final(store).log(k) == old(store).log(k),
        match decision {
            Err(msg) => r == Err::<Committed, Error>(Error::Validation(msg))
                && *final(store) == *old(store) && *final(bus) == *old(bus),
            Ok(events) => {
                let log = old(store).log(stream.key());
                if observed == latest_of(log.len()) {
                    let fresh = committed_all(stream.key(), created_at as int, log.len(), events@);
                    let sent = broadcast(old(bus).subscribers(), fresh);
                    r matches Ok(c) && {
                        &&& models(c.envelopes@) == fresh
                        &&& final(store).log(stream.key()) == log + fresh
                        &&& final(bus).subscribers() == sent.0
                        &&& c.undelivered == if sent.1 < u64::MAX {
                            sent.1
                        } else {
                            u64::MAX as nat
                        }
                    }
                } else {
                    r == Err::<Committed, Error>(
                        Error::Conflict { expected: observed, actual: latest_of(log.len()) },
                    ) && *final(store) == *old(store) && *final(bus) == *old(bus)
                }
            },
        },
{
    let events = match decision {
        Err(msg) => return Err(Error::Validation(msg)),
        Ok(events) => events,
    };
    let ghost key = stream.key();
    let ghost log = store.log(key);
    let expected = expected_after(observed);
    proof {
        store.lemma_sequences_contiguous(key);
        assert(revision_matches(expected, log.len()) == (observed == latest_of(log.len())));
    }
    let ids = match store.append_conditional(stream, expected, &events, created_at) {
        Err(e) => return Err(e),
        Ok(ids) => ids,
    };
    proof {
        lemma_round_trip(log, key, expected, events@, created_at as int);
    }
    let envelopes = store.read_by_ids(stream, &ids);
    let undelivered = bus.publish_all(&envelopes);
    Ok(Committed { envelopes, undelivered })
}

} // verus!
