use vstd::prelude::*;

use crate::envelope::{
    assigned_sequences, expected_after, expected_for, models, sequences_after, EnvelopeModel,
    EventEnvelope, ExpectedRevision, NewEvent,
};
use crate::store::{contains_id, select};

verus! {

/// The EventStoreDB client, carried through unopened.
#[verifier::external_type_specification]
#[verifier::external_body]
pub struct ExClient(eventstore::Client);

/// An event store backed by an EventStoreDB server, reached through `client`.
/// The reads and writes run in the application; this type carries the client
/// and the rules that turn between the server's records and envelopes.
pub struct ESDBEventStore {
    pub client: eventstore::Client,
}

impl ESDBEventStore {
    pub fn new(client: eventstore::Client) -> (r: ESDBEventStore)
        ensures
            r.client == client,
    {
        ESDBEventStore { client }
    }
}

/// The name of the stream of aggregate type `aggregate_type`: the type alone,
/// or `type-id` for the instance `id`.
pub open spec fn stream_name_of(aggregate_type: Seq<char>, id: Option<Seq<char>>) -> Seq<char> {
    match id {
        None => aggregate_type,
        Some(i) => aggregate_type + seq!['-'] + i,
    }
}

/// Computes [`stream_name_of`].
pub fn stream_id(aggregate_type: &str, id: Option<&str>) -> (r: String)
    ensures
        r@ == stream_name_of(aggregate_type@, match id {
            None => None,
            Some(i) => Some(i@),
        }),
{
    let mut stream = aggregate_type.to_owned();
    if let Some(id_str) = id {
        let dash = String::from_str("-");
        proof {
            reveal_strlit("-");
        }
        stream.append(dash.as_str());
        stream.append(id_str);
    }
    stream
}

/// The document stored with each event: everything but the type tag and the
/// sequence, which the server keeps itself.
pub struct RecordedPayload {
    /// Milliseconds since the Unix epoch.
    pub created_at: i64,
    pub aggregate_type: String,
    pub aggregate_id: String,
    /// The event itself, as JSON text.
    pub event_data: String,
}

/// One event as the server returns it.
pub struct RecordedEvent {
    pub revision: u64,
    pub event_type: String,
    pub payload: RecordedPayload,
}

/// One event ready to be written: a fresh id, its type tag and its document.
pub struct PendingEvent {
    pub id: u128,
    pub event_type: String,
    pub payload: RecordedPayload,
}

/// The envelope of the document `p` stored at `revision` with `event_type`.
pub open spec fn envelope_of(revision: u64, event_type: Seq<char>, p: RecordedPayload) -> EnvelopeModel {
    EnvelopeModel {
        sequence: revision as nat,
        created_at: p.created_at as int,
        aggregate_type: p.aggregate_type@,
        aggregate_id: p.aggregate_id@,
        event_type,
        event_data: p.event_data@,
    }
}

/// The envelope of a recorded event.
pub open spec fn recorded_envelope(r: RecordedEvent) -> EnvelopeModel {
    envelope_of(r.revision, r.event_type@, r.payload)
}

impl RecordedPayload {
    /// The envelope of this document, stored at `revision` with `event_type`.
    pub fn event_envelope(&self, revision: u64, event_type: &str) -> (r: EventEnvelope)
        ensures
            r@ == envelope_of(revision, event_type@, *self),
    {
        EventEnvelope {
            sequence: revision,
            created_at: self.created_at,
            aggregate_type: self.aggregate_type.clone(),
            aggregate_id: self.aggregate_id.clone(),
            event_type: event_type.to_owned(),
            event_data: self.event_data.clone(),
        }
    }
}

/// The envelopes of the records, in the order read.
pub fn envelopes_from_records(records: &Vec<RecordedEvent>) -> (r: Vec<EventEnvelope>)
    ensures
        models(r@) == records@.map_values(|e: RecordedEvent| recorded_envelope(e)),
{
    let mut r: Vec<EventEnvelope> = Vec::new();
    let mut k: usize = 0;
    while k < records.len()
        invariant
            k <= records@.len(),
            models(r@) == records@.take(k as int).map_values(|e: RecordedEvent| recorded_envelope(e)),
        decreases records@.len() - k,
    {
        let rec = &records[k];
        let ghost before = r@;
        let e = rec.payload.event_envelope(rec.revision, rec.event_type.as_str());
        r.push(e);
        assert(models(before.push(e)) =~= models(before).push(e@));
        assert(records@.take(k + 1).map_values(|e: RecordedEvent| recorded_envelope(e))
            =~= records@.take(k as int).map_values(|e: RecordedEvent| recorded_envelope(e)).push(e@));
        k = k + 1;
    }
    assert(records@.take(records@.len() as int) =~= records@);
    r
}

/// The envelopes of the records whose revisions are among `ids`, in the
/// order read.
pub fn select_by_ids(records: &Vec<RecordedEvent>, ids: &Vec<u64>) -> (r: Vec<EventEnvelope>)
    ensures
        models(r@) == select(records@.map_values(|e: RecordedEvent| recorded_envelope(e)), ids@),
{
    let ghost all = records@.map_values(|e: RecordedEvent| recorded_envelope(e));
    let mut r: Vec<EventEnvelope> = Vec::new();
    let mut k: usize = 0;
    while k < records.len()
        invariant
            k <= records@.len(),
            all == records@.map_values(|e: RecordedEvent| recorded_envelope(e)),
            models(r@) == select(all.take(k as int), ids@),
        decreases records@.len() - k,
    {
        let rec = &records[k];
        let ghost before = r@;
        if contains_id(ids, rec.revision) {
            let e = rec.payload.event_envelope(rec.revision, rec.event_type.as_str());
            r.push(e);
            assert(models(before.push(e)) =~= models(before).push(e@));
        }
        proof {
            reveal(Seq::filter);
            assert(all.take(k + 1).drop_last() =~= all.take(k as int));
            assert(all.take(k + 1).last() == all[k as int]);
        }
        k = k + 1;
    }
    assert(all.take(records@.len() as int) =~= all);
    r
}

/// The latest revision of a stream, from a backwards read of at most one
/// record: the revision of that record, or `None` where the stream is empty.
pub fn latest_from_tail(tail: &Vec<RecordedEvent>) -> (r: Option<u64>)
    ensures
        tail@.len() == 0 ==> r is None,
        tail@.len() > 0 ==> r == Some(tail@[0].revision),
{
    if tail.len() == 0 {
        None
    } else {
        Some(tail[0].revision)
    }
}

/// How a batch of events is written: the revision to present and the
/// sequences that the events receive.
pub struct WritePlan {
    pub expected: ExpectedRevision,
    pub sequences: Vec<u64>,
}

/// The write of `n` events to a stream whose latest sequence is `latest`, or
/// `None` where there is nothing to write.
pub fn write_plan(latest: Option<u64>, n: usize) -> (r: Option<WritePlan>)
    requires
        latest matches Some(v) ==> v + n <= u64::MAX,
        n <= u64::MAX,
    ensures
        (r is None) == (n == 0),
        r matches Some(p) ==> p.expected == expected_for(latest) && p.sequences@
            == assigned_sequences(latest, n as nat),
{
    if n == 0 {
        return None;
    }
    let expected = expected_after(latest);
    let sequences = sequences_after(latest, n);
    Some(WritePlan { expected, sequences })
}

/// Relies on uuid::Uuid::new_v4: a random id of version 4 (RFC 9562), read
/// as a `u128`.
#[verifier::external_body]
fn new_event_id() -> (r: u128)
    ensures
        (r >> 76u128) & 0xfu128 == 4,
        (r >> 62u128) & 0x3u128 == 2,
{
    uuid::Uuid::new_v4().as_u128()
}

/// The events of stream `aggregate_type-aggregate_id`, ready to be written:
/// each with a fresh id and the time `created_at`.
pub fn pending_events(
    aggregate_type: &str,
    aggregate_id: &str,
    events: &Vec<NewEvent>,
    created_at: i64,
) -> (r: Vec<PendingEvent>)
    ensures
        r@.len() == events@.len(),
        forall|i: int|
            0 <= i < r@.len() ==> {
                let p = #[trigger] r@[i];
                &&& p.event_type@ == events@[i].event_type@
                &&& p.payload.aggregate_type@ == aggregate_type@
                &&& p.payload.aggregate_id@ == aggregate_id@
                &&& p.payload.event_data@ == events@[i].event_data@
                &&& p.payload.created_at == created_at
                &&& (p.id >> 76u128) & 0xfu128 == 4
                &&& (p.id >> 62u128) & 0x3u128 == 2
            },
{
    let mut r: Vec<PendingEvent> = Vec::new();
    let mut k: usize = 0;
    while k < events.len()
        invariant
            k <= events@.len(),
            r@.len() == k,
            forall|i: int|
                0 <= i < k ==> {
                    let p = #[trigger] r@[i];
                    &&& p.event_type@ == events@[i].event_type@
                    &&& p.payload.aggregate_type@ == aggregate_type@
                    &&& p.payload.aggregate_id@ == aggregate_id@
                    &&& p.payload.event_data@ == events@[i].event_data@
                    &&& p.payload.created_at == created_at
                    &&& (p.id >> 76u128) & 0xfu128 == 4
                    &&& (p.id >> 62u128) & 0x3u128 == 2
                },
        decreases events@.len() - k,
    {
        let payload = RecordedPayload {
            created_at,
            aggregate_type: aggregate_type.to_owned(),
            aggregate_id: aggregate_id.to_owned(),
            event_data: events[k].event_data.clone(),
        };
        let id = new_event_id();
        r.push(PendingEvent { id, event_type: events[k].event_type.clone(), payload });
        k = k + 1;
    }
    r
}

} // verus!
