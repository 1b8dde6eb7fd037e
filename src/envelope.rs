use vstd::prelude::*;

verus! {

/// Identifies one stream: an aggregate type tag and an instance id.
#[derive(Debug)]
pub struct StreamId {
    pub aggregate_type: String,
    pub aggregate_id: String,
}

impl StreamId {
    pub open spec fn key(&self) -> (Seq<char>, Seq<char>) {
        (self.aggregate_type@, self.aggregate_id@)
    }

    pub fn new(aggregate_type: &str, aggregate_id: &str) -> (r: StreamId)
        ensures
            r.key() == (aggregate_type@, aggregate_id@),
    {
        StreamId { aggregate_type: aggregate_type.to_owned(), aggregate_id: aggregate_id.to_owned() }
    }
}

/// An event that is about to be appended: its type tag and its payload as a
/// schema-agnostic document (JSON text).
#[derive(Debug)]
pub struct NewEvent {
    pub event_type: String,
    pub event_data: String,
}

impl NewEvent {
    pub fn new(event_type: &str, event_data: &str) -> (r: NewEvent)
        ensures
            r.event_type@ == event_type@,
            r.event_data@ == event_data@,
    {
        NewEvent { event_type: event_type.to_owned(), event_data: event_data.to_owned() }
    }
}

/// One committed event with its stream metadata and assigned sequence.
#[derive(Debug)]
pub struct EventEnvelope {
    pub sequence: u64,
    /// Milliseconds since the Unix epoch.
    pub created_at: i64,
    pub aggregate_type: String,
    pub aggregate_id: String,
    pub event_type: String,
    pub event_data: String,
}

/// The mathematical content of an [`EventEnvelope`].
pub ghost struct EnvelopeModel {
    pub sequence: nat,
    pub created_at: int,
    pub aggregate_type: Seq<char>,
    pub aggregate_id: Seq<char>,
    pub event_type: Seq<char>,
    pub event_data: Seq<char>,
}

impl View for EventEnvelope {
    type V = EnvelopeModel;

    open spec fn view(&self) -> EnvelopeModel {
        EnvelopeModel {
            sequence: self.sequence as nat,
            created_at: self.created_at as int,
            aggregate_type: self.aggregate_type@,
            aggregate_id: self.aggregate_id@,
            event_type: self.event_type@,
            event_data: self.event_data@,
        }
    }
}

/// The models of a sequence of envelopes.
pub open spec fn models(s: Seq<EventEnvelope>) -> Seq<EnvelopeModel> {
    s.map_values(|e: EventEnvelope| e@)
}

/// The envelope that the store commits for `e` at position `sequence`.
pub open spec fn committed(
    key: (Seq<char>, Seq<char>),
    created_at: int,
    sequence: nat,
    e: NewEvent,
) -> EnvelopeModel {
    EnvelopeModel {
        sequence,
        created_at,
        aggregate_type: key.0,
        aggregate_id: key.1,
        event_type: e.event_type@,
        event_data: e.event_data@,
    }
}

/// The envelopes committed for `events` appended after `start` earlier ones.
pub open spec fn committed_all(
    key: (Seq<char>, Seq<char>),
    created_at: int,
    start: nat,
    events: Seq<NewEvent>,
) -> Seq<EnvelopeModel> {
    Seq::new(events.len(), |i: int| committed(key, created_at, start + i as nat, events[i]))
}

impl EventEnvelope {
    /// A copy of the envelope.
    pub fn duplicate(&self) -> (r: EventEnvelope)
        ensures
            r@ == self@,
    {
        EventEnvelope {
            sequence: self.sequence,
            created_at: self.created_at,
            aggregate_type: self.aggregate_type.clone(),
            aggregate_id: self.aggregate_id.clone(),
            event_type: self.event_type.clone(),
            event_data: self.event_data.clone(),
        }
    }
}

/// The revision that an append expects the stream to be at.
#[derive(Clone, Copy, PartialEq, Eq, Structural, Debug)]
pub enum ExpectedRevision {
    /// The stream must not exist yet.
    NoStream,
    /// The stream's last sequence must be exactly this.
    Exact(u64),
}

/// Whether a stream holding `len` events is at the revision `expected`.
pub open spec fn revision_matches(expected: ExpectedRevision, len: nat) -> bool {
    match expected {
        ExpectedRevision::NoStream => len == 0,
        ExpectedRevision::Exact(v) => len == v + 1,
    }
}

/// The last sequence of a stream holding `len` events.
pub open spec fn latest_of(len: nat) -> Option<u64> {
    if len == 0 {
        None
    } else {
        Some((len - 1) as u64)
    }
}

/// The revision to present when the last observed sequence is `latest`.
pub open spec fn expected_for(latest: Option<u64>) -> ExpectedRevision {
    match latest {
        None => ExpectedRevision::NoStream,
        Some(v) => ExpectedRevision::Exact(v),
    }
}

/// Computes [`expected_for`].
pub fn expected_after(latest: Option<u64>) -> (r: ExpectedRevision)
    ensures
        r == expected_for(latest),
{
    match latest {
        None => ExpectedRevision::NoStream,
        Some(v) => ExpectedRevision::Exact(v),
    }
}

/// The sequences assigned to `n` events appended after the sequence `latest`:
/// `latest + 1 ..= latest + n`, or `0 .. n` for an absent stream.
pub open spec fn assigned_sequences(latest: Option<u64>, n: nat) -> Seq<u64> {
    let start: int = match latest {
        None => 0,
        Some(v) => v + 1,
    };
    Seq::new(n, |i: int| (start + i) as u64)
}

/// Computes [`assigned_sequences`].
pub fn sequences_after(latest: Option<u64>, n: usize) -> (r: Vec<u64>)
    requires
        latest matches Some(v) ==> v + n <= u64::MAX,
        n <= u64::MAX,
    ensures
        r@ == assigned_sequences(latest, n as nat),
{
    let mut r: Vec<u64> = Vec::new();
    let mut i: usize = 0;
    while i < n
        invariant
            i <= n,
            n <= u64::MAX,
            latest matches Some(v) ==> v + n <= u64::MAX,
            r@ == assigned_sequences(latest, i as nat),
        decreases n - i,
    {
        let s: u64 = match latest {
            None => i as u64,
            Some(v) => v + 1 + i as u64,
        };
        r.push(s);
        i = i + 1;
        assert(r@ =~= assigned_sequences(latest, i as nat));
    }
    r
}

} // verus!
