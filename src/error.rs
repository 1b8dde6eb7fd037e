use vstd::prelude::*;

verus! {

/// The failures that the store, the pipeline and the projections report.
#[derive(Debug)]
pub enum Error {
    /// The command broke a business rule; nothing was written.
    Validation(String),
    /// The operation needed a stream that does not exist.
    NotFound,
    /// The expected revision did not match the stream's actual revision.
    Conflict { expected: Option<u64>, actual: Option<u64> },
    /// A stored payload does not decode into the expected shape.
    Serialization(String),
    /// The durable log could not be reached.
    BackendUnavailable(String),
    /// A committed event could not be handed to a subscriber.
    Delivery(u64),
}

} // verus!
