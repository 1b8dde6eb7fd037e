use thalo_store::envelope::{sequences_after, EventEnvelope, ExpectedRevision, NewEvent, StreamId};
use thalo_store::error::Error;
use thalo_store::store::MemoryEventStore;

fn opened(balance: i64) -> NewEvent {
    NewEvent::new("AccountOpened", &format!("{{\"id\":\"A\",\"balance\":{}}}", balance))
}

fn deposited(amount: i64) -> NewEvent {
    NewEvent::new("FundsDeposited", &format!("{{\"id\":\"A\",\"amount\":{}}}", amount))
}

fn sequences(envs: &[EventEnvelope]) -> Vec<u64> {
    envs.iter().map(|e| e.sequence).collect()
}

#[test]
fn absent_stream_has_no_latest_sequence() {
    let store = MemoryEventStore::new();
    let a = StreamId::new("BankAccount", "A");
    assert_eq!(store.latest_sequence(&a), None);
    assert_eq!(store.stream_len(&a), 0);
    assert!(store.read_stream(&a, 0).is_empty());
}

#[test]
fn first_append_must_expect_no_stream() {
    let mut store = MemoryEventStore::new();
    let a = StreamId::new("BankAccount", "A");
    let r = store.append_conditional(&a, ExpectedRevision::Exact(0), &vec![opened(100)], 1);
    assert!(matches!(r, Err(Error::Conflict { expected: Some(0), actual: None })));
    let ids = store.append_conditional(&a, ExpectedRevision::NoStream, &vec![opened(100)], 1).unwrap();
    assert_eq!(ids, vec![0]);
    assert_eq!(store.latest_sequence(&a), Some(0));
    let again = store.append_conditional(&a, ExpectedRevision::NoStream, &vec![opened(5)], 2);
    assert!(matches!(again, Err(Error::Conflict { expected: None, actual: Some(0) })));
    assert_eq!(store.stream_len(&a), 1);
}

#[test]
fn sequences_are_contiguous_from_zero() {
    let mut store = MemoryEventStore::new();
    let a = StreamId::new("BankAccount", "A");
    let first = store
        .append_conditional(&a, ExpectedRevision::NoStream, &vec![opened(1), deposited(2)], 1)
        .unwrap();
    let second = store
        .append_conditional(&a, ExpectedRevision::Exact(1), &vec![deposited(3), deposited(4), deposited(5)], 2)
        .unwrap();
    assert_eq!(first, vec![0, 1]);
    assert_eq!(second, vec![2, 3, 4]);
    assert_eq!(sequences(&store.read_stream(&a, 0)), vec![0, 1, 2, 3, 4]);
    assert_eq!(sequences(&store.read_stream(&a, 3)), vec![3, 4]);
    assert!(store.read_stream(&a, 5).is_empty());
}

#[test]
fn same_revision_race_has_one_winner() {
    let mut store = MemoryEventStore::new();
    let a = StreamId::new("BankAccount", "A");
    store.append_conditional(&a, ExpectedRevision::NoStream, &vec![opened(100)], 1).unwrap();
    let mut wins = 0;
    let mut conflicts = 0;
    for n in 0..5 {
        match store.append_conditional(&a, ExpectedRevision::Exact(0), &vec![deposited(n)], 2) {
            Ok(ids) => {
                wins += 1;
                assert_eq!(ids, vec![1]);
            }
            Err(Error::Conflict { expected: Some(0), actual: Some(1) }) => conflicts += 1,
            Err(_) => panic!("unexpected error"),
        }
    }
    assert_eq!((wins, conflicts), (1, 4));
    let log = store.read_stream(&a, 0);
    assert_eq!(log.len(), 2);
    assert_eq!(log[1].event_data, "{\"id\":\"A\",\"amount\":0}");
}

#[test]
fn read_back_by_ids_returns_the_appended_events() {
    let mut store = MemoryEventStore::new();
    let a = StreamId::new("BankAccount", "A");
    store.append_conditional(&a, ExpectedRevision::NoStream, &vec![opened(100)], 7).unwrap();
    let ids = store
        .append_conditional(&a, ExpectedRevision::Exact(0), &vec![deposited(50), deposited(25)], 8)
        .unwrap();
    let read = store.read_by_ids(&a, &ids);
    assert_eq!(read.len(), 2);
    assert_eq!(read[0].event_type, "FundsDeposited");
    assert_eq!(read[0].event_data, "{\"id\":\"A\",\"amount\":50}");
    assert_eq!(read[1].event_data, "{\"id\":\"A\",\"amount\":25}");
    assert_eq!(sequences(&read), vec![1, 2]);
    assert_eq!(read[1].created_at, 8);
    assert_eq!(read[1].aggregate_type, "BankAccount");
    assert_eq!(read[1].aggregate_id, "A");
    let some = store.read_by_ids(&a, &vec![2, 0, 9]);
    assert_eq!(sequences(&some), vec![0, 2]);
}

#[test]
fn streams_are_independent() {
    let mut store = MemoryEventStore::new();
    let a = StreamId::new("BankAccount", "A");
    let b = StreamId::new("BankAccount", "B");
    let c = StreamId::new("Customer", "A");
    store.append_conditional(&a, ExpectedRevision::NoStream, &vec![opened(1)], 1).unwrap();
    assert_eq!(store.append_conditional(&b, ExpectedRevision::NoStream, &vec![opened(2)], 1).unwrap(), vec![0]);
    assert_eq!(store.append_conditional(&c, ExpectedRevision::NoStream, &vec![opened(3)], 1).unwrap(), vec![0]);
    assert_eq!(store.latest_sequence(&a), Some(0));
    assert_eq!(store.read_stream(&b, 0)[0].aggregate_id, "B");
    assert_eq!(store.read_stream(&c, 0)[0].aggregate_type, "Customer");
}

#[test]
fn empty_append_changes_nothing() {
    let mut store = MemoryEventStore::new();
    let a = StreamId::new("BankAccount", "A");
    let ids = store.append_conditional(&a, ExpectedRevision::NoStream, &vec![], 1).unwrap();
    assert!(ids.is_empty());
    assert_eq!(store.latest_sequence(&a), None);
}

#[test]
fn sequence_range_formula() {
    assert_eq!(sequences_after(None, 3), vec![0, 1, 2]);
    assert_eq!(sequences_after(Some(4), 2), vec![5, 6]);
    assert!(sequences_after(Some(4), 0).is_empty());
}
