use thalo_store::envelope::{ExpectedRevision, NewEvent};
use thalo_store::esdb::{
    envelopes_from_records, latest_from_tail, pending_events, select_by_ids, stream_id, write_plan,
    RecordedEvent, RecordedPayload,
};

fn record(revision: u64, data: &str) -> RecordedEvent {
    RecordedEvent {
        revision,
        event_type: "FundsDeposited".to_string(),
        payload: RecordedPayload {
            created_at: 1_000 + revision as i64,
            aggregate_type: "BankAccount".to_string(),
            aggregate_id: "A".to_string(),
            event_data: data.to_string(),
        },
    }
}

#[test]
fn stream_names() {
    assert_eq!(stream_id("BankAccount", Some("A")), "BankAccount-A");
    assert_eq!(stream_id("BankAccount", None), "BankAccount");
}

#[test]
fn records_become_envelopes() {
    let records = vec![record(0, "{}"), record(1, "{\"amount\":5}")];
    let envs = envelopes_from_records(&records);
    assert_eq!(envs.len(), 2);
    assert_eq!(envs[1].sequence, 1);
    assert_eq!(envs[1].created_at, 1_001);
    assert_eq!(envs[1].event_type, "FundsDeposited");
    assert_eq!(envs[1].event_data, "{\"amount\":5}");
    assert_eq!(envs[0].aggregate_id, "A");
}

#[test]
fn records_selected_by_id() {
    let records = vec![record(0, "a"), record(1, "b"), record(2, "c")];
    let envs = select_by_ids(&records, &vec![2, 0]);
    let data: Vec<&str> = envs.iter().map(|e| e.event_data.as_str()).collect();
    assert_eq!(data, vec!["a", "c"]);
}

#[test]
fn latest_revision_from_tail() {
    assert_eq!(latest_from_tail(&vec![]), None);
    assert_eq!(latest_from_tail(&vec![record(7, "x")]), Some(7));
}

#[test]
fn write_plans() {
    assert!(write_plan(Some(3), 0).is_none());
    let p = write_plan(None, 2).unwrap();
    assert_eq!(p.expected, ExpectedRevision::NoStream);
    assert_eq!(p.sequences, vec![0, 1]);
    let p = write_plan(Some(3), 3).unwrap();
    assert_eq!(p.expected, ExpectedRevision::Exact(3));
    assert_eq!(p.sequences, vec![4, 5, 6]);
}

#[test]
fn pending_events_carry_fresh_ids() {
    let events = vec![NewEvent::new("AccountOpened", "{\"balance\":1}"), NewEvent::new("FundsDeposited", "{}")];
    let pending = pending_events("BankAccount", "A", &events, 1_700_000_000_000);
    assert_eq!(pending.len(), 2);
    assert_eq!(pending[0].event_type, "AccountOpened");
    assert_eq!(pending[0].payload.event_data, "{\"balance\":1}");
    assert_eq!(pending[1].payload.aggregate_type, "BankAccount");
    assert_ne!(pending[0].id, pending[1].id);
    assert_eq!((pending[0].id >> 76) & 0xf, 4);
    assert_eq!((pending[1].id >> 62) & 0x3, 2);
    assert_eq!(pending[0].payload.created_at, 1_700_000_000_000);
    assert_eq!(pending[1].payload.created_at, 1_700_000_000_000);
}
