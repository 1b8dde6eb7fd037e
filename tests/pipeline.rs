use thalo_store::bus::{Delivery, EventBus};
use thalo_store::envelope::{EventEnvelope, NewEvent, StreamId};
use thalo_store::error::Error;
use thalo_store::pipeline::{execute, load, load_existing};
use thalo_store::store::MemoryEventStore;

#[derive(Debug, PartialEq)]
struct Account {
    id: String,
    balance: i64,
}

fn field(e: &EventEnvelope, name: &str) -> serde_json::Value {
    let v: serde_json::Value = serde_json::from_str(&e.event_data).unwrap();
    v[name].clone()
}

fn replay(envs: &[EventEnvelope]) -> Option<Account> {
    let mut state: Option<Account> = None;
    for e in envs {
        match e.event_type.as_str() {
            "AccountOpened" => {
                state = Some(Account {
                    id: field(e, "id").as_str().unwrap().to_string(),
                    balance: field(e, "balance").as_i64().unwrap(),
                })
            }
            "FundsDeposited" => state.as_mut().unwrap().balance += field(e, "amount").as_i64().unwrap(),
            _ => panic!("unknown event"),
        }
    }
    state
}

fn open_account(state: &Option<Account>, balance: i64) -> Result<Vec<NewEvent>, String> {
    match state {
        Some(_) => Err("account already open".to_string()),
        None => Ok(vec![NewEvent::new("AccountOpened", &format!("{{\"id\":\"A\",\"balance\":{}}}", balance))]),
    }
}

fn deposit(state: &Option<Account>, amount: i64) -> Result<Vec<NewEvent>, String> {
    match state {
        None => Err("account not open".to_string()),
        Some(_) => Ok(vec![NewEvent::new("FundsDeposited", &format!("{{\"id\":\"A\",\"amount\":{}}}", amount))]),
    }
}

#[test]
fn scenario_open_then_deposit() {
    let mut store = MemoryEventStore::new();
    let mut bus = EventBus::new();
    let a = StreamId::new("BankAccount", "A");

    let loaded = load(&store, &a);
    assert_eq!(loaded.latest, None);
    let c = execute(&mut store, &mut bus, &a, loaded.latest, open_account(&replay(&loaded.envelopes), 100), 1).unwrap();
    assert_eq!(c.envelopes.len(), 1);
    assert_eq!(c.envelopes[0].sequence, 0);

    let loaded = load(&store, &a);
    assert_eq!(loaded.latest, Some(0));
    let c = execute(&mut store, &mut bus, &a, loaded.latest, deposit(&replay(&loaded.envelopes), 50), 2).unwrap();
    assert_eq!(c.envelopes[0].sequence, 1);

    let state = replay(&load(&store, &a).envelopes);
    assert_eq!(state, Some(Account { id: "A".to_string(), balance: 150 }));
}

#[test]
fn scenario_concurrent_deposits_retry() {
    let mut store = MemoryEventStore::new();
    let mut bus = EventBus::new();
    let a = StreamId::new("BankAccount", "A");
    execute(&mut store, &mut bus, &a, None, open_account(&None, 100), 1).unwrap();

    let first = load(&store, &a);
    let second = load(&store, &a);
    assert_eq!(first.latest, Some(0));
    assert_eq!(second.latest, Some(0));

    let c = execute(&mut store, &mut bus, &a, first.latest, deposit(&replay(&first.envelopes), 10), 2).unwrap();
    assert_eq!(c.envelopes[0].sequence, 1);

    let r = execute(&mut store, &mut bus, &a, second.latest, deposit(&replay(&second.envelopes), 10), 2);
    assert!(matches!(r, Err(Error::Conflict { expected: Some(0), actual: Some(1) })));

    let retry = load(&store, &a);
    assert_eq!(retry.latest, Some(1));
    let c = execute(&mut store, &mut bus, &a, retry.latest, deposit(&replay(&retry.envelopes), 10), 3).unwrap();
    assert_eq!(c.envelopes[0].sequence, 2);

    let state = replay(&load(&store, &a).envelopes).unwrap();
    assert_eq!(state.balance, 120);
}

#[test]
fn rejected_decision_writes_nothing() {
    let mut store = MemoryEventStore::new();
    let mut bus = EventBus::new();
    let a = StreamId::new("BankAccount", "A");
    let r = execute(&mut store, &mut bus, &a, None, deposit(&None, 10), 1);
    match r {
        Err(Error::Validation(msg)) => assert_eq!(msg, "account not open"),
        _ => panic!("expected a validation error"),
    }
    assert_eq!(store.latest_sequence(&a), None);
}

#[test]
fn committed_events_reach_subscribers() {
    let mut store = MemoryEventStore::new();
    let mut bus = EventBus::new();
    let roomy = bus.subscribe(4);
    let tiny = bus.subscribe(1);
    let a = StreamId::new("BankAccount", "A");
    let events = vec![
        NewEvent::new("AccountOpened", "{\"id\":\"A\",\"balance\":1}"),
        NewEvent::new("FundsDeposited", "{\"id\":\"A\",\"amount\":2}"),
    ];
    let c = execute(&mut store, &mut bus, &a, None, Ok(events), 1).unwrap();
    assert_eq!(c.undelivered, 1);
    match bus.receive(roomy) {
        Delivery::Envelope(e) => assert_eq!(e.sequence, 0),
        _ => panic!("expected an envelope"),
    }
    match bus.receive(roomy) {
        Delivery::Envelope(e) => assert_eq!(e.event_type, "FundsDeposited"),
        _ => panic!("expected an envelope"),
    }
    assert!(matches!(bus.receive(roomy), Delivery::Empty));
    assert!(matches!(bus.receive(tiny), Delivery::Lagged(1)));
    assert!(matches!(bus.receive(tiny), Delivery::Envelope(_)));
    assert!(matches!(bus.receive(tiny), Delivery::Empty));
    assert_eq!(store.latest_sequence(&a), Some(1));
}

#[test]
fn absent_stream_is_not_found() {
    let mut store = MemoryEventStore::new();
    let mut bus = EventBus::new();
    let a = StreamId::new("BankAccount", "A");
    assert!(matches!(load_existing(&store, &a), Err(Error::NotFound)));
    execute(&mut store, &mut bus, &a, None, open_account(&None, 5), 1).unwrap();
    let loaded = load_existing(&store, &a).unwrap();
    assert_eq!(loaded.latest, Some(0));
    assert_eq!(replay(&loaded.envelopes).unwrap().balance, 5);
}

#[test]
fn dropped_deliveries_are_reported_beside_the_commit() {
    let mut store = MemoryEventStore::new();
    let mut bus = EventBus::new();
    bus.subscribe(0);
    let a = StreamId::new("BankAccount", "A");
    let c = execute(&mut store, &mut bus, &a, None, open_account(&None, 5), 1).unwrap();
    assert_eq!(c.undelivered, 1);
    assert!(matches!(c.delivery_error(), Some(Error::Delivery(1))));
    assert_eq!(store.latest_sequence(&a), Some(0));
    let quiet = execute(&mut store, &mut bus, &a, Some(0), Ok(vec![]), 2).unwrap();
    assert!(quiet.envelopes.is_empty());
    assert!(quiet.delivery_error().is_none());
}
