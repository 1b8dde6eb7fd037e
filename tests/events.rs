use thalo_store::error::Error;
use thalo_store::event::{CombinedEvent, Event, EventView};

#[derive(Debug, PartialEq)]
struct Opened {
    balance: i64,
}

#[derive(Debug, PartialEq)]
enum BankAccountEvent {
    AccountOpened(Opened),
    FundsDeposited(i64),
}

impl Event for BankAccountEvent {
    fn event_type(&self) -> &'static str {
        match self {
            BankAccountEvent::AccountOpened(_) => "AccountOpened",
            BankAccountEvent::FundsDeposited(_) => "FundsDeposited",
        }
    }
}

impl CombinedEvent for BankAccountEvent {
    fn aggregate_types() -> Vec<&'static str> {
        vec!["BankAccount"]
    }
}

impl EventView<Opened> for BankAccountEvent {
    fn view(&self) -> Result<&Opened, Error> {
        self.view_opt().ok_or(Error::Serialization("not AccountOpened".to_string()))
    }

    fn view_opt(&self) -> Option<&Opened> {
        match self {
            BankAccountEvent::AccountOpened(o) => Some(o),
            _ => None,
        }
    }
}

#[test]
fn domain_events_implement_the_traits() {
    let opened = BankAccountEvent::AccountOpened(Opened { balance: 100 });
    let deposited = BankAccountEvent::FundsDeposited(50);
    assert_eq!(opened.event_type(), "AccountOpened");
    assert_eq!(deposited.event_type(), "FundsDeposited");
    assert_eq!(BankAccountEvent::aggregate_types(), vec!["BankAccount"]);
    assert_eq!(EventView::<Opened>::view(&opened).unwrap(), &Opened { balance: 100 });
    assert!(EventView::<Opened>::view(&deposited).is_err());
    assert!(EventView::<Opened>::view_opt(&deposited).is_none());
}
