use vstd::prelude::*;

use crate::error::Error;

verus! {

/// Something that happened as the result of a command; typically an enum
/// with one variant per kind of event.
pub trait Event {
    /// The stable name of the event's variant, used to route and decode it.
    fn event_type(&self) -> &'static str;
}

/// The events of several aggregate types taken together, as a projection
/// consumes them.
pub trait CombinedEvent {
    /// The aggregate types whose events this type covers.
    fn aggregate_types() -> Vec<&'static str>;
}

/// Access to one event kind inside a combined event.
pub trait EventView<E> {
    /// The event, or an error if the value holds another kind.
    fn view(&self) -> Result<&E, Error>;

    /// The event, if the value holds this kind.
    fn view_opt(&self) -> Option<&E>;
}

/// Folds events into a view. `handles` relates the arguments of `handle` to
/// what it returns; a pure handler relates each argument list to one result.
pub trait EventHandler {
    type Event;
    type View;

    /// Whether `r` is a result that `handle` may return for these arguments.
    spec fn handles(
        &self,
        view: Self::View,
        event: Self::Event,
        event_id: i64,
        event_sequence: i64,
        r: Result<Self::View, Error>,
    ) -> bool;

    /// Handles an event and returns the updated view.
    fn handle(
        &self,
        view: Self::View,
        event: Self::Event,
        event_id: i64,
        event_sequence: i64,
    ) -> (r: Result<Self::View, Error>)
        ensures
            self.handles(view, event, event_id, event_sequence, r),
    ;
}

} // verus!
