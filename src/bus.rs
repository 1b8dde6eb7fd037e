use vstd::prelude::*;

use std::collections::VecDeque;

use crate::envelope::{models, EnvelopeModel, EventEnvelope};

verus! {

/// One live subscriber: a bounded queue of committed envelopes and the number
/// of envelopes it missed because the queue was full.
struct Subscriber {
    capacity: usize,
    queue: VecDeque<EventEnvelope>,
    missed: u64,
}

/// The mathematical content of a subscriber.
pub ghost struct SubscriberModel {
    pub capacity: nat,
    pub queue: Seq<EnvelopeModel>,
    pub missed: nat,
}

/// Fans committed envelopes out to its subscribers. Each subscriber has its
/// own bounded queue; a full queue drops the envelope and counts it as
/// missed, so a slow subscriber never holds up the publisher or the others.
pub struct EventBus {
    subscribers: Vec<Subscriber>,
}

/// What a subscriber receives next.
pub enum Delivery {
    /// Envelopes were lost while the queue was full: the subscriber must
    /// replay its streams from the store.
    Lagged(u64),
    /// The next committed envelope.
    Envelope(EventEnvelope),
    /// Nothing is waiting.
    Empty,
}

/// `n + 1`, or `n` where that would not fit in a `u64`.
pub open spec fn bump(n: nat) -> nat {
    if n < u64::MAX {
        n + 1
    } else {
        n
    }
}

/// A subscriber after `e` is published to it.
pub open spec fn deliver(s: SubscriberModel, e: EnvelopeModel) -> SubscriberModel {
    if s.queue.len() < s.capacity {
        SubscriberModel { queue: s.queue.push(e), ..s }
    } else {
        SubscriberModel { missed: bump(s.missed), ..s }
    }
}

/// The number of subscribers among `subs` whose queue is full.
pub open spec fn full_count(subs: Seq<SubscriberModel>) -> nat
    decreases subs.len(),
{
    if subs.len() == 0 {
        0
    } else {
        full_count(subs.drop_last()) + if subs.last().queue.len() < subs.last().capacity {
            0nat
        } else {
            1nat
        }
    }
}


/// The subscribers after `envs` are published in order, and the number of
/// deliveries that full queues dropped.
pub open spec fn broadcast(subs: Seq<SubscriberModel>, envs: Seq<EnvelopeModel>) -> (
    Seq<SubscriberModel>,
    nat,
)
    decreases envs.len(),
{
    if envs.len() == 0 {
        (subs, 0)
    } else {
        let (s1, n1) = broadcast(subs, envs.drop_last());
        (s1.map_values(|s: SubscriberModel| deliver(s, envs.last())), n1 + full_count(s1))
    }
}

impl EventBus {
    spec fn model_of(s: Subscriber) -> SubscriberModel {
        SubscriberModel {
            capacity: s.capacity as nat,
            queue: models(s.queue@),
            missed: s.missed as nat,
        }
    }

    /// The subscribers, in the order in which they subscribed.
    pub closed spec fn subscribers(self) -> Seq<SubscriberModel> {
        self.subscribers@.map_values(|s: Subscriber| Self::model_of(s))
    }

    /// A bus without subscribers.
    pub fn new() -> (r: EventBus)
        ensures
            r.subscribers() == Seq::<SubscriberModel>::empty(),
    {
        let r = EventBus { subscribers: Vec::new() };
        assert(r.subscribers() =~= Seq::<SubscriberModel>::empty());
        r
    }

    /// Adds a subscriber whose queue holds at most `capacity` envelopes and
    /// returns its id.
    pub fn subscribe(&mut self, capacity: usize) -> (id: usize)
        ensures
            id == old(self).subscribers().len(),
            final(self).subscribers() == old(self).subscribers().push(
                SubscriberModel { capacity: capacity as nat, queue: Seq::empty(), missed: 0 },
            ),
    {
        let id = self.subscribers.len();
        let s = Subscriber { capacity, queue: VecDeque::new(), missed: 0 };
        self.subscribers.push(s);
        assert(models(s.queue@) =~= Seq::<EnvelopeModel>::empty());
        assert(self.subscribers() =~= old(self).subscribers().push(
            SubscriberModel { capacity: capacity as nat, queue: Seq::empty(), missed: 0 },
        ));
        id
    }

    /// Hands `e` to every subscriber and returns the number of subscribers
    /// whose queue was full, which miss it.
    pub fn publish(&mut self, e: &EventEnvelope) -> (undelivered: usize)
        ensures
            final(self).subscribers().len() == old(self).subscribers().len(),
            forall|i: int|
                0 <= i < old(self).subscribers().len() ==> #[trigger] final(self).subscribers()[i]
                    == deliver(old(self).subscribers()[i], e@),
            undelivered == full_count(old(self).subscribers()),
    {
        let ghost pre = self.subscribers();
        let mut undelivered: usize = 0;
        let mut i: usize = 0;
        while i < self.subscribers.len()
            invariant
                i <= self.subscribers@.len(),
                self.subscribers().len() == pre.len(),
                forall|j: int| 0 <= j < i ==> #[trigger] self.subscribers()[j] == deliver(pre[j], e@),
                forall|j: int| i <= j < pre.len() ==> #[trigger] self.subscribers()[j] == pre[j],
                undelivered == full_count(pre.take(i as int)),
                undelivered <= i,
            decreases self.subscribers@.len() - i,
        {
            let ghost before = self.subscribers@;
            let ghost before_m = self.subscribers();
            assert(pre.take(i + 1).drop_last() =~= pre.take(i as int));
            assert(self.subscribers()[i as int] == pre[i as int]);
            if self.subscribers[i].queue.len() < self.subscribers[i].capacity {
                let c = e.duplicate();
                self.subscribers[i].queue.push_back(c);
                assert(models(before[i as int].queue@.push(c)) =~= models(before[i as int].queue@).push(c@));
            } else {
                let m = self.subscribers[i].missed;
                self.subscribers[i].missed = if m < u64::MAX { m + 1 } else { m };
                undelivered = undelivered + 1;
            }
            assert forall|j: int| 0 <= j < self.subscribers@.len() && j != i implies self.subscribers()[j]
                == before_m[j] by {
                assert(self.subscribers@[j] == before[j]);
            }
            assert(Self::model_of(self.subscribers@[i as int]) == deliver(pre[i as int], e@));
            assert(self.subscribers()[i as int] == deliver(pre[i as int], e@));
            assert(self.subscribers@.len() == before.len());
            assert forall|j: int| 0 <= j < i + 1 implies #[trigger] self.subscribers()[j] == deliver(pre[j], e@) by {
                if j < i {
                    assert(before_m[j] == deliver(pre[j], e@));
                }
            }
            assert forall|j: int| i + 1 <= j < pre.len() implies #[trigger] self.subscribers()[j] == pre[j] by {
                assert(before_m[j] == pre[j]);
            }
            i = i + 1;
        }
        assert(pre.take(pre.len() as int) =~= pre);
        undelivered
    }

    /// The next delivery for subscriber `id`: first the number of envelopes it
    /// missed, if any, which resets that count; else the oldest queued
    /// envelope, which leaves the queue.
    pub fn receive(&mut self, id: usize) -> (r: Delivery)
        requires
            id < old(self).subscribers().len(),
        ensures
            final(self).subscribers().len() == old(self).subscribers().len(),
            forall|j: int|
                0 <= j < old(self).subscribers().len() && j != id ==> #[trigger] final(self).subscribers()[j]
                    == old(self).subscribers()[j],
            ({
                let s = old(self).subscribers()[id as int];
                let t = final(self).subscribers()[id as int];
                if s.missed > 0 {
                    r == Delivery::Lagged(s.missed as u64) && t == SubscriberModel { missed: 0, ..s }
                } else if s.queue.len() > 0 {
                    r matches Delivery::Envelope(e) && e@ == s.queue[0] && t == SubscriberModel {
                        queue: s.queue.drop_first(),
                        ..s
                    }
                } else {
                    r is Empty && t == s
                }
            }),
    {
        let ghost before = self.subscribers@;
        let m = self.subscribers[id].missed;
        if m > 0 {
            self.subscribers[id].missed = 0;
            assert forall|j: int| 0 <= j < self.subscribers@.len() && j != id implies self.subscribers@[j]
                == before[j] by {}
            assert(self.subscribers()[id as int] == SubscriberModel {
                missed: 0,
                ..old(self).subscribers()[id as int]
            });
            return Delivery::Lagged(m);
        }
        match self.subscribers[id].queue.pop_front() {
            Some(e) => {
                assert forall|j: int| 0 <= j < self.subscribers@.len() && j != id implies self.subscribers@[j]
                    == before[j] by {}
                assert(models(before[id as int].queue@).drop_first() =~= models(self.subscribers@[id as int].queue@));
                Delivery::Envelope(e)
            },
            None => Delivery::Empty,
        }
    }

    /// Publishes `envs` in order and returns the number of deliveries that
    /// full queues dropped, saturated at `u64::MAX`.
    pub fn publish_all(&mut self, envs: &Vec<EventEnvelope>) -> (undelivered: u64)
        ensures
            final(self).subscribers() == broadcast(old(self).subscribers(), models(envs@)).0,
            undelivered == if broadcast(old(self).subscribers(), models(envs@)).1 < u64::MAX {
                broadcast(old(self).subscribers(), models(envs@)).1
            } else {
                u64::MAX as nat
            },
    {
        let ghost pre = self.subscribers();
        let mut undelivered: u64 = 0;
        let mut k: usize = 0;
        while k < envs.len()
            invariant
                k <= envs@.len(),
                self.subscribers() == broadcast(pre, models(envs@).take(k as int)).0,
                undelivered == if broadcast(pre, models(envs@).take(k as int)).1 < u64::MAX {
                    broadcast(pre, models(envs@).take(k as int)).1
                } else {
                    u64::MAX as nat
                },
            decreases envs@.len() - k,
        {
            let ghost mid = self.subscribers();
            let n = self.publish(&envs[k]);
            proof {
                let t = models(envs@).take(k + 1);
                assert(t.drop_last() =~= models(envs@).take(k as int));
                assert(t.last() == envs@[k as int]@);
                assert(self.subscribers() =~= mid.map_values(|s: SubscriberModel| deliver(s, envs@[k as int]@)));
            }
            undelivered = if (n as u64) < u64::MAX - undelivered { undelivered + n as u64 } else { u64::MAX };
            k = k + 1;
        }
        assert(models(envs@).take(envs@.len() as int) =~= models(envs@));
        undelivered
    }
}

} // verus!
