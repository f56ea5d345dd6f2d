//! The events that an agent retains, and those that it failed to deliver.
//!
//! Events go to a live channel that may be full. What the channel did not take
//! is still in the ring, and once the channel takes events again a notice
//! tells how many it missed.

use crate::events::{event_models, AgentEvent, EventModel, EvictedModel};
use crate::events::{evicted_models, lemma_events_push};
use crate::priority::EvictedGroupRef;
use vstd::prelude::*;
use vstd::string::*;

use std::collections::VecDeque;

verus! {

broadcast use lemma_events_push;

/// How many events are retained by default.
pub const DEFAULT_EMITTER_RETENTION: usize = 200;

/// How many events a live subscriber may lag behind.
pub const DEFAULT_BROADCAST_CAP: usize = 200;

/// What became of an event that was offered to the live channel.
#[derive(Debug, Clone, Copy, PartialEq, Eq, Structural)]
pub enum Delivery {
    Delivered,
    Full,
    Closed,
}

/// A sequence of at most `cap` items, with one more at the end: the oldest
/// makes room for it.
pub open spec fn ring_push<A>(s: Seq<A>, cap: nat, a: A) -> Seq<A> {
    if cap == 0 {
        s
    } else if s.len() >= cap {
        s.subrange(1, s.len() as int).push(a)
    } else {
        s.push(a)
    }
}

/// What an emitter retains, and what it has not delivered since its last
/// success.
pub struct EmitterModel {
    pub ring: Seq<EventModel>,
    pub cap: nat,
    pub dropped: nat,
}

/// The retained events, oldest first, and the count of those that the live
/// channel did not take.
#[derive(Debug)]
pub struct EmitterState {
    ring: VecDeque<AgentEvent>,
    cap: usize,
    dropped: u64,
}

impl View for EmitterState {
    type V = EmitterModel;

    closed spec fn view(&self) -> EmitterModel {
        EmitterModel {
            ring: event_models(self.ring@),
            cap: self.cap as nat,
            dropped: self.dropped as nat,
        }
    }
}

impl EmitterModel {
    /// The ring holds no more than it may.
    pub open spec fn wf(self) -> bool {
        self.ring.len() <= self.cap
    }
}

/// A counter that stays at its largest value.
pub open spec fn bump(n: nat, by: nat) -> nat {
    if n + by <= u64::MAX {
        n + by
    } else {
        u64::MAX as nat
    }
}

impl EmitterState {
    /// Retains `cap` events, and at least one.
    pub fn with_retention(cap: usize) -> (r: EmitterState)
        ensures
            r@.ring == Seq::<EventModel>::empty(),
            r@.cap == (if cap == 0 {
                1
            } else {
                cap as nat
            }),
            r@.dropped == 0,
            r@.wf(),
    {
        let ring: VecDeque<AgentEvent> = VecDeque::new();
        assert(event_models(ring@) =~= Seq::<EventModel>::empty());
        EmitterState {
            ring,
            cap: if cap == 0 {
                1
            } else {
                cap
            },
            dropped: 0,
        }
    }

    /// Retains nothing.
    pub fn without_retention() -> (r: EmitterState)
        ensures
            r@.ring == Seq::<EventModel>::empty(),
            r@.cap == 0,
            r@.dropped == 0,
            r@.wf(),
    {
        let ring: VecDeque<AgentEvent> = VecDeque::new();
        assert(event_models(ring@) =~= Seq::<EventModel>::empty());
        EmitterState { ring, cap: 0, dropped: 0 }
    }

    /// How many events are retained.
    pub fn retention_cap(&self) -> (r: usize)
        ensures
            r == self@.cap,
    {
        self.cap
    }

    /// How many events the live channel has not taken since it last took one.
    pub fn dropped_since_last(&self) -> (r: u64)
        ensures
            r == self@.dropped,
    {
        self.dropped
    }

    /// The retained events, oldest first.
    pub fn replay(&self) -> (r: Vec<AgentEvent>)
        ensures
            event_models(r@) == self@.ring,
    {
        let mut out: Vec<AgentEvent> = Vec::new();
        let mut i: usize = 0;
        while i < self.ring.len()
            invariant
                i <= self.ring@.len(),
                event_models(out@) == event_models(self.ring@).take(i as int),
            decreases self.ring@.len() - i,
        {
            let e = self.ring[i].clone();
            assert(event_models(self.ring@)[i as int] == e@);
            out.push(e);
            assert(event_models(out@) =~= event_models(self.ring@).take(i + 1));
            i += 1;
        }
        assert(event_models(out@) =~= event_models(self.ring@));
        out
    }

    /// Retains an event, before it is offered to the live channel.
    pub fn retain(&mut self, event: &AgentEvent)
        requires
            old(self)@.wf(),
        ensures
            final(self)@.ring == ring_push(old(self)@.ring, old(self)@.cap, event@),
            final(self)@.cap == old(self)@.cap,
            final(self)@.dropped == old(self)@.dropped,
            final(self)@.wf(),
    {
        let ghost before = event_models(self.ring@);
        if self.cap > 0 {
            if self.ring.len() == self.cap {
                let _oldest = self.ring.pop_front();
            }
            let ghost middle = event_models(self.ring@);
            assert(middle =~= if before.len() >= self.cap {
                before.subrange(1, before.len() as int)
            } else {
                before
            });
            let e = event.clone();
            self.ring.push_back(e);
            assert(event_models(self.ring@) =~= middle.push(event@));
        }
    }

    /// Takes note of what became of an event. If it was delivered after some
    /// were not, returns the notice that is to be sent next, which is retained
    /// too.
    pub fn sent(&mut self, delivery: Delivery) -> (r: Option<AgentEvent>)
        requires
            old(self)@.wf(),
        ensures
            final(self)@.cap == old(self)@.cap,
            final(self)@.wf(),
            match delivery {
                Delivery::Delivered => {
                    &&& final(self)@.dropped == 0
                    &&& if old(self)@.dropped == 0 {
                        &&& r is None
                        &&& final(self)@.ring == old(self)@.ring
                    } else {
                        let notice = EventModel::EventBufferOverflow {
                            dropped_since_last: old(self)@.dropped as u64,
                        };
                        &&& r is Some
                        &&& r->0@ == notice
                        &&& final(self)@.ring == ring_push(
                            old(self)@.ring,
                            old(self)@.cap,
                            notice,
                        )
                    }
                },
                Delivery::Full => {
                    &&& r is None
                    &&& final(self)@.ring == old(self)@.ring
                    &&& final(self)@.dropped == bump(old(self)@.dropped, 1)
                },
                Delivery::Closed => {
                    &&& r is None
                    &&& final(self)@.ring == old(self)@.ring
                    &&& final(self)@.dropped == old(self)@.dropped
                },
            },
    {
        match delivery {
            Delivery::Delivered => {
                let prior: u64 = self.dropped;
                self.dropped = 0;
                if prior == 0 {
                    return None;
                }
                let notice = AgentEvent::EventBufferOverflow { dropped_since_last: prior };
                self.retain(&notice);
                Some(notice)
            },
            Delivery::Full => {
                self.dropped = self.dropped.saturating_add(1);
                None
            },
            Delivery::Closed => None,
        }
    }

    /// Takes note of what became of a notice about `prior` events: if it was
    /// not delivered, the events count again.
    pub fn notice_sent(&mut self, prior: u64, delivered: bool)
        ensures
            final(self)@.ring == old(self)@.ring,
            final(self)@.cap == old(self)@.cap,
            final(self)@.dropped == (if delivered {
                old(self)@.dropped
            } else {
                bump(old(self)@.dropped, prior as nat)
            }),
    {
        if !delivered {
            self.dropped = self.dropped.saturating_add(prior);
        }
    }
}

/// The ring after `events`, one after the other.
pub open spec fn ring_after(s: Seq<EventModel>, cap: nat, events: Seq<EventModel>) -> Seq<EventModel>
    decreases events.len(),
{
    if events.len() == 0 {
        s
    } else {
        ring_push(ring_after(s, cap, events.drop_last()), cap, events.last())
    }
}

/// A ring that began empty holds the last `cap` events, in order.
pub proof fn law_ring_holds_the_latest(cap: nat, events: Seq<EventModel>)
    requires
        cap > 0,
    ensures
        ring_after(Seq::empty(), cap, events) == if events.len() <= cap {
            events
        } else {
            events.subrange(events.len() - cap, events.len() as int)
        },
    decreases events.len(),
{
    if events.len() > 0 {
        law_ring_holds_the_latest(cap, events.drop_last());
        let rest = ring_after(Seq::empty(), cap, events.drop_last());
        assert(ring_after(Seq::empty(), cap, events) =~= if events.len() <= cap {
            events
        } else {
            events.subrange(events.len() - cap, events.len() as int)
        });
    }
}

/// What the groups cost together.
pub open spec fn evicted_tokens(groups: Seq<EvictedModel>) -> nat
    decreases groups.len(),
{
    if groups.len() == 0 {
        0
    } else {
        evicted_tokens(groups.drop_last()) + groups.last().token_count as nat
    }
}

proof fn lemma_evicted_tokens_part(groups: Seq<EvictedModel>, i: int)
    requires
        0 <= i <= groups.len(),
    ensures
        evicted_tokens(groups.take(i)) <= evicted_tokens(groups),
    decreases groups.len() - i,
{
    if i < groups.len() {
        lemma_evicted_tokens_part(groups, i + 1);
        assert(groups.take(i + 1).drop_last() =~= groups.take(i));
    } else {
        assert(groups.take(i) =~= groups);
    }
}

/// The event that tells which groups were dropped, if any were.
pub fn context_groups_evicted(strategy: &str, groups: Vec<EvictedGroupRef>) -> (r: Option<
    AgentEvent,
>)
    requires
        evicted_tokens(evicted_models(groups@)) <= u32::MAX,
    ensures
        groups@.len() == 0 ==> r is None,
        groups@.len() > 0 ==> r is Some && r->0@ == (EventModel::ContextGroupsEvicted {
            strategy: strategy@,
            groups: evicted_models(groups@),
            total_tokens: evicted_tokens(evicted_models(groups@)) as u32,
        }),
{
    if groups.is_empty() {
        return None;
    }
    let ghost all = evicted_models(groups@);
    let mut total: u32 = 0;
    let mut i: usize = 0;
    assert(all.take(0) =~= Seq::<EvictedModel>::empty());
    while i < groups.len()
        invariant
            all == evicted_models(groups@),
            evicted_tokens(all) <= u32::MAX,
            i <= all.len(),
            total == evicted_tokens(all.take(i as int)),
        decreases all.len() - i,
    {
        proof {
            assert(all.take(i + 1).drop_last() =~= all.take(i as int));
            assert(all.take(i + 1).last() == groups@[i as int]@);
            lemma_evicted_tokens_part(all, i + 1);
        }
        total = total + groups[i].token_count;
        i += 1;
    }
    assert(all.take(i as int) =~= all);
    Some(
        AgentEvent::ContextGroupsEvicted {
            strategy: strategy.to_owned(),
            groups,
            total_tokens: total,
        },
    )
}

} // verus!
