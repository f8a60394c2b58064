//! The priority event queue: four FIFO lanes, one per priority level.
//! `pop` drains strictly by priority — no lower lane yields an event while
//! a higher lane still holds one — and keeps first-in-first-out order
//! within a lane.

use std::collections::VecDeque;
use vstd::prelude::*;

use crate::event::{Event, Priority};

verus! {

/// Priority event queue with four priority levels.
pub struct EventQueue {
    pub critical: VecDeque<Event>,
    pub high: VecDeque<Event>,
    pub normal: VecDeque<Event>,
    pub low: VecDeque<Event>,
}

impl EventQueue {
    /// The contents of the lane for a priority level, front first.
    pub open spec fn lane(self, p: Priority) -> Seq<Event> {
        match p {
            Priority::Critical => self.critical@,
            Priority::High => self.high@,
            Priority::Normal => self.normal@,
            Priority::Low => self.low@,
        }
    }

    /// True when no lane holds an event.
    pub open spec fn is_empty_spec(self) -> bool {
        self.critical@.len() == 0 && self.high@.len() == 0 && self.normal@.len() == 0
            && self.low@.len() == 0
    }

    /// The priority of the event `pop` returns next: the highest level
    /// whose lane is non-empty.
    pub open spec fn front_priority(self) -> Priority {
        if self.critical@.len() > 0 {
            Priority::Critical
        } else if self.high@.len() > 0 {
            Priority::High
        } else if self.normal@.len() > 0 {
            Priority::Normal
        } else {
            Priority::Low
        }
    }

    /// All queued events have the priority of their lane.
    pub open spec fn wf(self) -> bool {
        forall|p: Priority, i: int|
            0 <= i < self.lane(p).len() ==> (#[trigger] self.lane(p)[i]).spec_priority() == p
    }

    pub fn new() -> (q: EventQueue)
        ensures
            q.is_empty_spec(),
            q.wf(),
    {
        EventQueue {
            critical: VecDeque::new(),
            high: VecDeque::new(),
            normal: VecDeque::new(),
            low: VecDeque::new(),
        }
    }

    /// Append an event to the lane matching its priority.
    pub fn push(&mut self, event: Event)
        requires
            old(self).wf(),
        ensures
            final(self).wf(),
            final(self).lane(event.spec_priority()) == old(self).lane(
                event.spec_priority(),
            ).push(event),
            forall|p: Priority|
                p != event.spec_priority() ==> final(self).lane(p) == old(self).lane(p),
    {
        let p = event.priority();
        match p {
            Priority::Critical => self.critical.push_back(event),
            Priority::High => self.high.push_back(event),
            Priority::Normal => self.normal.push_back(event),
            Priority::Low => self.low.push_back(event),
        }
        proof {
            assert forall|q: Priority, i: int| 0 <= i < self.lane(q).len() implies (
            #[trigger] self.lane(q)[i]).spec_priority() == q by {
                if q == event.spec_priority() {
                    if i < old(self).lane(q).len() {
                        assert(old(self).lane(q)[i].spec_priority() == q);
                    } else {
                        assert(self.lane(q)[i] == event);
                    }
                } else {
                    assert(self.lane(q)[i] == old(self).lane(q)[i]);
                }
            }
        }
    }

    /// Pop the highest-priority event available: the front of the first
    /// non-empty lane, scanning from critical to low.
    pub fn pop(&mut self) -> (r: Option<Event>)
        requires
            old(self).wf(),
        ensures
            final(self).wf(),
            old(self).is_empty_spec() ==> r is None && forall|p: Priority|
                final(self).lane(p) == old(self).lane(p),
            !old(self).is_empty_spec() ==> {
                let p = old(self).front_priority();
                &&& r == Some(old(self).lane(p)[0])
                &&& r.unwrap().spec_priority() == p
                &&& final(self).lane(p) == old(self).lane(p).drop_first()
                &&& forall|q: Priority| q != p ==> final(self).lane(q) == old(self).lane(q)
            },
    {
        proof {
            if !old(self).is_empty_spec() {
                let p = old(self).front_priority();
                assert(old(self).lane(p)[0].spec_priority() == p);
            }
        }
        if let Some(e) = self.critical.pop_front() {
            proof {
                lemma_pop_wf(*old(self), *self, Priority::Critical);
            }
            return Some(e);
        }
        if let Some(e) = self.high.pop_front() {
            proof {
                lemma_pop_wf(*old(self), *self, Priority::High);
            }
            return Some(e);
        }
        if let Some(e) = self.normal.pop_front() {
            proof {
                lemma_pop_wf(*old(self), *self, Priority::Normal);
            }
            return Some(e);
        }
        if let Some(e) = self.low.pop_front() {
            proof {
                lemma_pop_wf(*old(self), *self, Priority::Low);
            }
            return Some(e);
        }
        None
    }
}

/// After dropping the front of one lane, every lane still holds only
/// events of its own priority.
proof fn lemma_pop_wf(before: EventQueue, after: EventQueue, p: Priority)
    requires
        before.wf(),
        before.lane(p).len() > 0,
        after.lane(p) == before.lane(p).drop_first(),
        forall|q: Priority| q != p ==> after.lane(q) == before.lane(q),
    ensures
        after.wf(),
{
    assert forall|q: Priority, i: int| 0 <= i < after.lane(q).len() implies (
    #[trigger] after.lane(q)[i]).spec_priority() == q by {
        if q == p {
            assert(after.lane(q)[i] == before.lane(q)[i + 1]);
            assert(before.lane(q)[i + 1].spec_priority() == q);
        } else {
            assert(after.lane(q)[i] == before.lane(q)[i]);
        }
    }
}

/// Priority preemption: whenever any event is queued, `pop` returns one of
/// the most urgent level present — a critical event if one is queued, else
/// a high one, and so on — never an event from a lower lane.
pub proof fn lemma_priority_preemption(q: EventQueue)
    requires
        !q.is_empty_spec(),
    ensures
        q.lane(q.front_priority()).len() > 0,
        q.critical@.len() > 0 ==> q.front_priority() == Priority::Critical,
        q.critical@.len() == 0 && q.high@.len() > 0 ==> q.front_priority() == Priority::High,
        q.critical@.len() == 0 && q.high@.len() == 0 && q.normal@.len() > 0 ==> q.front_priority()
            == Priority::Normal,
        q.critical@.len() == 0 && q.high@.len() == 0 && q.normal@.len() == 0 ==> q.front_priority()
            == Priority::Low,
{
}

/// First-in, first-out within a level: one queue operation never
/// reorders a lane. A push leaves every queued event where it stood and
/// appends the new one behind them; a pop takes one lane's front and
/// shifts the rest forward, keeping their order. So of two events queued
/// at one level, the earlier one leaves the queue first, however many
/// operations run in between: each step either keeps the pair in order or
/// returns the earlier one.
pub proof fn lemma_fifo_step(pre: Seq<Event>, post: Seq<Event>, i1: int, i2: int)
    requires
        0 <= i1 < i2 < pre.len(),
        post == pre.drop_first() || (exists|e: Event| post == #[trigger] pre.push(e)),
    ensures
        post == pre.drop_first() && i1 > 0 ==> 0 <= i1 - 1 < i2 - 1 < post.len() && post[i1 - 1]
            == pre[i1] && post[i2 - 1] == pre[i2],
        post != pre.drop_first() ==> i2 < post.len() && post[i1] == pre[i1] && post[i2]
            == pre[i2],
{
}

} // verus!
