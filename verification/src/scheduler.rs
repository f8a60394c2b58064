//! The delay scheduler: (fire-time, event) pairs kept ordered by fire-time.
//! Each tick drains every entry that has come due into the event queue and
//! stops at the first entry still in the future. An entry is never
//! delivered before its fire-time.

use vstd::prelude::*;

use crate::event::{Event, Priority};
use crate::queue::EventQueue;

verus! {

/// An event together with the absolute time, in milliseconds, at which it
/// fires.
#[derive(Debug)]
pub struct ScheduledEvent {
    pub emit_at: u64,
    pub event: Event,
}

/// The spec-level image of an event queue: its four lanes.
#[verifier::ext_equal]
pub struct QueueModel {
    pub critical: Seq<Event>,
    pub high: Seq<Event>,
    pub normal: Seq<Event>,
    pub low: Seq<Event>,
}

impl EventQueue {
    /// The four lanes of this queue as one spec value.
    pub open spec fn model(self) -> QueueModel {
        QueueModel {
            critical: self.lane(Priority::Critical),
            high: self.lane(Priority::High),
            normal: self.lane(Priority::Normal),
            low: self.lane(Priority::Low),
        }
    }
}

/// The model after pushing one event onto its lane.
pub open spec fn model_push(m: QueueModel, e: Event) -> QueueModel {
    match e.spec_priority() {
        Priority::Critical => QueueModel { critical: m.critical.push(e), ..m },
        Priority::High => QueueModel { high: m.high.push(e), ..m },
        Priority::Normal => QueueModel { normal: m.normal.push(e), ..m },
        Priority::Low => QueueModel { low: m.low.push(e), ..m },
    }
}

/// The model after pushing a sequence of events in order.
pub open spec fn model_push_all(m: QueueModel, es: Seq<Event>) -> QueueModel
    decreases es.len(),
{
    if es.len() == 0 {
        m
    } else {
        model_push_all(model_push(m, es[0]), es.drop_first())
    }
}

/// Pushing `es.push(e)` is pushing `es`, then `e`.
pub proof fn lemma_model_push_all_snoc(m: QueueModel, es: Seq<Event>, e: Event)
    ensures
        model_push_all(m, es.push(e)) == model_push(model_push_all(m, es), e),
    decreases es.len(),
{
    reveal_with_fuel(model_push_all, 3);
    if es.len() == 0 {
        assert(es.push(e).drop_first() =~= Seq::<Event>::empty());
        assert(es.push(e)[0] == e);
        assert(model_push_all(m, es.push(e)) =~= model_push(model_push_all(m, es), e));
    } else {
        assert(es.push(e)[0] == es[0]);
        assert(es.push(e).drop_first() =~= es.drop_first().push(e));
        lemma_model_push_all_snoc(model_push(m, es[0]), es.drop_first(), e);
        assert(model_push_all(m, es.push(e)) =~= model_push(model_push_all(m, es), e));
    }
}

/// The events of a run of scheduled entries, in order.
pub open spec fn events_of(s: Seq<ScheduledEvent>) -> Seq<Event> {
    s.map_values(|se: ScheduledEvent| se.event)
}

/// The number of leading entries of `s` due at `now`. For a sequence
/// sorted by fire-time this is the number of due entries overall.
pub open spec fn due_count_of(s: Seq<ScheduledEvent>, now: u64) -> int
    decreases s.len(),
{
    if s.len() == 0 {
        0
    } else if s[0].emit_at > now {
        0
    } else {
        1 + due_count_of(s.drop_first(), now)
    }
}

proof fn lemma_due_count(s: Seq<ScheduledEvent>, now: u64)
    ensures
        0 <= due_count_of(s, now) <= s.len(),
        forall|i: int| 0 <= i < due_count_of(s, now) ==> #[trigger] s[i].emit_at <= now,
        due_count_of(s, now) == s.len() || s[due_count_of(s, now)].emit_at > now,
    decreases s.len(),
{
    if s.len() == 0 {
    } else if s[0].emit_at > now {
    } else {
        lemma_due_count(s.drop_first(), now);
        assert(forall|i: int|
            0 <= i < s.drop_first().len() ==> #[trigger] s.drop_first()[i] == s[i + 1]);
        assert(forall|i: int|
            1 <= i < due_count_of(s, now) ==> #[trigger] s[i].emit_at == s.drop_first()[i - 1].emit_at);
    }
}

pub struct Scheduler {
    pub pending: Vec<ScheduledEvent>,
}

impl Scheduler {
    /// The pending entries, ordered by fire-time ascending; entries with
    /// equal fire-times keep the order they were scheduled in.
    pub open spec fn pending_view(self) -> Seq<ScheduledEvent> {
        self.pending@
    }

    /// Fire-times ascending.
    pub open spec fn wf(self) -> bool {
        forall|i: int, j: int|
            0 <= i <= j < self.pending@.len() ==> #[trigger] self.pending@[i].emit_at
                <= #[trigger] self.pending@[j].emit_at
    }

    pub fn new() -> (s: Scheduler)
        ensures
            s.pending_view() == Seq::<ScheduledEvent>::empty(),
            s.wf(),
    {
        Scheduler { pending: Vec::new() }
    }

    /// The fire-time of an entry scheduled at `now_ms` with delay
    /// `delay_ms`; a delay past the end of the clock saturates.
    pub open spec fn fire_time(now_ms: u64, delay_ms: u64) -> u64 {
        if now_ms + delay_ms <= u64::MAX {
            (now_ms + delay_ms) as u64
        } else {
            u64::MAX
        }
    }

    /// Schedule `event` to fire `delay_ms` after `now_ms`. The entry is
    /// placed after every entry with an earlier or equal fire-time, so
    /// entries for one instant fire in the order they were scheduled.
    pub fn schedule(&mut self, event: Event, delay_ms: u64, now_ms: u64)
        requires
            old(self).wf(),
        ensures
            final(self).wf(),
            ({
                let at = Self::fire_time(now_ms, delay_ms);
                let entry = ScheduledEvent { emit_at: at, event };
                exists|i: int|
                    {
                        &&& 0 <= i <= old(self).pending_view().len()
                        &&& final(self).pending_view() == old(self).pending_view().insert(i, entry)
                        &&& forall|j: int|
                            0 <= j < i ==> #[trigger] old(self).pending_view()[j].emit_at <= at
                        &&& forall|j: int|
                            i <= j < old(self).pending_view().len() ==> #[trigger] old(self).pending_view()[j].emit_at > at
                    }
            }),
    {
        let emit_at = match now_ms.checked_add(delay_ms) {
            Some(t) => t,
            None => u64::MAX,
        };
        let n = self.pending.len();
        let mut i: usize = 0;
        while i < n && self.pending[i].emit_at <= emit_at
            invariant
                self.pending@ == old(self).pending@,
                n == self.pending@.len(),
                i <= n,
                forall|j: int| 0 <= j < i ==> #[trigger] self.pending@[j].emit_at <= emit_at,
            decreases n - i,
        {
            i = i + 1;
        }
        proof {
            if (i as int) < self.pending@.len() {
                assert(forall|j: int|
                    i <= j < self.pending@.len() ==> self.pending@[i as int].emit_at
                        <= #[trigger] self.pending@[j].emit_at);
            }
        }
        let ghost idx = i as int;
        self.pending.insert(i, ScheduledEvent { emit_at, event });
        proof {
            assert(emit_at == Self::fire_time(now_ms, delay_ms));
            assert(0 <= idx <= old(self).pending_view().len() && self.pending_view() == old(self).pending_view().insert(idx, ScheduledEvent { emit_at, event }) && (forall|j: int|
                0 <= j < idx ==> #[trigger] old(self).pending_view()[j].emit_at <= emit_at) && (
            forall|j: int|
                idx <= j < old(self).pending_view().len() ==> #[trigger] old(self).pending_view()[j].emit_at > emit_at));
        }
    }

    /// Move every entry due at `now_ms` into the queue, earliest first,
    /// and keep the rest. No entry is delivered before its fire-time, and
    /// every entry whose fire-time has been reached is delivered.
    pub fn tick(&mut self, queue: &mut EventQueue, now_ms: u64)
        requires
            old(self).wf(),
            old(queue).wf(),
        ensures
            final(self).wf(),
            final(queue).wf(),
            ({
                let k = due_count_of(old(self).pending_view(), now_ms);
                &&& final(self).pending_view() == old(self).pending_view().skip(k)
                &&& final(queue).model() == model_push_all(
                    old(queue).model(),
                    events_of(old(self).pending_view().take(k)),
                )
            }),
            forall|i: int|
                0 <= i < final(self).pending_view().len()
                    ==> #[trigger] final(self).pending_view()[i].emit_at > now_ms,
    {
        let ghost orig: Seq<ScheduledEvent> = self.pending@;
        let ghost q0: QueueModel = queue.model();
        proof {
            lemma_due_count(orig, now_ms);
            assert(orig.len() == self.pending.len());
        }
        let mut k: usize = 0;
        while self.pending.len() > 0 && self.pending[0].emit_at <= now_ms
            invariant
                orig.len() <= usize::MAX,
                k <= orig.len(),
                self.pending@ =~= orig.skip(k as int),
                forall|i: int| 0 <= i < k ==> #[trigger] orig[i].emit_at <= now_ms,
                queue.wf(),
                queue.model() == model_push_all(q0, events_of(orig.take(k as int))),
                forall|i: int, j: int|
                    0 <= i <= j < orig.len() ==> #[trigger] orig[i].emit_at
                        <= #[trigger] orig[j].emit_at,
            decreases self.pending.len(),
        {
            proof {
                assert(self.pending@.len() == orig.skip(k as int).len());
                assert(k < orig.len());
            }
            let entry = self.pending.remove(0);
            proof {
                assert(entry == orig[k as int]);
                assert(events_of(orig.take(k as int + 1)) =~= events_of(orig.take(k as int)).push(
                    orig[k as int].event,
                ));
                lemma_model_push_all_snoc(q0, events_of(orig.take(k as int)), orig[k as int].event);
                assert(self.pending@ =~= orig.skip(k as int + 1));
            }
            queue.push(entry.event);
            k = k + 1;
        }
        proof {
            let kd = due_count_of(orig, now_ms);
            assert(k as int == kd) by {
                if (k as int) < kd {
                    assert(orig.skip(k as int)[0] == orig[k as int]);
                    assert(orig[k as int].emit_at <= now_ms);
                } else if kd < k as int {
                    assert(orig[kd].emit_at <= now_ms);
                    assert(orig[kd].emit_at > now_ms);
                }
            }
            assert(forall|i: int|
                0 <= i < self.pending_view().len() ==> #[trigger] self.pending_view()[i].emit_at
                    > now_ms) by {
                if self.pending_view().len() > 0 {
                    assert(self.pending_view()[0] == orig[k as int]);
                    assert(forall|i: int|
                        0 <= i < self.pending_view().len() ==> self.pending_view()[i]
                            == orig[k as int + i]);
                }
            }
        }
    }
}

/// Scheduler monotonicity: for any pending entry, a tick at time `now`
/// delivers it exactly when its fire-time has been reached — an entry
/// scheduled with delay D is never delivered before D has elapsed, and is
/// delivered by the first tick at or past its fire-time.
pub proof fn lemma_scheduler_monotonic(s: Scheduler, now: u64, idx: int)
    requires
        s.wf(),
        0 <= idx < s.pending_view().len(),
    ensures
        s.pending_view()[idx].emit_at > now ==> idx >= due_count_of(s.pending_view(), now)
            && s.pending_view().skip(due_count_of(s.pending_view(), now)).contains(
            s.pending_view()[idx],
        ),
        s.pending_view()[idx].emit_at <= now ==> idx < due_count_of(s.pending_view(), now)
            && events_of(s.pending_view().take(due_count_of(s.pending_view(), now))).contains(
            s.pending_view()[idx].event,
        ),
{
    let v = s.pending_view();
    let k = due_count_of(v, now);
    lemma_due_count(v, now);
    if v[idx].emit_at > now {
        assert(idx >= k) by {
            if idx < k {
                assert(v[idx].emit_at <= now);
            }
        }
        assert(v.skip(k)[idx - k] == v[idx]);
    } else {
        assert(idx < k) by {
            if idx >= k {
                assert(k < v.len());
                assert(v[k].emit_at <= v[idx].emit_at);
            }
        }
        assert(events_of(v.take(k))[idx] == v[idx].event);
    }
}

} // verus!
