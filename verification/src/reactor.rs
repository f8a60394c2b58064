//! The reactor: the top-level driver that owns the queue, the scheduler
//! and the components, and runs one tick per rendered frame — drain the
//! scheduler, poll the asynchronous components, then drain the event
//! queue, routing each event to the one component that owns its category.
//!
//! Every routed event is recorded in a ghost trace, each with the queue's
//! lanes at the moment it was taken: the trace shows that each event was
//! the most urgent one queued, that the lanes between two steps changed
//! only by that pop and the routed responses, and that the returned fetch
//! commands and display events are exactly what routing produced.
//!
//! The caller runs the outside work the tick decides on: it spawns the
//! returned fetch commands and feeds their results back through the
//! gateway channel, and it hands the returned display events (view and
//! beat traffic, and the error notices) to the presentation layer.

use vstd::prelude::*;

use tokio::sync::mpsc::{Receiver, Sender};

use crate::breathing::BreathingOverlay;
use crate::browser::ContentBrowser;
use crate::event::{BrowserEvent, ComponentResponse, Event, GatewayEvent, MediaEvent, SourceEvent};
use crate::gateway::{BooruGateway, FetchCommand, GatewayMessage};
use crate::media::{LoadWork, MediaCache, MediaMessage};
use crate::queue::EventQueue;
use crate::scheduler::{
    due_count_of, events_of, lemma_model_push_all_snoc, model_push_all, QueueModel, ScheduledEvent,
    Scheduler,
};
use crate::settings::SettingsManager;

verus! {

/// The cap on events one tick may process; a runaway cascade is cut off
/// here so the frame still renders.
pub const MAX_EVENTS_PER_TICK: usize = 1000;

/// The page size a fresh search asks for.
pub const SEARCH_LIMIT: u32 = 50;

/// No pending entry fires before `now`.
pub open spec fn scheduler_not_before(s: Scheduler, now: u64) -> bool {
    forall|i: int|
        0 <= i < s.pending_view().len() ==> (#[trigger] s.pending_view()[i]).emit_at >= now
}

/// No lane holds an event.
pub open spec fn model_is_empty(m: QueueModel) -> bool {
    m.critical.len() == 0 && m.high.len() == 0 && m.normal.len() == 0 && m.low.len() == 0
}

/// The front of the first non-empty lane, scanning from critical to low.
pub open spec fn model_front(m: QueueModel) -> Event {
    if m.critical.len() > 0 {
        m.critical[0]
    } else if m.high.len() > 0 {
        m.high[0]
    } else if m.normal.len() > 0 {
        m.normal[0]
    } else {
        m.low[0]
    }
}

/// The lanes after removing the front of the first non-empty lane.
pub open spec fn model_after_pop(m: QueueModel) -> QueueModel {
    if m.critical.len() > 0 {
        QueueModel { critical: m.critical.drop_first(), ..m }
    } else if m.high.len() > 0 {
        QueueModel { high: m.high.drop_first(), ..m }
    } else if m.normal.len() > 0 {
        QueueModel { normal: m.normal.drop_first(), ..m }
    } else {
        QueueModel { low: m.low.drop_first(), ..m }
    }
}

/// The event was the most urgent one queued: the front of the first
/// non-empty lane of `m`.
pub open spec fn pop_shape(m: QueueModel, e: Event) -> bool {
    !model_is_empty(m) && e == model_front(m)
}

/// Whether an event belongs to the presentation layer rather than to a
/// core component: view and beat traffic, and the two error notices,
/// which must reach the display promptly.
pub open spec fn is_display_event(e: Event) -> bool {
    match e {
        Event::View(_) => true,
        Event::Beat(_) => true,
        Event::Gateway(GatewayEvent::SearchError { .. }) => true,
        Event::Media(MediaEvent::LoadError { .. }) => true,
        _ => false,
    }
}

/// One routed event: the queue's lanes at the moment it was taken, the
/// event itself, the fetch command its routing produced, and whether it
/// went to the display.
pub struct RoutedStep {
    pub queue: QueueModel,
    pub event: Event,
    pub cmd: Option<FetchCommand>,
    pub display: bool,
}

/// The display events of a run of steps, in order.
pub open spec fn displays_of(steps: Seq<RoutedStep>) -> Seq<Event>
    decreases steps.len(),
{
    if steps.len() == 0 {
        Seq::<Event>::empty()
    } else {
        let init = displays_of(steps.drop_last());
        if steps.last().display {
            init.push(steps.last().event)
        } else {
            init
        }
    }
}

/// The fetch commands of a run of steps, in order.
pub open spec fn commands_of(steps: Seq<RoutedStep>) -> Seq<FetchCommand>
    decreases steps.len(),
{
    if steps.len() == 0 {
        Seq::<FetchCommand>::empty()
    } else {
        let init = commands_of(steps.drop_last());
        match steps.last().cmd {
            Some(c) => init.push(c),
            None => init,
        }
    }
}

/// The lanes at `q` follow from the step `prev`: its popped front left,
/// and some routed responses joined the lanes.
pub open spec fn chain_to(prev: RoutedStep, q: QueueModel) -> bool {
    exists|es: Seq<Event>| q == #[trigger] model_push_all(model_after_pop(prev.queue), es)
}

/// Consecutive steps are linked: each queue snapshot follows from the one
/// before it by that pop and the routed responses.
pub open spec fn steps_chained(steps: Seq<RoutedStep>) -> bool {
    forall|i: int| 0 <= i < steps.len() - 1 ==> chain_to(#[trigger] steps[i], steps[i + 1].queue)
}

/// Every step is well formed: its event was the most urgent one queued at
/// its snapshot, it is marked for the display exactly when the event is
/// display traffic, and a fetch command arises only from a search or
/// next-page request.
pub open spec fn steps_wf(steps: Seq<RoutedStep>) -> bool {
    forall|i: int|
        0 <= i < steps.len() ==> {
            &&& pop_shape((#[trigger] steps[i]).queue, steps[i].event)
            &&& steps[i].display == is_display_event(steps[i].event)
            &&& (steps[i].cmd is Some ==> steps[i].event matches Event::Gateway(
                GatewayEvent::SearchRequest { .. },
            ) || steps[i].event matches Event::Gateway(GatewayEvent::FetchNextPage))
        }
}

/// Pushing one run of events and then another is pushing both runs.
pub proof fn lemma_model_push_all_concat(m: QueueModel, a: Seq<Event>, b: Seq<Event>)
    ensures
        model_push_all(model_push_all(m, a), b) == model_push_all(m, a + b),
    decreases b.len(),
{
    if b.len() == 0 {
        assert(a + b =~= a);
    } else {
        let b0 = b.drop_last();
        let x = b.last();
        lemma_model_push_all_concat(m, a, b0);
        lemma_model_push_all_snoc(model_push_all(m, a), b0, x);
        lemma_model_push_all_snoc(m, a + b0, x);
        assert(b0.push(x) =~= b);
        assert((a + b0).push(x) =~= a + b);
    }
}

pub struct Reactor {
    pub queue: EventQueue,
    pub scheduler: Scheduler,
    pub gateway: BooruGateway,
    pub browser: ContentBrowser,
    pub media: MediaCache,
    pub breathing: BreathingOverlay,
    pub settings: SettingsManager,
    pub routed: Ghost<Seq<RoutedStep>>,
}

impl Reactor {
    /// Every owned structure is well-formed.
    pub open spec fn wf(self) -> bool {
        &&& self.queue.wf()
        &&& self.scheduler.wf()
        &&& self.media.wf()
        &&& self.browser.wf()
    }

    /// Build the components around the supplied channel ends and arm the
    /// breathing overlay's first phase timer.
    pub fn new(
        gateway_rx: Receiver<GatewayMessage>,
        priority_tx: Sender<LoadWork>,
        work_tx: Sender<LoadWork>,
        media_rx: Receiver<MediaMessage>,
        cache_bound: usize,
        now_ms: u64,
    ) -> (r: Reactor)
        requires
            cache_bound >= 1,
        ensures
            r.wf(),
            !r.gateway.fetch_pending,
            r.browser.posts@.len() == 0,
            r.media.current_item is None,
            r.queue.is_empty_spec(),
            r.scheduler.pending_view().len() == 1,
            r.routed@ == Seq::<RoutedStep>::empty(),
    {
        let mut reactor = Reactor {
            queue: EventQueue::new(),
            scheduler: Scheduler::new(),
            gateway: BooruGateway::new(gateway_rx),
            browser: ContentBrowser::new(),
            media: MediaCache::new(priority_tx, work_tx, media_rx, cache_bound),
            breathing: BreathingOverlay::new(now_ms),
            settings: SettingsManager::new(),
            routed: Ghost(Seq::empty()),
        };
        let init = reactor.breathing.init();
        reactor.process_response(init, now_ms);
        reactor
    }

    /// Fold one component response in: its events join the queue, its
    /// delayed events join the scheduler. Nothing already scheduled is
    /// lost, and nothing new fires before `now_ms`.
    fn process_response(&mut self, response: ComponentResponse, now_ms: u64)
        requires
            old(self).queue.wf(),
            old(self).scheduler.wf(),
        ensures
            final(self).queue.wf(),
            final(self).scheduler.wf(),
            final(self).gateway == old(self).gateway,
            final(self).browser == old(self).browser,
            final(self).media == old(self).media,
            final(self).breathing == old(self).breathing,
            final(self).settings == old(self).settings,
            final(self).routed == old(self).routed,
            final(self).queue.model() == model_push_all(old(self).queue.model(), response.events@),
            final(self).scheduler.pending_view().len() == old(self).scheduler.pending_view().len()
                + response.scheduled@.len(),
            forall|e: ScheduledEvent|
                old(self).scheduler.pending_view().contains(e) ==> final(self).scheduler.pending_view().contains(e),
            scheduler_not_before(old(self).scheduler, now_ms) ==> scheduler_not_before(
                final(self).scheduler,
                now_ms,
            ),
    {
        let ghost keep = scheduler_not_before(self.scheduler, now_ms);
        let ghost q0 = self.queue.model();
        let ghost orig_events = response.events@;
        let mut events = response.events;
        let ghost k: int = 0;
        while events.len() > 0
            invariant
                self.queue.wf(),
                0 <= k <= orig_events.len(),
                events@ =~= orig_events.skip(k),
                self.queue.model() == model_push_all(q0, orig_events.take(k)),
                self.scheduler == old(self).scheduler,
                self.gateway == old(self).gateway,
                self.browser == old(self).browser,
                self.media == old(self).media,
                self.breathing == old(self).breathing,
                self.settings == old(self).settings,
                self.routed == old(self).routed,
            decreases events.len(),
        {
            let e = events.remove(0);
            proof {
                assert(e == orig_events[k]);
                assert(events@ =~= orig_events.skip(k + 1));
                assert(orig_events.take(k + 1) =~= orig_events.take(k).push(orig_events[k]));
                lemma_model_push_all_snoc(q0, orig_events.take(k), orig_events[k]);
            }
            self.queue.push(e);
            proof {
                k = k + 1;
            }
        }
        proof {
            assert(orig_events.take(k) =~= orig_events);
        }
        let ghost qdone = self.queue.model();
        let ghost s0 = self.scheduler.pending_view().len() as int;
        let ghost sched_start = self.scheduler.pending_view();
        let ghost orig_scheduled = response.scheduled@;
        let mut scheduled = response.scheduled;
        while scheduled.len() > 0
            invariant
                self.queue.wf(),
                self.scheduler.wf(),
                self.queue.model() == qdone,
                self.scheduler.pending_view().len() + scheduled@.len() == s0
                    + orig_scheduled.len(),
                self.gateway == old(self).gateway,
                self.browser == old(self).browser,
                self.media == old(self).media,
                self.breathing == old(self).breathing,
                self.settings == old(self).settings,
                self.routed == old(self).routed,
                forall|ev: ScheduledEvent|
                    sched_start.contains(ev) ==> self.scheduler.pending_view().contains(ev),
                keep ==> scheduler_not_before(self.scheduler, now_ms),
            decreases scheduled.len(),
        {
            let (e, delay) = scheduled.remove(0);
            let ghost before = self.scheduler.pending_view();
            self.scheduler.schedule(e, delay, now_ms);
            proof {
                let at = Scheduler::fire_time(now_ms, delay);
                let idx = choose|kk: int|
                    0 <= kk <= before.len() && self.scheduler.pending_view() == before.insert(
                        kk,
                        ScheduledEvent { emit_at: at, event: e },
                    );
                assert forall|ev: ScheduledEvent| before.contains(ev) implies
                self.scheduler.pending_view().contains(ev) by {
                    let w = choose|i: int| 0 <= i < before.len() && before[i] == ev;
                    if w < idx {
                        assert(self.scheduler.pending_view()[w] == before[w]);
                    } else {
                        assert(self.scheduler.pending_view()[w + 1] == before[w]);
                    }
                }
                if keep {
                    assert forall|i: int|
                        0 <= i < self.scheduler.pending_view().len() implies (
                    #[trigger] self.scheduler.pending_view()[i]).emit_at >= now_ms by {
                        assert(at >= now_ms);
                        if i < idx {
                            assert(self.scheduler.pending_view()[i] == before[i]);
                        } else if i > idx {
                            assert(self.scheduler.pending_view()[i] == before[i - 1]);
                        }
                    }
                }
            }
        }
    }

    /// Turn one input-side event into the request it stands for.
    fn handle_source(&mut self, event: &SourceEvent) -> (resp: ComponentResponse)
        ensures
            *final(self) == *old(self),
            resp.scheduled@ == Seq::<(Event, u64)>::empty(),
            match event {
                SourceEvent::Search { query, page } => resp.events@ == seq![
                    Event::Gateway(
                        GatewayEvent::SearchRequest {
                            query: *query,
                            page: *page,
                            limit: SEARCH_LIMIT,
                        },
                    ),
                ],
                SourceEvent::Navigate(direction) => resp.events@ == seq![
                    Event::Browser(BrowserEvent::Navigate { direction: *direction }),
                ],
            },
    {
        match event {
            SourceEvent::Search { query, page } => ComponentResponse::emit(
                Event::Gateway(
                    GatewayEvent::SearchRequest {
                        query: query.clone(),
                        page: *page,
                        limit: SEARCH_LIMIT,
                    },
                ),
            ),
            SourceEvent::Navigate(direction) => ComponentResponse::emit(
                Event::Browser(BrowserEvent::Navigate { direction: *direction }),
            ),
        }
    }

    /// Route one event to the component that owns its category — never to
    /// more than one — and collect what it decides. Display traffic (view
    /// and beat events, and the two error notices) belongs to the
    /// presentation layer outside the core: it comes back unchanged in the
    /// third slot, so a critical search error reaches the display
    /// promptly. A fetch command arises only from a search or next-page
    /// request.
    fn route(&mut self, event: Event, now_ms: u64) -> (r: (
        ComponentResponse,
        Option<FetchCommand>,
        Option<Event>,
    ))
        requires
            old(self).wf(),
        ensures
            final(self).wf(),
            final(self).queue == old(self).queue,
            final(self).scheduler == old(self).scheduler,
            final(self).routed == old(self).routed,
            r.2 == (if is_display_event(event) {
                Some(event)
            } else {
                None::<Event>
            }),
            r.1 is Some ==> event matches Event::Gateway(GatewayEvent::SearchRequest { .. })
                || event matches Event::Gateway(GatewayEvent::FetchNextPage),
    {
        match &event {
            Event::Source(e) => {
                let resp = self.handle_source(e);
                (resp, None, None)
            },
            Event::Gateway(GatewayEvent::SearchError { .. }) => (
                ComponentResponse::none(),
                None,
                Some(event),
            ),
            Event::Gateway(_) => {
                let (resp, cmd) = self.gateway.handle(&event, now_ms);
                (resp, cmd, None)
            },
            Event::Browser(_) => {
                let resp = self.browser.handle(&event);
                (resp, None, None)
            },
            Event::Media(MediaEvent::LoadError { .. }) => (
                ComponentResponse::none(),
                None,
                Some(event),
            ),
            Event::Media(_) => {
                let resp = self.media.handle(&event);
                (resp, None, None)
            },
            Event::Breathing(_) => {
                let resp = self.breathing.handle(&event, now_ms);
                (resp, None, None)
            },
            Event::Settings(_) => {
                let resp = self.settings.handle(&event);
                (resp, None, None)
            },
            Event::View(_) => (ComponentResponse::none(), None, Some(event)),
            Event::Beat(_) => (ComponentResponse::none(), None, Some(event)),
        }
    }

    /// One tick: move every due entry of the scheduler into the queue (in
    /// fire-time order), poll the gateway and the media cache, then drain
    /// the queue — each drained event the most urgent one queued at that
    /// moment, each routed to its one owner, cascades included — until the
    /// queue is empty or the per-tick cap cuts a runaway cascade off. The
    /// ghost trace records the drain: its new steps start from the queue
    /// as the due events and poll responses left it, are chained pop by
    /// pop, and yield exactly the returned fetch commands and display
    /// events. Entries not yet due survive in the scheduler, and nothing
    /// in it fires before `now_ms` afterwards.
    #[verifier::rlimit(100)]
    pub fn tick(&mut self, now_ms: u64) -> (r: (Vec<FetchCommand>, Vec<Event>))
        requires
            old(self).wf(),
        ensures
            final(self).wf(),
            scheduler_not_before(final(self).scheduler, now_ms),
            final(self).routed@.len() >= old(self).routed@.len(),
            final(self).routed@.take(old(self).routed@.len() as int) == old(self).routed@,
            ({
                let k = due_count_of(old(self).scheduler.pending_view(), now_ms);
                let due = old(self).scheduler.pending_view().take(k);
                let steps = final(self).routed@.skip(old(self).routed@.len() as int);
                &&& forall|e: ScheduledEvent|
                    old(self).scheduler.pending_view().skip(k).contains(e) ==> final(self).scheduler.pending_view().contains(e)
                &&& steps.len() <= MAX_EVENTS_PER_TICK
                &&& (steps.len() < MAX_EVENTS_PER_TICK ==> final(self).queue.is_empty_spec())
                &&& (steps.len() > 0 ==> exists|pe: Seq<Event>|
                    steps[0].queue == #[trigger] model_push_all(
                        model_push_all(old(self).queue.model(), events_of(due)),
                        pe,
                    ))
                &&& (steps.len() == 0 ==> exists|pe: Seq<Event>|
                    final(self).queue.model() == #[trigger] model_push_all(
                        model_push_all(old(self).queue.model(), events_of(due)),
                        pe,
                    ))
                &&& steps_wf(steps)
                &&& steps_chained(steps)
                &&& r.0@ == commands_of(steps)
                &&& r.1@ == displays_of(steps)
            }),
    {
        let ghost base = self.routed@;
        let ghost sched0 = self.scheduler.pending_view();
        let ghost q0 = self.queue.model();
        let ghost k = due_count_of(sched0, now_ms);
        self.scheduler.tick(&mut self.queue, now_ms);
        proof {
            assert(scheduler_not_before(self.scheduler, now_ms));
            assert(self.queue.model() == model_push_all(q0, events_of(sched0.take(k))));
        }
        let ghost qdue = self.queue.model();
        let gateway_response = self.gateway.poll();
        let ghost gw_events = gateway_response.events@;
        self.process_response(gateway_response, now_ms);
        let media_response = self.media.poll();
        let ghost media_events = media_response.events@;
        self.process_response(media_response, now_ms);
        proof {
            lemma_model_push_all_concat(qdue, gw_events, media_events);
            assert(self.queue.model() == model_push_all(qdue, gw_events + media_events));
        }
        let ghost qpolls = self.queue.model();
        let mut cmds: Vec<FetchCommand> = Vec::new();
        let mut display: Vec<Event> = Vec::new();
        let mut iterations: usize = 0;
        let mut running = true;
        while running && iterations < MAX_EVENTS_PER_TICK
            invariant
                self.wf(),
                scheduler_not_before(self.scheduler, now_ms),
                forall|e: ScheduledEvent|
                    sched0.skip(k).contains(e) ==> self.scheduler.pending_view().contains(e),
                self.routed@.len() >= base.len(),
                self.routed@.take(base.len() as int) == base,
                ({
                    let steps = self.routed@.skip(base.len() as int);
                    &&& steps_wf(steps)
                    &&& steps_chained(steps)
                    &&& cmds@ == commands_of(steps)
                    &&& display@ == displays_of(steps)
                    &&& steps.len() <= iterations
                    &&& (running ==> steps.len() == iterations)
                    &&& (steps.len() == 0 ==> self.queue.model() == qpolls)
                    &&& (steps.len() > 0 ==> steps[0].queue == qpolls)
                    &&& (steps.len() > 0 ==> chain_to(steps[steps.len() - 1], self.queue.model()))
                }),
                iterations <= MAX_EVENTS_PER_TICK,
                !running ==> self.queue.is_empty_spec(),
            decreases MAX_EVENTS_PER_TICK - iterations,
        {
            let ghost qbefore = self.queue.model();
            let ghost steps_before = self.routed@.skip(base.len() as int);
            match self.queue.pop() {
                Some(event) => {
                    proof {
                        assert(pop_shape(qbefore, event));
                        assert(self.queue.model() =~= model_after_pop(qbefore));
                    }
                    let ghost gevent = event;
                    let (resp, cmd, ext) = self.route(event, now_ms);
                    let ghost gcmd = cmd;
                    let ghost resp_events = resp.events@;
                    self.process_response(resp, now_ms);
                    let ghost step = RoutedStep {
                        queue: qbefore,
                        event: gevent,
                        cmd: gcmd,
                        display: is_display_event(gevent),
                    };
                    proof {
                        self.routed@ = self.routed@.push(step);
                        let steps = self.routed@.skip(base.len() as int);
                        assert(steps =~= steps_before.push(step));
                        assert(self.routed@.take(base.len() as int) =~= base);
                        assert(steps.drop_last() =~= steps_before);
                        assert(steps.last() == step);
                        assert forall|i: int| 0 <= i < steps.len() - 1 implies chain_to(
                            #[trigger] steps[i],
                            steps[i + 1].queue,
                        ) by {
                            if i < steps_before.len() - 1 {
                                assert(steps[i] == steps_before[i]);
                                assert(steps[i + 1] == steps_before[i + 1]);
                            } else {
                                assert(steps[i] == steps_before[steps_before.len() - 1]);
                                assert(chain_to(steps_before[steps_before.len() - 1], qbefore));
                            }
                        }
                        assert(self.queue.model() == model_push_all(
                            model_after_pop(qbefore),
                            resp_events,
                        ));
                        assert(step.queue == qbefore);
                        assert(self.queue.model() == model_push_all(
                            model_after_pop(step.queue),
                            resp_events,
                        ));
                        assert(chain_to(step, self.queue.model()));
                    }
                    match cmd {
                        Some(c) => cmds.push(c),
                        None => {},
                    }
                    match ext {
                        Some(e) => display.push(e),
                        None => {},
                    }
                    proof {
                        let steps = self.routed@.skip(base.len() as int);
                        assert(cmds@ == commands_of(steps));
                        assert(display@ == displays_of(steps));
                    }
                },
                None => {
                    running = false;
                },
            }
            iterations = iterations + 1;
        }
        proof {
            let steps = self.routed@.skip(base.len() as int);
            if steps.len() < MAX_EVENTS_PER_TICK {
                assert(!running || iterations < MAX_EVENTS_PER_TICK);
                assert(self.queue.is_empty_spec());
            }
            if steps.len() > 0 {
                assert(exists|pe: Seq<Event>|
                    steps[0].queue == #[trigger] model_push_all(
                        model_push_all(q0, events_of(sched0.take(k))),
                        pe,
                    )) by {
                    assert(steps[0].queue == model_push_all(qdue, gw_events + media_events));
                }
            } else {
                assert(exists|pe: Seq<Event>|
                    self.queue.model() == #[trigger] model_push_all(
                        model_push_all(q0, events_of(sched0.take(k))),
                        pe,
                    )) by {
                    assert(self.queue.model() == model_push_all(qdue, gw_events + media_events));
                }
            }
        }
        (cmds, display)
    }

    /// Route events the presentation layer produced this frame — user
    /// input takes effect within the frame it was observed in; the
    /// responses it provokes join the queue for the next tick. The ghost
    /// trace records one step per given event, in order, and the returned
    /// lists are exactly what routing those events produced.
    pub fn dispatch(&mut self, events: Vec<Event>, now_ms: u64) -> (r: (
        Vec<FetchCommand>,
        Vec<Event>,
    ))
        requires
            old(self).wf(),
        ensures
            final(self).wf(),
            scheduler_not_before(old(self).scheduler, now_ms) ==> scheduler_not_before(
                final(self).scheduler,
                now_ms,
            ),
            final(self).routed@.len() >= old(self).routed@.len(),
            final(self).routed@.take(old(self).routed@.len() as int) == old(self).routed@,
            ({
                let steps = final(self).routed@.skip(old(self).routed@.len() as int);
                &&& steps.len() == events@.len()
                &&& forall|i: int|
                    0 <= i < steps.len() ==> (#[trigger] steps[i]).event == events@[i]
                &&& forall|i: int|
                    0 <= i < steps.len() ==> (#[trigger] steps[i]).display == is_display_event(
                        events@[i],
                    )
                &&& forall|i: int|
                    0 <= i < steps.len() ==> ((#[trigger] steps[i]).cmd is Some
                        ==> events@[i] matches Event::Gateway(GatewayEvent::SearchRequest { .. })
                        || events@[i] matches Event::Gateway(GatewayEvent::FetchNextPage))
                &&& r.0@ == commands_of(steps)
                &&& r.1@ == displays_of(steps)
            }),
    {
        let ghost base = self.routed@;
        let ghost keep = scheduler_not_before(self.scheduler, now_ms);
        let ghost orig = events@;
        let mut cmds: Vec<FetchCommand> = Vec::new();
        let mut display: Vec<Event> = Vec::new();
        let mut events = events;
        let ghost n: int = 0;
        while events.len() > 0
            invariant
                self.wf(),
                keep ==> scheduler_not_before(self.scheduler, now_ms),
                0 <= n <= orig.len(),
                events@ =~= orig.skip(n),
                self.routed@.len() == base.len() + n,
                self.routed@.take(base.len() as int) == base,
                ({
                    let steps = self.routed@.skip(base.len() as int);
                    &&& steps.len() == n
                    &&& forall|i: int|
                        0 <= i < steps.len() ==> (#[trigger] steps[i]).event == orig[i]
                    &&& forall|i: int|
                        0 <= i < steps.len() ==> (#[trigger] steps[i]).display
                            == is_display_event(orig[i])
                    &&& forall|i: int|
                        0 <= i < steps.len() ==> ((#[trigger] steps[i]).cmd is Some ==> orig[i]
                            matches Event::Gateway(GatewayEvent::SearchRequest { .. }) || orig[i]
                            matches Event::Gateway(GatewayEvent::FetchNextPage))
                    &&& cmds@ == commands_of(steps)
                    &&& display@ == displays_of(steps)
                }),
            decreases events.len(),
        {
            let event = events.remove(0);
            proof {
                assert(event == orig[n]);
                assert(events@ =~= orig.skip(n + 1));
            }
            let ghost gevent = event;
            let ghost steps_before = self.routed@.skip(base.len() as int);
            let (resp, cmd, ext) = self.route(event, now_ms);
            let ghost gcmd = cmd;
            self.process_response(resp, now_ms);
            let ghost step = RoutedStep {
                queue: self.queue.model(),
                event: gevent,
                cmd: gcmd,
                display: is_display_event(gevent),
            };
            proof {
                self.routed@ = self.routed@.push(step);
                let steps = self.routed@.skip(base.len() as int);
                assert(steps =~= steps_before.push(step));
                assert(self.routed@.take(base.len() as int) =~= base);
                assert(steps.drop_last() =~= steps_before);
                assert(steps.last() == step);
                n = n + 1;
            }
            match cmd {
                Some(c) => cmds.push(c),
                None => {},
            }
            match ext {
                Some(e) => display.push(e),
                None => {},
            }
            proof {
                let steps = self.routed@.skip(base.len() as int);
                assert(cmds@ == commands_of(steps));
                assert(display@ == displays_of(steps));
            }
        }
        proof {
            assert(orig.skip(n) =~= Seq::<Event>::empty());
            assert(n == orig.len());
        }
        (cmds, display)
    }
}

} // verus!
