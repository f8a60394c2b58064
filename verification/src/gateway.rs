//! The search gateway: owns the query/page context and the pending flag
//! for the rate-limited connection to the search API. The gateway decides
//! which fetches run; the network call itself is performed by a background
//! task that reports back through the gateway's message channel.
//!
//! Rate limiting keeps a sliding window of the last two accepted request
//! times; a request is permitted only while fewer than two requests sit in
//! the trailing one-second window. Requests beyond the limit are dropped,
//! not queued: the caller re-triggers later.

use std::collections::VecDeque;
use vstd::prelude::*;

use tokio::sync::mpsc::Receiver;

use crate::api::Post;
use crate::chan::try_recv_gateway;
use crate::event::{BrowserEvent, ComponentResponse, Event, GatewayEvent};

verus! {

/// How many requests the trailing window may hold.
pub const RATE_LIMIT_MAX: usize = 2;

/// The length of the trailing window, in milliseconds.
pub const RATE_WINDOW_MS: u64 = 1000;

/// How many waiting messages one poll drains at most; the rest are picked
/// up on the next tick.
pub const GATEWAY_POLL_BUDGET: usize = 64;

/// The page size requested when paginating forward.
pub const NEXT_PAGE_LIMIT: u32 = 50;

/// Message from the background search task back to the gateway.
pub enum GatewayMessage {
    SearchComplete { posts: Vec<Post>, page: u32, is_new: bool },
    SearchError { message: String },
}

/// A fetch the gateway has decided to run: the caller spawns the search
/// with these parameters and reports the outcome as a `GatewayMessage`.
#[derive(Clone, Debug)]
pub struct FetchCommand {
    pub query: String,
    pub page: u32,
    pub limit: u32,
    pub is_new: bool,
}

/// True when one more request is permitted at `now`, given the accepted
/// request times in `times` (oldest first): the window holds fewer than
/// two, or the oldest left the trailing second.
pub open spec fn spec_can_request(times: Seq<u64>, now: u64) -> bool {
    times.len() < RATE_LIMIT_MAX || now >= times[0] + RATE_WINDOW_MS
}

/// The window after accepting a request at `now`: `now` is appended and
/// the window keeps only its newest two entries.
pub open spec fn spec_record(times: Seq<u64>, now: u64) -> Seq<u64> {
    let t = times.push(now);
    if t.len() > RATE_LIMIT_MAX {
        t.drop_first()
    } else {
        t
    }
}

/// What `handle` guarantees for a search request: ignored while a fetch
/// is pending or the rate limit is reached; otherwise the request becomes
/// the current context, the window records it, and the command carries it.
pub open spec fn search_request_post(
    pre: BooruGateway,
    post: BooruGateway,
    cmd: Option<FetchCommand>,
    query: String,
    page: u32,
    limit: u32,
    now_ms: u64,
) -> bool {
    if pre.fetch_pending || !spec_can_request(pre.last_request_times@, now_ms) {
        BooruGateway::same_state(pre, post) && cmd is None
    } else {
        &&& post.current_query == query
        &&& post.current_page == page
        &&& post.fetch_pending
        &&& post.last_request_times@ == spec_record(pre.last_request_times@, now_ms)
        &&& cmd == Some(FetchCommand { query, page, limit, is_new: true })
    }
}

/// What `handle` guarantees for a next-page request: only proceeds when
/// nothing is pending, a query is established, the page counter has room,
/// and the rate limit permits.
pub open spec fn fetch_next_page_post(
    pre: BooruGateway,
    post: BooruGateway,
    cmd: Option<FetchCommand>,
    now_ms: u64,
) -> bool {
    if !spec_can_request(pre.last_request_times@, now_ms) || pre.fetch_pending
        || pre.current_query@.len() == 0 || pre.current_page == u32::MAX {
        BooruGateway::same_state(pre, post) && cmd is None
    } else {
        &&& post.current_query == pre.current_query
        &&& post.current_page == pre.current_page
        &&& post.fetch_pending
        &&& post.last_request_times@ == spec_record(pre.last_request_times@, now_ms)
        &&& cmd == Some(
            FetchCommand {
                query: pre.current_query,
                page: (pre.current_page + 1) as u32,
                limit: NEXT_PAGE_LIMIT,
                is_new: false,
            },
        )
    }
}

pub struct BooruGateway {
    pub receiver: Receiver<GatewayMessage>,
    pub current_query: String,
    pub current_page: u32,
    pub fetch_pending: bool,
    pub last_request_times: VecDeque<u64>,
}

impl BooruGateway {
    /// The bookkeeping fields of `b` equal those of `a`; the message
    /// channel is not compared.
    pub open spec fn same_state(a: BooruGateway, b: BooruGateway) -> bool {
        &&& b.current_query == a.current_query
        &&& b.current_page == a.current_page
        &&& b.fetch_pending == a.fetch_pending
        &&& b.last_request_times@ == a.last_request_times@
    }

    /// The gateway owns the receiving half of the result channel; the
    /// sending half belongs to the background search tasks.
    pub fn new(receiver: Receiver<GatewayMessage>) -> (g: BooruGateway)
        ensures
            g.current_query@ == Seq::<char>::empty(),
            g.current_page == 1,
            !g.fetch_pending,
            g.last_request_times@ == Seq::<u64>::empty(),
    {
        BooruGateway {
            receiver,
            current_query: String::new(),
            current_page: 1,
            fetch_pending: false,
            last_request_times: VecDeque::new(),
        }
    }

    /// Whether an API request is permitted at `now_ms`.
    pub fn can_request(&self, now_ms: u64) -> (r: bool)
        ensures
            r == spec_can_request(self.last_request_times@, now_ms),
    {
        if self.last_request_times.len() < RATE_LIMIT_MAX {
            return true;
        }
        let oldest = self.last_request_times[0];
        match oldest.checked_add(RATE_WINDOW_MS) {
            Some(limit) => now_ms >= limit,
            None => false,
        }
    }

    /// Record an accepted request at `now_ms` in the sliding window.
    fn record_request(&mut self, now_ms: u64)
        ensures
            final(self).last_request_times@ == spec_record(
                old(self).last_request_times@,
                now_ms,
            ),
            final(self).current_query == old(self).current_query,
            final(self).current_page == old(self).current_page,
            final(self).fetch_pending == old(self).fetch_pending,
    {
        self.last_request_times.push_back(now_ms);
        if self.last_request_times.len() > RATE_LIMIT_MAX {
            self.last_request_times.pop_front();
        }
    }

    /// True while a fetch is in flight.
    pub fn is_loading(&self) -> (r: bool)
        ensures
            r == self.fetch_pending,
    {
        self.fetch_pending
    }

    /// Act on one event at time `now_ms`. A search request is ignored
    /// while a fetch is already pending (at most one in flight) and
    /// dropped while the rate limit is reached; otherwise it becomes the
    /// new current context and a fetch command. A next-page request only
    /// proceeds when nothing is pending, a query is established, and the
    /// rate limit permits. The returned command, if any, is the fetch the
    /// caller must run.
    pub fn handle(&mut self, event: &Event, now_ms: u64) -> (r: (
        ComponentResponse,
        Option<FetchCommand>,
    ))
        ensures
            r.0.events@ == Seq::<Event>::empty(),
            r.0.scheduled@ == Seq::<(Event, u64)>::empty(),
            match event {
                Event::Gateway(GatewayEvent::SearchRequest { query, page, limit }) => {
                    search_request_post(
                        *old(self),
                        *final(self),
                        r.1,
                        *query,
                        *page,
                        *limit,
                        now_ms,
                    )
                },
                Event::Gateway(GatewayEvent::FetchNextPage) => {
                    fetch_next_page_post(*old(self), *final(self), r.1, now_ms)
                },
                _ => Self::same_state(*old(self), *final(self)) && r.1 is None,
            },
    {
        match event {
            Event::Gateway(GatewayEvent::SearchRequest { query, page, limit }) => {
                if self.fetch_pending {
                    return (ComponentResponse::none(), None);
                }
                if !self.can_request(now_ms) {
                    return (ComponentResponse::none(), None);
                }
                self.record_request(now_ms);
                self.current_query = query.clone();
                self.current_page = *page;
                self.fetch_pending = true;
                let cmd = FetchCommand {
                    query: query.clone(),
                    page: *page,
                    limit: *limit,
                    is_new: true,
                };
                (ComponentResponse::none(), Some(cmd))
            },
            Event::Gateway(GatewayEvent::FetchNextPage) => {
                if !self.can_request(now_ms) {
                    return (ComponentResponse::none(), None);
                }
                if self.fetch_pending || self.current_query.as_str().is_empty()
                    || self.current_page == u32::MAX {
                    return (ComponentResponse::none(), None);
                }
                let next_page = self.current_page + 1;
                self.record_request(now_ms);
                self.fetch_pending = true;
                let cmd = FetchCommand {
                    query: self.current_query.clone(),
                    page: next_page,
                    limit: NEXT_PAGE_LIMIT,
                    is_new: false,
                };
                (ComponentResponse::none(), Some(cmd))
            },
            _ => (ComponentResponse::none(), None),
        }
    }

    /// Fold one background result into the gateway's state: either way
    /// the pending flag clears; a completed search becomes a posts event
    /// for the browser, a failed one becomes a critical search error.
    pub fn process_message(&mut self, msg: GatewayMessage) -> (e: Event)
        ensures
            !final(self).fetch_pending,
            final(self).current_query == old(self).current_query,
            final(self).last_request_times@ == old(self).last_request_times@,
            match msg {
                GatewayMessage::SearchComplete { posts, page, is_new } => {
                    &&& final(self).current_page == page
                    &&& e == Event::Browser(BrowserEvent::PostsReceived { posts, page, is_new })
                },
                GatewayMessage::SearchError { message } => {
                    &&& final(self).current_page == old(self).current_page
                    &&& e == Event::Gateway(GatewayEvent::SearchError { message })
                },
            },
    {
        match msg {
            GatewayMessage::SearchComplete { posts, page, is_new } => {
                self.fetch_pending = false;
                self.current_page = page;
                Event::Browser(BrowserEvent::PostsReceived { posts, page, is_new })
            },
            GatewayMessage::SearchError { message } => {
                self.fetch_pending = false;
                Event::Gateway(GatewayEvent::SearchError { message })
            },
        }
    }

    /// Drain waiting background results, up to the poll budget, into
    /// events. The pending flag only ever clears here; the query and the
    /// rate window are untouched. Every produced event is a posts event
    /// or a search error.
    pub fn poll(&mut self) -> (resp: ComponentResponse)
        ensures
            resp.scheduled@ == Seq::<(Event, u64)>::empty(),
            final(self).current_query == old(self).current_query,
            final(self).last_request_times@ == old(self).last_request_times@,
            final(self).fetch_pending ==> old(self).fetch_pending,
            forall|i: int|
                0 <= i < resp.events@.len() ==> (#[trigger] resp.events@[i]) matches Event::Browser(
                    BrowserEvent::PostsReceived { .. },
                ) || resp.events@[i] matches Event::Gateway(GatewayEvent::SearchError { .. }),
    {
        let mut events: Vec<Event> = Vec::new();
        let mut budget: usize = GATEWAY_POLL_BUDGET;
        let mut open = true;
        while open && budget > 0
            invariant
                self.current_query == old(self).current_query,
                self.last_request_times@ == old(self).last_request_times@,
                self.fetch_pending ==> old(self).fetch_pending,
                forall|i: int|
                    0 <= i < events@.len() ==> (#[trigger] events@[i]) matches Event::Browser(
                        BrowserEvent::PostsReceived { .. },
                    ) || events@[i] matches Event::Gateway(GatewayEvent::SearchError { .. }),
            decreases budget,
        {
            match try_recv_gateway(&mut self.receiver) {
                Some(msg) => {
                    let e = self.process_message(msg);
                    events.push(e);
                },
                None => {
                    open = false;
                },
            }
            budget = budget - 1;
        }
        if events.is_empty() {
            ComponentResponse::none()
        } else {
            ComponentResponse::emit_many(events)
        }
    }
}

/// At most one fetch in flight: while a fetch is pending, a search
/// request changes nothing and starts no second fetch, whatever the
/// request says and whatever the rate window holds.
pub proof fn lemma_at_most_one_in_flight(
    pre: BooruGateway,
    post: BooruGateway,
    cmd: Option<FetchCommand>,
    query: String,
    page: u32,
    limit: u32,
    now_ms: u64,
)
    requires
        pre.fetch_pending,
        search_request_post(pre, post, cmd, query, page, limit, now_ms),
    ensures
        cmd is None,
        BooruGateway::same_state(pre, post),
{
}

/// Rate limit boundary: from an empty window, requests at `t1` and `t2`
/// are both accepted, a third at `t3` within one second of `t1` is
/// refused, and a request at any `t4` a full second past `t1` is accepted
/// again.
pub proof fn lemma_rate_limit_boundary(t1: u64, t2: u64, t3: u64, t4: u64)
    requires
        t1 <= t2,
        t2 <= t3,
        t3 < t1 + RATE_WINDOW_MS,
        t4 >= t1 + RATE_WINDOW_MS,
    ensures
        spec_can_request(Seq::<u64>::empty(), t1),
        spec_can_request(spec_record(Seq::<u64>::empty(), t1), t2),
        !spec_can_request(spec_record(spec_record(Seq::<u64>::empty(), t1), t2), t3),
        spec_can_request(spec_record(spec_record(Seq::<u64>::empty(), t1), t2), t4),
{
    let w0 = Seq::<u64>::empty();
    let w1 = spec_record(w0, t1);
    let w2 = spec_record(w1, t2);
    assert(w1 =~= seq![t1]);
    assert(w2 =~= seq![t1, t2]);
}

} // verus!
