//! The event model: a closed union of event categories, the priority each
//! event maps to, and the uniform response type every component handler
//! returns.
//!
//! Events are immutable value objects. Priority is a pure function of the
//! event value, computed on demand and never stored, so it cannot fall out
//! of sync with the event.

use vstd::prelude::*;

use crate::api::Post;
use crate::types::{BreathingPhase, BreathingStyle, MediaHandle, NavDirection};

verus! {

/// The closed set of event categories. Routing delivers each event to
/// exactly one owning component, keyed by this category.
#[derive(Clone, Debug)]
pub enum Event {
    Source(SourceEvent),
    Gateway(GatewayEvent),
    Browser(BrowserEvent),
    Media(MediaEvent),
    Breathing(BreathingEvent),
    View(ViewEvent),
    Settings(SettingsEvent),
    Beat(BeatEvent),
}

/// Events produced by the input side of the presentation layer.
#[derive(Clone, Debug)]
pub enum SourceEvent {
    Search { query: String, page: u32 },
    Navigate(NavDirection),
}

/// Events owned by or produced for the search gateway.
#[derive(Clone, Debug)]
pub enum GatewayEvent {
    /// Request a search.
    SearchRequest { query: String, page: u32, limit: u32 },
    /// Search failed.
    SearchError { message: String },
    /// Request the page after the current one.
    FetchNextPage,
}

/// Events owned by the content browser.
#[derive(Clone, Debug)]
pub enum BrowserEvent {
    /// Posts received; update the collection.
    PostsReceived { posts: Vec<Post>, page: u32, is_new: bool },
    /// Navigation triggered.
    Navigate { direction: NavDirection },
    /// Current post changed (emitted after navigation).
    CurrentPostChanged { post: Box<Post>, index: usize, total: usize },
}

/// Events owned by the media cache.
#[derive(Clone, Debug)]
pub enum MediaEvent {
    /// Load media for the post now being displayed.
    LoadRequest { sample_url: Option<String>, full_url: Option<String>, is_video: bool },
    /// Media load failed for the current item.
    LoadError { error: String },
    /// Prefetch hint: (sample url, full url, is video) per upcoming item.
    Prefetch { urls: Vec<(Option<String>, Option<String>, bool)> },
}

/// Events owned by the breathing overlay.
#[derive(Clone, Debug)]
pub enum BreathingEvent {
    /// Toggle overlay visibility.
    Toggle,
    /// Phase transition completed (self-scheduled).
    PhaseComplete,
    /// Phase changed (for the presentation layer to render).
    PhaseChanged { phase: BreathingPhase, remaining_ms: u64 },
    /// Adjust the idle multiplier, in thousandths.
    SetIdleMultiplier { permille: u32 },
    /// Switch the overlay's display style.
    SetStyle { style: BreathingStyle },
}

/// Events owned by the presentation layer's display state.
#[derive(Clone, Debug)]
pub enum ViewEvent {
    /// Media is ready to display.
    MediaReady,
    /// User manually panned.
    UserPanned,
    /// Set the pan cycle length.
    SetPanSpeed { ms: u64 },
    /// An audio beat fired; pulse the display. Scale in thousandths.
    BeatPulse { scale_permille: u32 },
}

/// Events owned by the settings manager.
#[derive(Clone, Debug)]
pub enum SettingsEvent {
    /// Toggle auto-play.
    ToggleAutoPlay,
    /// Set the auto-play delay.
    SetDelay { ms: u64 },
    /// Nudge the auto-play delay by whole seconds.
    AdjustDelay { delta_secs: i64 },
    /// Timer fired; advance the slideshow.
    SlideshowAdvance,
}

/// Events owned by the beat detector.
#[derive(Clone, Debug)]
pub enum BeatEvent {
    /// A beat was detected. Scale in thousandths.
    Beat { scale_permille: u32 },
    /// Switch the capture device; `None` selects the default.
    SetDevice { name: Option<String> },
}

/// The four priority levels, ordered from most to least urgent.
#[derive(Clone, Copy, Debug, PartialEq, Eq, Structural)]
pub enum Priority {
    Critical,
    High,
    Normal,
    Low,
}

impl Priority {
    /// The bucket index of this level: `Critical` is 0, `Low` is 3.
    pub open spec fn spec_index(self) -> int {
        match self {
            Priority::Critical => 0,
            Priority::High => 1,
            Priority::Normal => 2,
            Priority::Low => 3,
        }
    }

    pub fn as_index(&self) -> (i: usize)
        ensures
            i == self.spec_index(),
    {
        match self {
            Priority::Critical => 0,
            Priority::High => 1,
            Priority::Normal => 2,
            Priority::Low => 3,
        }
    }
}

impl Event {
    /// The priority of an event: a total map from event value to level.
    /// A search error is critical so it preempts normal traffic; prefetch
    /// hints, breathing and beat events are ambient.
    pub open spec fn spec_priority(self) -> Priority {
        match self {
            Event::Source(_) => Priority::High,
            Event::Gateway(GatewayEvent::SearchError { .. }) => Priority::Critical,
            Event::Gateway(_) => Priority::Normal,
            Event::Browser(_) => Priority::Normal,
            Event::Media(MediaEvent::Prefetch { .. }) => Priority::Low,
            Event::Media(_) => Priority::Normal,
            Event::Breathing(_) => Priority::Low,
            Event::View(_) => Priority::Normal,
            Event::Settings(_) => Priority::Normal,
            Event::Beat(_) => Priority::Low,
        }
    }

    pub fn priority(&self) -> (p: Priority)
        ensures
            p == self.spec_priority(),
    {
        match self {
            Event::Source(_) => Priority::High,
            Event::Gateway(GatewayEvent::SearchError { .. }) => Priority::Critical,
            Event::Gateway(_) => Priority::Normal,
            Event::Browser(_) => Priority::Normal,
            Event::Media(MediaEvent::Prefetch { .. }) => Priority::Low,
            Event::Media(_) => Priority::Normal,
            Event::Breathing(_) => Priority::Low,
            Event::View(_) => Priority::Normal,
            Event::Settings(_) => Priority::Normal,
            Event::Beat(_) => Priority::Low,
        }
    }
}

/// The uniform output of every component handler: events to enqueue now,
/// and (event, delay in milliseconds) pairs to schedule for later. An empty
/// response means "no observable effect".
#[derive(Debug)]
pub struct ComponentResponse {
    /// Events to dispatch immediately.
    pub events: Vec<Event>,
    /// Events to schedule, each with its delay in milliseconds.
    pub scheduled: Vec<(Event, u64)>,
}

impl ComponentResponse {
    /// True of a response with no observable effect.
    pub open spec fn is_none_spec(self) -> bool {
        self.events@ =~= Seq::<Event>::empty() && self.scheduled@ =~= Seq::<(Event, u64)>::empty()
    }

    pub fn none() -> (r: ComponentResponse)
        ensures
            r.events@ == Seq::<Event>::empty(),
            r.scheduled@ == Seq::<(Event, u64)>::empty(),
    {
        ComponentResponse { events: Vec::new(), scheduled: Vec::new() }
    }

    pub fn emit(event: Event) -> (r: ComponentResponse)
        ensures
            r.events@ == seq![event],
            r.scheduled@ == Seq::<(Event, u64)>::empty(),
    {
        let mut events: Vec<Event> = Vec::new();
        events.push(event);
        assert(events@ =~= seq![event]);
        ComponentResponse { events, scheduled: Vec::new() }
    }

    pub fn emit_many(events: Vec<Event>) -> (r: ComponentResponse)
        ensures
            r.events == events,
            r.scheduled@ == Seq::<(Event, u64)>::empty(),
    {
        ComponentResponse { events, scheduled: Vec::new() }
    }

    pub fn schedule(event: Event, delay_ms: u64) -> (r: ComponentResponse)
        ensures
            r.events@ == Seq::<Event>::empty(),
            r.scheduled@ == seq![(event, delay_ms)],
    {
        let mut scheduled: Vec<(Event, u64)> = Vec::new();
        scheduled.push((event, delay_ms));
        assert(scheduled@ =~= seq![(event, delay_ms)]);
        ComponentResponse { events: Vec::new(), scheduled }
    }

    pub fn with_scheduled(self, event: Event, delay_ms: u64) -> (r: ComponentResponse)
        ensures
            r.events == self.events,
            r.scheduled@ == self.scheduled@.push((event, delay_ms)),
    {
        let mut r = self;
        r.scheduled.push((event, delay_ms));
        r
    }
}

} // verus!
