//! The settings manager: auto-play state and delay, advancing the
//! slideshow by scheduling its own timer event — on fire it navigates and
//! re-schedules itself, closing the periodic loop entirely through the
//! scheduler.

use vstd::prelude::*;

use crate::event::{BrowserEvent, ComponentResponse, Event, SettingsEvent};
use crate::types::NavDirection;

verus! {

/// The smallest auto-play delay, in whole seconds.
pub const MIN_DELAY_SECS: i64 = 1;

/// The largest auto-play delay, in whole seconds.
pub const MAX_DELAY_SECS: i64 = 60;

/// `x` forced into the inclusive range from `lo` to `hi`.
pub open spec fn spec_clamp(x: int, lo: int, hi: int) -> int {
    if x < lo {
        lo
    } else if x > hi {
        hi
    } else {
        x
    }
}

pub struct SettingsManager {
    pub auto_play: bool,
    pub auto_play_delay_ms: u64,
    pub slideshow_scheduled: bool,
}

impl SettingsManager {
    pub fn new() -> (s: SettingsManager)
        ensures
            !s.auto_play,
            s.auto_play_delay_ms == 16000,
            !s.slideshow_scheduled,
    {
        SettingsManager { auto_play: false, auto_play_delay_ms: 16000, slideshow_scheduled: false }
    }

    /// Whether the slideshow advances by itself.
    pub fn auto_play(&self) -> (r: bool)
        ensures
            r == self.auto_play,
    {
        self.auto_play
    }

    /// The delay between slideshow advances, in milliseconds.
    pub fn auto_play_delay(&self) -> (r: u64)
        ensures
            r == self.auto_play_delay_ms,
    {
        self.auto_play_delay_ms
    }

    /// Act on one settings event. Toggling auto-play on arms the
    /// slideshow timer once; the timer event navigates forward and
    /// re-arms itself while auto-play stays on, and dies out silently
    /// once it is off. Delay adjustments clamp to whole seconds within
    /// the permitted range.
    pub fn handle(&mut self, event: &Event) -> (resp: ComponentResponse)
        ensures
            match event {
                Event::Settings(SettingsEvent::ToggleAutoPlay) => {
                    &&& final(self).auto_play == !old(self).auto_play
                    &&& final(self).auto_play_delay_ms == old(self).auto_play_delay_ms
                    &&& if final(self).auto_play && !old(self).slideshow_scheduled {
                        &&& final(self).slideshow_scheduled
                        &&& resp.events@ == Seq::<Event>::empty()
                        &&& resp.scheduled@ == seq![
                            (
                                Event::Settings(SettingsEvent::SlideshowAdvance),
                                old(self).auto_play_delay_ms,
                            ),
                        ]
                    } else {
                        &&& final(self).slideshow_scheduled == old(self).slideshow_scheduled
                        &&& resp.is_none_spec()
                    }
                },
                Event::Settings(SettingsEvent::SetDelay { ms }) => {
                    &&& final(self).auto_play_delay_ms == *ms
                    &&& final(self).auto_play == old(self).auto_play
                    &&& final(self).slideshow_scheduled == old(self).slideshow_scheduled
                    &&& resp.is_none_spec()
                },
                Event::Settings(SettingsEvent::AdjustDelay { delta_secs }) => {
                    &&& final(self).auto_play_delay_ms == 1000 * spec_clamp(
                        old(self).auto_play_delay_ms as int / 1000 + *delta_secs,
                        MIN_DELAY_SECS as int,
                        MAX_DELAY_SECS as int,
                    )
                    &&& final(self).auto_play == old(self).auto_play
                    &&& final(self).slideshow_scheduled == old(self).slideshow_scheduled
                    &&& resp.is_none_spec()
                },
                Event::Settings(SettingsEvent::SlideshowAdvance) => {
                    &&& final(self).auto_play == old(self).auto_play
                    &&& final(self).auto_play_delay_ms == old(self).auto_play_delay_ms
                    &&& if old(self).auto_play {
                        &&& final(self).slideshow_scheduled
                        &&& resp.events@ == seq![
                            Event::Browser(
                                BrowserEvent::Navigate { direction: NavDirection::Next },
                            ),
                        ]
                        &&& resp.scheduled@ == seq![
                            (
                                Event::Settings(SettingsEvent::SlideshowAdvance),
                                old(self).auto_play_delay_ms,
                            ),
                        ]
                    } else {
                        &&& !final(self).slideshow_scheduled
                        &&& resp.is_none_spec()
                    }
                },
                _ => *final(self) == *old(self) && resp.is_none_spec(),
            },
    {
        match event {
            Event::Settings(SettingsEvent::ToggleAutoPlay) => {
                self.auto_play = !self.auto_play;
                if self.auto_play && !self.slideshow_scheduled {
                    self.slideshow_scheduled = true;
                    return ComponentResponse::schedule(
                        Event::Settings(SettingsEvent::SlideshowAdvance),
                        self.auto_play_delay_ms,
                    );
                }
                ComponentResponse::none()
            },
            Event::Settings(SettingsEvent::SetDelay { ms }) => {
                self.auto_play_delay_ms = *ms;
                ComponentResponse::none()
            },
            Event::Settings(SettingsEvent::AdjustDelay { delta_secs }) => {
                let current_secs = (self.auto_play_delay_ms / 1000) as i64;
                let shifted = match current_secs.checked_add(*delta_secs) {
                    Some(v) => v,
                    None => if *delta_secs > 0 {
                        MAX_DELAY_SECS
                    } else {
                        MIN_DELAY_SECS
                    },
                };
                let clamped = if shifted < MIN_DELAY_SECS {
                    MIN_DELAY_SECS
                } else if shifted > MAX_DELAY_SECS {
                    MAX_DELAY_SECS
                } else {
                    shifted
                };
                self.auto_play_delay_ms = (clamped as u64) * 1000;
                ComponentResponse::none()
            },
            Event::Settings(SettingsEvent::SlideshowAdvance) => {
                self.slideshow_scheduled = false;
                if self.auto_play {
                    self.slideshow_scheduled = true;
                    let response = ComponentResponse::emit(
                        Event::Browser(BrowserEvent::Navigate { direction: NavDirection::Next }),
                    );
                    return response.with_scheduled(
                        Event::Settings(SettingsEvent::SlideshowAdvance),
                        self.auto_play_delay_ms,
                    );
                }
                ComponentResponse::none()
            },
            _ => ComponentResponse::none(),
        }
    }
}

} // verus!
