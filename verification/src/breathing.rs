//! The breathing overlay: a phase machine paced by the scheduler. Each
//! phase completion schedules the next; phase lengths are drawn within
//! fixed bounds, stretched in the idle phase by an adjustable multiplier.

use vstd::prelude::*;

use crate::event::{BreathingEvent, ComponentResponse, Event};
use crate::rng::random_in_range;
use crate::types::{BreathingPhase, BreathingStyle};

verus! {

/// One phase of the breathing cycle and when it started.
pub struct BreathingState {
    pub phase: BreathingPhase,
    pub start_time_ms: u64,
    pub duration_ms: u64,
}

pub struct BreathingOverlay {
    pub state: BreathingState,
    pub show_overlay: bool,
    pub idle_multiplier_permille: u32,
    pub style: BreathingStyle,
}

/// The idle-phase length for a drawn number of seconds, stretched by the
/// multiplier (in thousandths).
pub open spec fn scaled_idle(secs: u64, permille: u32) -> int {
    secs * 1000 * permille / 1000
}

/// The phase transition graph with its duration rules: prepare leads to
/// an inhale of five to ten seconds; the hold matches the inhale; the
/// release takes four seconds and usually settles into an idle stretched
/// by the multiplier, but sometimes starts over at once; idle returns to
/// prepare.
pub open spec fn transition_post(
    pre: BreathingState,
    permille: u32,
    next: BreathingPhase,
    dur: u64,
) -> bool {
    match pre.phase {
        BreathingPhase::Prepare => next == BreathingPhase::Inhale && 5000 <= dur <= 10000 && dur
            % 1000 == 0,
        BreathingPhase::Inhale => next == BreathingPhase::Hold && dur == pre.duration_ms,
        BreathingPhase::Hold => next == BreathingPhase::Release && dur == 4000,
        BreathingPhase::Release => (next == BreathingPhase::Prepare && dur == 3000) || (next
            == BreathingPhase::Idle && exists|secs: u64|
            17 <= secs <= 28 && dur == #[trigger] scaled_idle(secs, permille)),
        BreathingPhase::Idle => next == BreathingPhase::Prepare && dur == 5000,
    }
}

impl BreathingOverlay {
    pub fn new(now_ms: u64) -> (b: BreathingOverlay)
        ensures
            b.state.phase == BreathingPhase::Prepare,
            b.state.start_time_ms == now_ms,
            b.state.duration_ms == 5000,
            !b.show_overlay,
            b.idle_multiplier_permille == 1000,
            b.style == BreathingStyle::Immersive,
    {
        BreathingOverlay {
            state: BreathingState {
                phase: BreathingPhase::Prepare,
                start_time_ms: now_ms,
                duration_ms: 5000,
            },
            show_overlay: false,
            idle_multiplier_permille: 1000,
            style: BreathingStyle::Immersive,
        }
    }

    /// The initial self-scheduling step: arm the first phase completion.
    pub fn init(&self) -> (resp: ComponentResponse)
        ensures
            resp.events@ == Seq::<Event>::empty(),
            resp.scheduled@ == seq![
                (Event::Breathing(BreathingEvent::PhaseComplete), self.state.duration_ms),
            ],
    {
        ComponentResponse::schedule(
            Event::Breathing(BreathingEvent::PhaseComplete),
            self.state.duration_ms,
        )
    }

    /// Act on one breathing event at time `now_ms`. A phase completion
    /// advances the phase machine and re-arms itself for the new phase's
    /// length — the periodic behavior is closed entirely through the
    /// scheduler.
    pub fn handle(&mut self, event: &Event, now_ms: u64) -> (resp: ComponentResponse)
        ensures
            match event {
                Event::Breathing(BreathingEvent::Toggle) => {
                    &&& final(self).show_overlay == !old(self).show_overlay
                    &&& final(self).state == old(self).state
                    &&& final(self).idle_multiplier_permille == old(self).idle_multiplier_permille
                    &&& final(self).style == old(self).style
                    &&& resp.is_none_spec()
                },
                Event::Breathing(BreathingEvent::PhaseComplete) => {
                    &&& transition_post(
                        old(self).state,
                        old(self).idle_multiplier_permille,
                        final(self).state.phase,
                        final(self).state.duration_ms,
                    )
                    &&& final(self).state.start_time_ms == now_ms
                    &&& final(self).show_overlay == old(self).show_overlay
                    &&& final(self).idle_multiplier_permille == old(self).idle_multiplier_permille
                    &&& final(self).style == old(self).style
                    &&& resp.events@ == Seq::<Event>::empty()
                    &&& resp.scheduled@ == seq![
                        (
                            Event::Breathing(BreathingEvent::PhaseComplete),
                            final(self).state.duration_ms,
                        ),
                    ]
                },
                Event::Breathing(BreathingEvent::SetIdleMultiplier { permille }) => {
                    &&& final(self).idle_multiplier_permille == *permille
                    &&& final(self).state == old(self).state
                    &&& final(self).show_overlay == old(self).show_overlay
                    &&& final(self).style == old(self).style
                    &&& resp.is_none_spec()
                },
                Event::Breathing(BreathingEvent::SetStyle { style }) => {
                    &&& final(self).style == *style
                    &&& final(self).state == old(self).state
                    &&& final(self).show_overlay == old(self).show_overlay
                    &&& final(self).idle_multiplier_permille == old(self).idle_multiplier_permille
                    &&& resp.is_none_spec()
                },
                _ => *final(self) == *old(self) && resp.is_none_spec(),
            },
    {
        match event {
            Event::Breathing(BreathingEvent::Toggle) => {
                self.show_overlay = !self.show_overlay;
                ComponentResponse::none()
            },
            Event::Breathing(BreathingEvent::PhaseComplete) => {
                let (next_phase, duration_ms) = self.transition_phase();
                self.state = BreathingState {
                    phase: next_phase,
                    start_time_ms: now_ms,
                    duration_ms,
                };
                ComponentResponse::schedule(
                    Event::Breathing(BreathingEvent::PhaseComplete),
                    duration_ms,
                )
            },
            Event::Breathing(BreathingEvent::SetIdleMultiplier { permille }) => {
                self.idle_multiplier_permille = *permille;
                ComponentResponse::none()
            },
            Event::Breathing(BreathingEvent::SetStyle { style }) => {
                self.style = *style;
                ComponentResponse::none()
            },
            _ => ComponentResponse::none(),
        }
    }

    /// The next phase and its length, drawn within the transition graph's
    /// bounds.
    fn transition_phase(&self) -> (r: (BreathingPhase, u64))
        ensures
            transition_post(self.state, self.idle_multiplier_permille, r.0, r.1),
    {
        match self.state.phase {
            BreathingPhase::Prepare => {
                let secs = random_in_range(5, 10);
                (BreathingPhase::Inhale, secs * 1000)
            },
            BreathingPhase::Inhale => (BreathingPhase::Hold, self.state.duration_ms),
            BreathingPhase::Hold => (BreathingPhase::Release, 4000),
            BreathingPhase::Release => {
                let restart = random_in_range(0, 4);
                if restart == 0 {
                    (BreathingPhase::Prepare, 3000)
                } else {
                    let secs = random_in_range(17, 28);
                    let base = secs * 1000;
                    let factor = self.idle_multiplier_permille as u64;
                    proof {
                        assert(base * factor <= 28000 * 0xffff_ffffu64) by (nonlinear_arith)
                            requires
                                base <= 28000,
                                factor <= 0xffff_ffffu64,
                        ;
                    }
                    let scaled = base * factor / 1000;
                    proof {
                        assert(scaled == scaled_idle(secs, self.idle_multiplier_permille));
                    }
                    (BreathingPhase::Idle, scaled)
                }
            },
            BreathingPhase::Idle => (BreathingPhase::Prepare, 5000),
        }
    }

    /// Whether the overlay is shown.
    pub fn is_visible(&self) -> (r: bool)
        ensures
            r == self.show_overlay,
    {
        self.show_overlay
    }

    /// The current phase state.
    pub fn state(&self) -> (r: &BreathingState)
        ensures
            *r == self.state,
    {
        &self.state
    }

    /// The idle-phase multiplier, in thousandths.
    pub fn idle_multiplier(&self) -> (r: u32)
        ensures
            r == self.idle_multiplier_permille,
    {
        self.idle_multiplier_permille
    }

    /// The overlay's display style.
    pub fn style(&self) -> (r: BreathingStyle)
        ensures
            r == self.style,
    {
        self.style
    }
}

} // verus!
