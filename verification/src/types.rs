//! Small shared value types: media handles, breathing phases, navigation.

use vstd::prelude::*;

verus! {

/// Identifier of a decoded, display-ready texture. The presentation layer
/// owns the actual pixel data; the core only tracks which handle is ready.
#[derive(Clone, Copy, Debug, PartialEq, Eq, Structural)]
pub struct MediaHandle {
    pub id: u64,
}

/// Loaded media content, addressed by its display handle.
#[derive(Clone, Copy, Debug, PartialEq, Eq, Structural)]
pub enum LoadedMedia {
    Image { texture: MediaHandle },
}

/// Breathing overlay display style.
#[derive(Clone, Copy, Debug, PartialEq, Eq, Structural)]
pub enum BreathingStyle {
    /// Full progress bar overlay.
    Immersive,
    /// Quick pop-in animation.
    Classic,
}

/// Breathing timer phases.
#[derive(Clone, Copy, Debug, PartialEq, Eq, Structural)]
pub enum BreathingPhase {
    Prepare,
    Inhale,
    Hold,
    Release,
    Idle,
}

/// Navigation direction through the post collection.
#[derive(Clone, Copy, Debug, PartialEq, Eq, Structural)]
pub enum NavDirection {
    Next,
    Prev,
    Skip(i32),
}

} // verus!
