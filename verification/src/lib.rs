//! Event-driven orchestration core for a desktop media browser: a
//! prioritized event queue, a delay scheduler, a rate-limited search
//! gateway, and a tiered, concurrency-bounded media cache, driven one tick
//! per rendered frame by a reactor.

pub mod api;
pub mod browser;
pub mod breathing;
pub mod cachemap;
pub mod chan;
pub mod event;
pub mod gateway;
pub mod island;
pub mod media;
pub mod queue;
pub mod reactor;
pub mod rng;
pub mod scheduler;
pub mod settings;
pub mod types;
