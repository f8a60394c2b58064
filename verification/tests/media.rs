use sodglumate::event::{Event, MediaEvent, ViewEvent};
use sodglumate::media::{CacheState, LoadWork, MediaCache, MediaMessage};
use sodglumate::types::MediaHandle;
use tokio::sync::mpsc::{Receiver, Sender};

struct Rig {
    cache: MediaCache,
    priority_rx: Receiver<LoadWork>,
    work_rx: Receiver<LoadWork>,
    results_tx: Sender<MediaMessage>,
}

fn make_rig(bound: usize) -> Rig {
    let (priority_tx, priority_rx) = tokio::sync::mpsc::channel(8);
    let (work_tx, work_rx) = tokio::sync::mpsc::channel(128);
    let (results_tx, results_rx) = tokio::sync::mpsc::channel(64);
    Rig {
        cache: MediaCache::new(priority_tx, work_tx, results_rx, bound),
        priority_rx,
        work_rx,
        results_tx,
    }
}

fn load_request(sample: Option<&str>, full: Option<&str>) -> Event {
    Event::Media(MediaEvent::LoadRequest {
        sample_url: sample.map(|s| s.to_string()),
        full_url: full.map(|s| s.to_string()),
        is_video: false,
    })
}

fn completed(url: &str, is_sample: bool, key: &str, id: u64) -> MediaMessage {
    MediaMessage::ImageLoaded {
        url: url.to_string(),
        is_sample,
        full_url: key.to_string(),
        result: Ok(MediaHandle { id }),
    }
}

fn failed(url: &str, key: &str, error: &str) -> MediaMessage {
    MediaMessage::ImageLoaded {
        url: url.to_string(),
        is_sample: false,
        full_url: key.to_string(),
        result: Err(error.to_string()),
    }
}

#[test]
fn tiered_ordering_sample_first_then_full_on_priority_channel() {
    let mut rig = make_rig(100);
    let _ = rig.cache.handle(&load_request(Some("http://s/1"), Some("http://f/1")));

    // First pass: only the sample goes out, through the shared pool.
    let _ = rig.cache.poll();
    let first = rig.work_rx.try_recv().expect("the sample fetch");
    assert_eq!(first.url, "http://s/1");
    assert!(first.is_sample);
    assert_eq!(first.cache_key, "http://f/1");
    assert!(rig.work_rx.try_recv().is_err(), "nothing else through the pool");
    assert!(
        rig.priority_rx.try_recv().is_err(),
        "the full fetch must wait until the sample is cached"
    );

    // The sample completes: the full fetch goes out on the priority channel.
    rig.results_tx
        .try_send(completed("http://s/1", true, "http://f/1", 1))
        .unwrap();
    let resp = rig.cache.poll();
    assert!(resp
        .events
        .iter()
        .any(|e| matches!(e, Event::View(ViewEvent::MediaReady))));
    let second = rig.priority_rx.try_recv().expect("the full fetch");
    assert_eq!(second.url, "http://f/1");
    assert!(!second.is_sample);
    assert!(rig.work_rx.try_recv().is_err());
}

#[test]
fn item_without_sample_goes_straight_to_full() {
    let mut rig = make_rig(100);
    let _ = rig.cache.handle(&load_request(None, Some("http://f/2")));
    let _ = rig.cache.poll();
    let work = rig.priority_rx.try_recv().expect("the full fetch at once");
    assert_eq!(work.url, "http://f/2");
    assert!(!work.is_sample);
}

#[test]
fn cache_hit_emits_media_ready_with_no_work_dispatched() {
    let mut rig = make_rig(100);
    let _ = rig.cache.handle(&load_request(Some("http://s/1"), Some("http://f/1")));
    let _ = rig.cache.poll();
    let _ = rig.work_rx.try_recv().unwrap();
    rig.results_tx
        .try_send(completed("http://s/1", true, "http://f/1", 1))
        .unwrap();
    rig.results_tx
        .try_send(completed("http://f/1", false, "http://f/1", 2))
        .unwrap();
    let _ = rig.cache.poll();
    let _ = rig.priority_rx.try_recv().ok();

    // Re-request the same key: readiness is synchronous, nothing dispatched.
    let resp = rig.cache.handle(&load_request(Some("http://s/1"), Some("http://f/1")));
    assert_eq!(resp.events.len(), 1);
    assert!(matches!(resp.events[0], Event::View(ViewEvent::MediaReady)));
    let _ = rig.cache.poll();
    assert!(rig.work_rx.try_recv().is_err());
    assert!(rig.priority_rx.try_recv().is_err());
}

#[test]
fn completion_promotes_the_tier_in_place() {
    let mut rig = make_rig(100);
    let _ = rig.cache.handle(&load_request(Some("http://s/1"), Some("http://f/1")));
    rig.results_tx
        .try_send(completed("http://s/1", true, "http://f/1", 1))
        .unwrap();
    let _ = rig.cache.poll();
    let entry = rig.cache.get_current_media().expect("sample tier cached");
    assert_eq!(entry.state, CacheState::SampleOnly);

    rig.results_tx
        .try_send(completed("http://f/1", false, "http://f/1", 2))
        .unwrap();
    let _ = rig.cache.poll();
    let entry = rig.cache.get_current_media().expect("full tier cached");
    assert_eq!(entry.state, CacheState::Full);
    assert_eq!(entry.media, sodglumate::types::LoadedMedia::Image { texture: MediaHandle { id: 2 } });
}

#[test]
fn failure_of_the_current_item_surfaces_a_load_error() {
    let mut rig = make_rig(100);
    let _ = rig.cache.handle(&load_request(None, Some("http://f/1")));
    rig.results_tx
        .try_send(failed("http://f/1", "http://f/1", "decode failed"))
        .unwrap();
    let resp = rig.cache.poll();
    assert!(resp
        .events
        .iter()
        .any(|e| matches!(e, Event::Media(MediaEvent::LoadError { .. }))));
}

#[test]
fn prefetch_failures_are_dropped_silently() {
    let mut rig = make_rig(100);
    let _ = rig.cache.handle(&load_request(None, Some("http://f/current")));
    rig.results_tx
        .try_send(failed("http://f/other", "http://f/other", "timeout"))
        .unwrap();
    let resp = rig.cache.poll();
    assert!(
        !resp
            .events
            .iter()
            .any(|e| matches!(e, Event::Media(MediaEvent::LoadError { .. }))),
        "a failure of a non-current item must not interrupt the session"
    );
}

#[test]
fn overlapping_prefetches_do_not_duplicate_work() {
    let mut rig = make_rig(100);
    let urls = vec![
        (Some("http://s/a".to_string()), Some("http://f/a".to_string()), false),
        (Some("http://s/b".to_string()), Some("http://f/b".to_string()), false),
    ];
    let _ = rig.cache.handle(&Event::Media(MediaEvent::Prefetch { urls: urls.clone() }));
    let _ = rig.cache.handle(&Event::Media(MediaEvent::Prefetch { urls }));
    let _ = rig.cache.poll();

    // One pass dispatches each booked item's sample breadth-first, then
    // its full upgrade; nothing is fetched twice.
    let mut seen = Vec::new();
    while let Ok(w) = rig.work_rx.try_recv() {
        seen.push(w.url);
    }
    assert_eq!(
        seen,
        vec![
            "http://s/a".to_string(),
            "http://s/b".to_string(),
            "http://f/a".to_string(),
            "http://f/b".to_string(),
        ]
    );
}

#[test]
fn repeated_prefetch_of_a_loading_key_is_skipped() {
    let mut rig = make_rig(100);
    let urls = vec![(Some("http://s/a".to_string()), Some("http://f/a".to_string()), false)];
    let _ = rig.cache.handle(&Event::Media(MediaEvent::Prefetch { urls: urls.clone() }));
    let _ = rig.cache.poll();
    let w = rig.work_rx.try_recv().unwrap();
    assert_eq!(w.url, "http://s/a");
    let w = rig.work_rx.try_recv().unwrap();
    assert_eq!(w.url, "http://f/a");

    // Both of the key's URLs are now being fetched: prefetching the same
    // key again books nothing and dispatches nothing.
    let _ = rig.cache.handle(&Event::Media(MediaEvent::Prefetch { urls }));
    let _ = rig.cache.poll();
    assert!(rig.work_rx.try_recv().is_err(), "no duplicate fetch");
}

#[test]
fn eviction_protects_the_current_item() {
    let mut rig = make_rig(2);
    let _ = rig.cache.handle(&load_request(None, Some("http://f/current")));
    rig.results_tx
        .try_send(completed("http://f/current", false, "http://f/current", 1))
        .unwrap();
    let _ = rig.cache.poll();

    // Fill past the bound with non-current entries, oldest first.
    rig.results_tx
        .try_send(completed("http://f/a", false, "http://f/a", 2))
        .unwrap();
    rig.results_tx
        .try_send(completed("http://f/b", false, "http://f/b", 3))
        .unwrap();
    rig.results_tx
        .try_send(completed("http://f/c", false, "http://f/c", 4))
        .unwrap();
    let _ = rig.cache.poll();

    // Back under the bound, and the current item survived even though it
    // is the oldest entry of all.
    let entry = rig.cache.get_current_media();
    assert!(entry.is_some(), "the current item must never be evicted");
    assert_eq!(rig.cache.current_url(), Some("http://f/current"));
}

#[test]
fn is_loading_tracks_inflight_urls() {
    let mut rig = make_rig(100);
    assert!(!rig.cache.is_loading());
    let _ = rig.cache.handle(&load_request(Some("http://s/1"), Some("http://f/1")));
    let _ = rig.cache.poll();
    assert!(rig.cache.is_loading());
    rig.results_tx
        .try_send(completed("http://s/1", true, "http://f/1", 1))
        .unwrap();
    let _ = rig.cache.poll();
    // The sample completed but the full fetch was dispatched in its place.
    assert!(rig.cache.is_loading());
}

#[test]
fn videos_skip_the_sample_tier() {
    let mut rig = make_rig(100);
    let _ = rig.cache.handle(&Event::Media(MediaEvent::LoadRequest {
        sample_url: Some("http://s/v".to_string()),
        full_url: Some("http://f/v".to_string()),
        is_video: true,
    }));
    let _ = rig.cache.poll();
    assert!(rig.work_rx.try_recv().is_err(), "no sample fetch for a video");
    let work = rig.priority_rx.try_recv().expect("the full fetch at once");
    assert_eq!(work.url, "http://f/v");
    assert!(!work.is_sample);
}

#[test]
fn a_full_channel_defers_prefetch_work_to_a_later_pass() {
    // A tiny shared channel: only two work units fit at a time.
    let (priority_tx, mut priority_rx) = tokio::sync::mpsc::channel(8);
    let (work_tx, mut work_rx) = tokio::sync::mpsc::channel(2);
    let (_results_tx, results_rx) = tokio::sync::mpsc::channel::<MediaMessage>(64);
    let mut cache = MediaCache::new(priority_tx, work_tx, results_rx, 100);

    let urls: Vec<(Option<String>, Option<String>, bool)> = (0..4)
        .map(|i| (Some(format!("http://s/{}", i)), Some(format!("http://f/{}", i)), false))
        .collect();
    let _ = cache.handle(&Event::Media(MediaEvent::Prefetch { urls }));
    let _ = cache.poll();

    // Only the first two samples fit; the rest stay queued.
    assert_eq!(work_rx.try_recv().unwrap().url, "http://s/0");
    assert_eq!(work_rx.try_recv().unwrap().url, "http://s/1");
    assert!(work_rx.try_recv().is_err());

    // With room again, the next pass resumes where it stopped.
    let _ = cache.poll();
    assert_eq!(work_rx.try_recv().unwrap().url, "http://s/2");
    assert_eq!(work_rx.try_recv().unwrap().url, "http://s/3");
    let _ = priority_rx.try_recv();
}

#[test]
fn a_late_sample_never_downgrades_the_tier() {
    let mut rig = make_rig(100);
    let _ = rig.cache.handle(&load_request(Some("http://s/1"), Some("http://f/1")));
    // The full resolution completes first, then the slower sample arrives.
    rig.results_tx
        .try_send(completed("http://f/1", false, "http://f/1", 1))
        .unwrap();
    let _ = rig.cache.poll();
    let entry = rig.cache.get_current_media().expect("full tier cached");
    assert_eq!(entry.state, CacheState::Full);

    rig.results_tx
        .try_send(completed("http://s/1", true, "http://f/1", 2))
        .unwrap();
    let _ = rig.cache.poll();
    let entry = rig.cache.get_current_media().expect("still cached");
    assert_eq!(entry.state, CacheState::Full, "a late sample must not downgrade the entry");
    assert_eq!(
        entry.media,
        sodglumate::types::LoadedMedia::Image { texture: MediaHandle { id: 1 } },
        "the full-tier handle stays"
    );
}

#[test]
fn poll_always_leaves_the_cache_within_its_bound() {
    let mut rig = make_rig(3);
    for i in 0..10u64 {
        let key = format!("http://f/{}", i);
        rig.results_tx
            .try_send(completed(&key, false, &key, i + 1))
            .unwrap();
    }
    let _ = rig.cache.poll();
    // Only the newest three entries survive the pruning pass.
    let _ = rig.cache.handle(&load_request(None, Some("http://f/9")));
    assert!(rig.cache.get_current_media().is_some(), "the newest entry survived");
    let _ = rig.cache.handle(&load_request(None, Some("http://f/0")));
    assert!(rig.cache.get_current_media().is_none(), "the oldest entries were evicted");
}

#[test]
fn the_current_item_full_never_leaves_through_the_shared_pool() {
    let mut rig = make_rig(100);
    // The current item is also booked in the prefetch round (the hint
    // list wraps around a short collection).
    let urls = vec![
        (Some("http://s/cur".to_string()), Some("http://f/cur".to_string()), false),
        (Some("http://s/x".to_string()), Some("http://f/x".to_string()), false),
    ];
    let _ = rig.cache.handle(&Event::Media(MediaEvent::Prefetch { urls }));
    let _ = rig.cache.handle(&load_request(Some("http://s/cur"), Some("http://f/cur")));

    let _ = rig.cache.poll();
    assert!(rig.priority_rx.try_recv().is_err(), "nothing cached yet: no priority fetch");
    let mut shared = Vec::new();
    while let Ok(w) = rig.work_rx.try_recv() {
        shared.push(w.url);
    }
    assert!(
        !shared.contains(&"http://f/cur".to_string()),
        "the current item's full must not go through the shared pool"
    );
    assert!(shared.contains(&"http://s/cur".to_string()), "its sample does");
}
