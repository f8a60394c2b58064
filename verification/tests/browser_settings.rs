use sodglumate::api::{File, Flags, Post, Preview, Relationships, Sample, Score, Tags};
use sodglumate::browser::ContentBrowser;
use sodglumate::breathing::BreathingOverlay;
use sodglumate::event::{
    BreathingEvent, BrowserEvent, Event, GatewayEvent, MediaEvent, SettingsEvent,
};
use sodglumate::settings::SettingsManager;
use sodglumate::types::{BreathingPhase, NavDirection};

fn make_post(id: u64, ext: &str, full: Option<&str>, sample: Option<&str>) -> Post {
    Post {
        id,
        created_at: String::new(),
        updated_at: String::new(),
        file: File {
            width: 100,
            height: 100,
            ext: ext.to_string(),
            size: 1,
            md5: String::new(),
            url: full.map(|s| s.to_string()),
        },
        preview: Preview { width: 10, height: 10, url: None },
        sample: Sample {
            has: sample.is_some(),
            height: 0,
            width: 0,
            url: sample.map(|s| s.to_string()),
        },
        score: Score { up: 0, down: 0, total: 0 },
        tags: Tags {
            general: Vec::new(),
            species: Vec::new(),
            character: Vec::new(),
            copyright: Vec::new(),
            artist: Vec::new(),
            invalid: Vec::new(),
            meta: Vec::new(),
            lore: Vec::new(),
        },
        locked_tags: Vec::new(),
        change_seq: 0,
        flags: Flags {
            pending: false,
            flagged: false,
            note_locked: false,
            status_locked: false,
            rating_locked: false,
            deleted: false,
        },
        rating: "s".to_string(),
        fav_count: 0,
        sources: Vec::new(),
        pools: Vec::new(),
        relationships: Relationships {
            parent_id: None,
            has_children: false,
            has_active_children: false,
            children: Vec::new(),
        },
        approver_id: None,
        uploader_id: 1,
        description: String::new(),
        comment_count: 0,
        is_favorited: false,
        has_notes: false,
    }
}

fn posts_event(posts: Vec<Post>, page: u32, is_new: bool) -> Event {
    Event::Browser(BrowserEvent::PostsReceived { posts, page, is_new })
}

fn navigate(direction: NavDirection) -> Event {
    Event::Browser(BrowserEvent::Navigate { direction })
}

fn simple_posts(n: u64) -> Vec<Post> {
    (0..n)
        .map(|i| {
            let full = format!("http://f/{}", i);
            make_post(i, "png", Some(&full), None)
        })
        .collect()
}

#[test]
fn video_posts_are_filtered_out() {
    let mut b = ContentBrowser::new();
    let posts = vec![
        make_post(1, "png", Some("http://f/1"), None),
        make_post(2, "mp4", Some("http://f/2"), None),
        make_post(3, "WEBM", Some("http://f/3"), None),
        make_post(4, "Mp4", Some("http://f/4"), None),
        make_post(5, "jpg", Some("http://f/5"), None),
    ];
    let _ = b.handle(&posts_event(posts, 1, true));
    assert_eq!(b.current_post().unwrap().id, 1);
    let _ = b.handle(&navigate(NavDirection::Next));
    assert_eq!(b.current_post().unwrap().id, 5);
}

#[test]
fn new_results_reset_the_index_and_appended_results_keep_it() {
    let mut b = ContentBrowser::new();
    let _ = b.handle(&posts_event(simple_posts(3), 1, true));
    let _ = b.handle(&navigate(NavDirection::Next));
    let _ = b.handle(&navigate(NavDirection::Next));
    assert_eq!(b.current_post().unwrap().id, 2);

    let more: Vec<Post> = (10..13)
        .map(|i| {
            let full = format!("http://f/{}", i);
            make_post(i, "png", Some(&full), None)
        })
        .collect();
    let _ = b.handle(&posts_event(more, 2, false));
    assert_eq!(b.current_post().unwrap().id, 2, "appending keeps the index");

    let _ = b.handle(&posts_event(simple_posts(2), 1, true));
    assert_eq!(b.current_post().unwrap().id, 0, "a new search resets the index");
}

#[test]
fn navigation_wraps_and_skips_clamp() {
    let mut b = ContentBrowser::new();
    let _ = b.handle(&posts_event(simple_posts(10), 1, true));

    let _ = b.handle(&navigate(NavDirection::Prev));
    assert_eq!(b.current_post().unwrap().id, 9, "backward wraps to the end");
    let _ = b.handle(&navigate(NavDirection::Next));
    assert_eq!(b.current_post().unwrap().id, 0, "forward wraps to the start");

    let _ = b.handle(&navigate(NavDirection::Skip(100)));
    assert_eq!(b.current_post().unwrap().id, 9, "a long skip clamps at the end");
    let _ = b.handle(&navigate(NavDirection::Skip(-3)));
    assert_eq!(b.current_post().unwrap().id, 6);
    let _ = b.handle(&navigate(NavDirection::Skip(-100)));
    assert_eq!(b.current_post().unwrap().id, 0, "a long back-skip clamps at the start");
}

#[test]
fn near_the_end_the_browser_requests_the_next_page() {
    let mut b = ContentBrowser::new();
    let _ = b.handle(&posts_event(simple_posts(10), 1, true));
    // Index 4: five posts remain ahead, not yet near the end.
    let resp = b.handle(&navigate(NavDirection::Skip(4)));
    assert!(
        !resp
            .events
            .iter()
            .any(|e| matches!(e, Event::Gateway(GatewayEvent::FetchNextPage))),
        "five remaining is not yet near the end"
    );
    // Index 5: four posts remain ahead.
    let resp = b.handle(&navigate(NavDirection::Next));
    assert!(resp
        .events
        .iter()
        .any(|e| matches!(e, Event::Gateway(GatewayEvent::FetchNextPage))));
}

#[test]
fn the_current_post_requests_its_media_and_prefetch_hints() {
    let mut b = ContentBrowser::new();
    let posts = vec![
        make_post(0, "png", Some("http://f/0"), Some("http://s/0")),
        make_post(1, "png", Some("http://f/1"), Some("http://s/1")),
        make_post(2, "png", Some("http://f/2"), None),
    ];
    let resp = b.handle(&posts_event(posts, 1, true));
    match &resp.events[0] {
        Event::Media(MediaEvent::LoadRequest { sample_url, full_url, is_video }) => {
            assert_eq!(sample_url.as_deref(), Some("http://s/0"));
            assert_eq!(full_url.as_deref(), Some("http://f/0"));
            assert!(!is_video);
        }
        other => panic!("expected a load request, got {:?}", other),
    }
    let prefetch = resp.events.last().unwrap();
    match prefetch {
        Event::Media(MediaEvent::Prefetch { urls }) => {
            assert_eq!(urls.len(), 30);
            // The hints walk the upcoming posts in viewing order, wrapping.
            assert_eq!(urls[0].1.as_deref(), Some("http://f/1"));
            assert_eq!(urls[1].1.as_deref(), Some("http://f/2"));
            assert_eq!(urls[2].1.as_deref(), Some("http://f/0"));
            assert_eq!(urls[0].0.as_deref(), Some("http://s/1"));
            assert_eq!(urls[1].0.as_deref(), None);
        }
        other => panic!("expected prefetch hints, got {:?}", other),
    }
}

#[test]
fn auto_play_toggle_schedules_the_slideshow_once() {
    let mut s = SettingsManager::new();
    assert!(!s.auto_play());
    assert_eq!(s.auto_play_delay(), 16000);

    let resp = s.handle(&Event::Settings(SettingsEvent::ToggleAutoPlay));
    assert!(s.auto_play());
    assert_eq!(resp.scheduled.len(), 1);
    assert!(matches!(
        resp.scheduled[0].0,
        Event::Settings(SettingsEvent::SlideshowAdvance)
    ));
    assert_eq!(resp.scheduled[0].1, 16000);

    // Toggling off and on again while the timer is still armed does not
    // arm a second timer.
    let resp = s.handle(&Event::Settings(SettingsEvent::ToggleAutoPlay));
    assert!(resp.scheduled.is_empty());
    let resp = s.handle(&Event::Settings(SettingsEvent::ToggleAutoPlay));
    assert!(resp.scheduled.is_empty());
}

#[test]
fn slideshow_advance_navigates_and_rearms_while_auto_play_is_on() {
    let mut s = SettingsManager::new();
    let _ = s.handle(&Event::Settings(SettingsEvent::ToggleAutoPlay));
    let resp = s.handle(&Event::Settings(SettingsEvent::SlideshowAdvance));
    assert_eq!(resp.events.len(), 1);
    assert!(matches!(
        resp.events[0],
        Event::Browser(BrowserEvent::Navigate { direction: NavDirection::Next })
    ));
    assert_eq!(resp.scheduled.len(), 1);

    let _ = s.handle(&Event::Settings(SettingsEvent::ToggleAutoPlay));
    let resp = s.handle(&Event::Settings(SettingsEvent::SlideshowAdvance));
    assert!(resp.events.is_empty(), "the timer dies out once auto-play is off");
    assert!(resp.scheduled.is_empty());
}

#[test]
fn delay_adjustments_clamp_to_whole_seconds() {
    let mut s = SettingsManager::new();
    let _ = s.handle(&Event::Settings(SettingsEvent::AdjustDelay { delta_secs: -10 }));
    assert_eq!(s.auto_play_delay(), 6000);
    let _ = s.handle(&Event::Settings(SettingsEvent::AdjustDelay { delta_secs: -100 }));
    assert_eq!(s.auto_play_delay(), 1000, "clamped at one second");
    let _ = s.handle(&Event::Settings(SettingsEvent::AdjustDelay { delta_secs: 1000 }));
    assert_eq!(s.auto_play_delay(), 60000, "clamped at sixty seconds");
    let _ = s.handle(&Event::Settings(SettingsEvent::SetDelay { ms: 2500 }));
    assert_eq!(s.auto_play_delay(), 2500);
}

#[test]
fn breathing_phases_follow_the_cycle() {
    let mut b = BreathingOverlay::new(0);
    assert_eq!(b.state().phase, BreathingPhase::Prepare);
    let init = b.init();
    assert_eq!(init.scheduled.len(), 1);
    assert_eq!(init.scheduled[0].1, 5000);

    let complete = Event::Breathing(BreathingEvent::PhaseComplete);
    let resp = b.handle(&complete, 5000);
    assert_eq!(b.state().phase, BreathingPhase::Inhale);
    let inhale_ms = b.state().duration_ms;
    assert!((5000..=10000).contains(&inhale_ms));
    assert_eq!(resp.scheduled[0].1, inhale_ms);

    let _ = b.handle(&complete, 5000 + inhale_ms);
    assert_eq!(b.state().phase, BreathingPhase::Hold);
    assert_eq!(b.state().duration_ms, inhale_ms, "the hold matches the inhale");

    let _ = b.handle(&complete, 20000);
    assert_eq!(b.state().phase, BreathingPhase::Release);
    assert_eq!(b.state().duration_ms, 4000);

    let _ = b.handle(&complete, 24000);
    match b.state().phase {
        BreathingPhase::Prepare => assert_eq!(b.state().duration_ms, 3000),
        BreathingPhase::Idle => {
            assert!((17000..=28000).contains(&b.state().duration_ms));
        }
        other => panic!("release cannot lead to {:?}", other),
    }
}

#[test]
fn breathing_toggle_multiplier_and_style() {
    let mut b = BreathingOverlay::new(0);
    assert!(!b.is_visible());
    let _ = b.handle(&Event::Breathing(BreathingEvent::Toggle), 0);
    assert!(b.is_visible());
    let _ = b.handle(
        &Event::Breathing(BreathingEvent::SetIdleMultiplier { permille: 670 }),
        0,
    );
    assert_eq!(b.idle_multiplier(), 670);

    assert_eq!(b.style(), sodglumate::types::BreathingStyle::Immersive);
    let _ = b.handle(
        &Event::Breathing(BreathingEvent::SetStyle {
            style: sodglumate::types::BreathingStyle::Classic,
        }),
        0,
    );
    assert_eq!(b.style(), sodglumate::types::BreathingStyle::Classic);
}
