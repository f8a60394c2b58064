use sodglumate::api::{File, Flags, Post, Preview, Relationships, Sample, Score, Tags};
use sodglumate::event::{Event, GatewayEvent, SourceEvent, ViewEvent};
use sodglumate::gateway::GatewayMessage;
use sodglumate::media::{LoadWork, MediaMessage};
use sodglumate::reactor::Reactor;
use sodglumate::types::{MediaHandle, NavDirection};
use tokio::sync::mpsc::{Receiver, Sender};

struct Rig {
    reactor: Reactor,
    gateway_tx: Sender<GatewayMessage>,
    priority_rx: Receiver<LoadWork>,
    work_rx: Receiver<LoadWork>,
    results_tx: Sender<MediaMessage>,
}

fn make_rig() -> Rig {
    let (gateway_tx, gateway_rx) = tokio::sync::mpsc::channel(16);
    let (priority_tx, priority_rx) = tokio::sync::mpsc::channel(8);
    let (work_tx, work_rx) = tokio::sync::mpsc::channel(128);
    let (results_tx, results_rx) = tokio::sync::mpsc::channel(64);
    Rig {
        reactor: Reactor::new(gateway_rx, priority_tx, work_tx, results_rx, 100, 0),
        gateway_tx,
        priority_rx,
        work_rx,
        results_tx,
    }
}

fn make_post(id: u64) -> Post {
    Post {
        id,
        created_at: String::new(),
        updated_at: String::new(),
        file: File {
            width: 100,
            height: 100,
            ext: "png".to_string(),
            size: 1,
            md5: String::new(),
            url: Some(format!("http://f/{}", id)),
        },
        preview: Preview { width: 10, height: 10, url: None },
        sample: Sample {
            has: true,
            height: 0,
            width: 0,
            url: Some(format!("http://s/{}", id)),
        },
        score: Score { up: 0, down: 0, total: 0 },
        tags: Tags {
            general: Vec::new(),
            species: Vec::new(),
            character: Vec::new(),
            copyright: Vec::new(),
            artist: Vec::new(),
            invalid: Vec::new(),
            meta: Vec::new(),
            lore: Vec::new(),
        },
        locked_tags: Vec::new(),
        change_seq: 0,
        flags: Flags {
            pending: false,
            flagged: false,
            note_locked: false,
            status_locked: false,
            rating_locked: false,
            deleted: false,
        },
        rating: "s".to_string(),
        fav_count: 0,
        sources: Vec::new(),
        pools: Vec::new(),
        relationships: Relationships {
            parent_id: None,
            has_children: false,
            has_active_children: false,
            children: Vec::new(),
        },
        approver_id: None,
        uploader_id: 1,
        description: String::new(),
        comment_count: 0,
        is_favorited: false,
        has_notes: false,
    }
}

#[test]
fn search_paginate_and_display_end_to_end() {
    let mut rig = make_rig();
    let mut now: u64 = 0;

    // The user submits a search.
    let search = Event::Source(SourceEvent::Search {
        query: "wolf order:score".to_string(),
        page: 1,
    });
    let (cmds, _) = rig.reactor.dispatch(vec![search], now);
    assert!(cmds.is_empty(), "the request is queued, not yet routed");
    now += 16;
    let (cmds, _) = rig.reactor.tick(now);
    assert_eq!(cmds.len(), 1, "exactly one fetch leaves the gateway");
    assert_eq!(cmds[0].query, "wolf order:score");
    assert_eq!(cmds[0].page, 1);
    assert!(cmds[0].is_new);
    assert!(rig.reactor.gateway.is_loading());

    // The search task reports fifty posts.
    let posts: Vec<Post> = (0..50).map(make_post).collect();
    rig.gateway_tx
        .try_send(GatewayMessage::SearchComplete { posts, page: 1, is_new: true })
        .unwrap();
    now += 16;
    let (cmds, _) = rig.reactor.tick(now);
    assert!(cmds.is_empty());
    assert!(!rig.reactor.gateway.is_loading());
    assert_eq!(rig.reactor.browser.current_post().unwrap().id, 0);

    // The browser asked the cache to load post 0. The next tick's cache
    // poll dispatches the post's sample to the shared pool.
    assert_eq!(rig.reactor.media.current_url(), Some("http://f/0"));
    now += 16;
    let _ = rig.reactor.tick(now);
    let first_work = rig.work_rx.try_recv().expect("the sample of post 0");
    assert_eq!(first_work.url, "http://s/0");
    assert!(first_work.is_sample);

    // The sample finishes decoding: the next tick announces readiness.
    rig.results_tx
        .try_send(MediaMessage::ImageLoaded {
            url: "http://s/0".to_string(),
            is_sample: true,
            full_url: "http://f/0".to_string(),
            result: Ok(MediaHandle { id: 7 }),
        })
        .unwrap();
    now += 16;
    let (_, display) = rig.reactor.tick(now);
    assert!(display
        .iter()
        .any(|e| matches!(e, Event::View(ViewEvent::MediaReady))));
    // The current item's full resolution goes through the priority channel.
    let full_work = rig.priority_rx.try_recv().expect("the full fetch of post 0");
    assert_eq!(full_work.url, "http://f/0");

    // Navigating forward 46 times crosses the near-end threshold once:
    // exactly one next-page fetch leaves the gateway.
    let mut fetches = Vec::new();
    for _ in 0..46 {
        now += 16;
        let nav = Event::Source(SourceEvent::Navigate(NavDirection::Next));
        let (c1, _) = rig.reactor.dispatch(vec![nav], now);
        fetches.extend(c1);
        now += 16;
        let (c2, _) = rig.reactor.tick(now);
        fetches.extend(c2);
    }
    assert_eq!(rig.reactor.browser.current_post().unwrap().id, 46);
    assert_eq!(fetches.len(), 1, "at most one fetch while one is in flight");
    assert_eq!(fetches[0].page, 2);
    assert!(!fetches[0].is_new);

    // Page two arrives and appends without disturbing the position.
    let more: Vec<Post> = (50..100).map(make_post).collect();
    rig.gateway_tx
        .try_send(GatewayMessage::SearchComplete { posts: more, page: 2, is_new: false })
        .unwrap();
    now += 16;
    let _ = rig.reactor.tick(now);
    assert_eq!(
        rig.reactor.browser.current_post().unwrap().id,
        46,
        "appending a page keeps the viewing position"
    );
    now += 16;
    let nav = Event::Source(SourceEvent::Navigate(NavDirection::Next));
    let _ = rig.reactor.dispatch(vec![nav], now);
    now += 16;
    let _ = rig.reactor.tick(now);
    assert_eq!(rig.reactor.browser.current_post().unwrap().id, 47);
}

#[test]
fn a_search_error_reaches_the_display_layer() {
    let mut rig = make_rig();
    let search = Event::Source(SourceEvent::Search { query: "wolf".to_string(), page: 1 });
    let _ = rig.reactor.dispatch(vec![search], 0);
    let (cmds, _) = rig.reactor.tick(16);
    assert_eq!(cmds.len(), 1);

    rig.gateway_tx
        .try_send(GatewayMessage::SearchError { message: "status 502".to_string() })
        .unwrap();
    let (_, display) = rig.reactor.tick(32);
    assert!(
        display
            .iter()
            .any(|e| matches!(e, Event::Gateway(GatewayEvent::SearchError { .. }))),
        "the error notice must reach the display layer"
    );
    assert!(!rig.reactor.gateway.is_loading(), "the pending flag clears on failure");

    // A failure is recovered by a user-initiated re-search, not a retry.
    let retry = Event::Source(SourceEvent::Search { query: "wolf".to_string(), page: 1 });
    let _ = rig.reactor.dispatch(vec![retry], 48);
    let (cmds, _) = rig.reactor.tick(64);
    assert_eq!(cmds.len(), 1);
}
