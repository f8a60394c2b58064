use sodglumate::api::{File, Flags, Post, Preview, Relationships, Sample, Score, Tags};
use sodglumate::event::{BrowserEvent, Event, GatewayEvent, Priority};
use sodglumate::gateway::{BooruGateway, GatewayMessage};

fn make_gateway() -> (BooruGateway, tokio::sync::mpsc::Sender<GatewayMessage>) {
    let (tx, rx) = tokio::sync::mpsc::channel(16);
    (BooruGateway::new(rx), tx)
}

fn search_event(query: &str, page: u32) -> Event {
    Event::Gateway(GatewayEvent::SearchRequest {
        query: query.to_string(),
        page,
        limit: 50,
    })
}

fn make_post(id: u64) -> Post {
    Post {
        id,
        created_at: String::new(),
        updated_at: String::new(),
        file: File {
            width: 100,
            height: 100,
            ext: "png".to_string(),
            size: 1,
            md5: String::new(),
            url: Some(format!("https://img.example/{}.png", id)),
        },
        preview: Preview { width: 10, height: 10, url: None },
        sample: Sample { has: false, height: 0, width: 0, url: None },
        score: Score { up: 0, down: 0, total: 0 },
        tags: Tags {
            general: Vec::new(),
            species: Vec::new(),
            character: Vec::new(),
            copyright: Vec::new(),
            artist: Vec::new(),
            invalid: Vec::new(),
            meta: Vec::new(),
            lore: Vec::new(),
        },
        locked_tags: Vec::new(),
        change_seq: 0,
        flags: Flags {
            pending: false,
            flagged: false,
            note_locked: false,
            status_locked: false,
            rating_locked: false,
            deleted: false,
        },
        rating: "s".to_string(),
        fav_count: 0,
        sources: Vec::new(),
        pools: Vec::new(),
        relationships: Relationships {
            parent_id: None,
            has_children: false,
            has_active_children: false,
            children: Vec::new(),
        },
        approver_id: None,
        uploader_id: 1,
        description: String::new(),
        comment_count: 0,
        is_favorited: false,
        has_notes: false,
    }
}

#[test]
fn search_request_starts_a_fetch_and_sets_the_context() {
    let (mut g, _tx) = make_gateway();
    let (_, cmd) = g.handle(&search_event("wolf", 3), 0);
    let cmd = cmd.expect("a fetch command");
    assert_eq!(cmd.query, "wolf");
    assert_eq!(cmd.page, 3);
    assert_eq!(cmd.limit, 50);
    assert!(cmd.is_new);
    assert!(g.is_loading());
}

#[test]
fn at_most_one_fetch_in_flight() {
    let (mut g, _tx) = make_gateway();
    let (_, first) = g.handle(&search_event("wolf", 1), 0);
    assert!(first.is_some());
    let (_, second) = g.handle(&search_event("cat", 1), 10);
    assert!(second.is_none(), "a second search while one is pending must be ignored");
    assert!(g.is_loading());
}

#[test]
fn rate_limit_allows_two_per_second_and_drops_the_third() {
    let (mut g, tx) = make_gateway();

    let (_, c1) = g.handle(&search_event("a", 1), 0);
    assert!(c1.is_some());
    tx.try_send(GatewayMessage::SearchError { message: "x".to_string() }).unwrap();
    let _ = g.poll();
    assert!(!g.is_loading());

    let (_, c2) = g.handle(&search_event("b", 1), 100);
    assert!(c2.is_some());
    tx.try_send(GatewayMessage::SearchError { message: "x".to_string() }).unwrap();
    let _ = g.poll();

    // Third request within one second of the first: dropped.
    let (_, c3) = g.handle(&search_event("c", 1), 500);
    assert!(c3.is_none(), "the rate limit must drop the third request in the window");

    // A full second past the oldest of the two: accepted again.
    let (_, c4) = g.handle(&search_event("d", 1), 1000);
    assert!(c4.is_some());
}

#[test]
fn fetch_next_page_needs_an_established_query() {
    let (mut g, _tx) = make_gateway();
    let (_, cmd) = g.handle(&Event::Gateway(GatewayEvent::FetchNextPage), 0);
    assert!(cmd.is_none(), "no query yet, so nothing to paginate");
}

#[test]
fn fetch_next_page_computes_the_following_page() {
    let (mut g, tx) = make_gateway();
    let (_, c1) = g.handle(&search_event("wolf", 4), 0);
    assert!(c1.is_some());
    tx.try_send(GatewayMessage::SearchComplete { posts: vec![make_post(1)], page: 4, is_new: true })
        .unwrap();
    let _ = g.poll();
    assert!(!g.is_loading());

    let (_, cmd) = g.handle(&Event::Gateway(GatewayEvent::FetchNextPage), 100);
    let cmd = cmd.expect("a pagination fetch");
    assert_eq!(cmd.query, "wolf");
    assert_eq!(cmd.page, 5);
    assert!(!cmd.is_new);
}

#[test]
fn fetch_next_page_is_ignored_while_a_fetch_is_pending() {
    let (mut g, _tx) = make_gateway();
    let (_, c1) = g.handle(&search_event("wolf", 1), 0);
    assert!(c1.is_some());
    let (_, cmd) = g.handle(&Event::Gateway(GatewayEvent::FetchNextPage), 100);
    assert!(cmd.is_none());
}

#[test]
fn poll_turns_results_into_posts_events_and_clears_the_flag() {
    let (mut g, tx) = make_gateway();
    let (_, c1) = g.handle(&search_event("wolf", 2), 0);
    assert!(c1.is_some());
    tx.try_send(GatewayMessage::SearchComplete {
        posts: vec![make_post(1), make_post(2)],
        page: 2,
        is_new: true,
    })
    .unwrap();
    let resp = g.poll();
    assert!(!g.is_loading());
    assert_eq!(resp.events.len(), 1);
    match &resp.events[0] {
        Event::Browser(BrowserEvent::PostsReceived { posts, page, is_new }) => {
            assert_eq!(posts.len(), 2);
            assert_eq!(*page, 2);
            assert!(*is_new);
        }
        other => panic!("unexpected event: {:?}", other),
    }
}

#[test]
fn poll_turns_failures_into_critical_search_errors() {
    let (mut g, tx) = make_gateway();
    let (_, c1) = g.handle(&search_event("wolf", 1), 0);
    assert!(c1.is_some());
    tx.try_send(GatewayMessage::SearchError { message: "status 502".to_string() }).unwrap();
    let resp = g.poll();
    assert!(!g.is_loading());
    assert_eq!(resp.events.len(), 1);
    match &resp.events[0] {
        Event::Gateway(GatewayEvent::SearchError { message }) => {
            assert_eq!(message, "status 502");
            assert_eq!(resp.events[0].priority(), Priority::Critical);
        }
        other => panic!("unexpected event: {:?}", other),
    }
}

#[test]
fn process_message_updates_the_page_on_success_only() {
    let (mut g, _tx) = make_gateway();
    let e = g.process_message(GatewayMessage::SearchComplete {
        posts: Vec::new(),
        page: 9,
        is_new: false,
    });
    assert!(matches!(e, Event::Browser(BrowserEvent::PostsReceived { page: 9, .. })));

    let e = g.process_message(GatewayMessage::SearchError { message: "x".to_string() });
    assert!(matches!(e, Event::Gateway(GatewayEvent::SearchError { .. })));
}
