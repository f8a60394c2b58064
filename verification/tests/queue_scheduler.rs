use sodglumate::event::{BreathingEvent, Event, GatewayEvent, MediaEvent, Priority, SettingsEvent};
use sodglumate::queue::EventQueue;
use sodglumate::scheduler::Scheduler;

fn low_event(n: u32) -> Event {
    Event::Breathing(BreathingEvent::SetIdleMultiplier { permille: n })
}

fn normal_event(ms: u64) -> Event {
    Event::Settings(SettingsEvent::SetDelay { ms })
}

fn critical_event(message: &str) -> Event {
    Event::Gateway(GatewayEvent::SearchError { message: message.to_string() })
}

#[test]
fn priority_levels_map_to_indices() {
    assert_eq!(Priority::Critical.as_index(), 0);
    assert_eq!(Priority::High.as_index(), 1);
    assert_eq!(Priority::Normal.as_index(), 2);
    assert_eq!(Priority::Low.as_index(), 3);
}

#[test]
fn event_priorities_are_pure_functions_of_the_value() {
    assert_eq!(critical_event("boom").priority(), Priority::Critical);
    assert_eq!(normal_event(5).priority(), Priority::Normal);
    assert_eq!(low_event(1).priority(), Priority::Low);
    assert_eq!(
        Event::Media(MediaEvent::Prefetch { urls: Vec::new() }).priority(),
        Priority::Low
    );
    assert_eq!(
        Event::Media(MediaEvent::LoadRequest {
            sample_url: None,
            full_url: None,
            is_video: false
        })
        .priority(),
        Priority::Normal
    );
}

#[test]
fn pop_prefers_critical_then_normal_then_low() {
    let mut q = EventQueue::new();
    q.push(low_event(1));
    q.push(normal_event(2));
    q.push(critical_event("err"));

    let first = q.pop().unwrap();
    assert!(matches!(first, Event::Gateway(GatewayEvent::SearchError { .. })));
    let second = q.pop().unwrap();
    assert!(matches!(second, Event::Settings(SettingsEvent::SetDelay { ms: 2 })));
    let third = q.pop().unwrap();
    assert!(matches!(
        third,
        Event::Breathing(BreathingEvent::SetIdleMultiplier { permille: 1 })
    ));
    assert!(q.pop().is_none());
}

#[test]
fn pop_keeps_fifo_order_within_a_level() {
    let mut q = EventQueue::new();
    q.push(normal_event(1));
    q.push(normal_event(2));
    q.push(normal_event(3));
    for expected in [1u64, 2, 3] {
        match q.pop().unwrap() {
            Event::Settings(SettingsEvent::SetDelay { ms }) => assert_eq!(ms, expected),
            other => panic!("unexpected event: {:?}", other),
        }
    }
}

#[test]
fn scheduler_never_delivers_before_the_fire_time() {
    let mut s = Scheduler::new();
    let mut q = EventQueue::new();
    s.schedule(normal_event(7), 100, 1000);

    s.tick(&mut q, 1099);
    assert!(q.pop().is_none());

    s.tick(&mut q, 1100);
    assert!(matches!(
        q.pop(),
        Some(Event::Settings(SettingsEvent::SetDelay { ms: 7 }))
    ));
    assert!(q.pop().is_none());
}

#[test]
fn scheduler_drains_due_entries_in_fire_time_order() {
    let mut s = Scheduler::new();
    let mut q = EventQueue::new();
    s.schedule(normal_event(30), 30, 0);
    s.schedule(normal_event(10), 10, 0);
    s.schedule(normal_event(20), 20, 0);
    s.schedule(normal_event(99), 99, 0);

    s.tick(&mut q, 30);
    for expected in [10u64, 20, 30] {
        match q.pop().unwrap() {
            Event::Settings(SettingsEvent::SetDelay { ms }) => assert_eq!(ms, expected),
            other => panic!("unexpected event: {:?}", other),
        }
    }
    assert!(q.pop().is_none());

    s.tick(&mut q, 99);
    assert!(matches!(
        q.pop(),
        Some(Event::Settings(SettingsEvent::SetDelay { ms: 99 }))
    ));
}

#[test]
fn scheduler_keeps_insertion_order_for_equal_fire_times() {
    let mut s = Scheduler::new();
    let mut q = EventQueue::new();
    s.schedule(normal_event(1), 50, 0);
    s.schedule(normal_event(2), 50, 0);
    s.tick(&mut q, 50);
    for expected in [1u64, 2] {
        match q.pop().unwrap() {
            Event::Settings(SettingsEvent::SetDelay { ms }) => assert_eq!(ms, expected),
            other => panic!("unexpected event: {:?}", other),
        }
    }
}

#[test]
fn scheduler_saturates_past_the_end_of_the_clock() {
    let mut s = Scheduler::new();
    let mut q = EventQueue::new();
    s.schedule(normal_event(1), u64::MAX, 5);
    s.tick(&mut q, u64::MAX - 1);
    assert!(q.pop().is_none());
    s.tick(&mut q, u64::MAX);
    assert!(q.pop().is_some());
}
