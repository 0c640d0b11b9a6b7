use relayctl::addr::Ipv4;
use relayctl::events::EventBus;
use relayctl::events::InitialQueryParams;
use relayctl::events::PollResult;
use relayctl::events::ServerEvent;
use relayctl::events::EVENT_BACKLOG;
use relayctl::events::wants_snapshot;
use relayctl::registry::BoardDetails;
use relayctl::registry::BoardRegistry;
use relayctl::registry::RegisterError;
use relayctl::scan::contains_ip;
use relayctl::scan::dedup_ips;
use relayctl::scan::new_devices;
use relayctl::scan::reconcile_target;
use relayctl::table::Item;

fn ev(id: u32) -> ServerEvent {
    ServerEvent {
        updated_item: Item {
            id,
            name: "-".to_string(),
            ipv4: "-.-.-.-".to_string(),
            last_updated: 0,
            state: false,
        },
    }
}

fn ip(a: u8, b: u8, c: u8, d: u8) -> Ipv4 {
    Ipv4 { a, b, c, d }
}

#[test]
fn waiting_subscriber_receives_publish() {
    let mut bus = EventBus::new(EVENT_BACKLOG);
    let mut sub = bus.subscribe();
    assert_eq!(bus.poll(&mut sub), PollResult::Pending);
    bus.publish(ev(3));
    assert_eq!(bus.poll(&mut sub), PollResult::Event(ev(3)));
    assert_eq!(bus.poll(&mut sub), PollResult::Pending);
}

#[test]
fn publish_without_subscriber_is_not_retroactive() {
    let mut bus = EventBus::new(EVENT_BACKLOG);
    bus.publish(ev(1));
    let mut sub = bus.subscribe();
    assert_eq!(bus.poll(&mut sub), PollResult::Pending);
}

#[test]
fn events_arrive_in_publish_order() {
    let mut bus = EventBus::new(EVENT_BACKLOG);
    let mut sub = bus.subscribe();
    bus.publish(ev(1));
    bus.publish(ev(2));
    bus.publish(ev(3));
    assert_eq!(bus.poll(&mut sub), PollResult::Event(ev(1)));
    assert_eq!(bus.poll(&mut sub), PollResult::Event(ev(2)));
    assert_eq!(bus.poll(&mut sub), PollResult::Event(ev(3)));
}

#[test]
fn outrun_backlog_is_reported_as_lagged() {
    let mut bus = EventBus::new(2);
    let mut sub = bus.subscribe();
    bus.publish(ev(1));
    bus.publish(ev(2));
    bus.publish(ev(3));
    assert_eq!(bus.poll(&mut sub), PollResult::Lagged);
    // After the lag signal the subscriber resumes at the oldest retained event.
    assert_eq!(bus.poll(&mut sub), PollResult::Event(ev(2)));
    assert_eq!(bus.poll(&mut sub), PollResult::Event(ev(3)));
    assert_eq!(bus.poll(&mut sub), PollResult::Pending);
}

#[test]
fn snapshot_request_detection() {
    let with = InitialQueryParams { initial_event: Some("1".to_string()) };
    let without = InitialQueryParams { initial_event: None };
    assert!(wants_snapshot(&with));
    assert!(!wants_snapshot(&without));
}

fn details(device: &str, ip_text: &str) -> BoardDetails {
    BoardDetails { device: device.to_string(), ip: ip_text.to_string() }
}

#[test]
fn registration_succeeds_once() {
    let mut reg = BoardRegistry::new();
    assert_eq!(reg.current(), None);
    let h = reg.register(&details("relayBoard", "10.8.32.5")).expect("first registration");
    assert_eq!(h.ip, ip(10, 8, 32, 5));
    assert_eq!(reg.current(), Some(ip(10, 8, 32, 5)));
}

#[test]
fn second_registration_conflicts_and_keeps_first_board() {
    let mut reg = BoardRegistry::new();
    reg.register(&details("relayBoard", "10.8.32.5")).expect("first registration");
    let second = reg.register(&details("relayBoard", "10.8.32.77"));
    assert_eq!(second, Err(RegisterError::AlreadyRegistered));
    assert_eq!(reg.current(), Some(ip(10, 8, 32, 5)));
}

#[test]
fn registration_rejects_bad_device_and_ip() {
    let mut reg = BoardRegistry::new();
    assert_eq!(
        reg.register(&details("toaster", "10.8.32.5")),
        Err(RegisterError::InvalidDevice)
    );
    assert_eq!(
        reg.register(&details("relayBoard", "10.8.32")),
        Err(RegisterError::InvalidIp)
    );
    assert_eq!(reg.current(), None);
    // Neither failed attempt blocks a later valid one.
    assert!(reg.register(&details("relayBoard", "10.8.32.5")).is_ok());
}

#[test]
fn scan_dedup_and_membership() {
    let seen = vec![ip(10, 8, 32, 5), ip(10, 8, 32, 5), ip(10, 8, 32, 9)];
    let distinct = dedup_ips(&seen);
    assert_eq!(distinct.len(), 2);
    assert!(contains_ip(&distinct, ip(10, 8, 32, 5)));
    assert!(contains_ip(&distinct, ip(10, 8, 32, 9)));
    assert!(!contains_ip(&distinct, ip(10, 8, 32, 1)));
}

#[test]
fn reconcile_one_new_device_is_assigned() {
    let first = vec![ip(10, 8, 32, 5)];
    let second = vec![ip(10, 8, 32, 5), ip(10, 8, 32, 9)];
    assert_eq!(new_devices(&first, &second), vec![ip(10, 8, 32, 9)]);
    assert_eq!(reconcile_target(&first, &second), Some(ip(10, 8, 32, 9)));
}

#[test]
fn reconcile_ambiguous_scan_assigns_nothing() {
    let first: Vec<Ipv4> = vec![];
    let second = vec![ip(10, 8, 32, 5), ip(10, 8, 32, 9)];
    assert_eq!(reconcile_target(&first, &second), None);
}

#[test]
fn reconcile_no_new_device_assigns_nothing() {
    let first = vec![ip(10, 8, 32, 5)];
    let second = vec![ip(10, 8, 32, 5)];
    assert_eq!(reconcile_target(&first, &second), None);
    // A device that disappeared is not "new" either.
    let third: Vec<Ipv4> = vec![];
    assert_eq!(reconcile_target(&first, &third), None);
}
