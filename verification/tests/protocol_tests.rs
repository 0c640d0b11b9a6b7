use relayctl::addr::Ipv4;
use relayctl::addr::format_ipv4;
use relayctl::addr::parse_ipv4;
use relayctl::board::broadcast_address;
use relayctl::board::discovery_datagram;
use relayctl::board::first_success;
use relayctl::board::prepare_push;
use relayctl::board::probe_candidates;
use relayctl::board::probe_url;
use relayctl::board::set_url;
use relayctl::codec::format_u16;
use relayctl::codec::parse_u16;
use relayctl::table::Item;
use relayctl::table::States;
use relayctl::table::bitmask;

fn ip(a: u8, b: u8, c: u8, d: u8) -> Ipv4 {
    Ipv4 { a, b, c, d }
}

fn item(id: u32, state: bool) -> Item {
    Item {
        id,
        name: "-".to_string(),
        ipv4: "-.-.-.-".to_string(),
        last_updated: 0,
        state,
    }
}

#[test]
fn bitmask_sets_exactly_the_on_bits() {
    let t = States {
        relays: vec![item(1, true), item(2, false), item(3, true), item(16, true)],
    };
    let m = bitmask(&t);
    assert_eq!(m, 0b1000_0000_0000_0101);
    for j in 0..16u32 {
        let expected = t.relays.iter().any(|it| it.id == j + 1 && it.state);
        assert_eq!((m >> j) & 1 == 1, expected);
    }
}

#[test]
fn bitmask_of_all_off_is_zero() {
    let t = States { relays: vec![item(1, false), item(2, false)] };
    assert_eq!(bitmask(&t), 0);
}

#[test]
fn format_and_parse_u16_round_trip() {
    for n in [0u16, 1, 5, 9, 10, 255, 999, 1000, 65535] {
        let s = format_u16(n);
        assert_eq!(s, n.to_string());
        assert_eq!(parse_u16(&s), Some(n));
    }
}

#[test]
fn parse_u16_rejects_bad_bodies() {
    assert_eq!(parse_u16(""), None);
    assert_eq!(parse_u16("65536"), None);
    assert_eq!(parse_u16("99999"), None);
    assert_eq!(parse_u16("12a"), None);
    assert_eq!(parse_u16("-1"), None);
    assert_eq!(parse_u16(" 5"), None);
    assert_eq!(parse_u16("007"), Some(7));
}

#[test]
fn prepare_push_carries_mask_and_body() {
    let t = States { relays: vec![item(1, true), item(4, true)] };
    let (mask, body) = prepare_push(&t);
    assert_eq!(mask, 0b1001);
    assert_eq!(body, "9");
    // An echo equal to the request means full application.
    assert_eq!(parse_u16(&body), Some(mask));
}

#[test]
fn format_ipv4_is_canonical() {
    assert_eq!(format_ipv4(ip(10, 8, 32, 9)), "10.8.32.9");
    assert_eq!(format_ipv4(ip(0, 0, 0, 0)), "0.0.0.0");
    assert_eq!(format_ipv4(ip(255, 255, 255, 255)), "255.255.255.255");
}

#[test]
fn parse_ipv4_accepts_dotted_quads() {
    assert_eq!(parse_ipv4("10.8.32.9"), Some(ip(10, 8, 32, 9)));
    assert_eq!(parse_ipv4("0.0.0.0"), Some(ip(0, 0, 0, 0)));
    assert_eq!(parse_ipv4("255.255.255.255"), Some(ip(255, 255, 255, 255)));
}

#[test]
fn parse_ipv4_rejects_malformed_text() {
    assert_eq!(parse_ipv4(""), None);
    assert_eq!(parse_ipv4("10.8.32"), None);
    assert_eq!(parse_ipv4("10.8.32.9.1"), None);
    assert_eq!(parse_ipv4("256.1.1.1"), None);
    assert_eq!(parse_ipv4("01.2.3.4"), None);
    assert_eq!(parse_ipv4("1..2.3"), None);
    assert_eq!(parse_ipv4("a.b.c.d"), None);
    assert_eq!(parse_ipv4("1.2.3.4 "), None);
    assert_eq!(parse_ipv4("-.-.-.-"), None);
}

#[test]
fn parse_format_ipv4_round_trip() {
    for candidate in [ip(10, 8, 32, 5), ip(192, 168, 0, 1), ip(1, 2, 3, 4)] {
        assert_eq!(parse_ipv4(&format_ipv4(candidate)), Some(candidate));
    }
}

#[test]
fn probe_plan_covers_the_subnet() {
    let hosts = probe_candidates(10, 8, 32);
    assert_eq!(hosts.len(), 254);
    assert_eq!(hosts[0], ip(10, 8, 32, 1));
    assert_eq!(hosts[253], ip(10, 8, 32, 254));
}

#[test]
fn wire_targets_and_datagram() {
    assert_eq!(probe_url(ip(10, 8, 32, 9)), "http://10.8.32.9/esp");
    assert_eq!(set_url(ip(10, 8, 32, 9)), "http://10.8.32.9/set");
    assert_eq!(broadcast_address(10, 8, 32), "10.8.32.255:991");
    assert_eq!(discovery_datagram(), "WhereAreYou.01");
}

#[test]
fn discovery_race_is_first_one_wins() {
    let results = vec![None, Some(ip(10, 8, 32, 7)), Some(ip(10, 8, 32, 8))];
    assert_eq!(first_success(&results), Some(ip(10, 8, 32, 7)));
    let empty: Vec<Option<Ipv4>> = vec![];
    assert_eq!(first_success(&empty), None);
    let misses: Vec<Option<Ipv4>> = vec![None, None];
    assert_eq!(first_success(&misses), None);
}
