use quote_server::broadcast::{is_ping, Broadcast, Received, Tick, PING_GRACE_NS};

const MS: u64 = 1_000_000;

#[test]
fn ping_datagrams() {
    assert!(is_ping(b"PING_UDP"));
    assert!(is_ping(b" PING_UDP\n"));
    assert!(is_ping("\u{a0}PING_UDP\u{3000}".as_bytes()));
    assert!(!is_ping(b"PING_UDP\xff"));
    assert!(!is_ping(b"ping_udp"));
    assert!(!is_ping(b""));
}

#[test]
fn stream_sends_after_each_interval() {
    let mut b = Broadcast::new(0, 1000);
    assert_eq!(b.tick(false, &Received::Nothing, 250 * MS), Tick::Wait);
    assert_eq!(b.tick(false, &Received::Nothing, 1000 * MS), Tick::Wait);
    assert_eq!(b.tick(false, &Received::Nothing, 1000 * MS + 1), Tick::Send);
    b.record_send(1001 * MS);
    assert_eq!(b.tick(false, &Received::Nothing, 1500 * MS), Tick::Wait);
}

#[test]
fn stream_expires_without_pings() {
    let mut b = Broadcast::new(0, 1000);
    assert_eq!(b.tick(false, &Received::Nothing, PING_GRACE_NS - 1), Tick::Send);
    assert_eq!(b.tick(false, &Received::Nothing, PING_GRACE_NS), Tick::Expire);
}

#[test]
fn ping_keeps_the_stream() {
    let mut b = Broadcast::new(0, 1000);
    b.record_send(4_900 * MS);
    let ping = Received::Datagram(b"PING_UDP\n".to_vec());
    assert_eq!(b.tick(false, &ping, 4_900 * MS), Tick::Wait);
    assert_eq!(b.tick(false, &Received::Nothing, 9_000 * MS), Tick::Send);
    assert_eq!(b.tick(false, &Received::Nothing, 9_899 * MS), Tick::Send);
    assert_eq!(b.tick(false, &Received::Nothing, 9_900 * MS), Tick::Expire);
    let other = Received::Datagram(b"hello".to_vec());
    let mut c = Broadcast::new(0, 1000);
    assert_eq!(c.tick(false, &other, PING_GRACE_NS), Tick::Expire);
}

#[test]
fn stream_stops_on_request_or_failure() {
    let mut b = Broadcast::new(0, 1000);
    assert_eq!(b.tick(true, &Received::Nothing, 2_000 * MS), Tick::Finish);
    assert_eq!(b.tick(false, &Received::Failed, 2_000 * MS), Tick::Expire);
    assert_eq!(b.tick(true, &Received::Datagram(b"PING_UDP".to_vec()), 10_000 * MS), Tick::Finish);
}
