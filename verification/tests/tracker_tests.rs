use rserver::tracker::{refuse_connection, ConnectionTracker, PeerAddr};

const SEC: u64 = 1_000_000_000;

fn peer(port: u16) -> PeerAddr {
    PeerAddr::V4 { ipv4: 0x7f00_0001, port }
}

#[test]
fn first_request_is_allowed() {
    let mut t = ConnectionTracker::new();
    assert!(!t.is_ip_blocked(peer(1), 10 * SEC));
    assert!(!t.should_block_ip(peer(1), 10 * SEC));
}

#[test]
fn eleventh_request_within_a_minute_is_blocked() {
    let mut t = ConnectionTracker::new();
    for i in 0..10u64 {
        assert!(!t.should_block_ip(peer(1), 100 * SEC + i * SEC), "request {} was blocked", i + 1);
    }
    assert!(t.should_block_ip(peer(1), 100 * SEC + 10 * SEC));
    assert!(t.is_ip_blocked(peer(1), 100 * SEC + 11 * SEC));
}

#[test]
fn requests_spread_over_more_than_a_minute_are_allowed() {
    let mut t = ConnectionTracker::new();
    // one request every 7 seconds: never more than 9 in any minute
    for i in 0..40u64 {
        assert!(!t.should_block_ip(peer(1), 1000 * SEC + i * 7 * SEC));
    }
}

#[test]
fn request_exactly_one_minute_old_no_longer_counts() {
    let mut t = ConnectionTracker::new();
    for _ in 0..10 {
        assert!(!t.should_block_ip(peer(1), 500 * SEC));
    }
    // 60 s later the ten earlier requests are out of the window
    assert!(!t.should_block_ip(peer(1), 560 * SEC));
    // just before that they would still have counted
    let mut u = ConnectionTracker::new();
    for _ in 0..10 {
        assert!(!u.should_block_ip(peer(1), 500 * SEC));
    }
    assert!(u.should_block_ip(peer(1), 560 * SEC - 1));
}

#[test]
fn block_lasts_five_minutes() {
    let mut t = ConnectionTracker::new();
    let start = 50 * SEC;
    for _ in 0..10 {
        assert!(!t.should_block_ip(peer(1), start));
    }
    assert!(t.should_block_ip(peer(1), start));
    assert!(t.is_ip_blocked(peer(1), start));
    assert!(t.is_ip_blocked(peer(1), start + 300 * SEC - 1));
    assert!(!t.is_ip_blocked(peer(1), start + 300 * SEC));
}

#[test]
fn block_check_is_idempotent() {
    let mut t = ConnectionTracker::new();
    for _ in 0..11 {
        t.should_block_ip(peer(1), 5 * SEC);
    }
    assert!(t.is_ip_blocked(peer(1), 6 * SEC));
    assert!(t.is_ip_blocked(peer(1), 6 * SEC));
    assert!(!t.is_ip_blocked(peer(1), 400 * SEC));
    assert!(!t.is_ip_blocked(peer(1), 400 * SEC));
}

#[test]
fn other_peers_are_not_affected() {
    let mut t = ConnectionTracker::new();
    for _ in 0..11 {
        t.should_block_ip(peer(1), 5 * SEC);
    }
    assert!(t.is_ip_blocked(peer(1), 6 * SEC));
    assert!(!t.is_ip_blocked(peer(2), 6 * SEC));
    assert!(!t.should_block_ip(peer(2), 6 * SEC));
    let v6 = PeerAddr::V6 { ipv6: 0x7f00_0001, port: 1, flowinfo: 0, scope_id: 0 };
    assert!(!t.is_ip_blocked(v6, 6 * SEC));
}

#[test]
fn connection_of_blocked_peer_is_refused_without_being_recorded() {
    let mut t = ConnectionTracker::new();
    for i in 0..10u64 {
        assert!(!refuse_connection(&mut t, peer(1), 10 * SEC + i));
    }
    assert!(refuse_connection(&mut t, peer(1), 10 * SEC + 10));
    // refused while blocked
    assert!(refuse_connection(&mut t, peer(1), 20 * SEC));
    assert!(refuse_connection(&mut t, peer(1), 309 * SEC));
    // the block has ended and the earlier requests are out of the window
    assert!(!refuse_connection(&mut t, peer(1), 311 * SEC));
}

#[test]
fn early_clock_values_do_not_underflow_the_window() {
    let mut t = ConnectionTracker::new();
    for _ in 0..10 {
        assert!(!t.should_block_ip(peer(3), 0));
    }
    assert!(t.should_block_ip(peer(3), 1));
}

#[test]
fn block_end_beyond_the_clock_range() {
    let mut t = ConnectionTracker::new();
    for _ in 0..11 {
        t.should_block_ip(peer(4), u64::MAX);
    }
    assert!(t.is_ip_blocked(peer(4), u64::MAX));
}
