use poem_api::middleware::rate_limit::{first_hop, ClientIp, RateLimit};

const SEC: u64 = 1_000_000_000;

#[test]
fn admits_up_to_limit_then_refuses() {
    let mut rl = RateLimit::new(3, 60, false);
    let ip = Some(ClientIp::V4(0x7f00_0001));
    assert_eq!(rl.check(ip, 0), None);
    assert_eq!(rl.check(ip, SEC), None);
    assert_eq!(rl.check(ip, 2 * SEC), None);
    // The oldest request (at 0) leaves the 60 s window 57 s after t = 3 s.
    assert_eq!(rl.check(ip, 3 * SEC), Some(57));
}

#[test]
fn window_slides() {
    let mut rl = RateLimit::new(2, 10, false);
    let ip = Some(ClientIp::V6(1));
    assert_eq!(rl.check(ip, 0), None);
    assert_eq!(rl.check(ip, 5 * SEC), None);
    assert_eq!(rl.check(ip, 6 * SEC), Some(4));
    // At 10 s the request at 0 is exactly at the window's edge: still inside.
    assert_eq!(rl.check(ip, 10 * SEC), Some(1));
    // Just after, it has left.
    assert_eq!(rl.check(ip, 10 * SEC + 1), None);
    assert_eq!(rl.check(ip, 10 * SEC + 2), Some(4));
}

#[test]
fn clients_are_counted_separately() {
    let mut rl = RateLimit::new(1, 60, false);
    assert_eq!(rl.check(Some(ClientIp::V4(1)), 0), None);
    assert_eq!(rl.check(Some(ClientIp::V4(2)), 0), None);
    assert_eq!(rl.check(Some(ClientIp::V6(1)), 0), None);
    assert!(rl.check(Some(ClientIp::V4(1)), 1).is_some());
}

#[test]
fn unknown_client_always_passes() {
    let mut rl = RateLimit::new(0, 60, false);
    for t in 0..10 {
        assert_eq!(rl.check(None, t), None);
    }
}

#[test]
fn zero_limit_refuses_with_at_least_one_second() {
    let mut rl = RateLimit::new(0, 0, false);
    assert_eq!(rl.check(Some(ClientIp::V4(9)), 5), Some(1));
}

#[test]
fn retry_after_is_at_least_one_second() {
    let mut rl = RateLimit::new(1, 1, false);
    let ip = Some(ClientIp::V4(3));
    assert_eq!(rl.check(ip, 0), None);
    assert_eq!(rl.check(ip, SEC / 2), Some(1));
}

#[test]
fn sweep_forgets_idle_clients() {
    let mut rl = RateLimit::new(1, 1, false);
    assert_eq!(rl.check(Some(ClientIp::V4(1)), 0), None);
    // More than a window later the sweep runs and the client is forgotten;
    // its request is admitted again.
    assert_eq!(rl.check(Some(ClientIp::V4(2)), 3 * SEC), None);
    assert_eq!(rl.check(Some(ClientIp::V4(1)), 3 * SEC), None);
}

#[test]
fn client_ip_prefers_forwarded_only_behind_trusted_proxy() {
    let trusting = RateLimit::new(10, 60, true);
    let plain = RateLimit::new(10, 60, false);
    let fwd = Some(ClientIp::V4(10));
    let peer = Some(ClientIp::V4(20));
    assert_eq!(trusting.client_ip(fwd, peer), fwd);
    assert_eq!(trusting.client_ip(None, peer), peer);
    assert_eq!(plain.client_ip(fwd, peer), peer);
    assert_eq!(plain.client_ip(fwd, None), None);
}

#[test]
fn first_hop_takes_leftmost_address() {
    assert_eq!(first_hop("203.0.113.7, 10.0.0.1, 10.0.0.2"), "203.0.113.7");
    assert_eq!(first_hop("  2001:db8::1  "), "2001:db8::1");
    assert_eq!(first_hop(""), "");
    assert_eq!(first_hop(",1.2.3.4"), "");
}

#[test]
fn accessors_report_settings() {
    let rl = RateLimit::new(100, 60, true);
    assert_eq!(rl.limit(), 100);
    assert_eq!(rl.window_secs(), 60);
    assert!(rl.trust_proxy());
}

#[test]
fn never_more_than_limit_in_a_window() {
    // A deterministic pseudo-random trace over a few clients.
    let limit = 4u32;
    let window = 3u64;
    let mut rl = RateLimit::new(limit, window, false);
    let mut seed: u64 = 12345;
    let mut now: u64 = 0;
    let mut admitted: Vec<(u32, u64)> = Vec::new();
    for _ in 0..2000 {
        seed = seed.wrapping_mul(6364136223846793005).wrapping_add(1442695040888963407);
        now += (seed >> 33) % (SEC / 3);
        let client = ((seed >> 20) % 3) as u32;
        let r = rl.check(Some(ClientIp::V4(client)), now);
        if let Some(secs) = r {
            assert!(secs >= 1 && secs <= window);
        } else {
            admitted.push((client, now));
            let in_window = admitted
                .iter()
                .filter(|(c, t)| *c == client && now - *t <= window * SEC)
                .count();
            assert!(in_window <= limit as usize);
        }
    }
    assert!(!admitted.is_empty());
}
