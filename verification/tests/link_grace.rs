use xylitol::link_grace::{
    LinkGrace, LinkHealth, LinkNotice, LINK_GRACE_INITIAL, LINK_GRACE_RECONNECT,
};

fn t(ms: u64) -> u64 {
    10_000 + ms
}

#[test]
fn initial_grace_uses_long_window_then_notices_once() {
    let mut g = LinkGrace::new();
    let t0 = t(0);
    assert_eq!(
        g.tick(LinkHealth::Down, t0, LINK_GRACE_INITIAL, LINK_GRACE_RECONNECT),
        None
    );
    assert_eq!(
        g.tick(
            LinkHealth::Down,
            t0 + 4_999,
            LINK_GRACE_INITIAL,
            LINK_GRACE_RECONNECT
        ),
        None,
        "silent within the initial grace"
    );
    assert_eq!(
        g.tick(
            LinkHealth::Down,
            t0 + LINK_GRACE_INITIAL,
            LINK_GRACE_INITIAL,
            LINK_GRACE_RECONNECT
        ),
        Some(LinkNotice::Disconnected),
        "past the initial grace a notice is raised"
    );
    assert_eq!(
        g.tick(
            LinkHealth::Down,
            t0 + LINK_GRACE_INITIAL + 1_000,
            LINK_GRACE_INITIAL,
            LINK_GRACE_RECONNECT
        ),
        None,
        "the disconnect notice is raised once"
    );
}

#[test]
fn reconnect_grace_is_shorter_after_first_connection() {
    let mut g = LinkGrace::new();
    let t0 = t(0);
    assert_eq!(
        g.tick(LinkHealth::Up, t0, LINK_GRACE_INITIAL, LINK_GRACE_RECONNECT),
        None
    );
    assert_eq!(
        g.tick(
            LinkHealth::Down,
            t0 + 200,
            LINK_GRACE_INITIAL,
            LINK_GRACE_RECONNECT
        ),
        None,
        "a blip within the reconnect grace is silent"
    );
    assert_eq!(
        g.tick(
            LinkHealth::Down,
            t0 + 1_200,
            LINK_GRACE_INITIAL,
            LINK_GRACE_RECONNECT
        ),
        Some(LinkNotice::Disconnected),
        "past the reconnect grace a notice is raised"
    );
    assert_eq!(
        g.tick(
            LinkHealth::Up,
            t0 + 1_400,
            LINK_GRACE_INITIAL,
            LINK_GRACE_RECONNECT
        ),
        Some(LinkNotice::Recovered),
        "recovery closes the announced outage"
    );
    assert_eq!(
        g.tick(
            LinkHealth::Up,
            t0 + 1_500,
            LINK_GRACE_INITIAL,
            LINK_GRACE_RECONNECT
        ),
        None
    );
}

#[test]
fn transient_blip_within_grace_never_notices() {
    let mut g = LinkGrace::new();
    let t0 = t(0);
    assert_eq!(
        g.tick(LinkHealth::Up, t0, LINK_GRACE_INITIAL, LINK_GRACE_RECONNECT),
        None
    );
    assert_eq!(
        g.tick(
            LinkHealth::Down,
            t0 + 100,
            LINK_GRACE_INITIAL,
            LINK_GRACE_RECONNECT
        ),
        None
    );
    assert_eq!(
        g.tick(
            LinkHealth::Up,
            t0 + 150,
            LINK_GRACE_INITIAL,
            LINK_GRACE_RECONNECT
        ),
        None,
        "a blip that heals within the grace raises nothing, not even recovery"
    );
}

#[test]
fn notices_alternate_over_repeated_outages() {
    let mut g = LinkGrace::default();
    let mut notices = Vec::new();
    let events = [
        (LinkHealth::Down, 0u64),
        (LinkHealth::Down, 6_000),
        (LinkHealth::Down, 7_000),
        (LinkHealth::Up, 8_000),
        (LinkHealth::Down, 9_000),
        (LinkHealth::Down, 11_000),
        (LinkHealth::Up, 12_000),
        (LinkHealth::Up, 13_000),
    ];
    for (h, now) in events {
        if let Some(n) = g.tick(h, now, LINK_GRACE_INITIAL, LINK_GRACE_RECONNECT) {
            notices.push(n);
        }
    }
    assert_eq!(
        notices,
        vec![
            LinkNotice::Disconnected,
            LinkNotice::Recovered,
            LinkNotice::Disconnected,
            LinkNotice::Recovered
        ]
    );
}

#[test]
fn clock_going_backwards_counts_as_no_time() {
    let mut g = LinkGrace::new();
    assert_eq!(g.tick(LinkHealth::Down, 5_000, 10, 10), None);
    assert_eq!(g.tick(LinkHealth::Down, 1_000, 10, 10), None);
    assert_eq!(g.tick(LinkHealth::Down, 5_010, 10, 10), Some(LinkNotice::Disconnected));
}
