use l4dder_worker::config::Cfg;
use l4dder_worker::lane::{Action, Event, Lease};
use l4dder_worker::refresh::{RefreshLane, RefreshSubmit};
use l4dder_worker::session::{Ask, FetchReply, LoginReply, Signal};

const S: u64 = 1_000_000_000;

fn cfg() -> Cfg {
    Cfg {
        ladder: "http://ladder".to_string(),
        token: "tok".to_string(),
        tr_base: "http://tr".to_string(),
        tr_user: String::new(),
        tr_pass: String::new(),
        tr_cookie: "abc".to_string(),
        batch: 10,
    }
}

fn lease(items: &[&str]) -> Event {
    Event::Leased(Some(Lease {
        lease_id: "L1".to_string(),
        items: items.iter().map(|s| s.to_string()).collect(),
    }))
}

fn answer(reply: FetchReply, now: u64) -> Event {
    Event::Session(Signal::Answered { answer: reply, now })
}

fn body(s: &str) -> FetchReply {
    FetchReply::Success { body: Some(s.as_bytes().to_vec()) }
}

fn sleep_of(action: &Action<RefreshSubmit>) -> u128 {
    match action {
        Action::Session(Ask::Sleep { nanos }) => *nanos,
        _ => panic!(),
    }
}

// Lets the lane reach its next request to the tracker, whose address it returns.
fn reach_fetch(
    mut lane: RefreshLane,
    mut action: Action<RefreshSubmit>,
    clock: &mut u64,
) -> (RefreshLane, String) {
    loop {
        match action {
            Action::Session(Ask::Clock) => {}
            Action::Session(Ask::Sleep { nanos }) => *clock += nanos as u64,
            Action::Session(Ask::Fetch(request)) => return (lane, request.url),
            _ => panic!(),
        }
        let (next, then) = lane.step(Event::Session(Signal::Time { now: *clock }));
        lane = next;
        action = then;
    }
}

#[test]
fn the_refresh_lane_asks_for_users() {
    let (_, action) = RefreshLane::open(cfg());
    match action {
        Action::Lease(request) => {
            assert_eq!(request.url, "http://ladder/api/worker/lease");
            assert_eq!(request.token, "tok");
            assert_eq!(request.kind, "users_refresh");
            assert_eq!(request.max, 10);
        }
        _ => panic!(),
    }
}

#[test]
fn an_idle_refresh_lane_rests_longer_each_time() {
    let (mut lane, _) = RefreshLane::open(cfg());
    for n in 1..=15u128 {
        let event = if n % 2 == 0 { Event::Leased(None) } else { lease(&[]) };
        let (next, action) = lane.step(event);
        assert_eq!(sleep_of(&action), n.min(12) * 5 * S as u128);
        let (next, action) = next.step(Event::Session(Signal::Time { now: 0 }));
        assert!(matches!(action, Action::Lease(_)));
        lane = next;
    }
    assert_eq!(lane.idle, 12);
    let (lane, action) = lane.step(lease(&["ann"]));
    assert!(matches!(action, Action::Session(Ask::Clock)));
    assert_eq!(lane.idle, 0);
}

#[test]
fn every_leased_user_is_reported_once() {
    let mut clock = 100 * S;
    let (lane, _) = RefreshLane::open(cfg());
    let (lane, action) = lane.step(lease(&["ann", "b b", "cy", "dee"]));
    let (lane, url) = reach_fetch(lane, action, &mut clock);
    assert_eq!(url, "http://tr/api/users/ann");
    let (lane, action) = lane.step(answer(body("{\"id\": 1, \"uploaded\": 9}"), clock));
    let (lane, url) = reach_fetch(lane, action, &mut clock);
    assert_eq!(url, "http://tr/api/users/ann/badges");
    let (lane, action) = lane.step(answer(body("[{\"name\": \"Upload 2\"}]"), clock + 7));
    let (lane, url) = reach_fetch(lane, action, &mut clock);
    assert_eq!(url, "http://tr/api/users/b%20b");
    let (lane, action) = lane.step(answer(FetchReply::Status { code: 404 }, clock));
    let (lane, url) = reach_fetch(lane, action, &mut clock);
    assert_eq!(url, "http://tr/api/users/cy");
    let (lane, action) = lane.step(answer(FetchReply::Transport, clock));
    let (lane, url) = reach_fetch(lane, action, &mut clock);
    assert_eq!(url, "http://tr/api/users/dee");
    let (lane, action) = lane.step(answer(body("{\"id\": 4}"), clock));
    let (lane, url) = reach_fetch(lane, action, &mut clock);
    assert_eq!(url, "http://tr/api/users/dee/badges");
    let (lane, action) = lane.step(answer(FetchReply::Status { code: 500 }, clock));
    match action {
        Action::Submit(result) => {
            assert_eq!(result.url, "http://ladder/api/worker/submit");
            assert_eq!(result.token, "tok");
            assert_eq!(result.lease_id, "L1");
            assert_eq!(result.results.len(), 2);
            assert_eq!(result.results[0].username, "ann");
            assert_eq!(result.results[0].uploaded, 9);
            assert_eq!(result.results[0].upload_tier, Some(2));
            assert_eq!(result.results[0].scraped_at, 101 * S + 7);
            assert_eq!(result.results[1].username, "dee");
            assert_eq!(result.results[1].upload_tier, None);
            assert_eq!(result.failed, vec!["cy".to_string()]);
            assert_eq!(result.gone, vec!["b b".to_string()]);
        }
        _ => panic!(),
    }
    let (_, action) = lane.step(Event::Submitted);
    assert!(matches!(action, Action::Lease(_)));
}

#[test]
fn a_refused_user_fails_and_the_next_one_waits() {
    let mut clock = 100 * S;
    let (lane, _) = RefreshLane::open(cfg());
    let (lane, action) = lane.step(lease(&["ann", "bob"]));
    let (lane, _) = reach_fetch(lane, action, &mut clock);
    let (lane, action) = lane.step(answer(FetchReply::Status { code: 429 }, clock));
    assert!(matches!(action, Action::Session(Ask::Clock)));
    let (_, action) = lane.step(Event::Session(Signal::Time { now: clock + S }));
    assert_eq!(sleep_of(&action), 19 * S as u128);
}

#[test]
fn an_unexpected_event_fails_the_user() {
    let (lane, _) = RefreshLane::open(cfg());
    let (lane, _) = lane.step(lease(&["ann"]));
    let (_, action) = lane.step(Event::Submitted);
    match action {
        Action::Submit(result) => assert_eq!(result.failed, vec!["ann".to_string()]),
        _ => panic!(),
    }
}

#[test]
fn ten_events_a_user_are_enough() {
    let mut settings = cfg();
    settings.tr_cookie = String::new();
    settings.tr_user = "zoe".to_string();
    settings.tr_pass = "pw".to_string();
    let mut clock = 100 * S;
    let mut events = 0;
    let (lane, _) = RefreshLane::open(settings);
    let (mut lane, mut action) = lane.step(lease(&["ann", "bob", "cy"]));
    loop {
        let event = match action {
            Action::Session(Ask::Clock) => Event::Session(Signal::Time { now: clock }),
            Action::Session(Ask::Sleep { nanos }) => {
                clock += nanos as u64;
                Event::Session(Signal::Time { now: clock })
            }
            Action::Session(Ask::Login(_)) => Event::Session(Signal::LoggedIn {
                login: LoginReply::Success { set_cookies: vec!["TR4KER_session=n".to_string()] },
                now: clock,
            }),
            Action::Session(Ask::Fetch(request)) => {
                assert_eq!(request.cookie, "TR4KER_session=n");
                answer(body("{\"id\": 1}"), clock)
            }
            Action::Submit(result) => {
                assert_eq!(result.results.len(), 3);
                break;
            }
            Action::Lease(_) => panic!(),
        };
        let (next, then) = lane.step(event);
        lane = next;
        action = then;
        events += 1;
    }
    assert!(events <= 30);
}
