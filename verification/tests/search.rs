use l4dder_worker::config::Cfg;
use l4dder_worker::lane::{Action, Event, Lease};
use l4dder_worker::search::{count_users, PrefixUsers, SearchLane, SearchSubmit};
use l4dder_worker::session::{Ask, FetchReply, Signal};

const S: u64 = 1_000_000_000;

fn cfg() -> Cfg {
    Cfg {
        ladder: "http://ladder".to_string(),
        token: "tok".to_string(),
        tr_base: "http://tr".to_string(),
        tr_user: String::new(),
        tr_pass: String::new(),
        tr_cookie: "abc".to_string(),
        batch: 10,
    }
}

fn lease(items: &[&str]) -> Event {
    Event::Leased(Some(Lease {
        lease_id: "L2".to_string(),
        items: items.iter().map(|s| s.to_string()).collect(),
    }))
}

fn answer(reply: FetchReply, now: u64) -> Event {
    Event::Session(Signal::Answered { answer: reply, now })
}

fn body(s: &str) -> FetchReply {
    FetchReply::Success { body: Some(s.as_bytes().to_vec()) }
}

// Lets the lane reach its next request to the tracker, whose address it returns.
fn reach_fetch(
    mut lane: SearchLane,
    mut action: Action<SearchSubmit>,
    clock: &mut u64,
) -> (SearchLane, String) {
    loop {
        match action {
            Action::Session(Ask::Clock) => {}
            Action::Session(Ask::Sleep { nanos }) => *clock += nanos as u64,
            Action::Session(Ask::Fetch(request)) => return (lane, request.url),
            _ => panic!(),
        }
        let (next, then) = lane.step(Event::Session(Signal::Time { now: *clock }));
        lane = next;
        action = then;
    }
}

#[test]
fn the_search_lane_asks_for_prefixes() {
    let (_, action) = SearchLane::open(cfg());
    match action {
        Action::Lease(request) => {
            assert_eq!(request.url, "http://ladder/api/worker/lease");
            assert_eq!(request.kind, "search");
            assert_eq!(request.max, 10);
        }
        _ => panic!(),
    }
}

#[test]
fn an_idle_search_lane_rests_longer_each_time() {
    let (mut lane, _) = SearchLane::open(cfg());
    for n in 1..=14u128 {
        let (next, action) = lane.step(Event::Leased(None));
        match action {
            Action::Session(Ask::Sleep { nanos }) => {
                assert_eq!(nanos, n.min(12) * 10 * S as u128)
            }
            _ => panic!(),
        }
        let (next, action) = next.step(Event::Session(Signal::Time { now: 0 }));
        assert!(matches!(action, Action::Lease(_)));
        lane = next;
    }
}

#[test]
fn every_leased_prefix_is_reported_once() {
    let mut clock = 100 * S;
    let (lane, _) = SearchLane::open(cfg());
    let (lane, action) = lane.step(lease(&["a", "b&", "c"]));
    let (lane, url) = reach_fetch(lane, action, &mut clock);
    assert_eq!(url, "http://tr/api/users/search?q=a");
    let found = "{\"users\": [{\"username\": \"ann\"}, {\"username\": \"abe\"}]}";
    let (lane, action) = lane.step(answer(body(found), clock));
    let (lane, url) = reach_fetch(lane, action, &mut clock);
    assert_eq!(url, "http://tr/api/users/search?q=b%26");
    let (lane, action) = lane.step(answer(FetchReply::Status { code: 404 }, clock));
    let (lane, _) = reach_fetch(lane, action, &mut clock);
    let (lane, action) = lane.step(answer(FetchReply::Status { code: 502 }, clock));
    match action {
        Action::Submit(result) => {
            assert_eq!(result.url, "http://ladder/api/worker/submit");
            assert_eq!(result.token, "tok");
            assert_eq!(result.lease_id, "L2");
            assert_eq!(result.search_results.len(), 2);
            assert_eq!(result.search_results[0].prefix, "a");
            assert_eq!(
                result.search_results[0].users,
                vec!["ann".to_string(), "abe".to_string()]
            );
            assert_eq!(result.search_results[1].prefix, "b&");
            assert!(result.search_results[1].users.is_empty());
            assert_eq!(result.failed, vec!["c".to_string()]);
            assert_eq!(result.users_found, 2);
        }
        _ => panic!(),
    }
    let (_, action) = lane.step(Event::Submitted);
    assert!(matches!(action, Action::Lease(_)));
}

#[test]
fn found_users_are_counted() {
    let list = vec![
        PrefixUsers { prefix: "a".to_string(), users: vec!["x".to_string(), "y".to_string()] },
        PrefixUsers { prefix: "b".to_string(), users: vec![] },
        PrefixUsers { prefix: "c".to_string(), users: vec!["z".to_string()] },
    ];
    assert_eq!(count_users(&list), 3);
    assert_eq!(count_users(&vec![]), 0);
}

#[test]
fn an_unexpected_event_fails_the_prefix() {
    let (lane, _) = SearchLane::open(cfg());
    let (lane, _) = lane.step(lease(&["a"]));
    let (_, action) = lane.step(Event::Leased(None));
    match action {
        Action::Submit(result) => assert_eq!(result.failed, vec!["a".to_string()]),
        _ => panic!(),
    }
}
