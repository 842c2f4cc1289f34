use l4dder_worker::config::Cfg;
use l4dder_worker::rate::{FULL_RATE, MIN_RATE};
use l4dder_worker::session::{
    find_cookie, session_cookie, Ask, Fetch, FetchReply, LoginReply, Phase, Signal, Step, Tr4ker,
};

const S: u64 = 1_000_000_000;

fn cfg(user: &str, cookie: &str) -> Cfg {
    Cfg {
        ladder: "http://ladder".to_string(),
        token: "tok".to_string(),
        tr_base: "http://tr".to_string(),
        tr_user: user.to_string(),
        tr_pass: "pw".to_string(),
        tr_cookie: cookie.to_string(),
        batch: 10,
    }
}

fn body(s: &str) -> FetchReply {
    FetchReply::Success { body: Some(s.as_bytes().to_vec()) }
}

fn time(now: u64) -> Signal {
    Signal::Time { now }
}

#[test]
fn a_session_opens_with_the_given_cookie() {
    let tr = Tr4ker::new(cfg("", "abc"), "refresh");
    assert_eq!(tr.cookie, Some("TR4KER_session=abc".to_string()));
    assert_eq!((tr.rps, tr.target), (FULL_RATE, FULL_RATE));
    assert_eq!((tr.last_req, tr.consec429, tr.cooldown_until), (0, 0, 0));
    assert_eq!(tr.tag, "refresh");
    assert_eq!(Tr4ker::new(cfg("", ""), "search").cookie, None);
}

#[test]
fn the_session_cookie_is_cut_out_of_its_header() {
    assert_eq!(
        session_cookie("TR4KER_session=a1; Path=/; HttpOnly"),
        Some("TR4KER_session=a1".to_string())
    );
    assert_eq!(
        session_cookie("x=1, TR4KER_session=a1"),
        Some("TR4KER_session=a1".to_string())
    );
    assert_eq!(session_cookie("TR4KER_session=;"), Some("TR4KER_session=".to_string()));
    assert_eq!(session_cookie("other=1; Path=/"), None);
    assert_eq!(session_cookie(""), None);
}

#[test]
fn the_first_header_with_a_session_cookie_counts() {
    let headers = vec![
        "a=1".to_string(),
        "TR4KER_session=b; Secure".to_string(),
        "TR4KER_session=c".to_string(),
    ];
    assert_eq!(find_cookie(&headers), Some("TR4KER_session=b".to_string()));
    assert_eq!(find_cookie(&vec![]), None);
}

#[test]
fn a_request_with_a_cookie_is_sent_at_once() {
    let mut tr = Tr4ker::new(cfg("", "abc"), "refresh");
    let (phase, step) = tr.get("/api/x", Phase::Cooldown, time(100 * S));
    assert_eq!(phase, Phase::Answer);
    assert!(matches!(step, Step::Ask(Ask::Fetch(r))
        if r.url == "http://tr/api/x" && r.cookie == "TR4KER_session=abc"));
    assert_eq!(tr.last_req, 100 * S);
}

#[test]
fn a_second_request_waits_for_its_turn() {
    let mut tr = Tr4ker::new(cfg("", "abc"), "refresh");
    tr.get("/a", Phase::Cooldown, time(100 * S));
    let (phase, step) = tr.get("/b", Phase::Cooldown, time(100 * S + S / 4));
    assert_eq!(phase, Phase::Send);
    assert!(matches!(step, Step::Ask(Ask::Sleep { nanos: 750_000_000 })));
    assert_eq!(tr.last_req, 100 * S);
    let (phase, step) = tr.get("/b", phase, time(101 * S));
    assert_eq!(phase, Phase::Answer);
    assert!(matches!(step, Step::Ask(Ask::Fetch(_))));
    assert_eq!(tr.last_req, 101 * S);
}

#[test]
fn a_cooldown_is_waited_for_first() {
    let mut tr = Tr4ker::new(cfg("", "abc"), "refresh");
    tr.cooldown_until = 110 * S as u128;
    tr.last_req = 109 * S + S / 2;
    let (phase, step) = tr.get("/a", Phase::Cooldown, time(100 * S));
    assert_eq!(phase, Phase::Pace);
    assert!(matches!(step, Step::Ask(Ask::Sleep { nanos: 10_000_000_000 })));
    let (phase, step) = tr.get("/a", phase, time(110 * S));
    assert_eq!(phase, Phase::Send);
    assert!(matches!(step, Step::Ask(Ask::Sleep { nanos: 500_000_000 })));
}

#[test]
fn a_session_without_a_cookie_logs_in() {
    let mut tr = Tr4ker::new(cfg("zoe", ""), "refresh");
    let (phase, step) = tr.get("/a", Phase::Cooldown, time(100 * S));
    assert_eq!(phase, Phase::Login);
    match step {
        Step::Ask(Ask::Login(r)) => {
            assert_eq!(r.url, "http://tr/api/auth/login");
            assert_eq!(r.origin, "http://tr");
            assert_eq!(r.referer, "http://tr/login");
            assert_eq!(r.identifier, "zoe");
            assert_eq!(r.password, "pw");
            assert!(r.remember_me);
        }
        _ => panic!(),
    }
    let login = LoginReply::Success { set_cookies: vec!["TR4KER_session=n; Path=/".to_string()] };
    let (phase, step) = tr.get("/a", phase, Signal::LoggedIn { login, now: 101 * S });
    assert_eq!(phase, Phase::Answer);
    assert!(matches!(step, Step::Ask(Ask::Fetch(r))
        if r.url == "http://tr/a" && r.cookie == "TR4KER_session=n"));
}

#[test]
fn a_login_may_fail() {
    let mut tr = Tr4ker::new(cfg("zoe", ""), "refresh");
    assert!(!tr.login(LoginReply::Success { set_cookies: vec!["a=1".to_string()] }, S));
    assert!(!tr.login(LoginReply::Status { code: 500 }, S));
    assert!(!tr.login(LoginReply::Transport, S));
    assert_eq!((tr.consec429, tr.cooldown_until), (0, 0));
    assert!(!tr.login(LoginReply::Status { code: 429 }, 100 * S));
    assert_eq!((tr.consec429, tr.cooldown_until), (1, 130 * S as u128));
    assert!(!tr.login(LoginReply::Status { code: 429 }, 200 * S));
    assert_eq!((tr.consec429, tr.cooldown_until), (2, 260 * S as u128));
    tr.consec429 = 50;
    assert!(!tr.login(LoginReply::Status { code: 429 }, 1000 * S));
    assert_eq!((tr.consec429, tr.cooldown_until), (51, 1300 * S as u128));
    assert_eq!(tr.rps, FULL_RATE);
    assert_eq!(tr.cookie, None);
    let login = LoginReply::Status { code: 403 };
    let (_, step) = tr.get("/a", Phase::Login, Signal::LoggedIn { login, now: S });
    assert!(matches!(step, Step::Done(Fetch::Fail)));
}

#[test]
fn a_session_that_is_locked_out_rests() {
    let mut tr = Tr4ker::new(cfg("", ""), "refresh");
    let (_, step) = tr.get("/a", Phase::Cooldown, time(100 * S));
    assert!(matches!(step, Step::Done(Fetch::Fail)));
    assert_eq!(tr.cooldown_until, 400 * S as u128);
    let (phase, step) = tr.get("/a", Phase::Cooldown, time(150 * S));
    assert_eq!(phase, Phase::Pace);
    assert!(matches!(step, Step::Ask(Ask::Sleep { nanos: 250_000_000_000 })));
}

#[test]
fn an_answer_is_read_and_raises_the_rate() {
    let mut tr = Tr4ker::new(cfg("", "abc"), "refresh");
    tr.rps = MIN_RATE;
    tr.consec429 = 3;
    match tr.settle(body("{\"id\": 5}"), S) {
        Fetch::Found(d) => assert_eq!(d.field("id").unwrap().as_i64(), Some(5)),
        _ => panic!(),
    }
    assert_eq!((tr.rps, tr.consec429), (450_000_000_000_000_000, 0));
}

#[test]
fn an_unreadable_answer_fails_but_raises_the_rate() {
    let mut tr = Tr4ker::new(cfg("", "abc"), "refresh");
    tr.rps = MIN_RATE;
    tr.consec429 = 3;
    assert!(matches!(tr.settle(body("<html>"), S), Fetch::Fail));
    assert_eq!((tr.rps, tr.consec429), (450_000_000_000_000_000, 0));
    assert!(matches!(tr.settle(FetchReply::Success { body: None }, S), Fetch::Fail));
    assert_eq!(tr.rps, 600_000_000_000_000_000);
    assert!(matches!(tr.accept(None), Fetch::Fail));
    assert_eq!(tr.rps, 750_000_000_000_000_000);
}

#[test]
fn refusals_pause_and_then_slow_down() {
    let mut tr = Tr4ker::new(cfg("", "abc"), "refresh");
    let mut seen = Vec::new();
    for n in 0..3u64 {
        let answer = FetchReply::Status { code: 429 };
        let (_, step) = tr.get("/a", Phase::Answer, Signal::Answered { answer, now: n * 1000 * S });
        assert!(matches!(step, Step::Done(Fetch::Fail)));
        seen.push((tr.consec429, tr.rps, tr.cooldown_until));
    }
    assert_eq!(
        seen,
        vec![
            (1, FULL_RATE, 20 * S as u128),
            (2, 800_000_000_000_000_000, 1040 * S as u128),
            (3, 640_000_000_000_000_000, 2060 * S as u128),
        ]
    );
    tr.consec429 = 40;
    tr.settle(FetchReply::Status { code: 429 }, 0);
    assert_eq!(tr.cooldown_until, 300 * S as u128);
}

#[test]
fn the_rate_never_falls_below_its_least() {
    let mut tr = Tr4ker::new(cfg("", "abc"), "refresh");
    for _ in 0..20 {
        tr.settle(FetchReply::Status { code: 429 }, 0);
        assert!(MIN_RATE <= tr.rps && tr.rps <= tr.target);
    }
    assert_eq!(tr.rps, MIN_RATE);
}

#[test]
fn other_refusals_leave_the_rate() {
    let mut tr = Tr4ker::new(cfg("zoe", "abc"), "refresh");
    tr.consec429 = 1;
    assert!(matches!(tr.settle(FetchReply::Status { code: 404 }, S), Fetch::Gone));
    assert!(matches!(tr.settle(FetchReply::Status { code: 503 }, S), Fetch::Fail));
    assert!(matches!(tr.settle(FetchReply::Transport, S), Fetch::Fail));
    assert_eq!((tr.consec429, tr.rps, tr.cooldown_until), (1, FULL_RATE, 0));
    assert!(tr.cookie.is_some());
}

#[test]
fn a_rejected_cookie_is_dropped_and_replaced() {
    let mut tr = Tr4ker::new(cfg("zoe", "abc"), "refresh");
    assert!(matches!(tr.settle(FetchReply::Status { code: 401 }, S), Fetch::Fail));
    assert_eq!(tr.cookie, None);
    let (phase, step) = tr.get("/a", Phase::Send, time(2 * S));
    assert_eq!(phase, Phase::Login);
    assert!(matches!(step, Step::Ask(Ask::Login(_))));
}

#[test]
fn an_unexpected_signal_fails_the_request() {
    let mut tr = Tr4ker::new(cfg("zoe", "abc"), "refresh");
    let (_, step) = tr.get("/a", Phase::Answer, time(S));
    assert!(matches!(step, Step::Done(Fetch::Fail)));
    let (_, step) = tr.get("/a", Phase::Login, Signal::Answered { answer: body("1"), now: S });
    assert!(matches!(step, Step::Done(Fetch::Fail)));
    assert_eq!(tr.last_req, 0);
}

#[test]
fn signals_tell_the_time() {
    assert_eq!(time(7).now(), 7);
    assert_eq!(Signal::LoggedIn { login: LoginReply::Transport, now: 8 }.now(), 8);
    assert_eq!(Signal::Answered { answer: FetchReply::Transport, now: 9 }.now(), 9);
}
