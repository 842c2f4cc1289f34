//! A session with the tracker, and the way of a request from the cooldown to its answer.
//!
//! A request is a machine: `Tr4ker::get` takes the phase in which it waits and the signal that has
//! come, and says what is to be done next.

use vstd::prelude::*;

use crate::config::{session_key, Cfg, CfgView};
use crate::json::{parse_json, parsed_json, Json, JsonView};
use crate::rate;
use crate::text;

verus! {

/// How long a session pauses when its cookie has run out and it cannot log in, in seconds.
pub const LOCKED_OUT_PAUSE: u64 = 300;

/// The seconds that each refused login in a row adds to the pause.
pub const LOGIN_BACKOFF: u64 = 30;

/// The seconds that each refused request in a row adds to the pause.
pub const FETCH_BACKOFF: u64 = 20;

/// The request that logs a session in.
pub struct LoginRequest {
    pub url: String,
    pub origin: String,
    pub referer: String,
    pub identifier: String,
    pub password: String,
    pub remember_me: bool,
}

/// What `LoginRequest` holds.
pub struct LoginRequestView {
    pub url: Seq<char>,
    pub origin: Seq<char>,
    pub referer: Seq<char>,
    pub identifier: Seq<char>,
    pub password: Seq<char>,
    pub remember_me: bool,
}

impl View for LoginRequest {
    type V = LoginRequestView;

    open spec fn view(&self) -> LoginRequestView {
        LoginRequestView {
            url: self.url@,
            origin: self.origin@,
            referer: self.referer@,
            identifier: self.identifier@,
            password: self.password@,
            remember_me: self.remember_me,
        }
    }
}

/// What came back of a login: the `Set-Cookie` headers of an answer, the status of a refusal, or
/// nothing that says either.
pub enum LoginReply {
    Success { set_cookies: Vec<String> },
    Status { code: u16 },
    Transport,
}

/// What `LoginReply` holds.
pub enum LoginReplyView {
    Success { set_cookies: Seq<Seq<char>> },
    Status { code: u16 },
    Transport,
}

impl View for LoginReply {
    type V = LoginReplyView;

    open spec fn view(&self) -> LoginReplyView {
        match *self {
            LoginReply::Success { set_cookies } => LoginReplyView::Success {
                set_cookies: text::texts(set_cookies@),
            },
            LoginReply::Status { code } => LoginReplyView::Status { code },
            LoginReply::Transport => LoginReplyView::Transport,
        }
    }
}

/// A request for a document of the tracker.
pub struct FetchRequest {
    pub url: String,
    pub cookie: String,
}

/// What `FetchRequest` holds.
pub struct FetchRequestView {
    pub url: Seq<char>,
    pub cookie: Seq<char>,
}

impl View for FetchRequest {
    type V = FetchRequestView;

    open spec fn view(&self) -> FetchRequestView {
        FetchRequestView { url: self.url@, cookie: self.cookie@ }
    }
}

/// What came back of a request: the body of an answer, as far as it could be read, the status of
/// a refusal, or nothing that says either.
pub enum FetchReply {
    Success { body: Option<Vec<u8>> },
    Status { code: u16 },
    Transport,
}

/// What `FetchReply` holds.
pub enum FetchReplyView {
    Success { body: Option<Seq<u8>> },
    Status { code: u16 },
    Transport,
}

impl View for FetchReply {
    type V = FetchReplyView;

    open spec fn view(&self) -> FetchReplyView {
        match *self {
            FetchReply::Success { body: Some(body) } => FetchReplyView::Success {
                body: Some(body@),
            },
            FetchReply::Success { body: None } => FetchReplyView::Success { body: None },
            FetchReply::Status { code } => FetchReplyView::Status { code },
            FetchReply::Transport => FetchReplyView::Transport,
        }
    }
}

/// How a request ended: with a document, with the news that there is none, or with a failure
/// that may pass.
pub enum Fetch {
    Found(Json),
    Gone,
    Fail,
}

/// What `Fetch` holds.
pub enum FetchView {
    Found(JsonView),
    Gone,
    Fail,
}

impl View for Fetch {
    type V = FetchView;

    open spec fn view(&self) -> FetchView {
        match *self {
            Fetch::Found(d) => FetchView::Found(d@),
            Fetch::Gone => FetchView::Gone,
            Fetch::Fail => FetchView::Fail,
        }
    }
}

/// What a request waits for: the time, before it looks at the cooldown, at the spacing or is
/// sent; the answer to a login; its own answer.
#[derive(Clone, Copy, Debug, PartialEq, Eq, Structural)]
pub enum Phase {
    Cooldown,
    Pace,
    Send,
    Login,
    Answer,
}

/// What has happened outside.
pub enum Signal {
    Time { now: u64 },
    LoggedIn { login: LoginReply, now: u64 },
    Answered { answer: FetchReply, now: u64 },
}

/// What `Signal` holds.
pub enum SignalView {
    Time { now: u64 },
    LoggedIn { login: LoginReplyView, now: u64 },
    Answered { answer: FetchReplyView, now: u64 },
}

impl SignalView {
    /// The time at which the signal came.
    pub open spec fn now(self) -> u64 {
        match self {
            SignalView::Time { now } => now,
            SignalView::LoggedIn { login, now } => now,
            SignalView::Answered { answer, now } => now,
        }
    }
}

impl Signal {
    /// The time at which the signal came.
    pub fn now(&self) -> (r: u64)
        ensures
            r == self@.now(),
    {
        match self {
            Signal::Time { now } => *now,
            Signal::LoggedIn { login: _, now } => *now,
            Signal::Answered { answer: _, now } => *now,
        }
    }
}

impl View for Signal {
    type V = SignalView;

    open spec fn view(&self) -> SignalView {
        match *self {
            Signal::Time { now } => SignalView::Time { now },
            Signal::LoggedIn { login, now } => SignalView::LoggedIn { login: login@, now },
            Signal::Answered { answer, now } => SignalView::Answered { answer: answer@, now },
        }
    }
}

/// What is to be done outside: to tell the time, to tell it after a sleep of some nanoseconds, to
/// log in, or to ask for a document.
pub enum Ask {
    Clock,
    Sleep { nanos: u128 },
    Login(LoginRequest),
    Fetch(FetchRequest),
}

/// What `Ask` holds.
pub enum AskView {
    Clock,
    Sleep { nanos: u128 },
    Login(LoginRequestView),
    Fetch(FetchRequestView),
}

impl View for Ask {
    type V = AskView;

    open spec fn view(&self) -> AskView {
        match *self {
            Ask::Clock => AskView::Clock,
            Ask::Sleep { nanos } => AskView::Sleep { nanos },
            Ask::Login(request) => AskView::Login(request@),
            Ask::Fetch(request) => AskView::Fetch(request@),
        }
    }
}

/// How a request goes on: something is to be done for it, or it has ended.
pub enum Step {
    Ask(Ask),
    Done(Fetch),
}

/// What `Step` holds.
pub enum StepView {
    Ask(AskView),
    Done(FetchView),
}

impl View for Step {
    type V = StepView;

    open spec fn view(&self) -> StepView {
        match *self {
            Step::Ask(ask) => StepView::Ask(ask@),
            Step::Done(fetch) => StepView::Done(fetch@),
        }
    }
}

/// A session with the tracker: who asks, with which cookie and how fast.
pub struct Tr4ker {
    pub cfg: Cfg,
    pub cookie: Option<String>,
    pub rps: u64,
    pub target: u64,
    pub last_req: u64,
    pub consec429: u32,
    pub cooldown_until: u128,
    pub tag: &'static str,
}

/// What `Tr4ker` holds.
pub struct SessionView {
    pub cfg: CfgView,
    pub cookie: Option<Seq<char>>,
    pub rps: u64,
    pub target: u64,
    pub last_req: u64,
    pub consec429: u32,
    pub cooldown_until: u128,
    pub tag: Seq<char>,
}

impl View for Tr4ker {
    type V = SessionView;

    open spec fn view(&self) -> SessionView {
        SessionView {
            cfg: self.cfg@,
            cookie: text::opt_text(self.cookie),
            rps: self.rps,
            target: self.target,
            last_req: self.last_req,
            consec429: self.consec429,
            cooldown_until: self.cooldown_until,
            tag: self.tag@,
        }
    }
}

/// `s` up to the first `c`, or all of it where there is none.
pub open spec fn up_to(s: Seq<char>, c: char) -> Seq<char> {
    match text::first_of(s, seq![c]) {
        Some(end) => s.take(end),
        None => s,
    }
}

/// The session cookie that a `Set-Cookie` header sets: from the first place at which the name of
/// the cookie stands up to the semicolon.
pub open spec fn cookie_in(header: Seq<char>) -> Option<Seq<char>> {
    match text::first_of(header, session_key()) {
        Some(pos) => Some(up_to(header.skip(pos), ';')),
        None => None,
    }
}

/// The session cookie of the first header that sets one.
pub open spec fn first_cookie(headers: Seq<Seq<char>>) -> Option<Seq<char>>
    decreases headers.len(),
{
    if headers.len() == 0 {
        None
    } else if cookie_in(headers[0]) is Some {
        cookie_in(headers[0])
    } else {
        first_cookie(headers.drop_first())
    }
}

/// The session cookie that a `Set-Cookie` header sets.
pub fn session_cookie(header: &str) -> (r: Option<String>)
    ensures
        text::opt_text(r) == cookie_in(header@),
{
    let cs = text::chars_of(header);
    let key = text::chars_of("TR4KER_session=");
    match text::find(&cs, &key) {
        Some(pos) => {
            proof {
                text::lemma_first_of(cs@, key@);
            }
            let ghost rest = cs@.skip(pos as int);
            let tail = text::chars_of(text::text_between(&cs, pos, cs.len()).as_str());
            assert(tail@ =~= rest);
            let mut stop: Vec<char> = Vec::new();
            stop.push(';');
            assert(stop@ =~= seq![';']);
            let end: usize = match text::find(&tail, &stop) {
                Some(end) => end,
                None => tail.len(),
            };
            proof {
                text::lemma_first_of(tail@, stop@);
            }
            let r = text::text_between(&tail, 0, end);
            assert(r@ =~= up_to(rest, ';'));
            Some(r)
        },
        None => None,
    }
}

/// The session cookie of the first header that sets one.
pub fn find_cookie(headers: &Vec<String>) -> (r: Option<String>)
    ensures
        text::opt_text(r) == first_cookie(text::texts(headers@)),
{
    let ghost all = text::texts(headers@);
    assert(all.skip(0) =~= all);
    let mut i: usize = 0;
    while i < headers.len()
        invariant
            i <= headers@.len(),
            all == text::texts(headers@),
            first_cookie(all) == first_cookie(all.skip(i as int)),
        decreases headers@.len() - i,
    {
        assert(all.skip(i as int)[0] == headers@[i as int]@);
        let found = session_cookie(headers[i].as_str());
        if found.is_some() {
            return found;
        }
        assert(all.skip(i as int).drop_first() =~= all.skip(i + 1));
        i = i + 1;
    }
    None
}

impl SessionView {
    /// A session that has just been opened.
    pub open spec fn opened(cfg: CfgView, tag: Seq<char>) -> SessionView {
        SessionView {
            cfg,
            cookie: if cfg.tr_cookie.len() == 0 {
                None
            } else {
                Some(session_key() + cfg.tr_cookie)
            },
            rps: rate::FULL_RATE,
            target: rate::FULL_RATE,
            last_req: 0,
            consec429: 0,
            cooldown_until: 0,
            tag,
        }
    }

    /// The cookie names the session, and the rate is between its bounds.
    pub open spec fn wf(self) -> bool {
        &&& self.cookie is Some ==> session_key().is_prefix_of(self.cookie->Some_0)
        &&& self.target == rate::FULL_RATE
        &&& rate::MIN_RATE <= self.rps <= self.target
    }

    /// The request that logs the session in.
    pub open spec fn login_request(self) -> LoginRequestView {
        LoginRequestView {
            url: self.cfg.tr_base + "/api/auth/login"@,
            origin: self.cfg.tr_base,
            referer: self.cfg.tr_base + "/login"@,
            identifier: self.cfg.tr_user,
            password: self.cfg.tr_pass,
            remember_me: true,
        }
    }

    /// The session with a pause of `seconds` from `now` on.
    pub open spec fn paused(self, now: u64, seconds: int) -> SessionView {
        SessionView { cooldown_until: (now + seconds * rate::SECOND) as u128, ..self }
    }

    /// The session after a login was answered, and whether it is logged in: a success that sets
    /// the session cookie gives the session that cookie; a refusal for haste is counted and
    /// brings a pause.
    pub open spec fn after_login(self, reply: LoginReplyView, now: u64) -> (SessionView, bool) {
        match reply {
            LoginReplyView::Success { set_cookies } => match first_cookie(set_cookies) {
                Some(cookie) => (SessionView { cookie: Some(cookie), ..self }, true),
                None => (self, false),
            },
            LoginReplyView::Status { code } => if code == 429 {
                let refusals = rate::one_more(self.consec429);
                (
                    SessionView { consec429: refusals, ..self }.paused(
                        now,
                        rate::backoff(LOGIN_BACKOFF, refusals),
                    ),
                    false,
                )
            } else {
                (self, false)
            },
            LoginReplyView::Transport => (self, false),
        }
    }

    /// The session after a request was answered with success, and how the request ended: the row
    /// of refusals ends and the rate rises, whether the answer is a document or not.
    pub open spec fn after_success(self, document: Option<JsonView>) -> (SessionView, FetchView) {
        (
            SessionView { consec429: 0, rps: rate::raised(self.rps, self.target), ..self },
            match document {
                Some(d) => FetchView::Found(d),
                None => FetchView::Fail,
            },
        )
    }

    /// The session after a request was answered, and how the request ended: an answer ends the
    /// row of refusals and raises the rate; a refusal for haste is counted, brings a pause, and
    /// from the second in a row on lowers the rate; a rejected cookie is dropped.
    pub open spec fn after_answer(self, reply: FetchReplyView, now: u64) -> (
        SessionView,
        FetchView,
    ) {
        match reply {
            FetchReplyView::Success { body } => self.after_success(
                match body {
                    Some(body) => parsed_json(body),
                    None => None,
                },
            ),
            FetchReplyView::Status { code } => if code == 429 {
                let refusals = rate::one_more(self.consec429);
                (
                    SessionView {
                        consec429: refusals,
                        rps: if refusals >= 2 {
                            rate::lowered(self.rps)
                        } else {
                            self.rps
                        },
                        ..self
                    }.paused(now, rate::backoff(FETCH_BACKOFF, refusals)),
                    FetchView::Fail,
                )
            } else if code == 404 {
                (self, FetchView::Gone)
            } else if code == 401 {
                (SessionView { cookie: None, ..self }, FetchView::Fail)
            } else {
                (self, FetchView::Fail)
            },
            FetchReplyView::Transport => (self, FetchView::Fail),
        }
    }

    /// How long the cooldown still lasts.
    pub open spec fn cooldown_wait(self, now: u64) -> int {
        if now < self.cooldown_until {
            self.cooldown_until - now
        } else {
            0
        }
    }

    /// How long the spacing between requests still asks to wait.
    pub open spec fn pace_wait(self, now: u64) -> int {
        let due = self.last_req + rate::spacing(self.rps);
        if now < due {
            due - now
        } else {
            0
        }
    }

    /// The request for the document at `path`, with the cookie of the session.
    pub open spec fn fetch_request(self, path: Seq<char>) -> FetchRequestView {
        FetchRequestView { url: self.cfg.tr_base + path, cookie: self.cookie->Some_0 }
    }

    /// A request whose turn has come: it is sent, or the session logs in first; without a cookie
    /// and without the means to log in it fails and the session pauses.
    pub open spec fn sent(self, path: Seq<char>, now: u64) -> (SessionView, Phase, StepView) {
        let s = SessionView { last_req: now, ..self };
        if s.cookie is Some {
            (s, Phase::Answer, StepView::Ask(AskView::Fetch(s.fetch_request(path))))
        } else if s.cfg.has_creds() {
            (s, Phase::Login, StepView::Ask(AskView::Login(s.login_request())))
        } else {
            (
                s.paused(now, LOCKED_OUT_PAUSE as int),
                Phase::Send,
                StepView::Done(FetchView::Fail),
            )
        }
    }

    /// A request that is past the cooldown: it waits for its turn, or is sent at once.
    pub open spec fn spaced(self, path: Seq<char>, now: u64) -> (SessionView, Phase, StepView) {
        if self.pace_wait(now) > 0 {
            (self, Phase::Send, StepView::Ask(AskView::Sleep { nanos: self.pace_wait(now) as u128 }))
        } else {
            self.sent(path, now)
        }
    }

    /// One step of the request for the document at `path`. A signal that the request does not
    /// wait for ends it with a failure.
    pub open spec fn got(self, path: Seq<char>, phase: Phase, signal: SignalView) -> (
        SessionView,
        Phase,
        StepView,
    ) {
        match (phase, signal) {
            (Phase::Cooldown, SignalView::Time { now }) => if self.cooldown_wait(now) > 0 {
                (self, Phase::Pace, StepView::Ask(AskView::Sleep { nanos: self.cooldown_wait(now) as u128 }))
            } else {
                self.spaced(path, now)
            },
            (Phase::Pace, SignalView::Time { now }) => self.spaced(path, now),
            (Phase::Send, SignalView::Time { now }) => self.sent(path, now),
            (Phase::Login, SignalView::LoggedIn { login, now }) => {
                let (s, ok) = self.after_login(login, now);
                if ok {
                    (s, Phase::Answer, StepView::Ask(AskView::Fetch(s.fetch_request(path))))
                } else {
                    (s, phase, StepView::Done(FetchView::Fail))
                }
            },
            (Phase::Answer, SignalView::Answered { answer, now }) => {
                let (s, fetch) = self.after_answer(answer, now);
                (s, phase, StepView::Done(fetch))
            },
            _ => (self, phase, StepView::Done(FetchView::Fail)),
        }
    }
}

impl Tr4ker {
    /// Opens a session, with the cookie of the settings where they hold one.
    pub fn new(cfg: Cfg, tag: &'static str) -> (r: Tr4ker)
        ensures
            r@ == SessionView::opened(cfg@, tag@),
            r@.wf(),
    {
        let cookie = if cfg.tr_cookie.as_str().is_empty() {
            None
        } else {
            Some(text::join("TR4KER_session=", cfg.tr_cookie.as_str()))
        };
        Tr4ker {
            cfg,
            cookie,
            rps: rate::FULL_RATE,
            target: rate::FULL_RATE,
            last_req: 0,
            consec429: 0,
            cooldown_until: 0,
            tag,
        }
    }

    /// The request that logs the session in.
    fn login_request(&self) -> (r: LoginRequest)
        ensures
            r@ == self@.login_request(),
    {
        let base = self.cfg.tr_base.as_str();
        LoginRequest {
            url: text::join(base, "/api/auth/login"),
            origin: base.to_owned(),
            referer: text::join(base, "/login"),
            identifier: self.cfg.tr_user.clone(),
            password: self.cfg.tr_pass.clone(),
            remember_me: true,
        }
    }

    /// Makes the session pause for `seconds` from `now` on.
    fn pause(&mut self, now: u64, seconds: u64)
        requires
            seconds <= rate::MAX_BACKOFF,
        ensures
            final(self)@ == old(self)@.paused(now, seconds as int),
    {
        assert(seconds * rate::SECOND <= rate::MAX_BACKOFF * rate::SECOND) by (nonlinear_arith)
            requires
                seconds <= rate::MAX_BACKOFF,
        ;
        self.cooldown_until = now as u128 + seconds as u128 * rate::SECOND as u128;
    }

    /// Takes the answer to a login in, and says whether the session is logged in.
    pub fn login(&mut self, reply: LoginReply, now: u64) -> (r: bool)
        ensures
            (final(self)@, r) == old(self)@.after_login(reply@, now),
            old(self)@.wf() ==> final(self)@.wf(),
    {
        match reply {
            LoginReply::Success { set_cookies } => {
                let found = find_cookie(&set_cookies);
                if found.is_some() {
                    proof {
                        lemma_first_cookie_starts_with_key(text::texts(set_cookies@));
                    }
                    self.cookie = found;
                    true
                } else {
                    false
                }
            },
            LoginReply::Status { code } => {
                if code == 429 {
                    self.consec429 = rate::count(self.consec429);
                    self.pause(now, rate::pause(LOGIN_BACKOFF, self.consec429));
                }
                false
            },
            LoginReply::Transport => false,
        }
    }

    /// Takes in the answer of a request that met with success, as far as it is a document, and
    /// says how the request ended.
    pub fn accept(&mut self, document: Option<Json>) -> (r: Fetch)
        ensures
            (final(self)@, r@) == old(self)@.after_success(
                match document {
                    Some(d) => Some(d@),
                    None => None,
                },
            ),
            old(self)@.wf() ==> final(self)@.wf(),
    {
        self.consec429 = 0;
        self.rps = rate::raise(self.rps, self.target);
        match document {
            Some(d) => Fetch::Found(d),
            None => Fetch::Fail,
        }
    }

    /// Takes the answer to a request in, and says how the request ended.
    pub fn settle(&mut self, reply: FetchReply, now: u64) -> (r: Fetch)
        ensures
            (final(self)@, r@) == old(self)@.after_answer(reply@, now),
            old(self)@.wf() ==> final(self)@.wf(),
    {
        match reply {
            FetchReply::Success { body } => {
                let document = match body {
                    Some(body) => parse_json(body.as_slice()),
                    None => None,
                };
                self.accept(document)
            },
            FetchReply::Status { code } => {
                if code == 429 {
                    self.consec429 = rate::count(self.consec429);
                    if self.consec429 >= 2 {
                        self.rps = rate::lower(self.rps);
                    }
                    self.pause(now, rate::pause(FETCH_BACKOFF, self.consec429));
                    Fetch::Fail
                } else if code == 404 {
                    Fetch::Gone
                } else if code == 401 {
                    self.cookie = None;
                    Fetch::Fail
                } else {
                    Fetch::Fail
                }
            },
            FetchReply::Transport => Fetch::Fail,
        }
    }

    /// How long the cooldown still lasts.
    fn cooldown_wait(&self, now: u64) -> (r: u128)
        ensures
            r == self@.cooldown_wait(now),
    {
        if (now as u128) < self.cooldown_until {
            self.cooldown_until - now as u128
        } else {
            0
        }
    }

    /// How long the spacing between requests still asks to wait.
    fn pace_wait(&self, now: u64) -> (r: u128)
        ensures
            r == self@.pace_wait(now),
    {
        let due: u128 = self.last_req as u128 + rate::gap(self.rps) as u128;
        if (now as u128) < due {
            due - now as u128
        } else {
            0
        }
    }

    /// The request for the document at `path`, with the cookie of the session.
    fn fetch_request(&self, path: &str) -> (r: FetchRequest)
        requires
            self.cookie is Some,
        ensures
            r@ == self@.fetch_request(path@),
    {
        FetchRequest {
            url: text::join(self.cfg.tr_base.as_str(), path),
            cookie: self.cookie.as_ref().unwrap().clone(),
        }
    }

    /// Sends a request whose turn has come, or logs in first.
    fn send(&mut self, path: &str, now: u64) -> (r: (Phase, Step))
        ensures
            (final(self)@, r.0, r.1@) == old(self)@.sent(path@, now),
    {
        self.last_req = now;
        if self.cookie.is_some() {
            (Phase::Answer, Step::Ask(Ask::Fetch(self.fetch_request(path))))
        } else if self.cfg.has_creds() {
            (Phase::Login, Step::Ask(Ask::Login(self.login_request())))
        } else {
            self.pause(now, LOCKED_OUT_PAUSE);
            (Phase::Send, Step::Done(Fetch::Fail))
        }
    }

    /// Lets a request wait for its turn, or sends it.
    fn space(&mut self, path: &str, now: u64) -> (r: (Phase, Step))
        ensures
            (final(self)@, r.0, r.1@) == old(self)@.spaced(path@, now),
    {
        let wait = self.pace_wait(now);
        if wait > 0 {
            (Phase::Send, Step::Ask(Ask::Sleep { nanos: wait }))
        } else {
            self.send(path, now)
        }
    }

    /// Takes the request for the document at `path` one step on: from the phase in which it waits
    /// and the signal that has come to the next phase and what is to be done.
    pub fn get(&mut self, path: &str, phase: Phase, signal: Signal) -> (r: (Phase, Step))
        ensures
            (final(self)@, r.0, r.1@) == old(self)@.got(path@, phase, signal@),
            old(self)@.wf() ==> final(self)@.wf(),
    {
        match (phase, signal) {
            (Phase::Cooldown, Signal::Time { now }) => {
                let wait = self.cooldown_wait(now);
                if wait > 0 {
                    (Phase::Pace, Step::Ask(Ask::Sleep { nanos: wait }))
                } else {
                    self.space(path, now)
                }
            },
            (Phase::Pace, Signal::Time { now }) => self.space(path, now),
            (Phase::Send, Signal::Time { now }) => self.send(path, now),
            (Phase::Login, Signal::LoggedIn { login, now }) => {
                if self.login(login, now) {
                    (Phase::Answer, Step::Ask(Ask::Fetch(self.fetch_request(path))))
                } else {
                    (phase, Step::Done(Fetch::Fail))
                }
            },
            (Phase::Answer, Signal::Answered { answer, now }) => {
                let fetch = self.settle(answer, now);
                (phase, Step::Done(fetch))
            },
            _ => (phase, Step::Done(Fetch::Fail)),
        }
    }
}

/// A session cookie that a header sets starts with the name of the cookie.
proof fn lemma_cookie_starts_with_key(header: Seq<char>)
    ensures
        cookie_in(header) matches Some(cookie) ==> session_key().is_prefix_of(cookie),
{
    if cookie_in(header) is Some {
        let key = session_key();
        let pos = text::first_of(header, key)->Some_0;
        let rest = header.skip(pos);
        text::lemma_first_of(header, key);
        text::lemma_first_of(rest, seq![';']);
        reveal_strlit("TR4KER_session=");
        assert forall|i: int| 0 <= i < key.len() implies rest[i] == key[i] by {
            assert(header.subrange(pos, pos + key.len())[i] == key[i]);
        }
        if text::first_of(rest, seq![';']) is Some {
            let end = text::first_of(rest, seq![';'])->Some_0;
            assert(rest.subrange(end, end + 1)[0] == ';');
            assert(forall|i: int| 0 <= i < key.len() ==> key[i] != ';');
        }
    }
}

/// The session cookie that a login sets starts with the name of the cookie.
proof fn lemma_first_cookie_starts_with_key(headers: Seq<Seq<char>>)
    ensures
        first_cookie(headers) matches Some(cookie) ==> session_key().is_prefix_of(cookie),
    decreases headers.len(),
{
    if headers.len() > 0 {
        lemma_cookie_starts_with_key(headers[0]);
        lemma_first_cookie_starts_with_key(headers.drop_first());
    }
}

/// Whatever signal comes at whatever point of a request, the session keeps a cookie that names it,
/// if it has one, and a rate between its bounds.
pub proof fn law_session_stays_well_formed(
    s: SessionView,
    path: Seq<char>,
    phase: Phase,
    signal: SignalView,
)
    requires
        s.wf(),
    ensures
        s.got(path, phase, signal).0.wf(),
{
    match signal {
        SignalView::LoggedIn { login: LoginReplyView::Success { set_cookies }, now } => {
            lemma_first_cookie_starts_with_key(set_cookies);
        },
        _ => {},
    }
}

/// Nothing that happens during a request changes the settings of its session.
pub proof fn law_settings_stay(s: SessionView, path: Seq<char>, phase: Phase, signal: SignalView)
    ensures
        s.got(path, phase, signal).0.cfg == s.cfg,
        s.got(path, phase, signal).0.tag == s.tag,
        s.got(path, phase, signal).0.target == s.target,
{
}

/// The cooldown of a session is over, and its spacing lets a request be sent.
pub open spec fn may_send(s: SessionView, now: u64) -> bool {
    &&& s.cooldown_until <= now
    &&& s.last_req + rate::spacing(s.rps) <= now
}

/// A request goes out, with a login before it or not, only once the cooldown is over and the
/// spacing has passed, as long as sleeps last as long as they are asked to: `t0` is when the
/// request begins, `t1` and `t2` are when it wakes from the sleeps that it asks for. While it
/// sleeps the session does not change.
pub proof fn law_requests_wait_their_turn(
    s: SessionView,
    path: Seq<char>,
    t0: u64,
    t1: u64,
    t2: u64,
)
    ensures
        ({
            let (s0, phase0, step0) = s.got(path, Phase::Cooldown, SignalView::Time { now: t0 });
            match step0 {
                StepView::Ask(AskView::Sleep { nanos: first }) => {
                    let (s1, phase1, step1) = s0.got(
                        path,
                        phase0,
                        SignalView::Time { now: t1 },
                    );
                    &&& s0 == s
                    &&& t0 + first <= t1 ==> match step1 {
                        StepView::Ask(AskView::Sleep { nanos: second }) => {
                            let (s2, phase2, step2) = s1.got(
                                path,
                                phase1,
                                SignalView::Time { now: t2 },
                            );
                            &&& s1 == s
                            &&& t1 + second <= t2 ==> may_send(s, t2) && s2.last_req == t2
                                && !(step2 matches StepView::Ask(AskView::Sleep { .. }))
                        },
                        _ => may_send(s, t1) && s1.last_req == t1,
                    }
                },
                _ => may_send(s, t0) && s0.last_req == t0,
            }
        }),
{
}

/// A request bears the address of the tracker and a cookie that names the session.
pub proof fn law_requests_bear_the_session_cookie(
    s: SessionView,
    path: Seq<char>,
    phase: Phase,
    signal: SignalView,
)
    requires
        s.wf(),
    ensures
        s.got(path, phase, signal).2 matches StepView::Ask(AskView::Fetch(request)) ==> {
            &&& request.url == s.cfg.tr_base + path
            &&& session_key().is_prefix_of(request.cookie)
            &&& s.got(path, phase, signal).0.cookie == Some(request.cookie)
        },
{
    law_session_stays_well_formed(s, path, phase, signal);
}

/// A rejected cookie is replaced: the request fails, the next one whose turn comes logs in first,
/// and with the cookie that the login sets it is sent.
pub proof fn law_rejected_cookie_is_replaced(
    s: SessionView,
    path: Seq<char>,
    rejected: u64,
    now: u64,
    headers: Seq<Seq<char>>,
    answered: u64,
)
    requires
        s.cfg.has_creds(),
        first_cookie(headers) is Some,
    ensures
        ({
            let (s1, phase1, step1) = s.got(
                path,
                Phase::Answer,
                SignalView::Answered {
                    answer: FetchReplyView::Status { code: 401 },
                    now: rejected,
                },
            );
            let (s2, phase2, step2) = s1.got(path, Phase::Send, SignalView::Time { now });
            let (s3, phase3, step3) = s2.got(
                path,
                phase2,
                SignalView::LoggedIn {
                    login: LoginReplyView::Success { set_cookies: headers },
                    now: answered,
                },
            );
            &&& step1 == StepView::Done(FetchView::Fail)
            &&& s1.cookie is None
            &&& step2 == StepView::Ask(AskView::Login(s.login_request()))
            &&& s3.cookie == first_cookie(headers)
            &&& step3 == StepView::Ask(
                AskView::Fetch(
                    FetchRequestView {
                        url: s.cfg.tr_base + path,
                        cookie: first_cookie(headers)->Some_0,
                    },
                ),
            )
        }),
{
}

/// Without a cookie and without the means to log in nothing is sent: the request fails, and the
/// session rests for five minutes.
pub proof fn law_locked_out_session_rests(s: SessionView, path: Seq<char>, now: u64, later: u64)
    requires
        s.cookie is None,
        !s.cfg.has_creds(),
        now <= later < now + 300_000_000_000,
    ensures
        s.got(path, Phase::Send, SignalView::Time { now }).2 == StepView::Done(FetchView::Fail),
        s.got(path, Phase::Send, SignalView::Time { now }).0.got(
            path,
            Phase::Cooldown,
            SignalView::Time { now: later },
        ).2 == StepView::Ask(
            AskView::Sleep { nanos: (now + 300_000_000_000 - later) as u128 },
        ),
{
}

/// A session with complete settings is not locked out at the start: its first request is sent, or
/// it logs in.
pub proof fn law_new_session_can_ask(cfg: CfgView, tag: Seq<char>, path: Seq<char>, now: u64)
    requires
        cfg.gap() is None,
    ensures
        SessionView::opened(cfg, tag).got(path, Phase::Send, SignalView::Time { now }).2 is Ask,
{
}

/// An answer never slows a session down, and a refusal never speeds it up; the first refusal after
/// an answer leaves the rate as it is.
pub proof fn law_rate_follows_the_answers(s: SessionView, reply: FetchReplyView, now: u64)
    requires
        s.wf(),
    ensures
        reply is Success ==> {
            &&& s.rps <= s.after_answer(reply, now).0.rps
            &&& s.after_answer(reply, now).0.consec429 == 0
        },
        reply == (FetchReplyView::Status { code: 429 }) ==> {
            let after = s.after_answer(reply, now).0;
            &&& after.rps <= s.rps
            &&& s.consec429 == 0 ==> after.rps == s.rps
            &&& 0 < after.consec429
            &&& now + 20_000_000_000 <= after.cooldown_until <= now + 300_000_000_000
        },
        !(reply is Success) && reply != (FetchReplyView::Status { code: 429 })
            ==> s.after_answer(reply, now).0.rps == s.rps && s.after_answer(
            reply,
            now,
        ).0.consec429 == s.consec429 && s.after_answer(reply, now).0.cooldown_until
            == s.cooldown_until,
{
}

/// A request ends with the news that there is no such document exactly on status 404, and with a
/// document exactly on an answer that is one.
pub proof fn law_only_a_missing_page_is_gone(s: SessionView, reply: FetchReplyView, now: u64)
    ensures
        s.after_answer(reply, now).1 is Gone <==> reply == (FetchReplyView::Status { code: 404 }),
        s.after_answer(reply, now).1 is Found <==> (reply matches FetchReplyView::Success {
            body: Some(body),
        } && parsed_json(body) is Some),
{
}

/// A session cookie that a header sets ends before the semicolon.
pub proof fn law_cookie_ends_before_its_attributes(header: Seq<char>)
    ensures
        cookie_in(header) matches Some(cookie) ==> {
            &&& session_key().is_prefix_of(cookie)
            &&& text::contains_text(header, cookie)
            &&& forall|i: int| 0 <= i < cookie.len() ==> #[trigger] cookie[i] != ';'
        },
{
    lemma_cookie_starts_with_key(header);
    if cookie_in(header) is Some {
        let cookie = cookie_in(header)->Some_0;
        let pos = text::first_of(header, session_key())->Some_0;
        let rest = header.skip(pos);
        let stop = seq![';'];
        text::lemma_first_of(header, session_key());
        text::lemma_first_of(rest, stop);
        assert(header.subrange(pos, pos + cookie.len()) =~= cookie);
        assert(text::occurs_at(header, cookie, pos));
        assert forall|i: int| 0 <= i < cookie.len() implies #[trigger] cookie[i] != ';' by {
            if rest[i] == ';' {
                assert(rest.subrange(i, i + 1) =~= stop);
                assert(text::occurs_at(rest, stop, i));
            }
        }
    }
}

/// How far a request has come.
pub open spec fn rank(phase: Phase) -> nat {
    match phase {
        Phase::Cooldown => 0,
        Phase::Pace => 1,
        Phase::Send => 2,
        Phase::Login => 3,
        Phase::Answer => 4,
    }
}

/// Every signal takes a request further, so that five signals at most end it.
pub proof fn law_requests_come_to_an_end(
    s: SessionView,
    path: Seq<char>,
    phase: Phase,
    signal: SignalView,
)
    ensures
        s.got(path, phase, signal).2 is Ask ==> rank(phase) < rank(s.got(path, phase, signal).1),
{
}

/// The turn of a request has come at `now`: nothing that it still looks at in its phase holds it
/// back.
pub open spec fn turn_has_come(s: SessionView, phase: Phase, now: u64) -> bool {
    match phase {
        Phase::Cooldown => may_send(s, now),
        Phase::Pace => s.last_req + rate::spacing(s.rps) <= now,
        Phase::Send => true,
        _ => false,
    }
}

/// A request for the document at `path` goes out at `now` with the cookie of the session, which
/// takes note of the time and of nothing else.
pub open spec fn goes_out(
    s: SessionView,
    path: Seq<char>,
    now: u64,
    next: (SessionView, Phase, StepView),
) -> bool {
    &&& s.cookie matches Some(cookie) && next.2 == StepView::Ask(
        AskView::Fetch(FetchRequestView { url: s.cfg.tr_base + path, cookie }),
    )
    &&& next.0 == SessionView { last_req: now, ..s }
    &&& next.1 is Answer
}

/// Whenever a session holds a cookie and the turn of a request has come, the request is sent with
/// that cookie, however often the session was refused before and however slow it is.
pub proof fn law_request_with_a_cookie_is_sent(
    s: SessionView,
    path: Seq<char>,
    phase: Phase,
    now: u64,
)
    requires
        s.cookie is Some,
        turn_has_come(s, phase, now),
    ensures
        goes_out(s, path, now, s.got(path, phase, SignalView::Time { now })),
{
}

/// From its beginning at `t0` on, a request of a session with a cookie sleeps at most twice and is
/// then sent, as long as sleeps last as long as they are asked to: until `t1` and `t2`.
pub proof fn law_waiting_ends_with_sending(
    s: SessionView,
    path: Seq<char>,
    t0: u64,
    t1: u64,
    t2: u64,
)
    requires
        s.cookie is Some,
    ensures
        ({
            let a = s.got(path, Phase::Cooldown, SignalView::Time { now: t0 });
            let b = a.0.got(path, a.1, SignalView::Time { now: t1 });
            let c = b.0.got(path, b.1, SignalView::Time { now: t2 });
            ||| goes_out(s, path, t0, a)
            ||| a.2 matches StepView::Ask(AskView::Sleep { nanos: first }) && (t0 + first <= t1 ==> {
                ||| goes_out(s, path, t1, b)
                ||| b.2 matches StepView::Ask(AskView::Sleep { nanos: second }) && (t1 + second <= t2
                    ==> goes_out(s, path, t2, c))
            })
        }),
{
}

/// A session that was refused for its haste asks again with the same cookie, once the turn of the
/// next request has come.
pub proof fn law_refused_session_asks_again(
    s: SessionView,
    path: Seq<char>,
    refused: u64,
    next: Seq<char>,
    phase: Phase,
    now: u64,
)
    requires
        s.cookie is Some,
        turn_has_come(
            s.got(
                path,
                Phase::Answer,
                SignalView::Answered {
                    answer: FetchReplyView::Status { code: 429 },
                    now: refused,
                },
            ).0,
            phase,
            now,
        ),
    ensures
        s.got(
            path,
            Phase::Answer,
            SignalView::Answered { answer: FetchReplyView::Status { code: 429 }, now: refused },
        ).0.got(next, phase, SignalView::Time { now }).2 == StepView::Ask(
            AskView::Fetch(
                FetchRequestView { url: s.cfg.tr_base + next, cookie: s.cookie->Some_0 },
            ),
        ),
{
}

/// A request sleeps for what is left of the cooldown, then for what is left of the spacing, and
/// meanwhile the session stays as it is.
pub proof fn law_sleeps_last_as_long_as_needed(
    s: SessionView,
    path: Seq<char>,
    phase: Phase,
    now: u64,
)
    ensures
        phase is Cooldown && now < s.cooldown_until ==> s.got(
            path,
            phase,
            SignalView::Time { now },
        ) == (
            s,
            Phase::Pace,
            StepView::Ask(AskView::Sleep { nanos: (s.cooldown_until - now) as u128 }),
        ),
        (phase is Pace || phase is Cooldown && s.cooldown_until <= now) && now < s.last_req
            + rate::spacing(s.rps) ==> s.got(path, phase, SignalView::Time { now }) == (
            s,
            Phase::Send,
            StepView::Ask(
                AskView::Sleep { nanos: (s.last_req + rate::spacing(s.rps) - now) as u128 },
            ),
        ),
{
}

/// Whenever the turn of a request has come and the session holds no cookie, it logs in with its name
/// and its password, where it has both.
pub proof fn law_session_without_a_cookie_logs_in(
    s: SessionView,
    path: Seq<char>,
    phase: Phase,
    now: u64,
)
    requires
        s.cookie is None,
        s.cfg.tr_user.len() > 0,
        s.cfg.tr_pass.len() > 0,
        turn_has_come(s, phase, now),
    ensures
        s.got(path, phase, SignalView::Time { now }) == (
            SessionView { last_req: now, ..s },
            Phase::Login,
            StepView::Ask(
                AskView::Login(
                    LoginRequestView {
                        url: s.cfg.tr_base + "/api/auth/login"@,
                        origin: s.cfg.tr_base,
                        referer: s.cfg.tr_base + "/login"@,
                        identifier: s.cfg.tr_user,
                        password: s.cfg.tr_pass,
                        remember_me: true,
                    },
                ),
            ),
        ),
{
}

/// Whenever the turn of a request has come and the session can neither show a cookie nor log in, the
/// request fails and the session pauses for five minutes, but stays as it is otherwise.
pub proof fn law_session_without_means_pauses(
    s: SessionView,
    path: Seq<char>,
    phase: Phase,
    now: u64,
)
    requires
        s.cookie is None,
        s.cfg.tr_user.len() == 0 || s.cfg.tr_pass.len() == 0,
        turn_has_come(s, phase, now),
    ensures
        s.got(path, phase, SignalView::Time { now }).0 == (SessionView {
            last_req: now,
            cooldown_until: (now + 300_000_000_000) as u128,
            ..s
        }),
        s.got(path, phase, SignalView::Time { now }).2 == StepView::Done(FetchView::Fail),
{
}

/// How many nanoseconds a session pauses for that was refused so often in a row, `each` seconds for
/// each refusal and five minutes at most.
pub open spec fn pause_nanos(each: int, refusals: u32) -> int {
    if each * refusals < 300 {
        each * refusals * 1_000_000_000
    } else {
        300_000_000_000
    }
}

/// A login that brings a cookie gives it to the session and is followed by the request; one that is
/// refused for haste counts as a refusal and brings a pause of half a minute for each in a row; any
/// other fails the request and changes nothing.
pub proof fn law_login_is_settled(
    s: SessionView,
    path: Seq<char>,
    login: LoginReplyView,
    now: u64,
)
    ensures
        ({
            let next = s.got(path, Phase::Login, SignalView::LoggedIn { login, now });
            let (after, done) = s.after_login(login, now);
            &&& next.0 == after
            &&& done <==> login is Success && first_cookie(login->set_cookies) is Some
            &&& done ==> {
                &&& after == (SessionView { cookie: first_cookie(login->set_cookies), ..s })
                &&& next.1 is Answer
                &&& next.2 == StepView::Ask(
                    AskView::Fetch(
                        FetchRequestView {
                            url: s.cfg.tr_base + path,
                            cookie: first_cookie(login->set_cookies)->Some_0,
                        },
                    ),
                )
            }
            &&& !done ==> next.2 == StepView::Done(FetchView::Fail)
            &&& !done && login != (LoginReplyView::Status { code: 429 }) ==> after == s
            &&& login == (LoginReplyView::Status { code: 429 }) ==> {
                &&& s.consec429 < u32::MAX ==> after.consec429 == s.consec429 + 1
                &&& s.consec429 == u32::MAX ==> after.consec429 == u32::MAX
                &&& after.cooldown_until == now + pause_nanos(30, after.consec429)
                &&& after == (SessionView {
                    consec429: after.consec429,
                    cooldown_until: after.cooldown_until,
                    ..s
                })
            }
        }),
{
}

/// An answer ends the row of refusals, raises the rate and hands over the document, if it is one; a
/// refusal for haste is counted, brings a pause of twenty seconds for each in a row and, from the
/// second on, lowers the rate; a rejected cookie is dropped, and nothing else changes the session.
pub proof fn law_answer_is_settled(s: SessionView, reply: FetchReplyView, now: u64)
    ensures
        ({
            let (after, fetch) = s.after_answer(reply, now);
            match reply {
                FetchReplyView::Success { body } => {
                    &&& after == (SessionView {
                        consec429: 0,
                        rps: rate::raised(s.rps, s.target),
                        ..s
                    })
                    &&& fetch == match body {
                        Some(bytes) => match parsed_json(bytes) {
                            Some(d) => FetchView::Found(d),
                            None => FetchView::Fail,
                        },
                        None => FetchView::Fail,
                    }
                },
                FetchReplyView::Status { code: 429 } => {
                    &&& s.consec429 < u32::MAX ==> after.consec429 == s.consec429 + 1
                    &&& s.consec429 == u32::MAX ==> after.consec429 == u32::MAX
                    &&& after.cooldown_until == now + pause_nanos(20, after.consec429)
                    &&& s.consec429 == 0 ==> after.rps == s.rps
                    &&& s.consec429 > 0 ==> after.rps == rate::lowered(s.rps)
                    &&& after == (SessionView {
                        consec429: after.consec429,
                        cooldown_until: after.cooldown_until,
                        rps: after.rps,
                        ..s
                    })
                    &&& fetch is Fail
                },
                FetchReplyView::Status { code: 404 } => after == s && fetch is Gone,
                FetchReplyView::Status { code: 401 } => after == (SessionView {
                    cookie: None,
                    ..s
                }) && fetch is Fail,
                _ => after == s && fetch is Fail,
            }
        }),
{
}

/// An answer that was read already is settled as the bytes that it was read from are.
pub proof fn law_documents_are_settled_as_their_bytes(s: SessionView, body: Seq<u8>, now: u64)
    ensures
        s.after_success(parsed_json(body)) == s.after_answer(
            FetchReplyView::Success { body: Some(body) },
            now,
        ),
        s.after_success(None) == s.after_answer(FetchReplyView::Success { body: None }, now),
{
}

/// An answer that was read already raises the rate and is handed over.
pub proof fn law_documents_are_handed_over(s: SessionView, d: JsonView)
    ensures
        s.after_success(Some(d)) == (
            SessionView { consec429: 0, rps: rate::raised(s.rps, s.target), ..s },
            FetchView::Found(d),
        ),
        s.after_success(None).0 == s.after_success(Some(d)).0,
        s.after_success(None).1 is Fail,
{
}

/// A request ends with its answer, whichever it is, and the session is as the answer leaves it.
pub proof fn law_answer_ends_the_request(
    s: SessionView,
    path: Seq<char>,
    answer: FetchReplyView,
    now: u64,
)
    ensures
        s.got(path, Phase::Answer, SignalView::Answered { answer, now }).0 == s.after_answer(
            answer,
            now,
        ).0,
        s.got(path, Phase::Answer, SignalView::Answered { answer, now }).2 == StepView::Done(
            s.after_answer(answer, now).1,
        ),
{
}

/// A signal that a request does not wait for fails it and leaves the session as it is.
pub proof fn law_stray_signals_fail_the_request(
    s: SessionView,
    path: Seq<char>,
    phase: Phase,
    signal: SignalView,
)
    requires
        phase is Login ==> !(signal is LoggedIn),
        phase is Answer ==> !(signal is Answered),
        !(phase is Login) && !(phase is Answer) ==> !(signal is Time),
    ensures
        s.got(path, phase, signal).0 == s,
        s.got(path, phase, signal).2 == StepView::Done(FetchView::Fail),
{
}

/// A header sets a session cookie: the cookie starts at the first place at which its name stands, and
/// reaches as far as it can without a semicolon, so that one follows it or nothing does.
pub open spec fn sets_cookie(header: Seq<char>, cookie: Seq<char>) -> bool {
    exists|pos: int, end: int|
        {
            &&& 0 <= pos <= end <= header.len()
            &&& #[trigger] header.subrange(pos, end) == cookie
            &&& text::occurs_at(header, "TR4KER_session="@, pos)
            &&& forall|i: int| 0 <= i < pos ==> !text::occurs_at(header, "TR4KER_session="@, i)
            &&& forall|i: int| pos <= i < end ==> #[trigger] header[i] != ';'
            &&& end == header.len() || header[end] == ';'
        }
}

/// The cookie that is taken from a header is the whole cookie that the header sets, and none is
/// taken exactly where the name of the cookie stands nowhere in it.
pub proof fn law_cookie_is_taken_whole(header: Seq<char>)
    ensures
        cookie_in(header) matches Some(cookie) ==> sets_cookie(header, cookie),
        cookie_in(header) is None <==> forall|i: int|
            !text::occurs_at(header, "TR4KER_session="@, i),
{
    let key = session_key();
    text::lemma_first_of(header, key);
    if cookie_in(header) is Some {
        let cookie = cookie_in(header)->Some_0;
        let pos = text::first_of(header, key)->Some_0;
        let end = lemma_piece_ends_before(header, pos, ';');
        assert(header.subrange(pos, end) == cookie);
    }
}

/// The piece of `s` from `pos` on and up to the first `c` ends where `c` stands or `s` ends.
proof fn lemma_piece_ends_before(s: Seq<char>, pos: int, c: char) -> (end: int)
    requires
        0 <= pos <= s.len(),
    ensures
        pos <= end <= s.len(),
        up_to(s.skip(pos), c) == s.subrange(pos, end),
        forall|i: int| pos <= i < end ==> #[trigger] s[i] != c,
        end == s.len() || s[end] == c,
{
    let rest = s.skip(pos);
    let stop = seq![c];
    let end = pos + up_to(rest, c).len();
    text::lemma_first_of(rest, stop);
    assert(up_to(rest, c) =~= s.subrange(pos, end));
    if text::first_of(rest, stop) is Some {
        let k = text::first_of(rest, stop)->Some_0;
        assert(rest.subrange(k, k + 1)[0] == c);
        assert(s[end] == rest[k]);
    }
    assert forall|i: int| pos <= i < end implies #[trigger] s[i] != c by {
        if s[i] == c {
            assert(rest.subrange(i - pos, i - pos + 1) =~= stop);
            assert(text::occurs_at(rest, stop, i - pos));
        }
    }
    end
}

/// A login takes the cookie of the first header that sets one, and no cookie where none does.
pub proof fn law_first_header_with_a_cookie_counts(headers: Seq<Seq<char>>)
    ensures
        first_cookie(headers) matches Some(cookie) ==> exists|i: int|
            {
                &&& 0 <= i < headers.len()
                &&& sets_cookie(#[trigger] headers[i], cookie)
                &&& forall|j: int, k: int|
                    0 <= j < i ==> !#[trigger] text::occurs_at(headers[j], "TR4KER_session="@, k)
            },
        first_cookie(headers) is None <==> forall|j: int, k: int|
            0 <= j < headers.len() ==> !#[trigger] text::occurs_at(
                headers[j],
                "TR4KER_session="@,
                k,
            ),
    decreases headers.len(),
{
    let key = "TR4KER_session="@;
    if headers.len() > 0 {
        let rest = headers.drop_first();
        law_cookie_is_taken_whole(headers[0]);
        law_first_header_with_a_cookie_counts(rest);
        if cookie_in(headers[0]) is Some {
            assert(sets_cookie(headers[0], cookie_in(headers[0])->Some_0));
        } else if first_cookie(rest) is Some {
            let cookie = first_cookie(rest)->Some_0;
            let i = choose|i: int|
                {
                    &&& 0 <= i < rest.len()
                    &&& sets_cookie(#[trigger] rest[i], cookie)
                    &&& forall|j: int, k: int|
                        0 <= j < i ==> !#[trigger] text::occurs_at(rest[j], key, k)
                };
            assert(rest[i] == headers[i + 1]);
            assert forall|j: int, k: int| 0 <= j < i + 1 implies !#[trigger] text::occurs_at(
                headers[j],
                key,
                k,
            ) by {
                if j > 0 {
                    assert(rest[j - 1] == headers[j]);
                    assert(!text::occurs_at(rest[j - 1], key, k));
                }
            }
            let (j, k) = choose|j: int, k: int|
                0 <= j < rest.len() && #[trigger] text::occurs_at(rest[j], key, k);
            assert(text::occurs_at(headers[j + 1], key, k));
        } else {
            assert forall|j: int, k: int|
                0 <= j < headers.len() implies !#[trigger] text::occurs_at(
                headers[j],
                key,
                k,
            ) by {
                if j > 0 {
                    assert(rest[j - 1] == headers[j]);
                    assert(!text::occurs_at(rest[j - 1], key, k));
                }
            }
        }
    }
}

/// A new session has the cookie of its settings, under its name, or none where they have none; it is
/// at full rate, and nothing holds it back.
pub proof fn law_new_session_is_fresh(cfg: CfgView, tag: Seq<char>)
    ensures
        ({
            let s = SessionView::opened(cfg, tag);
            &&& s.cfg == cfg
            &&& s.tag == tag
            &&& cfg.tr_cookie.len() == 0 ==> s.cookie is None
            &&& cfg.tr_cookie.len() > 0 ==> s.cookie == Some("TR4KER_session="@ + cfg.tr_cookie)
            &&& s.rps == 1_000_000_000_000_000_000
            &&& s.target == 1_000_000_000_000_000_000
            &&& s.consec429 == 0
            &&& s.last_req == 0
            &&& s.cooldown_until == 0
        }),
{
}

/// What comes back of a login is seen whole, with all its headers in their order.
pub proof fn law_logins_are_seen_whole(login: LoginReply)
    ensures
        match login {
            LoginReply::Success { set_cookies } => login@ matches LoginReplyView::Success {
                set_cookies: seen,
            } && seen.len() == set_cookies@.len() && forall|i: int|
                0 <= i < seen.len() ==> #[trigger] seen[i] == set_cookies@[i]@,
            LoginReply::Status { code } => login@ == (LoginReplyView::Status { code }),
            LoginReply::Transport => login@ is Transport,
        },
{
}

/// What comes back of a request is seen whole, with every byte of its body.
pub proof fn law_answers_are_seen_whole(answer: FetchReply)
    ensures
        match answer {
            FetchReply::Success { body: Some(body) } => answer@ == (FetchReplyView::Success {
                body: Some(body@),
            }),
            FetchReply::Success { body: None } => answer@ == (FetchReplyView::Success {
                body: None,
            }),
            FetchReply::Status { code } => answer@ == (FetchReplyView::Status { code }),
            FetchReply::Transport => answer@ is Transport,
        },
{
}

/// A request to log in is seen as all that is sent.
pub proof fn law_login_requests_are_seen_whole(request: LoginRequest)
    ensures
        request@.url == request.url@,
        request@.origin == request.origin@,
        request@.referer == request.referer@,
        request@.identifier == request.identifier@,
        request@.password == request.password@,
        request@.remember_me == request.remember_me,
{
}

/// A request for a document is seen as all that is sent.
pub proof fn law_fetch_requests_are_seen_whole(request: FetchRequest)
    ensures
        request@.url == request.url@,
        request@.cookie == request.cookie@,
{
}

/// The end of a request is seen as what it ended with.
pub proof fn law_ends_are_seen_whole(fetch: Fetch)
    ensures
        match fetch {
            Fetch::Found(d) => fetch@ == FetchView::Found(d@),
            Fetch::Gone => fetch@ is Gone,
            Fetch::Fail => fetch@ is Fail,
        },
{
}

/// A step is seen as what is to be done, or as the end that it is.
pub proof fn law_steps_are_seen_whole(step: Step)
    ensures
        match step {
            Step::Ask(Ask::Clock) => step@ == StepView::Ask(AskView::Clock),
            Step::Ask(Ask::Sleep { nanos }) => step@ == StepView::Ask(AskView::Sleep { nanos }),
            Step::Ask(Ask::Login(request)) => step@ == StepView::Ask(AskView::Login(request@)),
            Step::Ask(Ask::Fetch(request)) => step@ == StepView::Ask(AskView::Fetch(request@)),
            Step::Done(fetch) => step@ == StepView::Done(fetch@),
        },
{
}

/// A signal is seen as what it brings and when it comes.
pub proof fn law_signals_are_seen_whole(signal: Signal)
    ensures
        match signal {
            Signal::Time { now } => signal@ == (SignalView::Time { now }) && signal@.now() == now,
            Signal::LoggedIn { login, now } => signal@ == (SignalView::LoggedIn {
                login: login@,
                now,
            }) && signal@.now() == now,
            Signal::Answered { answer, now } => signal@ == (SignalView::Answered {
                answer: answer@,
                now,
            }) && signal@.now() == now,
        },
{
}

/// A session is seen as all that it holds.
pub proof fn law_sessions_are_seen_whole(session: Tr4ker)
    ensures
        session@.cfg == session.cfg@,
        session@.cookie is Some <==> session.cookie is Some,
        session.cookie matches Some(cookie) ==> session@.cookie == Some(cookie@),
        session@.rps == session.rps,
        session@.target == session.target,
        session@.last_req == session.last_req,
        session@.consec429 == session.consec429,
        session@.cooldown_until == session.cooldown_until,
        session@.tag == session.tag@,
{
}

} // verus!
