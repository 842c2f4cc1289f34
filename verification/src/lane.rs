//! What the lanes of a worker have in common: leases, events and actions, and rests.

use vstd::prelude::*;

use crate::config::{Cfg, CfgView};
use crate::rate;
use crate::session::{Ask, AskView, Signal, SignalView};
use crate::text;

verus! {

/// How often in a row the pause between two requests for work grows.
pub const MAX_IDLE: u32 = 12;

/// Work that the ladder hands out: the items, under the name by which the result is handed in.
pub struct Lease {
    pub lease_id: String,
    pub items: Vec<String>,
}

/// What `Lease` holds.
pub struct LeaseView {
    pub lease_id: Seq<char>,
    pub items: Seq<Seq<char>>,
}

impl View for Lease {
    type V = LeaseView;

    open spec fn view(&self) -> LeaseView {
        LeaseView { lease_id: self.lease_id@, items: text::texts(self.items@) }
    }
}

/// The request for work of one kind.
pub struct LeaseRequest {
    pub url: String,
    pub token: String,
    pub kind: String,
    pub max: u32,
}

/// What `LeaseRequest` holds.
pub struct LeaseRequestView {
    pub url: Seq<char>,
    pub token: Seq<char>,
    pub kind: Seq<char>,
    pub max: u32,
}

impl View for LeaseRequest {
    type V = LeaseRequestView;

    open spec fn view(&self) -> LeaseRequestView {
        LeaseRequestView {
            url: self.url@,
            token: self.token@,
            kind: self.kind@,
            max: self.max,
        }
    }
}

/// What a lane learns: the work that it has asked for, if any came; a signal for its session; or
/// that a result was handed in.
pub enum Event {
    Leased(Option<Lease>),
    Session(Signal),
    Submitted,
}

/// What `Event` holds.
pub enum EventView {
    Leased(Option<LeaseView>),
    Session(SignalView),
    Submitted,
}

impl View for Event {
    type V = EventView;

    open spec fn view(&self) -> EventView {
        match *self {
            Event::Leased(Some(lease)) => EventView::Leased(Some(lease@)),
            Event::Leased(None) => EventView::Leased(None),
            Event::Session(signal) => EventView::Session(signal@),
            Event::Submitted => EventView::Submitted,
        }
    }
}

/// What a lane has done next: to ask for work, to do what its session asks for, or to hand in a
/// result.
pub enum Action<S> {
    Lease(LeaseRequest),
    Session(Ask),
    Submit(S),
}

/// What `Action` holds.
pub enum ActionView<S> {
    Lease(LeaseRequestView),
    Session(AskView),
    Submit(S),
}

impl<S: View> View for Action<S> {
    type V = ActionView<S::V>;

    open spec fn view(&self) -> ActionView<S::V> {
        match *self {
            Action::Lease(request) => ActionView::Lease(request@),
            Action::Session(ask) => ActionView::Session(ask@),
            Action::Submit(result) => ActionView::Submit(result@),
        }
    }
}

impl CfgView {
    /// The request for work of one kind.
    pub open spec fn lease_request(self, kind: Seq<char>) -> LeaseRequestView {
        LeaseRequestView {
            url: self.ladder + "/api/worker/lease"@,
            token: self.token,
            kind,
            max: self.batch,
        }
    }

    /// Where results are handed in.
    pub open spec fn submit_url(self) -> Seq<char> {
        self.ladder + "/api/worker/submit"@
    }
}

/// The request for work of one kind.
pub fn lease(cfg: &Cfg, kind: &str) -> (r: LeaseRequest)
    ensures
        r@ == cfg@.lease_request(kind@),
{
    LeaseRequest {
        url: text::join(cfg.ladder.as_str(), "/api/worker/lease"),
        token: cfg.token.clone(),
        kind: kind.to_owned(),
        max: cfg.batch,
    }
}

/// Where results are handed in.
pub fn submit_url(cfg: &Cfg) -> (r: String)
    ensures
        r@ == cfg@.submit_url(),
{
    text::join(cfg.ladder.as_str(), "/api/worker/submit")
}

/// How often in a row there was no work, once there is none again.
pub open spec fn idler(idle: u32) -> u32 {
    if idle < MAX_IDLE {
        (idle + 1) as u32
    } else {
        MAX_IDLE
    }
}

/// How long a lane rests that was idle so often, `each` seconds for each time, in nanoseconds.
pub open spec fn rest_nanos(each: u32, idle: u32) -> u128 {
    (each * idle * rate::SECOND) as u128
}

/// How often in a row there was no work, once there is none again.
pub fn more_idle(idle: u32) -> (r: u32)
    ensures
        r == idler(idle),
{
    if idle < MAX_IDLE {
        idle + 1
    } else {
        MAX_IDLE
    }
}

/// The sleep of a lane that was idle so often.
pub fn rest(each: u32, idle: u32) -> (r: Ask)
    ensures
        r@ == (AskView::Sleep { nanos: rest_nanos(each, idle) }),
{
    assert(0 <= each * idle <= u32::MAX * u32::MAX) by (nonlinear_arith)
        requires
            0 <= each <= u32::MAX,
            0 <= idle <= u32::MAX,
    ;
    let seconds: u64 = each as u64 * idle as u64;
    assert(0 <= seconds * rate::SECOND <= u64::MAX * u64::MAX) by (nonlinear_arith)
        requires
            0 <= seconds <= u64::MAX,
    ;
    Ask::Sleep { nanos: seconds as u128 * rate::SECOND as u128 }
}

/// Work is asked for at the ladder, with the token of the worker, by its kind, and as many items of it
/// as the settings say; results are handed in at the same ladder.
pub proof fn law_work_is_asked_for_at_the_ladder(cfg: CfgView, kind: Seq<char>)
    ensures
        cfg.lease_request(kind).url == cfg.ladder + "/api/worker/lease"@,
        cfg.lease_request(kind).token == cfg.token,
        cfg.lease_request(kind).kind == kind,
        cfg.lease_request(kind).max == cfg.batch,
        cfg.submit_url() == cfg.ladder + "/api/worker/submit"@,
{
}

/// Times without work are counted up to twelve.
pub proof fn law_idle_times_are_counted(idle: u32)
    ensures
        idle < 12 ==> idler(idle) == idle + 1,
        12 <= idle ==> idler(idle) == 12,
{
}

/// A rest lasts `each` seconds for each time without work.
pub proof fn law_rests_add_up(each: u32, idle: u32)
    ensures
        rest_nanos(each, idle) == each * idle * 1_000_000_000,
{
    assert(0 <= each * idle <= u32::MAX * u32::MAX) by (nonlinear_arith)
        requires
            0 <= each <= u32::MAX,
            0 <= idle <= u32::MAX,
    ;
}

/// A lease is seen whole, with all its items in their order.
pub proof fn law_leases_are_seen_whole(lease: Lease)
    ensures
        lease@.lease_id == lease.lease_id@,
        lease@.items.len() == lease.items@.len(),
        forall|i: int| 0 <= i < lease.items@.len() ==> #[trigger] lease@.items[i] == lease.items@[i]@,
{
}

/// An event is seen as what it brings.
pub proof fn law_events_are_seen_whole(event: Event)
    ensures
        match event {
            Event::Leased(Some(lease)) => event@ == EventView::Leased(Some(lease@)),
            Event::Leased(None) => event@ == EventView::Leased(None),
            Event::Session(signal) => event@ == EventView::Session(signal@),
            Event::Submitted => event@ is Submitted,
        },
{
}

/// A request for work is seen as all that is sent.
pub proof fn law_lease_requests_are_seen_whole(request: LeaseRequest)
    ensures
        request@.url == request.url@,
        request@.token == request.token@,
        request@.kind == request.kind@,
        request@.max == request.max,
{
}

/// An action is seen as what is to be done.
pub proof fn law_actions_are_seen_whole<S: View>(action: Action<S>)
    ensures
        match action {
            Action::Lease(request) => action@ == ActionView::<S::V>::Lease(request@),
            Action::Session(ask) => action@ == ActionView::<S::V>::Session(ask@),
            Action::Submit(result) => action@ == ActionView::<S::V>::Submit(result@),
        },
{
}

} // verus!
