//! The lane that scrapes users anew.

use vstd::prelude::*;

use crate::config::{Cfg, CfgView};
use crate::lane::{
    idler, lease, more_idle, rest, rest_nanos, submit_url, Action, ActionView, Event, EventView,
    Lease, LeaseView,
};
use crate::profile::{
    Progress, ProgressView, Sample, SampleView, Scrape, ScrapeOut, ScrapeOutView, ScrapeView,
};
use crate::session::{
    law_requests_come_to_an_end, law_session_stays_well_formed, rank, Ask, AskView, SessionView, SignalView, Tr4ker,
};
use crate::text;

verus! {

/// The seconds that each time without work in a row adds to the rest.
pub const REFRESH_REST: u32 = 5;

/// The samples of a list.
pub open spec fn samples(list: Seq<Sample>) -> Seq<SampleView> {
    Seq::new(list.len(), |i: int| list[i]@)
}

/// A result that is handed in: the samples, and the names of the users that could not be scraped
/// and of those that are gone.
pub struct RefreshSubmit {
    pub url: String,
    pub token: String,
    pub lease_id: String,
    pub results: Vec<Sample>,
    pub failed: Vec<String>,
    pub gone: Vec<String>,
}

/// What `RefreshSubmit` holds.
pub struct RefreshSubmitView {
    pub url: Seq<char>,
    pub token: Seq<char>,
    pub lease_id: Seq<char>,
    pub results: Seq<SampleView>,
    pub failed: Seq<Seq<char>>,
    pub gone: Seq<Seq<char>>,
}

impl View for RefreshSubmit {
    type V = RefreshSubmitView;

    open spec fn view(&self) -> RefreshSubmitView {
        RefreshSubmitView {
            url: self.url@,
            token: self.token@,
            lease_id: self.lease_id@,
            results: samples(self.results@),
            failed: text::texts(self.failed@),
            gone: text::texts(self.gone@),
        }
    }
}

/// The work on a lease: its items, how many of them are done, and what has come of those.
pub struct RefreshJob {
    pub lease_id: String,
    pub items: Vec<String>,
    pub done: usize,
    pub results: Vec<Sample>,
    pub failed: Vec<String>,
    pub gone: Vec<String>,
}

/// What `RefreshJob` holds.
pub struct RefreshJobView {
    pub lease_id: Seq<char>,
    pub items: Seq<Seq<char>>,
    pub done: nat,
    pub results: Seq<SampleView>,
    pub failed: Seq<Seq<char>>,
    pub gone: Seq<Seq<char>>,
}

impl View for RefreshJob {
    type V = RefreshJobView;

    open spec fn view(&self) -> RefreshJobView {
        RefreshJobView {
            lease_id: self.lease_id@,
            items: text::texts(self.items@),
            done: self.done as nat,
            results: samples(self.results@),
            failed: text::texts(self.failed@),
            gone: text::texts(self.gone@),
        }
    }
}

/// What the lane is at: it has asked for work, rests, scrapes a user of its lease, or has handed
/// in a result.
pub enum RefreshState {
    Leasing,
    Resting,
    Scraping { job: RefreshJob, scrape: Scrape },
    Submitting,
}

/// What `RefreshState` holds.
pub enum RefreshStateView {
    Leasing,
    Resting,
    Scraping { job: RefreshJobView, scrape: ScrapeView },
    Submitting,
}

impl View for RefreshState {
    type V = RefreshStateView;

    open spec fn view(&self) -> RefreshStateView {
        match *self {
            RefreshState::Leasing => RefreshStateView::Leasing,
            RefreshState::Resting => RefreshStateView::Resting,
            RefreshState::Scraping { job, scrape } => RefreshStateView::Scraping {
                job: job@,
                scrape: scrape@,
            },
            RefreshState::Submitting => RefreshStateView::Submitting,
        }
    }
}

/// The lane that scrapes users anew.
pub struct RefreshLane {
    pub session: Tr4ker,
    pub idle: u32,
    pub state: RefreshState,
}

/// What `RefreshLane` holds.
pub struct RefreshView {
    pub session: SessionView,
    pub idle: u32,
    pub state: RefreshStateView,
}

impl View for RefreshLane {
    type V = RefreshView;

    open spec fn view(&self) -> RefreshView {
        RefreshView { session: self.session@, idle: self.idle, state: self.state@ }
    }
}

/// The samples among the outcomes, in their order.
pub open spec fn scraped_of(outs: Seq<ScrapeOutView>) -> Seq<SampleView>
    decreases outs.len(),
{
    if outs.len() == 0 {
        Seq::empty()
    } else {
        match outs.last() {
            ScrapeOutView::Scraped(sample) => scraped_of(outs.drop_last()).push(sample),
            _ => scraped_of(outs.drop_last()),
        }
    }
}

/// The items whose outcome is a failure, in their order.
pub open spec fn failed_of(items: Seq<Seq<char>>, outs: Seq<ScrapeOutView>) -> Seq<Seq<char>>
    decreases outs.len(),
{
    if outs.len() == 0 {
        Seq::empty()
    } else if outs.last() is Fail {
        failed_of(items, outs.drop_last()).push(items[outs.len() - 1])
    } else {
        failed_of(items, outs.drop_last())
    }
}

/// The items that turned out to be gone, in their order.
pub open spec fn gone_of(items: Seq<Seq<char>>, outs: Seq<ScrapeOutView>) -> Seq<Seq<char>>
    decreases outs.len(),
{
    if outs.len() == 0 {
        Seq::empty()
    } else if outs.last() is Gone {
        gone_of(items, outs.drop_last()).push(items[outs.len() - 1])
    } else {
        gone_of(items, outs.drop_last())
    }
}

impl RefreshJobView {
    /// A lease on which the work begins.
    pub open spec fn begun(lease: LeaseView) -> RefreshJobView {
        RefreshJobView {
            lease_id: lease.lease_id,
            items: lease.items,
            done: 0,
            results: Seq::empty(),
            failed: Seq::empty(),
            gone: Seq::empty(),
        }
    }

    /// The work with the outcome of one item more.
    pub open spec fn recorded(self, name: Seq<char>, out: ScrapeOutView) -> RefreshJobView {
        let job = RefreshJobView { done: self.done + 1, ..self };
        match out {
            ScrapeOutView::Scraped(sample) => RefreshJobView {
                results: self.results.push(sample),
                ..job
            },
            ScrapeOutView::Gone => RefreshJobView { gone: self.gone.push(name), ..job },
            ScrapeOutView::Fail => RefreshJobView { failed: self.failed.push(name), ..job },
        }
    }

    /// The result that the work hands in.
    pub open spec fn submission(self, cfg: CfgView) -> RefreshSubmitView {
        RefreshSubmitView {
            url: cfg.submit_url(),
            token: cfg.token,
            lease_id: self.lease_id,
            results: self.results,
            failed: self.failed,
            gone: self.gone,
        }
    }

    /// The lists of the work are what the outcomes of the items that are done make of them: each
    /// of these items has one outcome, a sample under its own name among them.
    pub open spec fn shows(self, outs: Seq<ScrapeOutView>) -> bool {
        &&& outs.len() == self.done
        &&& forall|i: int|
            0 <= i < outs.len() ==> ((#[trigger] outs[i]) matches ScrapeOutView::Scraped(sample)
                ==> sample.username == self.items[i])
        &&& self.results == scraped_of(outs)
        &&& self.failed == failed_of(self.items, outs)
        &&& self.gone == gone_of(self.items, outs)
    }
}

impl RefreshView {
    /// The lane before it has done anything.
    pub open spec fn opened(cfg: CfgView) -> RefreshView {
        RefreshView {
            session: SessionView::opened(cfg, "refresh"@),
            idle: 0,
            state: RefreshStateView::Leasing,
        }
    }

    /// The request for work.
    pub open spec fn ask_for_work(self) -> ActionView<RefreshSubmitView> {
        ActionView::Lease(self.session.cfg.lease_request("users_refresh"@))
    }

    /// The lane asks for work.
    pub open spec fn leasing(self) -> (RefreshView, ActionView<RefreshSubmitView>) {
        (RefreshView { state: RefreshStateView::Leasing, ..self }, self.ask_for_work())
    }

    /// The lane rests, the longer the more often in a row there was no work.
    pub open spec fn resting(self) -> (RefreshView, ActionView<RefreshSubmitView>) {
        let idle = idler(self.idle);
        (
            RefreshView { idle, state: RefreshStateView::Resting, ..self },
            ActionView::Session(AskView::Sleep { nanos: rest_nanos(REFRESH_REST, idle) }),
        )
    }

    /// The lane goes on with its lease: to the next item, or, past the last, to handing in.
    pub open spec fn going_on(self, job: RefreshJobView) -> (
        RefreshView,
        ActionView<RefreshSubmitView>,
    ) {
        if job.done < job.items.len() {
            (
                RefreshView {
                    state: RefreshStateView::Scraping {
                        job,
                        scrape: ScrapeView::begun(job.items[job.done as int]),
                    },
                    ..self
                },
                ActionView::Session(AskView::Clock),
            )
        } else {
            (
                RefreshView { state: RefreshStateView::Submitting, ..self },
                ActionView::Submit(job.submission(self.session.cfg)),
            )
        }
    }

    /// One step of the lane. What it has not asked for counts as no work while it asks for work,
    /// and as a failure of the item while it scrapes.
    pub open spec fn stepped(self, event: EventView) -> (
        RefreshView,
        ActionView<RefreshSubmitView>,
    ) {
        match self.state {
            RefreshStateView::Leasing => match event {
                EventView::Leased(Some(lease)) => if lease.items.len() > 0 {
                    RefreshView { idle: 0, ..self }.going_on(RefreshJobView::begun(lease))
                } else {
                    self.resting()
                },
                _ => self.resting(),
            },
            RefreshStateView::Resting => self.leasing(),
            RefreshStateView::Submitting => self.leasing(),
            RefreshStateView::Scraping { job, scrape } => match event {
                EventView::Session(signal) => {
                    let (session, progress) = self.session.scraped(scrape, signal);
                    let lane = RefreshView { session, ..self };
                    match progress {
                        ProgressView::Going(scrape, ask) => (
                            RefreshView {
                                state: RefreshStateView::Scraping { job, scrape },
                                ..lane
                            },
                            ActionView::Session(ask),
                        ),
                        ProgressView::Done(out) => lane.going_on(job.recorded(scrape.name, out)),
                    }
                },
                _ => self.going_on(job.recorded(scrape.name, ScrapeOutView::Fail)),
            },
        }
    }

    /// The session is well formed, the rests are bounded, and a lease that is worked on is done
    /// up to the item that is being scraped.
    pub open spec fn wf(self) -> bool {
        &&& self.session.wf()
        &&& self.idle <= crate::lane::MAX_IDLE
        &&& self.state matches RefreshStateView::Scraping { job, scrape } ==> {
            &&& job.done < job.items.len()
            &&& scrape.name == job.items[job.done as int]
            &&& exists|outs: Seq<ScrapeOutView>| job.shows(outs)
        }
    }
}

impl RefreshJob {
    /// Begins the work on a lease.
    fn begin(lease: Lease) -> (r: RefreshJob)
        ensures
            r@ == RefreshJobView::begun(lease@),
    {
        let r = RefreshJob {
            lease_id: lease.lease_id,
            items: lease.items,
            done: 0,
            results: Vec::new(),
            failed: Vec::new(),
            gone: Vec::new(),
        };
        assert(r@.results =~= Seq::empty());
        assert(r@.failed =~= Seq::empty());
        assert(r@.gone =~= Seq::empty());
        r
    }

    /// Takes down the outcome of one item more.
    fn record(&mut self, name: String, out: ScrapeOut)
        requires
            old(self).done < old(self).items.len(),
        ensures
            final(self)@ == old(self)@.recorded(name@, out@),
    {
        match out {
            ScrapeOut::Scraped(sample) => {
                self.results.push(sample);
                assert(self@.results =~= old(self)@.results.push(sample@));
            },
            ScrapeOut::Gone => {
                self.gone.push(name);
                assert(self@.gone =~= old(self)@.gone.push(name@));
            },
            ScrapeOut::Fail => {
                self.failed.push(name);
                assert(self@.failed =~= old(self)@.failed.push(name@));
            },
        }
        self.done = self.done + 1;
    }
}

/// The result that the work on a lease hands in.
fn submit_refresh(cfg: &Cfg, job: RefreshJob) -> (r: RefreshSubmit)
    ensures
        r@ == job@.submission(cfg@),
{
    RefreshSubmit {
        url: submit_url(cfg),
        token: cfg.token.clone(),
        lease_id: job.lease_id,
        results: job.results,
        failed: job.failed,
        gone: job.gone,
    }
}

impl RefreshLane {
    /// Opens the lane, and says what it has done first.
    pub fn open(cfg: Cfg) -> (r: (RefreshLane, Action<RefreshSubmit>))
        ensures
            r.0@ == RefreshView::opened(cfg@),
            r.1@ == RefreshView::opened(cfg@).ask_for_work(),
            r.0@.wf(),
    {
        let request = lease(&cfg, "users_refresh");
        let session = Tr4ker::new(cfg, "refresh");
        (
            RefreshLane { session, idle: 0, state: RefreshState::Leasing },
            Action::Lease(request),
        )
    }

    /// Asks for work.
    fn lease(session: Tr4ker, idle: u32) -> (r: (RefreshLane, Action<RefreshSubmit>))
        ensures
            forall|lane: RefreshView|
                lane.session == session@ && lane.idle == idle ==> (r.0@, r.1@)
                    == #[trigger] lane.leasing(),
    {
        let request = lease(&session.cfg, "users_refresh");
        (RefreshLane { session, idle, state: RefreshState::Leasing }, Action::Lease(request))
    }

    /// Rests.
    fn rest(session: Tr4ker, idle: u32) -> (r: (RefreshLane, Action<RefreshSubmit>))
        ensures
            forall|lane: RefreshView|
                lane.session == session@ && lane.idle == idle ==> (r.0@, r.1@)
                    == #[trigger] lane.resting(),
    {
        let idle: u32 = more_idle(idle);
        (
            RefreshLane { session, idle, state: RefreshState::Resting },
            Action::Session(rest(REFRESH_REST, idle)),
        )
    }

    /// Goes on with a lease.
    fn go_on(session: Tr4ker, idle: u32, job: RefreshJob) -> (r: (
        RefreshLane,
        Action<RefreshSubmit>,
    ))
        ensures
            forall|lane: RefreshView|
                lane.session == session@ && lane.idle == idle ==> (r.0@, r.1@)
                    == #[trigger] lane.going_on(job@),
    {
        if job.done < job.items.len() {
            let scrape = Scrape::begin(job.items[job.done].clone());
            (
                RefreshLane { session, idle, state: RefreshState::Scraping { job, scrape } },
                Action::Session(Ask::Clock),
            )
        } else {
            let result = submit_refresh(&session.cfg, job);
            (
                RefreshLane { session, idle, state: RefreshState::Submitting },
                Action::Submit(result),
            )
        }
    }

    /// Takes the lane one step on: from what has happened to what is to be done next.
    pub fn step(self, event: Event) -> (r: (RefreshLane, Action<RefreshSubmit>))
        requires
            self@.wf(),
        ensures
            (r.0@, r.1@) == self@.stepped(event@),
            r.0@.wf(),
    {
        proof {
            law_lane_stays_well_formed(self@, event@);
        }
        let RefreshLane { mut session, idle, state } = self;
        match state {
            RefreshState::Leasing => match event {
                Event::Leased(Some(lease)) => if lease.items.len() > 0 {
                    Self::go_on(session, 0, RefreshJob::begin(lease))
                } else {
                    Self::rest(session, idle)
                },
                _ => Self::rest(session, idle),
            },
            RefreshState::Resting => Self::lease(session, idle),
            RefreshState::Submitting => Self::lease(session, idle),
            RefreshState::Scraping { mut job, scrape } => {
                let name = scrape.name.clone();
                match event {
                    Event::Session(signal) => match session.scrape_user(scrape, signal) {
                        Progress::Going(scrape, ask) => (
                            RefreshLane {
                                session,
                                idle,
                                state: RefreshState::Scraping { job, scrape },
                            },
                            Action::Session(ask),
                        ),
                        Progress::Done(out) => {
                            job.record(name, out);
                            Self::go_on(session, idle, job)
                        },
                    },
                    _ => {
                        job.record(name, ScrapeOut::Fail);
                        Self::go_on(session, idle, job)
                    },
                }
            },
        }
    }
}

/// One outcome more: the lists that show the outcomes so far go on to show them all.
proof fn lemma_recorded(
    job: RefreshJobView,
    outs: Seq<ScrapeOutView>,
    name: Seq<char>,
    out: ScrapeOutView,
)
    requires
        job.shows(outs),
        job.done < job.items.len(),
        name == job.items[job.done as int],
        out matches ScrapeOutView::Scraped(sample) ==> sample.username == name,
    ensures
        job.recorded(name, out).shows(outs.push(out)),
{
    assert(outs.push(out).drop_last() =~= outs);
}

/// A scrape keeps the name of its user, and the sample that it ends with bears that name.
proof fn lemma_scrape_keeps_name(s: SessionView, scrape: ScrapeView, signal: SignalView)
    ensures
        match s.scraped(scrape, signal).1 {
            ProgressView::Going(next, ask) => next.name == scrape.name,
            ProgressView::Done(ScrapeOutView::Scraped(sample)) => sample.username == scrape.name,
            ProgressView::Done(_) => true,
        },
{
}

/// Whatever happens, the lane stays well formed.
pub proof fn law_lane_stays_well_formed(lane: RefreshView, event: EventView)
    requires
        lane.wf(),
    ensures
        lane.stepped(event).0.wf(),
{
    match (lane.state, event) {
        (RefreshStateView::Leasing, EventView::Leased(Some(lease))) => {
            let job = RefreshJobView::begun(lease);
            assert(job.shows(Seq::empty()));
        },
        (RefreshStateView::Scraping { job, scrape }, EventView::Session(signal)) => {
            let outs = choose|outs: Seq<ScrapeOutView>| job.shows(outs);
            law_session_stays_well_formed(lane.session, scrape.path(), scrape.phase, signal);
            lemma_scrape_keeps_name(lane.session, scrape, signal);
            match lane.session.scraped(scrape, signal).1 {
                ProgressView::Done(out) => {
                    lemma_recorded(job, outs, scrape.name, out);
                },
                _ => {},
            }
        },
        (RefreshStateView::Scraping { job, scrape }, _) => {
            let outs = choose|outs: Seq<ScrapeOutView>| job.shows(outs);
            lemma_recorded(job, outs, scrape.name, ScrapeOutView::Fail);
        },
        _ => {},
    }
}

/// The names of the users that samples are about.
pub open spec fn names_of(list: Seq<SampleView>) -> Seq<Seq<char>> {
    Seq::new(list.len(), |i: int| list[i].username)
}

/// A result accounts for items: each of them stands in it once, as often as it was given out, with
/// a sample, among the failures or among those that are gone, and nothing else does.
pub open spec fn accounts_for(result: RefreshSubmitView, items: Seq<Seq<char>>) -> bool {
    names_of(result.results).to_multiset().add(result.failed.to_multiset()).add(
        result.gone.to_multiset(),
    ) == items.to_multiset()
}

/// The lists that outcomes make of the items hold each item once.
proof fn lemma_outcomes_account(items: Seq<Seq<char>>, outs: Seq<ScrapeOutView>)
    requires
        outs.len() <= items.len(),
        forall|i: int|
            0 <= i < outs.len() ==> ((#[trigger] outs[i]) matches ScrapeOutView::Scraped(sample)
                ==> sample.username == items[i]),
    ensures
        names_of(scraped_of(outs)).to_multiset().add(failed_of(items, outs).to_multiset()).add(
            gone_of(items, outs).to_multiset(),
        ) =~= items.take(outs.len() as int).to_multiset(),
    decreases outs.len(),
{
    broadcast use vstd::seq_lib::group_to_multiset_ensures;

    if outs.len() == 0 {
        assert(names_of(scraped_of(outs)) =~= Seq::empty());
        assert(items.take(0) =~= Seq::empty());
    } else {
        let before = outs.drop_last();
        let n = before.len() as int;
        lemma_outcomes_account(items, before);
        assert(items.take(n + 1) =~= items.take(n).push(items[n]));
        assert(outs[n] == outs.last());
        match outs.last() {
            ScrapeOutView::Scraped(sample) => {
                assert(names_of(scraped_of(outs)) =~= names_of(scraped_of(before)).push(items[n]));
            },
            _ => {},
        }
    }
}

/// A result that the lane hands in is that of the lease it was working on, and accounts for the
/// items of that lease.
pub proof fn law_result_accounts_for_lease(lane: RefreshView, event: EventView)
    requires
        lane.wf(),
        lane.stepped(event).1 is Submit,
    ensures
        lane.state is Scraping,
        lane.stepped(event).1->Submit_0.lease_id == lane.state->job.lease_id,
        accounts_for(lane.stepped(event).1->Submit_0, lane.state->job.items),
        exists|outs: Seq<ScrapeOutView>|
            {
                &&& outs.len() == lane.state->job.items.len()
                &&& lane.stepped(event).1->Submit_0.results == #[trigger] scraped_of(outs)
                &&& lane.stepped(event).1->Submit_0.failed == failed_of(
                    lane.state->job.items,
                    outs,
                )
                &&& lane.stepped(event).1->Submit_0.gone == gone_of(lane.state->job.items, outs)
            },
{
    let job = lane.state->job;
    let scrape = lane.state->scrape;
    let outs = choose|outs: Seq<ScrapeOutView>| job.shows(outs);
    let out = match event {
        EventView::Session(signal) => {
            lemma_scrape_keeps_name(lane.session, scrape, signal);
            lane.session.scraped(scrape, signal).1->Done_0
        },
        _ => ScrapeOutView::Fail,
    };
    lemma_recorded(job, outs, scrape.name, out);
    let all = outs.push(out);
    lemma_outcomes_account(job.items, all);
    assert(job.items.take(all.len() as int) =~= job.items);
    assert(lane.stepped(event).1->Submit_0.results == scraped_of(all));
}

/// While the lane works on a lease it stays with it: each step either goes on with the same lease,
/// at the same item or the next, or hands in the result.
pub proof fn law_lane_stays_with_its_lease(lane: RefreshView, event: EventView)
    requires
        lane.wf(),
        lane.state is Scraping,
    ensures
        lane.stepped(event).1 is Submit || {
            let next = lane.stepped(event).0.state;
            &&& next is Scraping
            &&& next->job.lease_id == lane.state->job.lease_id
            &&& next->job.items == lane.state->job.items
            &&& lane.state->job.done <= next->job.done <= lane.state->job.done + 1
        },
        lane.stepped(event).1 is Submit ==> lane.stepped(event).0.state is Submitting,
{
}

/// The lane after a row of events.
pub open spec fn ran(lane: RefreshView, events: Seq<EventView>) -> RefreshView
    decreases events.len(),
{
    if events.len() == 0 {
        lane
    } else {
        ran(lane, events.drop_last()).stepped(events.last()).0
    }
}

/// A lease that a well formed lane takes on is answered under its own name: the first result that
/// the lane hands in afterwards, whatever events come in between, accounts for its items.
pub proof fn law_lease_is_answered(
    lane: RefreshView,
    lease: LeaseView,
    events: Seq<EventView>,
    last: EventView,
)
    requires
        lane.wf(),
        lane.state is Leasing,
        lease.items.len() > 0,
        forall|n: int|
            0 <= n < events.len() ==> !(ran(
                lane.stepped(EventView::Leased(Some(lease))).0,
                #[trigger] events.take(n),
            ).stepped(events[n]).1 is Submit),
        ran(lane.stepped(EventView::Leased(Some(lease))).0, events).stepped(last).1 is Submit,
    ensures
        ({
            let result = ran(
                lane.stepped(EventView::Leased(Some(lease))).0,
                events,
            ).stepped(last).1->Submit_0;
            result.lease_id == lease.lease_id && accounts_for(result, lease.items)
        }),
{
    let start = lane.stepped(EventView::Leased(Some(lease))).0;
    law_lane_stays_well_formed(lane, EventView::Leased(Some(lease)));
    lemma_run_stays_with_lease(start, lease, events);
    law_result_accounts_for_lease(ran(start, events), last);
}

/// Without a result handed in, a row of events leaves the lane with its lease.
proof fn lemma_run_stays_with_lease(start: RefreshView, lease: LeaseView, events: Seq<EventView>)
    requires
        start.wf(),
        start.state is Scraping,
        start.state->job.lease_id == lease.lease_id,
        start.state->job.items == lease.items,
        forall|n: int|
            0 <= n < events.len() ==> !(ran(start, #[trigger] events.take(n)).stepped(
                events[n],
            ).1 is Submit),
    ensures
        ran(start, events).wf(),
        ran(start, events).state is Scraping,
        ran(start, events).state->job.lease_id == lease.lease_id,
        ran(start, events).state->job.items == lease.items,
    decreases events.len(),
{
    if events.len() > 0 {
        let before = events.drop_last();
        assert forall|n: int| 0 <= n < before.len() implies !(ran(
            start,
            #[trigger] before.take(n),
        ).stepped(before[n]).1 is Submit) by {
            assert(before.take(n) =~= events.take(n));
        }
        lemma_run_stays_with_lease(start, lease, before);
        assert(events.take(events.len() - 1) =~= before);
        law_lane_stays_well_formed(ran(start, before), events.last());
        law_lane_stays_with_its_lease(ran(start, before), events.last());
    }
}

/// A lane without work rests for five seconds more each time, a minute at most; work that comes
/// makes it begin anew.
pub proof fn law_rests_grow_and_are_bounded(lane: RefreshView, event: EventView)
    requires
        lane.wf(),
        lane.state is Leasing,
    ensures
        match event {
            EventView::Leased(Some(lease)) => lease.items.len() > 0,
            _ => false,
        } ==> lane.stepped(event).0.idle == 0 && lane.stepped(event).0.state is Scraping,
        !(match event {
            EventView::Leased(Some(lease)) => lease.items.len() > 0,
            _ => false,
        }) ==> {
            let nanos = lane.stepped(event).1->Session_0->nanos;
            &&& lane.stepped(event).1 is Session
            &&& lane.stepped(event).1->Session_0 is Sleep
            &&& nanos == if lane.idle < 12 {
                5_000_000_000 * (lane.idle + 1)
            } else {
                60_000_000_000
            }
            &&& lane.stepped(event).0.state is Resting
        },
{
}

/// How many events the lane can still take before it has handed in the result of its lease.
pub open spec fn events_left(lane: RefreshView) -> int {
    match lane.state {
        RefreshStateView::Scraping { job, scrape } => 10 * (job.items.len() - job.done)
            - rank(scrape.phase) - if scrape.part is Badges {
            5int
        } else {
            0
        },
        _ => 0,
    }
}

/// Every event takes the work on a lease further.
proof fn lemma_events_make_progress(lane: RefreshView, event: EventView)
    requires
        lane.wf(),
        lane.state is Scraping,
    ensures
        0 < events_left(lane),
        !(lane.stepped(event).1 is Submit) ==> events_left(lane.stepped(event).0) < events_left(
            lane,
        ),
{
    let scrape = lane.state->scrape;
    match event {
        EventView::Session(signal) => {
            law_requests_come_to_an_end(lane.session, scrape.path(), scrape.phase, signal);
        },
        _ => {},
    }
}

/// The work on a lease comes to an end: ten events for each of its items are always enough for the
/// lane to hand in a result.
pub proof fn law_lease_is_answered_in_time(
    lane: RefreshView,
    lease: LeaseView,
    events: Seq<EventView>,
)
    requires
        lane.wf(),
        lane.state is Leasing,
        0 < lease.items.len(),
        10 * lease.items.len() <= events.len(),
    ensures
        exists|n: int|
            0 <= n < events.len() && ran(
                lane.stepped(EventView::Leased(Some(lease))).0,
                #[trigger] events.take(n),
            ).stepped(events[n]).1 is Submit,
{
    let start = lane.stepped(EventView::Leased(Some(lease))).0;
    law_lane_stays_well_formed(lane, EventView::Leased(Some(lease)));
    if forall|n: int|
        0 <= n < events.len() ==> !(ran(start, #[trigger] events.take(n)).stepped(
            events[n],
        ).1 is Submit) {
        lemma_run_uses_up_events(start, lease, events);
        lemma_run_stays_with_lease(start, lease, events);
        lemma_events_make_progress(ran(start, events), EventView::Submitted);
    }
}

/// Each event of a row that hands in no result is one event less that the lane can still take.
proof fn lemma_run_uses_up_events(start: RefreshView, lease: LeaseView, events: Seq<EventView>)
    requires
        start.wf(),
        start.state is Scraping,
        start.state->job.lease_id == lease.lease_id,
        start.state->job.items == lease.items,
        forall|n: int|
            0 <= n < events.len() ==> !(ran(start, #[trigger] events.take(n)).stepped(
                events[n],
            ).1 is Submit),
    ensures
        events_left(ran(start, events)) + events.len() <= events_left(start),
    decreases events.len(),
{
    if events.len() > 0 {
        let before = events.drop_last();
        assert forall|n: int| 0 <= n < before.len() implies !(ran(
            start,
            #[trigger] before.take(n),
        ).stepped(before[n]).1 is Submit) by {
            assert(before.take(n) =~= events.take(n));
        }
        lemma_run_uses_up_events(start, lease, before);
        lemma_run_stays_with_lease(start, lease, before);
        assert(events.take(events.len() - 1) =~= before);
        lemma_events_make_progress(ran(start, before), events.last());
    }
}

/// Nothing that happens changes the settings of the lane: every request for work is for its own
/// kind, and work is asked for and results are handed in with its token, at its ladder.
pub proof fn law_lane_keeps_to_its_ladder(lane: RefreshView, event: EventView)
    ensures
        lane.stepped(event).0.session.cfg == lane.session.cfg,
        lane.stepped(event).1 matches ActionView::Lease(request) ==> request
            == lane.session.cfg.lease_request("users_refresh"@),
        lane.stepped(event).1 matches ActionView::Submit(result) ==> {
            &&& result.url == lane.session.cfg.submit_url()
            &&& result.token == lane.session.cfg.token
        },
{
}

/// The lane begins by asking for users, in a session of its own.
pub proof fn law_lane_begins_by_asking(cfg: CfgView)
    ensures
        RefreshView::opened(cfg).session == SessionView::opened(cfg, "refresh"@),
        RefreshView::opened(cfg).idle == 0,
        RefreshView::opened(cfg).state is Leasing,
        RefreshView::opened(cfg).ask_for_work() == ActionView::<RefreshSubmitView>::Lease(
            cfg.lease_request("users_refresh"@),
        ),
{
}

/// A lease with items is taken up as it is: the lane turns to the first of its users, with nothing
/// in the lists yet and all of the items before it.
pub proof fn law_lease_is_taken_up(lane: RefreshView, lease: LeaseView)
    requires
        lane.state is Leasing,
        lease.items.len() > 0,
    ensures
        lane.stepped(EventView::Leased(Some(lease))) == (
            RefreshView {
                session: lane.session,
                idle: 0,
                state: RefreshStateView::Scraping {
                    job: RefreshJobView {
                        lease_id: lease.lease_id,
                        items: lease.items,
                        done: 0,
                        results: Seq::empty(),
                        failed: Seq::empty(),
                        gone: Seq::empty(),
                    },
                    scrape: ScrapeView::begun(lease.items[0]),
                },
            },
            ActionView::<RefreshSubmitView>::Session(AskView::Clock),
        ),
{
}

/// Where no work comes the lane rests and counts that, and nothing else changes.
pub proof fn law_lane_without_work_rests(lane: RefreshView, event: EventView)
    requires
        lane.state is Leasing,
        !(event matches EventView::Leased(Some(lease)) && lease.items.len() > 0),
    ensures
        lane.stepped(event) == (
            RefreshView {
                session: lane.session,
                idle: idler(lane.idle),
                state: RefreshStateView::Resting,
            },
            ActionView::<RefreshSubmitView>::Session(
                AskView::Sleep { nanos: rest_nanos(5, idler(lane.idle)) },
            ),
        ),
{
}

/// After a rest, and after a result was handed in, the lane asks for users again, and nothing else
/// changes.
pub proof fn law_lane_asks_again(lane: RefreshView, event: EventView)
    requires
        lane.state is Resting || lane.state is Submitting,
    ensures
        lane.stepped(event) == (
            RefreshView {
                session: lane.session,
                idle: lane.idle,
                state: RefreshStateView::Leasing,
            },
            ActionView::<RefreshSubmitView>::Lease(
                lane.session.cfg.lease_request("users_refresh"@),
            ),
        ),
{
}

/// While the scrape of a user is under way the lane does what it asks for, and its lists stay.
pub proof fn law_lane_does_what_the_scrape_asks(lane: RefreshView, signal: SignalView)
    requires
        lane.state is Scraping,
        lane.session.scraped(lane.state->scrape, signal).1 is Going,
    ensures
        ({
            let (session, progress) = lane.session.scraped(lane.state->scrape, signal);
            lane.stepped(EventView::Session(signal)) == (
                RefreshView {
                    session,
                    idle: lane.idle,
                    state: RefreshStateView::Scraping {
                        job: lane.state->job,
                        scrape: progress->Going_0,
                    },
                },
                ActionView::<RefreshSubmitView>::Session(progress->Going_1),
            )
        }),
{
}

/// How the scrape of the current user ended with an event, if it did: with what the session gave, or
/// with a failure where the event is none for the session.
pub open spec fn outcome(lane: RefreshView, event: EventView) -> Option<ScrapeOutView> {
    match lane.state {
        RefreshStateView::Scraping { job, scrape } => match event {
            EventView::Session(signal) => match lane.session.scraped(scrape, signal).1 {
                ProgressView::Done(out) => Some(out),
                ProgressView::Going(_, _) => None,
            },
            _ => Some(ScrapeOutView::Fail),
        },
        _ => None,
    }
}

/// The lists with one user more hold the outcome of that user's scrape, at the end of the list in
/// which it belongs, and are otherwise as they were.
pub open spec fn takes_down(
    results: (Seq<SampleView>, Seq<SampleView>),
    failed: (Seq<Seq<char>>, Seq<Seq<char>>),
    gone: (Seq<Seq<char>>, Seq<Seq<char>>),
    name: Seq<char>,
    out: ScrapeOutView,
) -> bool {
    &&& results.1 == match out {
        ScrapeOutView::Scraped(sample) => results.0.push(sample),
        _ => results.0,
    }
    &&& failed.1 == if out is Fail {
        failed.0.push(name)
    } else {
        failed.0
    }
    &&& gone.1 == if out is Gone {
        gone.0.push(name)
    } else {
        gone.0
    }
}

/// When the scrape of a user ends, at whatever place of the lease, exactly its outcome is taken down
/// for that user: then the lane turns to the next user, or, past the last, hands in the lists.
pub proof fn law_outcome_is_taken_down(lane: RefreshView, event: EventView)
    requires
        lane.state matches RefreshStateView::Scraping { job, scrape } ==> job.done
            < job.items.len() && scrape.name == job.items[job.done as int],
        outcome(lane, event) is Some,
    ensures
        ({
            let job = lane.state->job;
            let name = job.items[job.done as int];
            let out = outcome(lane, event)->Some_0;
            let (next, action) = lane.stepped(event);
            if job.done + 1 < job.items.len() {
                &&& next.state matches RefreshStateView::Scraping { job: after, scrape } && {
                    &&& after.lease_id == job.lease_id
                    &&& after.items == job.items
                    &&& after.done == job.done + 1
                    &&& takes_down(
                        (job.results, after.results),
                        (job.failed, after.failed),
                        (job.gone, after.gone),
                        name,
                        out,
                    )
                    &&& scrape == ScrapeView::begun(job.items[job.done as int + 1])
                }
                &&& action == ActionView::<RefreshSubmitView>::Session(AskView::Clock)
            } else {
                &&& next.state is Submitting
                &&& action matches ActionView::Submit(result) && {
                    &&& result.url == lane.session.cfg.ladder + "/api/worker/submit"@
                    &&& result.token == lane.session.cfg.token
                    &&& result.lease_id == job.lease_id
                    &&& takes_down(
                        (job.results, result.results),
                        (job.failed, result.failed),
                        (job.gone, result.gone),
                        name,
                        out,
                    )
                }
            }
        }),
        lane.stepped(event).0.idle == lane.idle,
        lane.stepped(event).0.session == match event {
            EventView::Session(signal) => lane.session.scraped(lane.state->scrape, signal).0,
            _ => lane.session,
        },
{
}

/// The outcomes of the scrapes that ended during a row of events, in their order.
pub open spec fn outcomes(lane: RefreshView, events: Seq<EventView>) -> Seq<ScrapeOutView>
    decreases events.len(),
{
    if events.len() == 0 {
        Seq::empty()
    } else {
        let before = outcomes(lane, events.drop_last());
        match outcome(ran(lane, events.drop_last()), events.last()) {
            Some(out) => before.push(out),
            None => before,
        }
    }
}

/// Outcomes make lists of the items one by one.
pub proof fn law_lists_follow_the_outcomes(
    items: Seq<Seq<char>>,
    outs: Seq<ScrapeOutView>,
    out: ScrapeOutView,
)
    ensures
        takes_down(
            (scraped_of(outs), scraped_of(outs.push(out))),
            (failed_of(items, outs), failed_of(items, outs.push(out))),
            (gone_of(items, outs), gone_of(items, outs.push(out))),
            items[outs.len() as int],
            out,
        ),
        scraped_of(Seq::empty()).len() == 0,
        failed_of(items, Seq::empty()).len() == 0,
        gone_of(items, Seq::empty()).len() == 0,
{
    assert(outs.push(out).drop_last() =~= outs);
}

/// Without a result handed in, the lists of the lane show the outcomes of its scrapes.
proof fn lemma_run_shows_outcomes(lane: RefreshView, lease: LeaseView, events: Seq<EventView>)
    requires
        lane.wf(),
        lane.state is Leasing,
        lease.items.len() > 0,
        forall|n: int|
            0 <= n < events.len() ==> !(ran(
                lane.stepped(EventView::Leased(Some(lease))).0,
                #[trigger] events.take(n),
            ).stepped(events[n]).1 is Submit),
    ensures
        ({
            let start = lane.stepped(EventView::Leased(Some(lease))).0;
            &&& ran(start, events).wf()
            &&& ran(start, events).state is Scraping
            &&& ran(start, events).state->job.items == lease.items
            &&& ran(start, events).state->job.shows(outcomes(start, events))
        }),
    decreases events.len(),
{
    let start = lane.stepped(EventView::Leased(Some(lease))).0;
    law_lane_stays_well_formed(lane, EventView::Leased(Some(lease)));
    lemma_run_stays_with_lease(start, lease, events);
    if events.len() == 0 {
        assert(start.state->job.shows(Seq::empty()));
    } else {
        let before = events.drop_last();
        assert forall|n: int| 0 <= n < before.len() implies !(ran(
            start,
            #[trigger] before.take(n),
        ).stepped(before[n]).1 is Submit) by {
            assert(before.take(n) =~= events.take(n));
        }
        lemma_run_shows_outcomes(lane, lease, before);
        assert(events.take(events.len() - 1) =~= before);
        let here = ran(start, before);
        let outs = outcomes(start, before);
        let job = here.state->job;
        let scrape = here.state->scrape;
        if outcome(here, events.last()) is Some {
            let out = outcome(here, events.last())->Some_0;
            if let EventView::Session(signal) = events.last() {
                lemma_scrape_keeps_name(here.session, scrape, signal);
            }
            lemma_recorded(job, outs, scrape.name, out);
            assert(ran(start, events).state->job == job.recorded(scrape.name, out));
        } else {
            assert(ran(start, events).state->job == job);
        }
    }
}

/// The result of a lease tells how the scrapes of its users ended, user by user: the samples are
/// those that the scrapes gave, the failures are the users whose scrapes failed, and those that are
/// gone are the users whose scrapes said so.
pub proof fn law_result_tells_how_the_scrapes_ended(
    lane: RefreshView,
    lease: LeaseView,
    events: Seq<EventView>,
    last: EventView,
)
    requires
        lane.wf(),
        lane.state is Leasing,
        lease.items.len() > 0,
        forall|n: int|
            0 <= n < events.len() ==> !(ran(
                lane.stepped(EventView::Leased(Some(lease))).0,
                #[trigger] events.take(n),
            ).stepped(events[n]).1 is Submit),
        ran(lane.stepped(EventView::Leased(Some(lease))).0, events).stepped(last).1 is Submit,
    ensures
        ({
            let start = lane.stepped(EventView::Leased(Some(lease))).0;
            let result = ran(start, events).stepped(last).1->Submit_0;
            let outs = outcomes(start, events.push(last));
            &&& outs.len() == lease.items.len()
            &&& result.results == scraped_of(outs)
            &&& result.failed == failed_of(lease.items, outs)
            &&& result.gone == gone_of(lease.items, outs)
        }),
{
    let start = lane.stepped(EventView::Leased(Some(lease))).0;
    lemma_run_shows_outcomes(lane, lease, events);
    let here = ran(start, events);
    let scrape = here.state->scrape;
    assert(events.push(last).drop_last() =~= events);
    let out = outcome(here, last)->Some_0;
    if let EventView::Session(signal) = last {
        lemma_scrape_keeps_name(here.session, scrape, signal);
    }
    lemma_recorded(here.state->job, outcomes(start, events), scrape.name, out);
}

/// A result is seen as all that it holds.
pub proof fn law_results_are_seen_whole(result: RefreshSubmit)
    ensures
        result@.url == result.url@,
        result@.token == result.token@,
        result@.lease_id == result.lease_id@,
        result@.results.len() == result.results@.len(),
        forall|i: int|
            0 <= i < result.results@.len() ==> #[trigger] result@.results[i] == result.results@[i]@,
        result@.failed == text::texts(result.failed@),
        result@.gone == text::texts(result.gone@),
{
}

} // verus!
