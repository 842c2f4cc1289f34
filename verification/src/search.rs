//! The lane that searches for users by the start of their names.

use vstd::prelude::*;

use crate::config::{Cfg, CfgView};
use crate::lane::{
    idler, lease, more_idle, rest, rest_nanos, submit_url, Action, ActionView, Event, EventView,
    Lease, LeaseView,
};
use crate::profile::{found_names, path_of_search, search_path, search_prefix};
use crate::session::{
    law_requests_come_to_an_end, law_session_stays_well_formed, rank, Ask, AskView, Phase, SessionView,
    SignalView, Step, StepView, Tr4ker,
};
use crate::text;

verus! {

/// The seconds that each time without work in a row adds to the rest.
pub const SEARCH_REST: u32 = 10;

/// The names that were found for a prefix.
pub struct PrefixUsers {
    pub prefix: String,
    pub users: Vec<String>,
}

/// What `PrefixUsers` holds.
pub struct PrefixUsersView {
    pub prefix: Seq<char>,
    pub users: Seq<Seq<char>>,
}

impl View for PrefixUsers {
    type V = PrefixUsersView;

    open spec fn view(&self) -> PrefixUsersView {
        PrefixUsersView { prefix: self.prefix@, users: text::texts(self.users@) }
    }
}

/// The findings of a list.
pub open spec fn findings(list: Seq<PrefixUsers>) -> Seq<PrefixUsersView> {
    Seq::new(list.len(), |i: int| list[i]@)
}

/// How many names were found in all.
pub open spec fn users_in(list: Seq<PrefixUsersView>) -> nat
    decreases list.len(),
{
    if list.len() == 0 {
        0
    } else {
        users_in(list.drop_last()) + list.last().users.len()
    }
}

/// A result that is handed in: what was found, the prefixes that could not be searched, and how
/// many names were found in all.
pub struct SearchSubmit {
    pub url: String,
    pub token: String,
    pub lease_id: String,
    pub search_results: Vec<PrefixUsers>,
    pub failed: Vec<String>,
    pub users_found: u128,
}

/// What `SearchSubmit` holds.
pub struct SearchSubmitView {
    pub url: Seq<char>,
    pub token: Seq<char>,
    pub lease_id: Seq<char>,
    pub search_results: Seq<PrefixUsersView>,
    pub failed: Seq<Seq<char>>,
    pub users_found: nat,
}

impl View for SearchSubmit {
    type V = SearchSubmitView;

    open spec fn view(&self) -> SearchSubmitView {
        SearchSubmitView {
            url: self.url@,
            token: self.token@,
            lease_id: self.lease_id@,
            search_results: findings(self.search_results@),
            failed: text::texts(self.failed@),
            users_found: self.users_found as nat,
        }
    }
}

/// The work on a lease: its prefixes, how many of them are done, and what has come of those.
pub struct SearchJob {
    pub lease_id: String,
    pub items: Vec<String>,
    pub done: usize,
    pub search_results: Vec<PrefixUsers>,
    pub failed: Vec<String>,
}

/// What `SearchJob` holds.
pub struct SearchJobView {
    pub lease_id: Seq<char>,
    pub items: Seq<Seq<char>>,
    pub done: nat,
    pub search_results: Seq<PrefixUsersView>,
    pub failed: Seq<Seq<char>>,
}

impl View for SearchJob {
    type V = SearchJobView;

    open spec fn view(&self) -> SearchJobView {
        SearchJobView {
            lease_id: self.lease_id@,
            items: text::texts(self.items@),
            done: self.done as nat,
            search_results: findings(self.search_results@),
            failed: text::texts(self.failed@),
        }
    }
}

/// What the lane is at: it has asked for work, rests, searches for a prefix of its lease, or has
/// handed in a result.
pub enum SearchState {
    Leasing,
    Resting,
    Searching { job: SearchJob, phase: Phase },
    Submitting,
}

/// What `SearchState` holds.
pub enum SearchStateView {
    Leasing,
    Resting,
    Searching { job: SearchJobView, phase: Phase },
    Submitting,
}

impl View for SearchState {
    type V = SearchStateView;

    open spec fn view(&self) -> SearchStateView {
        match *self {
            SearchState::Leasing => SearchStateView::Leasing,
            SearchState::Resting => SearchStateView::Resting,
            SearchState::Searching { job, phase } => SearchStateView::Searching {
                job: job@,
                phase,
            },
            SearchState::Submitting => SearchStateView::Submitting,
        }
    }
}

/// The lane that searches for users by the start of their names.
pub struct SearchLane {
    pub session: Tr4ker,
    pub idle: u32,
    pub state: SearchState,
}

/// What `SearchLane` holds.
pub struct SearchView {
    pub session: SessionView,
    pub idle: u32,
    pub state: SearchStateView,
}

impl View for SearchLane {
    type V = SearchView;

    open spec fn view(&self) -> SearchView {
        SearchView { session: self.session@, idle: self.idle, state: self.state@ }
    }
}

/// The prefixes that were searched, each with the names found for it, in their order.
pub open spec fn found_of(
    items: Seq<Seq<char>>,
    outs: Seq<Option<Seq<Seq<char>>>>,
) -> Seq<PrefixUsersView>
    decreases outs.len(),
{
    if outs.len() == 0 {
        Seq::empty()
    } else {
        match outs.last() {
            Some(users) => found_of(items, outs.drop_last()).push(
                PrefixUsersView { prefix: items[outs.len() - 1], users },
            ),
            None => found_of(items, outs.drop_last()),
        }
    }
}

/// The prefixes that could not be searched, in their order.
pub open spec fn unsearched_of(
    items: Seq<Seq<char>>,
    outs: Seq<Option<Seq<Seq<char>>>>,
) -> Seq<Seq<char>>
    decreases outs.len(),
{
    if outs.len() == 0 {
        Seq::empty()
    } else if outs.last() is None {
        unsearched_of(items, outs.drop_last()).push(items[outs.len() - 1])
    } else {
        unsearched_of(items, outs.drop_last())
    }
}

impl SearchJobView {
    /// A lease on which the work begins.
    pub open spec fn begun(lease: LeaseView) -> SearchJobView {
        SearchJobView {
            lease_id: lease.lease_id,
            items: lease.items,
            done: 0,
            search_results: Seq::empty(),
            failed: Seq::empty(),
        }
    }

    /// The prefix that is being searched for.
    pub open spec fn prefix(self) -> Seq<char> {
        self.items[self.done as int]
    }

    /// The work with the outcome of one prefix more.
    pub open spec fn recorded(self, out: Option<Seq<Seq<char>>>) -> SearchJobView {
        let job = SearchJobView { done: self.done + 1, ..self };
        match out {
            Some(users) => SearchJobView {
                search_results: self.search_results.push(
                    PrefixUsersView { prefix: self.prefix(), users },
                ),
                ..job
            },
            None => SearchJobView { failed: self.failed.push(self.prefix()), ..job },
        }
    }

    /// The result that the work hands in.
    pub open spec fn submission(self, cfg: CfgView) -> SearchSubmitView {
        SearchSubmitView {
            url: cfg.submit_url(),
            token: cfg.token,
            lease_id: self.lease_id,
            search_results: self.search_results,
            failed: self.failed,
            users_found: users_in(self.search_results),
        }
    }

    /// The lists of the work are what the outcomes of the prefixes that are done make of them.
    pub open spec fn shows(self, outs: Seq<Option<Seq<Seq<char>>>>) -> bool {
        &&& outs.len() == self.done
        &&& self.search_results == found_of(self.items, outs)
        &&& self.failed == unsearched_of(self.items, outs)
    }
}

impl SearchView {
    /// The lane before it has done anything.
    pub open spec fn opened(cfg: CfgView) -> SearchView {
        SearchView {
            session: SessionView::opened(cfg, "search"@),
            idle: 0,
            state: SearchStateView::Leasing,
        }
    }

    /// The request for work.
    pub open spec fn ask_for_work(self) -> ActionView<SearchSubmitView> {
        ActionView::Lease(self.session.cfg.lease_request("search"@))
    }

    /// The lane asks for work.
    pub open spec fn leasing(self) -> (SearchView, ActionView<SearchSubmitView>) {
        (SearchView { state: SearchStateView::Leasing, ..self }, self.ask_for_work())
    }

    /// The lane rests, the longer the more often in a row there was no work.
    pub open spec fn resting(self) -> (SearchView, ActionView<SearchSubmitView>) {
        let idle = idler(self.idle);
        (
            SearchView { idle, state: SearchStateView::Resting, ..self },
            ActionView::Session(AskView::Sleep { nanos: rest_nanos(SEARCH_REST, idle) }),
        )
    }

    /// The lane goes on with its lease: to the next prefix, or, past the last, to handing in.
    pub open spec fn going_on(self, job: SearchJobView) -> (
        SearchView,
        ActionView<SearchSubmitView>,
    ) {
        if job.done < job.items.len() {
            (
                SearchView {
                    state: SearchStateView::Searching { job, phase: Phase::Cooldown },
                    ..self
                },
                ActionView::Session(AskView::Clock),
            )
        } else {
            (
                SearchView { state: SearchStateView::Submitting, ..self },
                ActionView::Submit(job.submission(self.session.cfg)),
            )
        }
    }

    /// One step of the lane. What it has not asked for counts as no work while it asks for work,
    /// and as a failure of the prefix while it searches.
    pub open spec fn stepped(self, event: EventView) -> (
        SearchView,
        ActionView<SearchSubmitView>,
    ) {
        match self.state {
            SearchStateView::Leasing => match event {
                EventView::Leased(Some(lease)) => if lease.items.len() > 0 {
                    SearchView { idle: 0, ..self }.going_on(SearchJobView::begun(lease))
                } else {
                    self.resting()
                },
                _ => self.resting(),
            },
            SearchStateView::Resting => self.leasing(),
            SearchStateView::Submitting => self.leasing(),
            SearchStateView::Searching { job, phase } => match event {
                EventView::Session(signal) => {
                    let (session, phase, step) = self.session.got(
                        search_path(job.prefix()),
                        phase,
                        signal,
                    );
                    let lane = SearchView { session, ..self };
                    match step {
                        StepView::Ask(ask) => (
                            SearchView {
                                state: SearchStateView::Searching { job, phase },
                                ..lane
                            },
                            ActionView::Session(ask),
                        ),
                        StepView::Done(fetch) => lane.going_on(job.recorded(found_names(fetch))),
                    }
                },
                _ => self.going_on(job.recorded(None)),
            },
        }
    }

    /// The session is well formed, the rests are bounded, and a lease that is worked on is done
    /// up to the prefix that is being searched for.
    pub open spec fn wf(self) -> bool {
        &&& self.session.wf()
        &&& self.idle <= crate::lane::MAX_IDLE
        &&& self.state matches SearchStateView::Searching { job, phase } ==> {
            &&& job.done < job.items.len()
            &&& exists|outs: Seq<Option<Seq<Seq<char>>>>| job.shows(outs)
        }
    }
}

impl SearchJob {
    /// Begins the work on a lease.
    fn begin(lease: Lease) -> (r: SearchJob)
        ensures
            r@ == SearchJobView::begun(lease@),
    {
        let r = SearchJob {
            lease_id: lease.lease_id,
            items: lease.items,
            done: 0,
            search_results: Vec::new(),
            failed: Vec::new(),
        };
        assert(r@.search_results =~= Seq::empty());
        assert(r@.failed =~= Seq::empty());
        r
    }

    /// Takes down the outcome of one prefix more.
    fn record(&mut self, out: Option<Vec<String>>)
        requires
            old(self).done < old(self).items.len(),
        ensures
            final(self)@ == old(self)@.recorded(
                match out {
                    Some(users) => Some(text::texts(users@)),
                    None => None,
                },
            ),
    {
        let prefix = self.items[self.done].clone();
        match out {
            Some(users) => {
                self.search_results.push(PrefixUsers { prefix, users });
                assert(self@.search_results =~= old(self)@.search_results.push(
                    PrefixUsersView { prefix: prefix@, users: text::texts(users@) },
                ));
            },
            None => {
                self.failed.push(prefix);
                assert(self@.failed =~= old(self)@.failed.push(prefix@));
            },
        }
        self.done = self.done + 1;
    }
}

/// How many names were found in all.
pub fn count_users(list: &Vec<PrefixUsers>) -> (r: u128)
    ensures
        r == users_in(findings(list@)),
{
    let ghost all = findings(list@);
    let len: usize = list.len();
    let mut found: u128 = 0;
    let mut i: usize = 0;
    while i < len
        invariant
            all == findings(list@),
            len == list@.len(),
            i <= len,
            found == users_in(all.take(i as int)),
            found <= i * usize::MAX,
        decreases len - i,
    {
        let here: usize = list[i].users.len();
        assert(all.take(i + 1).drop_last() =~= all.take(i as int));
        assert(all.take(i + 1).last().users.len() == here);
        assert(i * usize::MAX + usize::MAX == (i + 1) * usize::MAX) by (nonlinear_arith);
        assert((i + 1) * usize::MAX <= usize::MAX * usize::MAX) by (nonlinear_arith)
            requires
                i + 1 <= usize::MAX,
        ;
        assert(usize::MAX * usize::MAX <= u128::MAX) by (nonlinear_arith)
            requires
                usize::MAX <= u64::MAX,
        ;
        found = found + here as u128;
        i = i + 1;
    }
    assert(all.take(len as int) =~= all);
    found
}

/// The result that the work on a lease hands in.
fn submit_search(cfg: &Cfg, job: SearchJob) -> (r: SearchSubmit)
    ensures
        r@ == job@.submission(cfg@),
{
    let users_found: u128 = count_users(&job.search_results);
    SearchSubmit {
        url: submit_url(cfg),
        token: cfg.token.clone(),
        lease_id: job.lease_id,
        search_results: job.search_results,
        failed: job.failed,
        users_found,
    }
}

impl SearchLane {
    /// Opens the lane, and says what it has done first.
    pub fn open(cfg: Cfg) -> (r: (SearchLane, Action<SearchSubmit>))
        ensures
            r.0@ == SearchView::opened(cfg@),
            r.1@ == SearchView::opened(cfg@).ask_for_work(),
            r.0@.wf(),
    {
        let request = lease(&cfg, "search");
        let session = Tr4ker::new(cfg, "search");
        (
            SearchLane { session, idle: 0, state: SearchState::Leasing },
            Action::Lease(request),
        )
    }

    /// Asks for work.
    fn lease(session: Tr4ker, idle: u32) -> (r: (SearchLane, Action<SearchSubmit>))
        ensures
            forall|lane: SearchView|
                lane.session == session@ && lane.idle == idle ==> (r.0@, r.1@)
                    == #[trigger] lane.leasing(),
    {
        let request = lease(&session.cfg, "search");
        (SearchLane { session, idle, state: SearchState::Leasing }, Action::Lease(request))
    }

    /// Rests.
    fn rest(session: Tr4ker, idle: u32) -> (r: (SearchLane, Action<SearchSubmit>))
        ensures
            forall|lane: SearchView|
                lane.session == session@ && lane.idle == idle ==> (r.0@, r.1@)
                    == #[trigger] lane.resting(),
    {
        let idle: u32 = more_idle(idle);
        (
            SearchLane { session, idle, state: SearchState::Resting },
            Action::Session(rest(SEARCH_REST, idle)),
        )
    }

    /// Goes on with a lease.
    fn go_on(session: Tr4ker, idle: u32, job: SearchJob) -> (r: (
        SearchLane,
        Action<SearchSubmit>,
    ))
        ensures
            forall|lane: SearchView|
                lane.session == session@ && lane.idle == idle ==> (r.0@, r.1@)
                    == #[trigger] lane.going_on(job@),
    {
        if job.done < job.items.len() {
            (
                SearchLane {
                    session,
                    idle,
                    state: SearchState::Searching { job, phase: Phase::Cooldown },
                },
                Action::Session(Ask::Clock),
            )
        } else {
            let result = submit_search(&session.cfg, job);
            (
                SearchLane { session, idle, state: SearchState::Submitting },
                Action::Submit(result),
            )
        }
    }

    /// Takes the lane one step on: from what has happened to what is to be done next.
    pub fn step(self, event: Event) -> (r: (SearchLane, Action<SearchSubmit>))
        requires
            self@.wf(),
        ensures
            (r.0@, r.1@) == self@.stepped(event@),
            r.0@.wf(),
    {
        proof {
            law_lane_stays_well_formed(self@, event@);
        }
        let SearchLane { mut session, idle, state } = self;
        match state {
            SearchState::Leasing => match event {
                Event::Leased(Some(lease)) => if lease.items.len() > 0 {
                    Self::go_on(session, 0, SearchJob::begin(lease))
                } else {
                    Self::rest(session, idle)
                },
                _ => Self::rest(session, idle),
            },
            SearchState::Resting => Self::lease(session, idle),
            SearchState::Submitting => Self::lease(session, idle),
            SearchState::Searching { mut job, phase } => match event {
                Event::Session(signal) => {
                    let path = path_of_search(job.items[job.done].as_str());
                    let (phase, step) = session.get(path.as_str(), phase, signal);
                    match step {
                        Step::Ask(ask) => (
                            SearchLane {
                                session,
                                idle,
                                state: SearchState::Searching { job, phase },
                            },
                            Action::Session(ask),
                        ),
                        Step::Done(fetch) => {
                            job.record(search_prefix(&fetch));
                            Self::go_on(session, idle, job)
                        },
                    }
                },
                _ => {
                    job.record(None);
                    Self::go_on(session, idle, job)
                },
            },
        }
    }
}

/// One outcome more: the lists that show the outcomes so far go on to show them all.
proof fn lemma_recorded(
    job: SearchJobView,
    outs: Seq<Option<Seq<Seq<char>>>>,
    out: Option<Seq<Seq<char>>>,
)
    requires
        job.shows(outs),
        job.done < job.items.len(),
    ensures
        job.recorded(out).shows(outs.push(out)),
{
    assert(outs.push(out).drop_last() =~= outs);
}

/// Whatever happens, the lane stays well formed.
pub proof fn law_lane_stays_well_formed(lane: SearchView, event: EventView)
    requires
        lane.wf(),
    ensures
        lane.stepped(event).0.wf(),
{
    match (lane.state, event) {
        (SearchStateView::Leasing, EventView::Leased(Some(lease))) => {
            let job = SearchJobView::begun(lease);
            assert(job.shows(Seq::empty()));
        },
        (SearchStateView::Searching { job, phase }, EventView::Session(signal)) => {
            let outs = choose|outs: Seq<Option<Seq<Seq<char>>>>| job.shows(outs);
            let path = search_path(job.prefix());
            law_session_stays_well_formed(lane.session, path, phase, signal);
            let (session, phase, step) = lane.session.got(path, phase, signal);
            let on = SearchView { session, ..lane };
            match step {
                StepView::Ask(ask) => {
                    assert(lane.stepped(event).0.state->job == job);
                },
                StepView::Done(fetch) => {
                    lemma_recorded(job, outs, found_names(fetch));
                    assert(on.going_on(job.recorded(found_names(fetch))).0.wf());
                },
            }
        },
        (SearchStateView::Searching { job, phase }, _) => {
            let outs = choose|outs: Seq<Option<Seq<Seq<char>>>>| job.shows(outs);
            lemma_recorded(job, outs, None);
        },
        _ => {},
    }
}

/// The prefixes that findings are about.
pub open spec fn prefixes_of(list: Seq<PrefixUsersView>) -> Seq<Seq<char>> {
    Seq::new(list.len(), |i: int| list[i].prefix)
}

/// A result accounts for prefixes: each of them stands in it once, as often as it was given out,
/// with the names found for it or among the failures, and nothing else does.
pub open spec fn accounts_for(result: SearchSubmitView, items: Seq<Seq<char>>) -> bool {
    prefixes_of(result.search_results).to_multiset().add(result.failed.to_multiset())
        == items.to_multiset()
}

/// The lists that outcomes make of the prefixes hold each prefix once.
proof fn lemma_outcomes_account(items: Seq<Seq<char>>, outs: Seq<Option<Seq<Seq<char>>>>)
    requires
        outs.len() <= items.len(),
    ensures
        prefixes_of(found_of(items, outs)).to_multiset().add(
            unsearched_of(items, outs).to_multiset(),
        ) =~= items.take(outs.len() as int).to_multiset(),
    decreases outs.len(),
{
    broadcast use vstd::seq_lib::group_to_multiset_ensures;

    if outs.len() == 0 {
        assert(prefixes_of(found_of(items, outs)) =~= Seq::empty());
        assert(items.take(0) =~= Seq::empty());
    } else {
        let before = outs.drop_last();
        let n = before.len() as int;
        lemma_outcomes_account(items, before);
        assert(items.take(n + 1) =~= items.take(n).push(items[n]));
        if outs.last() is Some {
            assert(prefixes_of(found_of(items, outs)) =~= prefixes_of(
                found_of(items, before),
            ).push(items[n]));
        }
    }
}

/// A result that the lane hands in is that of the lease it was working on, and accounts for the
/// prefixes of that lease.
pub proof fn law_result_accounts_for_lease(lane: SearchView, event: EventView)
    requires
        lane.wf(),
        lane.stepped(event).1 is Submit,
    ensures
        lane.state is Searching,
        lane.stepped(event).1->Submit_0.lease_id == lane.state->job.lease_id,
        accounts_for(lane.stepped(event).1->Submit_0, lane.state->job.items),
        exists|outs: Seq<Option<Seq<Seq<char>>>>|
            {
                &&& outs.len() == lane.state->job.items.len()
                &&& lane.stepped(event).1->Submit_0.search_results == #[trigger] found_of(
                    lane.state->job.items,
                    outs,
                )
                &&& lane.stepped(event).1->Submit_0.failed == unsearched_of(
                    lane.state->job.items,
                    outs,
                )
            },
{
    let job = lane.state->job;
    let phase = lane.state->phase;
    let outs = choose|outs: Seq<Option<Seq<Seq<char>>>>| job.shows(outs);
    let out = match event {
        EventView::Session(signal) => found_names(
            lane.session.got(search_path(job.prefix()), phase, signal).2->Done_0,
        ),
        _ => None,
    };
    lemma_recorded(job, outs, out);
    let all = outs.push(out);
    lemma_outcomes_account(job.items, all);
    assert(job.items.take(all.len() as int) =~= job.items);
    assert(lane.stepped(event).1->Submit_0.search_results == found_of(job.items, all));
}

/// While the lane works on a lease it stays with it: each step either goes on with the same lease,
/// at the same prefix or the next, or hands in the result.
pub proof fn law_lane_stays_with_its_lease(lane: SearchView, event: EventView)
    requires
        lane.wf(),
        lane.state is Searching,
    ensures
        lane.stepped(event).1 is Submit || {
            let next = lane.stepped(event).0.state;
            &&& next is Searching
            &&& next->job.lease_id == lane.state->job.lease_id
            &&& next->job.items == lane.state->job.items
            &&& lane.state->job.done <= next->job.done <= lane.state->job.done + 1
        },
        lane.stepped(event).1 is Submit ==> lane.stepped(event).0.state is Submitting,
{
}

/// The lane after a row of events.
pub open spec fn ran(lane: SearchView, events: Seq<EventView>) -> SearchView
    decreases events.len(),
{
    if events.len() == 0 {
        lane
    } else {
        ran(lane, events.drop_last()).stepped(events.last()).0
    }
}

/// A lease that a well formed lane takes on is answered under its own name: the first result that
/// the lane hands in afterwards, whatever events come in between, accounts for its prefixes.
pub proof fn law_lease_is_answered(
    lane: SearchView,
    lease: LeaseView,
    events: Seq<EventView>,
    last: EventView,
)
    requires
        lane.wf(),
        lane.state is Leasing,
        lease.items.len() > 0,
        forall|n: int|
            0 <= n < events.len() ==> !(ran(
                lane.stepped(EventView::Leased(Some(lease))).0,
                #[trigger] events.take(n),
            ).stepped(events[n]).1 is Submit),
        ran(lane.stepped(EventView::Leased(Some(lease))).0, events).stepped(last).1 is Submit,
    ensures
        ({
            let result = ran(
                lane.stepped(EventView::Leased(Some(lease))).0,
                events,
            ).stepped(last).1->Submit_0;
            result.lease_id == lease.lease_id && accounts_for(result, lease.items)
        }),
{
    let start = lane.stepped(EventView::Leased(Some(lease))).0;
    law_lane_stays_well_formed(lane, EventView::Leased(Some(lease)));
    lemma_run_stays_with_lease(start, lease, events);
    law_result_accounts_for_lease(ran(start, events), last);
}

/// Without a result handed in, a row of events leaves the lane with its lease.
proof fn lemma_run_stays_with_lease(start: SearchView, lease: LeaseView, events: Seq<EventView>)
    requires
        start.wf(),
        start.state is Searching,
        start.state->job.lease_id == lease.lease_id,
        start.state->job.items == lease.items,
        forall|n: int|
            0 <= n < events.len() ==> !(ran(start, #[trigger] events.take(n)).stepped(
                events[n],
            ).1 is Submit),
    ensures
        ran(start, events).wf(),
        ran(start, events).state is Searching,
        ran(start, events).state->job.lease_id == lease.lease_id,
        ran(start, events).state->job.items == lease.items,
    decreases events.len(),
{
    if events.len() > 0 {
        let before = events.drop_last();
        assert forall|n: int| 0 <= n < before.len() implies !(ran(
            start,
            #[trigger] before.take(n),
        ).stepped(before[n]).1 is Submit) by {
            assert(before.take(n) =~= events.take(n));
        }
        lemma_run_stays_with_lease(start, lease, before);
        assert(events.take(events.len() - 1) =~= before);
        law_lane_stays_well_formed(ran(start, before), events.last());
        law_lane_stays_with_its_lease(ran(start, before), events.last());
    }
}

/// A lane without work rests for ten seconds more each time, two minutes at most; work that comes
/// makes it begin anew.
pub proof fn law_rests_grow_and_are_bounded(lane: SearchView, event: EventView)
    requires
        lane.wf(),
        lane.state is Leasing,
    ensures
        match event {
            EventView::Leased(Some(lease)) => lease.items.len() > 0,
            _ => false,
        } ==> lane.stepped(event).0.idle == 0 && lane.stepped(event).0.state is Searching,
        !(match event {
            EventView::Leased(Some(lease)) => lease.items.len() > 0,
            _ => false,
        }) ==> {
            let nanos = lane.stepped(event).1->Session_0->nanos;
            &&& lane.stepped(event).1 is Session
            &&& lane.stepped(event).1->Session_0 is Sleep
            &&& nanos == if lane.idle < 12 {
                10_000_000_000 * (lane.idle + 1)
            } else {
                120_000_000_000
            }
            &&& lane.stepped(event).0.state is Resting
        },
{
}

/// How many events the lane can still take before it has handed in the result of its lease.
pub open spec fn events_left(lane: SearchView) -> int {
    match lane.state {
        SearchStateView::Searching { job, phase } => 5 * (job.items.len() - job.done) - rank(phase),
        _ => 0,
    }
}

/// Every event takes the work on a lease further.
proof fn lemma_events_make_progress(lane: SearchView, event: EventView)
    requires
        lane.wf(),
        lane.state is Searching,
    ensures
        0 < events_left(lane),
        !(lane.stepped(event).1 is Submit) ==> events_left(lane.stepped(event).0) < events_left(
            lane,
        ),
{
    let job = lane.state->job;
    match event {
        EventView::Session(signal) => {
            law_requests_come_to_an_end(
                lane.session,
                search_path(job.prefix()),
                lane.state->phase,
                signal,
            );
        },
        _ => {},
    }
}

/// The work on a lease comes to an end: five events for each of its prefixes are always enough for
/// the lane to hand in a result.
pub proof fn law_lease_is_answered_in_time(
    lane: SearchView,
    lease: LeaseView,
    events: Seq<EventView>,
)
    requires
        lane.wf(),
        lane.state is Leasing,
        0 < lease.items.len(),
        5 * lease.items.len() <= events.len(),
    ensures
        exists|n: int|
            0 <= n < events.len() && ran(
                lane.stepped(EventView::Leased(Some(lease))).0,
                #[trigger] events.take(n),
            ).stepped(events[n]).1 is Submit,
{
    let start = lane.stepped(EventView::Leased(Some(lease))).0;
    law_lane_stays_well_formed(lane, EventView::Leased(Some(lease)));
    if forall|n: int|
        0 <= n < events.len() ==> !(ran(start, #[trigger] events.take(n)).stepped(
            events[n],
        ).1 is Submit) {
        lemma_run_uses_up_events(start, lease, events);
        lemma_run_stays_with_lease(start, lease, events);
        lemma_events_make_progress(ran(start, events), EventView::Submitted);
    }
}

/// Each event of a row that hands in no result is one event less that the lane can still take.
proof fn lemma_run_uses_up_events(start: SearchView, lease: LeaseView, events: Seq<EventView>)
    requires
        start.wf(),
        start.state is Searching,
        start.state->job.lease_id == lease.lease_id,
        start.state->job.items == lease.items,
        forall|n: int|
            0 <= n < events.len() ==> !(ran(start, #[trigger] events.take(n)).stepped(
                events[n],
            ).1 is Submit),
    ensures
        events_left(ran(start, events)) + events.len() <= events_left(start),
    decreases events.len(),
{
    if events.len() > 0 {
        let before = events.drop_last();
        assert forall|n: int| 0 <= n < before.len() implies !(ran(
            start,
            #[trigger] before.take(n),
        ).stepped(before[n]).1 is Submit) by {
            assert(before.take(n) =~= events.take(n));
        }
        lemma_run_uses_up_events(start, lease, before);
        lemma_run_stays_with_lease(start, lease, before);
        assert(events.take(events.len() - 1) =~= before);
        lemma_events_make_progress(ran(start, before), events.last());
    }
}

/// Nothing that happens changes the settings of the lane: every request for work is for its own
/// kind, and work is asked for and results are handed in with its token, at its ladder.
pub proof fn law_lane_keeps_to_its_ladder(lane: SearchView, event: EventView)
    ensures
        lane.stepped(event).0.session.cfg == lane.session.cfg,
        lane.stepped(event).1 matches ActionView::Lease(request) ==> request
            == lane.session.cfg.lease_request("search"@),
        lane.stepped(event).1 matches ActionView::Submit(result) ==> {
            &&& result.url == lane.session.cfg.submit_url()
            &&& result.token == lane.session.cfg.token
        },
{
}

/// The lane begins by asking for prefixes, in a session of its own.
pub proof fn law_lane_begins_by_asking(cfg: CfgView)
    ensures
        SearchView::opened(cfg).session == SessionView::opened(cfg, "search"@),
        SearchView::opened(cfg).idle == 0,
        SearchView::opened(cfg).state is Leasing,
        SearchView::opened(cfg).ask_for_work() == ActionView::<SearchSubmitView>::Lease(
            cfg.lease_request("search"@),
        ),
{
}

/// A lease with items is taken up as it is: the lane turns to the first of its prefixes, with nothing
/// in the lists yet and all of the items before it.
pub proof fn law_lease_is_taken_up(lane: SearchView, lease: LeaseView)
    requires
        lane.state is Leasing,
        lease.items.len() > 0,
    ensures
        lane.stepped(EventView::Leased(Some(lease))) == (
            SearchView {
                session: lane.session,
                idle: 0,
                state: SearchStateView::Searching {
                    job: SearchJobView {
                        lease_id: lease.lease_id,
                        items: lease.items,
                        done: 0,
                        search_results: Seq::empty(),
                        failed: Seq::empty(),
                    },
                    phase: Phase::Cooldown,
                },
            },
            ActionView::<SearchSubmitView>::Session(AskView::Clock),
        ),
{
}

/// Where no work comes the lane rests and counts that, and nothing else changes.
pub proof fn law_lane_without_work_rests(lane: SearchView, event: EventView)
    requires
        lane.state is Leasing,
        !(event matches EventView::Leased(Some(lease)) && lease.items.len() > 0),
    ensures
        lane.stepped(event) == (
            SearchView {
                session: lane.session,
                idle: idler(lane.idle),
                state: SearchStateView::Resting,
            },
            ActionView::<SearchSubmitView>::Session(
                AskView::Sleep { nanos: rest_nanos(10, idler(lane.idle)) },
            ),
        ),
{
}

/// After a rest, and after a result was handed in, the lane asks for prefixes again, and nothing else
/// changes.
pub proof fn law_lane_asks_again(lane: SearchView, event: EventView)
    requires
        lane.state is Resting || lane.state is Submitting,
    ensures
        lane.stepped(event) == (
            SearchView {
                session: lane.session,
                idle: lane.idle,
                state: SearchStateView::Leasing,
            },
            ActionView::<SearchSubmitView>::Lease(lane.session.cfg.lease_request("search"@)),
        ),
{
}

/// The step that the search for the current prefix takes with a signal: that of the request for the
/// page which stands under the prefix.
pub open spec fn search_step(lane: SearchView, signal: SignalView) -> (
    SessionView,
    Phase,
    StepView,
) {
    let job = lane.state->job;
    lane.session.got(
        "/api/users/search?q="@ + text::encoded(job.items[job.done as int]),
        lane.state->phase,
        signal,
    )
}

/// While the search for a prefix is under way the lane does what it asks for, and its lists stay.
pub proof fn law_lane_does_what_the_search_asks(lane: SearchView, signal: SignalView)
    requires
        lane.state is Searching,
        search_step(lane, signal).2 is Ask,
    ensures
        ({
            let (session, phase, step) = search_step(lane, signal);
            lane.stepped(EventView::Session(signal)) == (
                SearchView {
                    session,
                    idle: lane.idle,
                    state: SearchStateView::Searching { job: lane.state->job, phase },
                },
                ActionView::<SearchSubmitView>::Session(step->Ask_0),
            )
        }),
{
}

/// What came of the search for the current prefix with an event, if it ended: the names that its page
/// gives, or a failure, which is also what an event gives that is none for the session.
pub open spec fn outcome(lane: SearchView, event: EventView) -> Option<Option<Seq<Seq<char>>>> {
    match lane.state {
        SearchStateView::Searching { job, phase } => match event {
            EventView::Session(signal) => match search_step(lane, signal).2 {
                StepView::Done(fetch) => Some(found_names(fetch)),
                StepView::Ask(_) => None,
            },
            _ => Some(None),
        },
        _ => None,
    }
}

/// The lists with one prefix more hold the outcome of its search, at the end of the list in which it
/// belongs, and are otherwise as they were.
pub open spec fn takes_down(
    search_results: (Seq<PrefixUsersView>, Seq<PrefixUsersView>),
    failed: (Seq<Seq<char>>, Seq<Seq<char>>),
    prefix: Seq<char>,
    out: Option<Seq<Seq<char>>>,
) -> bool {
    match out {
        Some(users) => {
            &&& search_results.1 == search_results.0.push(PrefixUsersView { prefix, users })
            &&& failed.1 == failed.0
        },
        None => {
            &&& search_results.1 == search_results.0
            &&& failed.1 == failed.0.push(prefix)
        },
    }
}

/// When the search for a prefix ends, at whatever place of the lease, exactly its outcome is taken
/// down for that prefix: then the lane turns to the next prefix, or, past the last, hands in the
/// lists.
pub proof fn law_outcome_is_taken_down(lane: SearchView, event: EventView)
    requires
        lane.state matches SearchStateView::Searching { job, phase } ==> job.done
            < job.items.len(),
        outcome(lane, event) is Some,
    ensures
        ({
            let job = lane.state->job;
            let prefix = job.items[job.done as int];
            let out = outcome(lane, event)->Some_0;
            let (next, action) = lane.stepped(event);
            if job.done + 1 < job.items.len() {
                &&& next.state matches SearchStateView::Searching { job: after, phase } && {
                    &&& after.lease_id == job.lease_id
                    &&& after.items == job.items
                    &&& after.done == job.done + 1
                    &&& takes_down(
                        (job.search_results, after.search_results),
                        (job.failed, after.failed),
                        prefix,
                        out,
                    )
                    &&& phase is Cooldown
                }
                &&& action == ActionView::<SearchSubmitView>::Session(AskView::Clock)
            } else {
                &&& next.state is Submitting
                &&& action matches ActionView::Submit(result) && {
                    &&& result.url == lane.session.cfg.ladder + "/api/worker/submit"@
                    &&& result.token == lane.session.cfg.token
                    &&& result.lease_id == job.lease_id
                    &&& takes_down(
                        (job.search_results, result.search_results),
                        (job.failed, result.failed),
                        prefix,
                        out,
                    )
                    &&& result.users_found == users_in(result.search_results)
                }
            }
        }),
        lane.stepped(event).0.idle == lane.idle,
        lane.stepped(event).0.session == match event {
            EventView::Session(signal) => search_step(lane, signal).0,
            _ => lane.session,
        },
{
}

/// The outcomes of the searches that ended during a row of events, in their order.
pub open spec fn outcomes(
    lane: SearchView,
    events: Seq<EventView>,
) -> Seq<Option<Seq<Seq<char>>>>
    decreases events.len(),
{
    if events.len() == 0 {
        Seq::empty()
    } else {
        let before = outcomes(lane, events.drop_last());
        match outcome(ran(lane, events.drop_last()), events.last()) {
            Some(out) => before.push(out),
            None => before,
        }
    }
}

/// Outcomes make lists of the prefixes one by one.
pub proof fn law_lists_follow_the_outcomes(
    items: Seq<Seq<char>>,
    outs: Seq<Option<Seq<Seq<char>>>>,
    out: Option<Seq<Seq<char>>>,
)
    ensures
        takes_down(
            (found_of(items, outs), found_of(items, outs.push(out))),
            (unsearched_of(items, outs), unsearched_of(items, outs.push(out))),
            items[outs.len() as int],
            out,
        ),
        found_of(items, Seq::empty()).len() == 0,
        unsearched_of(items, Seq::empty()).len() == 0,
{
    assert(outs.push(out).drop_last() =~= outs);
}

/// Every name that was found is counted once, for each prefix that it was found for.
pub proof fn law_found_users_add_up(list: Seq<PrefixUsersView>, more: PrefixUsersView)
    ensures
        users_in(Seq::empty()) == 0,
        users_in(list.push(more)) == users_in(list) + more.users.len(),
{
    assert(list.push(more).drop_last() =~= list);
}

/// Without a result handed in, the lists of the lane show the outcomes of its searches.
proof fn lemma_run_shows_outcomes(lane: SearchView, lease: LeaseView, events: Seq<EventView>)
    requires
        lane.wf(),
        lane.state is Leasing,
        lease.items.len() > 0,
        forall|n: int|
            0 <= n < events.len() ==> !(ran(
                lane.stepped(EventView::Leased(Some(lease))).0,
                #[trigger] events.take(n),
            ).stepped(events[n]).1 is Submit),
    ensures
        ({
            let start = lane.stepped(EventView::Leased(Some(lease))).0;
            &&& ran(start, events).wf()
            &&& ran(start, events).state is Searching
            &&& ran(start, events).state->job.items == lease.items
            &&& ran(start, events).state->job.shows(outcomes(start, events))
        }),
    decreases events.len(),
{
    let start = lane.stepped(EventView::Leased(Some(lease))).0;
    law_lane_stays_well_formed(lane, EventView::Leased(Some(lease)));
    lemma_run_stays_with_lease(start, lease, events);
    if events.len() == 0 {
        assert(start.state->job.shows(Seq::empty()));
    } else {
        let before = events.drop_last();
        assert forall|n: int| 0 <= n < before.len() implies !(ran(
            start,
            #[trigger] before.take(n),
        ).stepped(before[n]).1 is Submit) by {
            assert(before.take(n) =~= events.take(n));
        }
        lemma_run_shows_outcomes(lane, lease, before);
        assert(events.take(events.len() - 1) =~= before);
        let here = ran(start, before);
        let outs = outcomes(start, before);
        let job = here.state->job;
        if outcome(here, events.last()) is Some {
            let out = outcome(here, events.last())->Some_0;
            lemma_recorded(job, outs, out);
            assert(ran(start, events).state->job == job.recorded(out));
        } else {
            assert(ran(start, events).state->job == job);
        }
    }
}

/// The result of a lease tells how the searches for its prefixes ended, prefix by prefix: the names
/// are those that the searches gave, and the failures are the prefixes whose searches failed.
pub proof fn law_result_tells_how_the_searches_ended(
    lane: SearchView,
    lease: LeaseView,
    events: Seq<EventView>,
    last: EventView,
)
    requires
        lane.wf(),
        lane.state is Leasing,
        lease.items.len() > 0,
        forall|n: int|
            0 <= n < events.len() ==> !(ran(
                lane.stepped(EventView::Leased(Some(lease))).0,
                #[trigger] events.take(n),
            ).stepped(events[n]).1 is Submit),
        ran(lane.stepped(EventView::Leased(Some(lease))).0, events).stepped(last).1 is Submit,
    ensures
        ({
            let start = lane.stepped(EventView::Leased(Some(lease))).0;
            let result = ran(start, events).stepped(last).1->Submit_0;
            let outs = outcomes(start, events.push(last));
            &&& outs.len() == lease.items.len()
            &&& result.search_results == found_of(lease.items, outs)
            &&& result.failed == unsearched_of(lease.items, outs)
        }),
{
    let start = lane.stepped(EventView::Leased(Some(lease))).0;
    lemma_run_shows_outcomes(lane, lease, events);
    let here = ran(start, events);
    assert(events.push(last).drop_last() =~= events);
    let out = outcome(here, last)->Some_0;
    lemma_recorded(here.state->job, outcomes(start, events), out);
}

/// A result is seen as all that it holds.
pub proof fn law_results_are_seen_whole(result: SearchSubmit)
    ensures
        result@.url == result.url@,
        result@.token == result.token@,
        result@.lease_id == result.lease_id@,
        result@.search_results.len() == result.search_results@.len(),
        forall|i: int|
            0 <= i < result.search_results@.len() ==> #[trigger] result@.search_results[i]
                == (PrefixUsersView {
                prefix: result.search_results@[i].prefix@,
                users: text::texts(result.search_results@[i].users@),
            }),
        result@.failed == text::texts(result.failed@),
        result@.users_found == result.users_found,
{
}

} // verus!
