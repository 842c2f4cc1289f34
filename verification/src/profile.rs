//! What is read of users: samples of their profiles and badges, and searches for their names.

use vstd::prelude::*;

use crate::json::{
    documents, holds, ival, ival_of, lacks, law_fields_are_found_by_name, law_integers_are_read,
    law_texts_are_read, sval, sval_of, Json, JsonView,
};
use crate::session::{
    Ask, AskView, Fetch, FetchView, Phase, SessionView, Signal, SignalView, Step, StepView, Tr4ker,
};
use crate::text;

verus! {

/// What the tracker says of a user, and when it said so.
pub struct Sample {
    pub username: String,
    pub id: i64,
    pub role: Option<String>,
    pub uploaded: i64,
    pub downloaded: i64,
    pub bonus_upload: i64,
    pub seeding_count: i64,
    pub joined_at: Option<String>,
    pub last_seen_at: Option<String>,
    pub upload_tier: Option<i64>,
    pub scraped_at: u64,
}

/// What `Sample` holds.
pub struct SampleView {
    pub username: Seq<char>,
    pub id: i64,
    pub role: Option<Seq<char>>,
    pub uploaded: i64,
    pub downloaded: i64,
    pub bonus_upload: i64,
    pub seeding_count: i64,
    pub joined_at: Option<Seq<char>>,
    pub last_seen_at: Option<Seq<char>>,
    pub upload_tier: Option<i64>,
    pub scraped_at: u64,
}

impl View for Sample {
    type V = SampleView;

    open spec fn view(&self) -> SampleView {
        SampleView {
            username: self.username@,
            id: self.id,
            role: text::opt_text(self.role),
            uploaded: self.uploaded,
            downloaded: self.downloaded,
            bonus_upload: self.bonus_upload,
            seeding_count: self.seeding_count,
            joined_at: text::opt_text(self.joined_at),
            last_seen_at: text::opt_text(self.last_seen_at),
            upload_tier: self.upload_tier,
            scraped_at: self.scraped_at,
        }
    }
}

/// How the scrape of a user ended: with a sample, with the news that there is no such user, or
/// with a failure that may pass.
pub enum ScrapeOut {
    Scraped(Sample),
    Gone,
    Fail,
}

/// What `ScrapeOut` holds.
pub enum ScrapeOutView {
    Scraped(SampleView),
    Gone,
    Fail,
}

impl View for ScrapeOut {
    type V = ScrapeOutView;

    open spec fn view(&self) -> ScrapeOutView {
        match *self {
            ScrapeOut::Scraped(sample) => ScrapeOutView::Scraped(sample@),
            ScrapeOut::Gone => ScrapeOutView::Gone,
            ScrapeOut::Fail => ScrapeOutView::Fail,
        }
    }
}

/// Where the profile of a user stands.
pub open spec fn profile_path(name: Seq<char>) -> Seq<char> {
    "/api/users/"@ + text::encoded(name)
}

/// Where the badges of a user stand.
pub open spec fn badges_path(name: Seq<char>) -> Seq<char> {
    profile_path(name) + "/badges"@
}

/// Where the users whose names start with `prefix` stand.
pub open spec fn search_path(prefix: Seq<char>) -> Seq<char> {
    "/api/users/search?q="@ + text::encoded(prefix)
}

/// The items that a document lists: its own where it is an array, else those under `key`, or
/// under `data` where there is no `key`.
pub open spec fn listed(d: JsonView, key: Seq<char>) -> Seq<JsonView> {
    match d.as_array() {
        Some(items) => items,
        None => {
            let inner = if d.field(key) is Some {
                d.field(key)
            } else {
                d.field("data"@)
            };
            match inner {
                Some(inner) => match inner.as_array() {
                    Some(items) => items,
                    None => Seq::empty(),
                },
                None => Seq::empty(),
            }
        },
    }
}

/// The tier that the name of a badge stands for: of a badge for uploads, the number that its
/// digits write, or else one where it is the first; zero of every other.
pub open spec fn badge_level(name: Seq<char>) -> i64 {
    if !text::contains_text(name, "Upload"@) {
        0
    } else {
        match text::digits_up_to(text::digits_of(name), i64::MAX as int) {
            Some(n) => n as i64,
            None => if text::contains_text(name, "Premier"@) {
                1
            } else {
                0
            },
        }
    }
}

/// The name of a badge; empty where it has none.
pub open spec fn badge_name(badge: JsonView) -> Seq<char> {
    match sval_of(badge, "name"@) {
        Some(name) => name,
        None => Seq::empty(),
    }
}

/// The highest tier among badges; zero where there is none.
pub open spec fn highest_level(badges: Seq<JsonView>) -> i64
    decreases badges.len(),
{
    if badges.len() == 0 {
        0
    } else {
        let rest = highest_level(badges.drop_last());
        let last = badge_level(badge_name(badges.last()));
        if last > rest {
            last
        } else {
            rest
        }
    }
}

/// The upload tier that the badges of a user show; unknown where they could not be fetched.
pub open spec fn tier_of(badges: FetchView) -> Option<i64> {
    match badges {
        FetchView::Found(d) => Some(highest_level(listed(d, "badges"@))),
        _ => None,
    }
}

/// The names of those users that have one, in their order.
pub open spec fn usernames(users: Seq<JsonView>) -> Seq<Seq<char>>
    decreases users.len(),
{
    if users.len() == 0 {
        Seq::empty()
    } else {
        match sval_of(users.last(), "username"@) {
            Some(name) => usernames(users.drop_last()).push(name),
            None => usernames(users.drop_last()),
        }
    }
}

/// The names that a search found: none where there is no such page, unknown where it failed.
pub open spec fn found_names(fetch: FetchView) -> Option<Seq<Seq<char>>> {
    match fetch {
        FetchView::Found(d) => Some(usernames(listed(d, "users"@))),
        FetchView::Gone => Some(Seq::empty()),
        FetchView::Fail => None,
    }
}

/// The sample that a profile gives.
pub open spec fn sample_of(
    name: Seq<char>,
    id: i64,
    profile: JsonView,
    tier: Option<i64>,
    now: u64,
) -> SampleView {
    SampleView {
        username: name,
        id,
        role: sval_of(profile, "role"@),
        uploaded: ival_of(profile, "uploaded"@),
        downloaded: ival_of(profile, "downloaded"@),
        bonus_upload: ival_of(profile, "bonus_upload"@),
        seeding_count: ival_of(profile, "seeding_count"@),
        joined_at: sval_of(profile, "joined_at"@),
        last_seen_at: sval_of(profile, "last_seen_at"@),
        upload_tier: tier,
        scraped_at: now,
    }
}

/// The number of a user, where the profile says it.
pub open spec fn user_id(profile: JsonView) -> Option<i64> {
    match profile.field("id"@) {
        Some(v) => v.as_i64(),
        None => None,
    }
}

/// Where the profile of a user stands.
fn path_of_profile(name: &str) -> (r: String)
    ensures
        r@ == profile_path(name@),
{
    text::join("/api/users/", text::enc(name).as_str())
}

/// Where the badges of a user stand.
fn path_of_badges(name: &str) -> (r: String)
    ensures
        r@ == badges_path(name@),
{
    text::join(path_of_profile(name).as_str(), "/badges")
}

/// Where the users whose names start with `prefix` stand.
pub fn path_of_search(prefix: &str) -> (r: String)
    ensures
        r@ == search_path(prefix@),
{
    text::join("/api/users/search?q=", text::enc(prefix).as_str())
}

/// The items that a document lists; nothing in place of an empty list that it does not hold.
fn list_in<'a>(d: &'a Json, key: &str) -> (r: Option<&'a Vec<Json>>)
    ensures
        r is Some ==> documents(r->Some_0@) == listed(d@, key@),
        r is None ==> listed(d@, key@).len() == 0,
{
    match d.as_array() {
        Some(items) => Some(items),
        None => {
            let inner = match d.field(key) {
                Some(inner) => Some(inner),
                None => d.field("data"),
            };
            match inner {
                Some(inner) => inner.as_array(),
                None => None,
            }
        },
    }
}

/// The tier that the name of a badge stands for.
pub fn level_of(name: &str) -> (r: i64)
    ensures
        r == badge_level(name@),
{
    if !text::contains(name, "Upload") {
        return 0;
    }
    let digits = text::digits_in(name);
    assert(digits@.skip(0) =~= digits@);
    match text::parse_digits(&digits, 0, i64::MAX as u64) {
        Some(n) => n as i64,
        None => if text::contains(name, "Premier") {
            1
        } else {
            0
        },
    }
}

/// The upload tier that the badges of a user show.
pub fn badge_tier(badges: &Fetch) -> (r: Option<i64>)
    ensures
        r == tier_of(badges@),
{
    match badges {
        Fetch::Found(d) => {
            let ghost said = listed(d@, "badges"@);
            let mut top: i64 = 0;
            match list_in(d, "badges") {
                Some(items) => {
                    let mut i: usize = 0;
                    while i < items.len()
                        invariant
                            documents(items@) == said,
                            i <= items@.len(),
                            top == highest_level(said.take(i as int)),
                        decreases items@.len() - i,
                    {
                        assert(said.take(i + 1).drop_last() =~= said.take(i as int));
                        assert(said.take(i + 1).last() == items@[i as int]@);
                        let level = match sval(&items[i], "name") {
                            Some(name) => level_of(name.as_str()),
                            None => level_of(""),
                        };
                        proof {
                            reveal_strlit("");
                            assert(""@ =~= Seq::<char>::empty());
                        }
                        if level > top {
                            top = level;
                        }
                        i = i + 1;
                    }
                    assert(said.take(i as int) =~= said);
                },
                None => {},
            }
            Some(top)
        },
        _ => None,
    }
}

/// The names that a search found.
pub fn search_prefix(fetch: &Fetch) -> (r: Option<Vec<String>>)
    ensures
        r is Some <==> found_names(fetch@) is Some,
        r is Some ==> text::texts(r->Some_0@) == found_names(fetch@)->Some_0,
{
    match fetch {
        Fetch::Found(d) => {
            let ghost said = listed(d@, "users"@);
            let mut names: Vec<String> = Vec::new();
            assert(text::texts(names@) =~= usernames(said.take(0)));
            match list_in(d, "users") {
                Some(items) => {
                    let mut i: usize = 0;
                    while i < items.len()
                        invariant
                            documents(items@) == said,
                            i <= items@.len(),
                            text::texts(names@) == usernames(said.take(i as int)),
                        decreases items@.len() - i,
                    {
                        assert(said.take(i + 1).drop_last() =~= said.take(i as int));
                        assert(said.take(i + 1).last() == items@[i as int]@);
                        let ghost before = names@;
                        match sval(&items[i], "username") {
                            Some(name) => {
                                names.push(name);
                                assert(text::texts(names@) =~= text::texts(before).push(name@));
                            },
                            None => {},
                        }
                        i = i + 1;
                    }
                    assert(said.take(i as int) =~= said);
                },
                None => {
                    assert(said.take(0) =~= said);
                },
            }
            Some(names)
        },
        Fetch::Gone => {
            let none: Vec<String> = Vec::new();
            assert(text::texts(none@) =~= Seq::empty());
            Some(none)
        },
        Fetch::Fail => None,
    }
}

/// The number of a user, where the profile says it.
fn id_of(profile: &Json) -> (r: Option<i64>)
    ensures
        r == user_id(profile@),
{
    match profile.field("id") {
        Some(v) => v.as_i64(),
        None => None,
    }
}

/// The sample that a profile gives.
fn sample(name: &str, id: i64, profile: &Json, tier: Option<i64>, now: u64) -> (r: Sample)
    ensures
        r@ == sample_of(name@, id, profile@, tier, now),
{
    Sample {
        username: name.to_owned(),
        id,
        role: sval(profile, "role"),
        uploaded: ival(profile, "uploaded"),
        downloaded: ival(profile, "downloaded"),
        bonus_upload: ival(profile, "bonus_upload"),
        seeding_count: ival(profile, "seeding_count"),
        joined_at: sval(profile, "joined_at"),
        last_seen_at: sval(profile, "last_seen_at"),
        upload_tier: tier,
        scraped_at: now,
    }
}

/// Which document a scrape asks for: the profile, or the badges of a user whose profile is known.
pub enum Part {
    Profile,
    Badges { id: i64, profile: Json },
}

/// What `Part` holds.
pub enum PartView {
    Profile,
    Badges { id: i64, profile: JsonView },
}

impl View for Part {
    type V = PartView;

    open spec fn view(&self) -> PartView {
        match *self {
            Part::Profile => PartView::Profile,
            Part::Badges { id, profile } => PartView::Badges { id, profile: profile@ },
        }
    }
}

/// The scrape of a user that is under way.
pub struct Scrape {
    pub name: String,
    pub part: Part,
    pub phase: Phase,
}

/// What `Scrape` holds.
pub struct ScrapeView {
    pub name: Seq<char>,
    pub part: PartView,
    pub phase: Phase,
}

impl View for Scrape {
    type V = ScrapeView;

    open spec fn view(&self) -> ScrapeView {
        ScrapeView { name: self.name@, part: self.part@, phase: self.phase }
    }
}

/// How a scrape goes on: something is to be done for it, or it has ended.
pub enum Progress {
    Going(Scrape, Ask),
    Done(ScrapeOut),
}

/// What `Progress` holds.
pub enum ProgressView {
    Going(ScrapeView, AskView),
    Done(ScrapeOutView),
}

impl View for Progress {
    type V = ProgressView;

    open spec fn view(&self) -> ProgressView {
        match *self {
            Progress::Going(scrape, ask) => ProgressView::Going(scrape@, ask@),
            Progress::Done(out) => ProgressView::Done(out@),
        }
    }
}

impl ScrapeView {
    /// A scrape that starts with the profile.
    pub open spec fn begun(name: Seq<char>) -> ScrapeView {
        ScrapeView { name, part: PartView::Profile, phase: Phase::Cooldown }
    }

    /// Where the document stands that the scrape asks for.
    pub open spec fn path(self) -> Seq<char> {
        match self.part {
            PartView::Profile => profile_path(self.name),
            PartView::Badges { id, profile } => badges_path(self.name),
        }
    }

    /// How the scrape goes on once its document has come: the profile of a known user leads to
    /// the badges, one without a number means that the user is gone; with the badges, come or
    /// not, the sample is complete.
    pub open spec fn fetched(self, fetch: FetchView, now: u64) -> ProgressView {
        match self.part {
            PartView::Profile => match fetch {
                FetchView::Found(d) => match user_id(d) {
                    Some(id) => ProgressView::Going(
                        ScrapeView {
                            name: self.name,
                            part: PartView::Badges { id, profile: d },
                            phase: Phase::Cooldown,
                        },
                        AskView::Clock,
                    ),
                    None => ProgressView::Done(ScrapeOutView::Gone),
                },
                FetchView::Gone => ProgressView::Done(ScrapeOutView::Gone),
                FetchView::Fail => ProgressView::Done(ScrapeOutView::Fail),
            },
            PartView::Badges { id, profile } => ProgressView::Done(
                ScrapeOutView::Scraped(sample_of(self.name, id, profile, tier_of(fetch), now)),
            ),
        }
    }
}

impl SessionView {
    /// One step of the scrape of a user.
    pub open spec fn scraped(self, scrape: ScrapeView, signal: SignalView) -> (
        SessionView,
        ProgressView,
    ) {
        let (s, phase, step) = self.got(scrape.path(), scrape.phase, signal);
        match step {
            StepView::Ask(ask) => (
                s,
                ProgressView::Going(ScrapeView { phase, ..scrape }, ask),
            ),
            StepView::Done(fetch) => (s, scrape.fetched(fetch, signal.now())),
        }
    }
}

impl Scrape {
    /// Starts the scrape of a user with the profile.
    pub fn begin(name: String) -> (r: Scrape)
        ensures
            r@ == ScrapeView::begun(name@),
    {
        Scrape { name, part: Part::Profile, phase: Phase::Cooldown }
    }

    /// Where the document stands that the scrape asks for.
    fn path(&self) -> (r: String)
        ensures
            r@ == self@.path(),
    {
        match &self.part {
            Part::Profile => path_of_profile(self.name.as_str()),
            Part::Badges { id: _, profile: _ } => path_of_badges(self.name.as_str()),
        }
    }

    /// Takes in the document that the scrape has asked for.
    pub fn fetched(self, fetch: Fetch, now: u64) -> (r: Progress)
        ensures
            r@ == self@.fetched(fetch@, now),
    {
        match self.part {
            Part::Profile => match fetch {
                Fetch::Found(d) => match id_of(&d) {
                    Some(id) => Progress::Going(
                        Scrape {
                            name: self.name,
                            part: Part::Badges { id, profile: d },
                            phase: Phase::Cooldown,
                        },
                        Ask::Clock,
                    ),
                    None => Progress::Done(ScrapeOut::Gone),
                },
                Fetch::Gone => Progress::Done(ScrapeOut::Gone),
                Fetch::Fail => Progress::Done(ScrapeOut::Fail),
            },
            Part::Badges { id, profile } => Progress::Done(
                ScrapeOut::Scraped(
                    sample(self.name.as_str(), id, &profile, badge_tier(&fetch), now),
                ),
            ),
        }
    }
}

impl Tr4ker {
    /// Takes the scrape of a user one step on.
    pub fn scrape_user(&mut self, scrape: Scrape, signal: Signal) -> (r: Progress)
        ensures
            (final(self)@, r@) == old(self)@.scraped(scrape@, signal@),
            old(self)@.wf() ==> final(self)@.wf(),
    {
        let now = signal.now();
        let path = scrape.path();
        let (phase, step) = self.get(path.as_str(), scrape.phase, signal);
        match step {
            Step::Ask(ask) => Progress::Going(
                Scrape { name: scrape.name, part: scrape.part, phase },
                ask,
            ),
            Step::Done(fetch) => scrape.fetched(fetch, now),
        }
    }
}

/// The upload tier is the highest that a badge stands for, and zero where none stands for more.
pub proof fn law_tier_is_the_highest(badges: Seq<JsonView>)
    ensures
        0 <= highest_level(badges),
        forall|i: int|
            0 <= i < badges.len() ==> badge_level(badge_name(#[trigger] badges[i]))
                <= highest_level(badges),
        highest_level(badges) == 0 || exists|i: int|
            0 <= i < badges.len() && badge_level(badge_name(#[trigger] badges[i]))
                == highest_level(badges),
    decreases badges.len(),
{
    if badges.len() > 0 {
        let before = badges.drop_last();
        law_tier_is_the_highest(before);
        assert forall|i: int| 0 <= i < badges.len() implies badge_level(
            badge_name(#[trigger] badges[i]),
        ) <= highest_level(badges) by {
            if i < before.len() {
                assert(badge_level(badge_name(before[i])) <= highest_level(before));
            }
        }
        if highest_level(badges) != 0 {
            if highest_level(badges) == highest_level(before) {
                let i = choose|i: int|
                    0 <= i < before.len() && badge_level(badge_name(#[trigger] before[i]))
                        == highest_level(before);
                assert(badges[i] == before[i]);
            } else {
                assert(badge_level(badge_name(badges[badges.len() - 1])) == highest_level(badges));
            }
        }
    }
}

/// One badge more takes no tier away.
pub proof fn law_badges_only_add(badges: Seq<JsonView>, badge: JsonView)
    ensures
        highest_level(badges) <= highest_level(badges.push(badge)),
        badge_level(badge_name(badge)) <= highest_level(badges.push(badge)),
{
    assert(badges.push(badge).drop_last() =~= badges);
}

/// A user whose profile gives a number is scraped, whatever becomes of the badges: without them
/// the sample lacks the tier and nothing else.
pub proof fn law_known_user_is_scraped(
    name: Seq<char>,
    profile: JsonView,
    badges: FetchView,
    then: u64,
    now: u64,
)
    requires
        user_id(profile) is Some,
    ensures
        ({
            let first = ScrapeView::begun(name).fetched(FetchView::Found(profile), then);
            &&& first is Going
            &&& first->Going_1 is Clock
            &&& first->Going_0.path() == badges_path(name)
            &&& first->Going_0.fetched(badges, now) == ProgressView::Done(
                ScrapeOutView::Scraped(
                    sample_of(name, user_id(profile)->Some_0, profile, tier_of(badges), now),
                ),
            )
            &&& tier_of(badges) is Some <==> badges is Found
        }),
{
}

/// A user without a profile, or with one that gives no number, is gone; one whose profile could
/// not be fetched may come back.
pub proof fn law_unknown_user_is_not_scraped(name: Seq<char>, profile: FetchView, now: u64)
    requires
        !(profile matches FetchView::Found(d) && user_id(d) is Some),
    ensures
        ScrapeView::begun(name).fetched(profile, now) == ProgressView::Done(
            if profile is Fail {
                ScrapeOutView::Fail
            } else {
                ScrapeOutView::Gone
            },
        ),
{
}

/// A search reports every name that its page lists, and no other.
pub proof fn law_search_reports_what_is_listed(users: Seq<JsonView>)
    ensures
        usernames(users).len() <= users.len(),
        forall|k: int|
            0 <= k < usernames(users).len() ==> exists|i: int|
                0 <= i < users.len() && sval_of(#[trigger] users[i], "username"@) == Some(
                    #[trigger] usernames(users)[k],
                ),
        forall|i: int|
            0 <= i < users.len() && sval_of(#[trigger] users[i], "username"@) is Some
                ==> usernames(users).contains(sval_of(users[i], "username"@)->Some_0),
    decreases users.len(),
{
    if users.len() > 0 {
        let before = users.drop_last();
        let names = usernames(before);
        law_search_reports_what_is_listed(before);
        assert forall|k: int| 0 <= k < usernames(users).len() implies exists|i: int|
            0 <= i < users.len() && sval_of(#[trigger] users[i], "username"@) == Some(
                #[trigger] usernames(users)[k],
            ) by {
            if k < names.len() {
                let i = choose|i: int|
                    0 <= i < before.len() && sval_of(#[trigger] before[i], "username"@) == Some(
                        names[k],
                    );
                assert(users[i] == before[i]);
                assert(usernames(users)[k] == names[k]);
            } else {
                assert(users[users.len() - 1] == users.last());
            }
        }
        assert forall|i: int|
            0 <= i < users.len() && sval_of(
                #[trigger] users[i],
                "username"@,
            ) is Some implies usernames(users).contains(
            sval_of(users[i], "username"@)->Some_0,
        ) by {
            if i < before.len() {
                assert(before[i] == users[i]);
                let name = sval_of(before[i], "username"@)->Some_0;
                let k = choose|k: int| 0 <= k < names.len() && names[k] == name;
                assert(usernames(users)[k] == name);
            } else {
                assert(usernames(users).last() == sval_of(users[i], "username"@)->Some_0);
            }
        }
    }
}

/// The profile of a user stands under the name of the user, written for a URL, the badges below it,
/// and a search under its prefix.
pub proof fn law_documents_stand_under_their_names(name: Seq<char>, scrape: ScrapeView)
    ensures
        scrape.part is Profile ==> scrape.path() == "/api/users/"@ + text::encoded(scrape.name),
        scrape.part is Badges ==> scrape.path() == "/api/users/"@ + text::encoded(scrape.name)
            + "/badges"@,
        search_path(name) == "/api/users/search?q="@ + text::encoded(name),
{
}

/// A document lists items: it is the array of them, or holds it under `key`, or, with nothing under
/// `key`, under `data`.
pub open spec fn lists(d: JsonView, key: Seq<char>, items: Seq<JsonView>) -> bool {
    ||| d == JsonView::Array(items)
    ||| holds(d, key, JsonView::Array(items))
    ||| lacks(d, key) && holds(d, "data"@, JsonView::Array(items))
}

/// The items that a document lists are found, all of them and in their order, and a document that
/// lists none is as one that lists nothing.
pub proof fn law_lists_are_found(d: JsonView, key: Seq<char>)
    ensures
        forall|items: Seq<JsonView>| #[trigger] lists(d, key, items) ==> listed(d, key) == items,
        (forall|items: Seq<JsonView>| !#[trigger] lists(d, key, items)) ==> listed(d, key)
            == Seq::<JsonView>::empty(),
{
    law_fields_are_found_by_name(d, key);
    law_fields_are_found_by_name(d, "data"@);
    if listed(d, key).len() > 0 {
        assert(lists(d, key, listed(d, key)));
    } else {
        assert(listed(d, key) =~= Seq::empty());
    }
}

/// A field of a sample is the text that the profile holds under `key`, and is open where there is
/// no text.
pub open spec fn is_text_under(field: Option<Seq<char>>, profile: JsonView, key: Seq<char>) -> bool {
    forall|t: Seq<char>| field == Some(t) <==> #[trigger] holds(profile, key, JsonView::Text(t))
}

/// A field of a sample is the integer that the profile holds under `key`, and zero where there is
/// none.
pub open spec fn is_integer_under(field: i64, profile: JsonView, key: Seq<char>) -> bool {
    &&& forall|n: i64| #[trigger] holds(profile, key, JsonView::Number(Some(n))) ==> field == n
    &&& field != 0 ==> holds(profile, key, JsonView::Number(Some(field)))
}

/// A sample bears the name of its user and says of each thing what the profile holds under the name
/// of that thing; the tier is that of the badges, and the time is that at which they came.
pub proof fn law_sample_says_what_the_profile_holds(
    scrape: ScrapeView,
    id: i64,
    profile: JsonView,
    badges: FetchView,
    now: u64,
)
    requires
        scrape.part == (PartView::Badges { id, profile }),
    ensures
        scrape.fetched(badges, now) matches ProgressView::Done(ScrapeOutView::Scraped(sample)) && {
            &&& sample.username == scrape.name
            &&& sample.id == id
            &&& is_text_under(sample.role, profile, "role"@)
            &&& is_integer_under(sample.uploaded, profile, "uploaded"@)
            &&& is_integer_under(sample.downloaded, profile, "downloaded"@)
            &&& is_integer_under(sample.bonus_upload, profile, "bonus_upload"@)
            &&& is_integer_under(sample.seeding_count, profile, "seeding_count"@)
            &&& is_text_under(sample.joined_at, profile, "joined_at"@)
            &&& is_text_under(sample.last_seen_at, profile, "last_seen_at"@)
            &&& sample.upload_tier == tier_of(badges)
            &&& sample.scraped_at == now
        },
{
    law_texts_are_read(profile, "role"@);
    law_integers_are_read(profile, "uploaded"@);
    law_integers_are_read(profile, "downloaded"@);
    law_integers_are_read(profile, "bonus_upload"@);
    law_integers_are_read(profile, "seeding_count"@);
    law_texts_are_read(profile, "joined_at"@);
    law_texts_are_read(profile, "last_seen_at"@);
}

/// A profile with a number under `id` leads on to the badges of the same user; one without, or none
/// at all, means that the user is gone; one that did not come fails the scrape.
pub proof fn law_profile_decides_on_the_scrape(scrape: ScrapeView, fetch: FetchView, now: u64)
    requires
        scrape.part is Profile,
    ensures
        match fetch {
            FetchView::Found(d) => {
                &&& forall|id: i64| #[trigger]
                    holds(d, "id"@, JsonView::Number(Some(id))) ==> scrape.fetched(fetch, now)
                        == ProgressView::Going(
                        ScrapeView {
                            name: scrape.name,
                            part: PartView::Badges { id, profile: d },
                            phase: Phase::Cooldown,
                        },
                        AskView::Clock,
                    )
                &&& (forall|id: i64| !#[trigger] holds(d, "id"@, JsonView::Number(Some(id))))
                    ==> scrape.fetched(fetch, now) == ProgressView::Done(ScrapeOutView::Gone)
            },
            FetchView::Gone => scrape.fetched(fetch, now) == ProgressView::Done(
                ScrapeOutView::Gone,
            ),
            FetchView::Fail => scrape.fetched(fetch, now) == ProgressView::Done(
                ScrapeOutView::Fail,
            ),
        },
{
    match fetch {
        FetchView::Found(d) => {
            law_fields_are_found_by_name(d, "id"@);
            if user_id(d) is Some {
                assert(holds(d, "id"@, JsonView::Number(user_id(d))));
            }
        },
        _ => {},
    }
}

/// A scrape starts with the profile, and waits as every request does.
pub proof fn law_scrape_starts_with_the_profile(name: Seq<char>)
    ensures
        ScrapeView::begun(name).name == name,
        ScrapeView::begun(name).part is Profile,
        ScrapeView::begun(name).phase is Cooldown,
{
}

/// A scrape does what the request for its document asks for, keeps what it has until that has ended,
/// and then takes in what it ended with.
pub proof fn law_scrape_follows_its_request(
    s: SessionView,
    scrape: ScrapeView,
    signal: SignalView,
)
    ensures
        ({
            let (session, phase, step) = s.got(scrape.path(), scrape.phase, signal);
            let (after, progress) = s.scraped(scrape, signal);
            &&& after == session
            &&& match step {
                StepView::Ask(ask) => progress == ProgressView::Going(
                    ScrapeView { name: scrape.name, part: scrape.part, phase },
                    ask,
                ),
                StepView::Done(fetch) => progress == scrape.fetched(fetch, signal.now()),
            }
        }),
{
}

/// A badge for uploads stands for the number that its digits write, as far as an `i64` can hold it;
/// without such a number the first of these badges stands for one; every other badge stands for
/// nothing.
pub proof fn law_badge_stands_for_its_number(name: Seq<char>)
    ensures
        ({
            let upload = text::contains_text(name, "Upload"@);
            let first = text::contains_text(name, "Premier"@);
            let number = text::digits_up_to(
                name.filter(|c: char| '0' <= c <= '9'),
                9_223_372_036_854_775_807,
            );
            &&& !upload ==> badge_level(name) == 0
            &&& upload && number is Some ==> badge_level(name) == number->Some_0
            &&& upload && number is None && first ==> badge_level(name) == 1
            &&& upload && number is None && !first ==> badge_level(name) == 0
        }),
{
    text::law_digits_are_picked_out(name);
    let digits = text::digits_of(name);
    text::law_digit_rows_are_bounded(digits, i64::MAX as int);
}

/// The tier of a user is the highest that a name among the badges stands for, wherever it stands in
/// the list, and zero where none stands for more; it is open exactly where the badges did not come.
pub proof fn law_tier_is_that_of_the_best_badge(badges: FetchView, items: Seq<JsonView>)
    requires
        badges matches FetchView::Found(d) ==> lists(d, "badges"@, items),
    ensures
        tier_of(badges) is Some <==> badges is Found,
        tier_of(badges) matches Some(tier) ==> {
            &&& 0 <= tier
            &&& forall|i: int, name: Seq<char>|
                0 <= i < items.len() && #[trigger] holds(items[i], "name"@, JsonView::Text(name))
                    ==> badge_level(name) <= tier
            &&& tier > 0 ==> exists|i: int, name: Seq<char>|
                0 <= i < items.len() && #[trigger] holds(items[i], "name"@, JsonView::Text(name))
                    && badge_level(name) == tier
        },
{
    if let FetchView::Found(d) = badges {
        let tier = highest_level(items);
        law_lists_are_found(d, "badges"@);
        law_tier_is_the_highest(items);
        assert forall|i: int, name: Seq<char>|
            0 <= i < items.len() && #[trigger] holds(
                items[i],
                "name"@,
                JsonView::Text(name),
            ) implies badge_level(name) <= tier by {
            law_texts_are_read(items[i], "name"@);
            assert(badge_name(items[i]) == name);
        }
        if tier > 0 {
            let i = choose|i: int|
                0 <= i < items.len() && badge_level(badge_name(#[trigger] items[i])) == tier;
            let name = badge_name(items[i]);
            law_texts_are_read(items[i], "name"@);
            if sval_of(items[i], "name"@) is None {
                reveal_strlit("Upload");
                assert(!text::contains_text(name, "Upload"@));
            }
            assert(holds(items[i], "name"@, JsonView::Text(name)));
        }
    }
}

/// Badges that are not listed leave a user without a tier.
pub proof fn law_no_badges_are_no_tier(d: JsonView)
    requires
        forall|items: Seq<JsonView>| !#[trigger] lists(d, "badges"@, items),
    ensures
        tier_of(FetchView::Found(d)) == Some(0i64),
{
    law_lists_are_found(d, "badges"@);
}

/// Names are those of the items at the places `picks`, in the order of the list, and no item with a
/// text under `username` is left out.
pub open spec fn reports(
    names: Seq<Seq<char>>,
    items: Seq<JsonView>,
    picks: Seq<int>,
) -> bool {
    &&& names.len() == picks.len()
    &&& forall|k: int|
        0 <= k < picks.len() ==> 0 <= #[trigger] picks[k] < items.len() && holds(
            items[picks[k]],
            "username"@,
            JsonView::Text(names[k]),
        )
    &&& forall|k: int, l: int| 0 <= k < l < picks.len() ==> #[trigger] picks[k] < #[trigger] picks[l]
    &&& forall|i: int, name: Seq<char>|
        0 <= i < items.len() && #[trigger] holds(items[i], "username"@, JsonView::Text(name))
            ==> picks.contains(i)
}

/// The names of listed users are picked out without loss.
proof fn lemma_usernames(items: Seq<JsonView>) -> (picks: Seq<int>)
    ensures
        reports(usernames(items), items, picks),
    decreases items.len(),
{
    if items.len() == 0 {
        Seq::empty()
    } else {
        let before = items.drop_last();
        let n = before.len() as int;
        let earlier = lemma_usernames(before);
        let names = usernames(items);
        law_texts_are_read(items.last(), "username"@);
        let picks = match sval_of(items.last(), "username"@) {
            Some(name) => earlier.push(n),
            None => earlier,
        };
        assert forall|k: int| 0 <= k < picks.len() implies 0 <= #[trigger] picks[k] < items.len()
            && holds(items[picks[k]], "username"@, JsonView::Text(names[k])) by {
            if k < earlier.len() {
                assert(picks[k] == earlier[k]);
                assert(items[earlier[k]] == before[earlier[k]]);
                assert(names[k] == usernames(before)[k]);
            } else {
                assert(items[n] == items.last());
            }
        }
        assert forall|k: int, l: int| 0 <= k < l < picks.len() implies #[trigger] picks[k]
            < #[trigger] picks[l] by {
            assert(picks[k] == earlier[k]);
            if l < earlier.len() {
                assert(picks[l] == earlier[l]);
            }
        }
        assert forall|i: int, name: Seq<char>|
            0 <= i < items.len() && #[trigger] holds(
                items[i],
                "username"@,
                JsonView::Text(name),
            ) implies picks.contains(i) by {
            if i < n {
                assert(holds(before[i], "username"@, JsonView::Text(name)));
                let k = choose|k: int| 0 <= k < earlier.len() && earlier[k] == i;
                assert(picks[k] == i);
            } else {
                assert(items[i] == items.last());
                assert(picks[picks.len() - 1] == n);
            }
        }
        picks
    }
}

/// A search whose page lists users finds the name of every one of them that has one, in the order of
/// the list and as often as it stands there, and no other name.
pub proof fn law_search_finds_every_listed_name(d: JsonView, items: Seq<JsonView>)
    requires
        lists(d, "users"@, items),
    ensures
        found_names(FetchView::Found(d)) matches Some(names) && exists|picks: Seq<int>|
            #[trigger] reports(names, items, picks),
{
    law_lists_are_found(d, "users"@);
    let picks = lemma_usernames(items);
    let names = found_names(FetchView::Found(d))->Some_0;
    assert(names == usernames(items));
    assert(reports(names, items, picks));
}

/// A search whose page lists nothing, or is missing, finds no names; one that failed says so.
pub proof fn law_search_without_a_list_finds_nothing(fetch: FetchView)
    requires
        fetch matches FetchView::Found(d) ==> forall|items: Seq<JsonView>|
            !#[trigger] lists(d, "users"@, items),
    ensures
        found_names(fetch) is None <==> fetch is Fail,
        found_names(fetch) matches Some(names) ==> names.len() == 0,
{
    if let FetchView::Found(d) = fetch {
        law_lists_are_found(d, "users"@);
    }
}

/// A scrape is seen as the user that it is about, the document that it asks for and how far that has
/// come.
pub proof fn law_scrapes_are_seen_whole(scrape: Scrape)
    ensures
        scrape@.name == scrape.name@,
        scrape@.phase == scrape.phase,
        match scrape.part {
            Part::Profile => scrape@.part is Profile,
            Part::Badges { id, profile } => scrape@.part == (PartView::Badges {
                id,
                profile: profile@,
            }),
        },
{
}

/// The progress of a scrape is seen as what is to be done for it, or as what it ended with.
pub proof fn law_progress_is_seen_whole(progress: Progress)
    ensures
        match progress {
            Progress::Going(scrape, ask) => progress@ == ProgressView::Going(scrape@, ask@),
            Progress::Done(ScrapeOut::Scraped(sample)) => progress@ == ProgressView::Done(
                ScrapeOutView::Scraped(sample@),
            ),
            Progress::Done(ScrapeOut::Gone) => progress@ == ProgressView::Done(ScrapeOutView::Gone),
            Progress::Done(ScrapeOut::Fail) => progress@ == ProgressView::Done(ScrapeOutView::Fail),
        },
{
}

/// Samples are seen as all that they hold.
pub proof fn law_samples_are_seen_whole(sample: Sample)
    ensures
        sample@.username == sample.username@,
        sample@.id == sample.id,
        sample@.role == text::opt_text(sample.role),
        sample@.uploaded == sample.uploaded,
        sample@.downloaded == sample.downloaded,
        sample@.bonus_upload == sample.bonus_upload,
        sample@.seeding_count == sample.seeding_count,
        sample@.joined_at == text::opt_text(sample.joined_at),
        sample@.last_seen_at == text::opt_text(sample.last_seen_at),
        sample@.upload_tier == sample.upload_tier,
        sample@.scraped_at == sample.scraped_at,
{
}

} // verus!
