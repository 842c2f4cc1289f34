//! The settings of a worker, and how the environment gives them.

use vstd::prelude::*;

use crate::text;

verus! {

/// The address of the tracker where the environment names none.
pub const DEFAULT_BASE: &'static str = "https://tr4ker.net";

/// How many items a lease asks for where the environment does not say.
pub const DEFAULT_BATCH: u32 = 150;

/// The settings as the environment gives them; one that is not set is empty.
pub struct Env {
    pub ladder_url: String,
    pub worker_token: String,
    pub tr4ker_base: String,
    pub tr4ker_user: String,
    pub tr4ker_pass: String,
    pub tr4ker_cookie: String,
    pub batch: String,
}

/// The settings of a worker.
pub struct Cfg {
    pub ladder: String,
    pub token: String,
    pub tr_base: String,
    pub tr_user: String,
    pub tr_pass: String,
    pub tr_cookie: String,
    pub batch: u32,
}

/// What `Cfg` holds.
pub struct CfgView {
    pub ladder: Seq<char>,
    pub token: Seq<char>,
    pub tr_base: Seq<char>,
    pub tr_user: Seq<char>,
    pub tr_pass: Seq<char>,
    pub tr_cookie: Seq<char>,
    pub batch: u32,
}

impl View for Cfg {
    type V = CfgView;

    open spec fn view(&self) -> CfgView {
        CfgView {
            ladder: self.ladder@,
            token: self.token@,
            tr_base: self.tr_base@,
            tr_user: self.tr_user@,
            tr_pass: self.tr_pass@,
            tr_cookie: self.tr_cookie@,
            batch: self.batch,
        }
    }
}

impl Clone for Cfg {
    fn clone(&self) -> (r: Self)
        ensures
            r == *self,
    {
        Cfg {
            ladder: self.ladder.clone(),
            token: self.token.clone(),
            tr_base: self.tr_base.clone(),
            tr_user: self.tr_user.clone(),
            tr_pass: self.tr_pass.clone(),
            tr_cookie: self.tr_cookie.clone(),
            batch: self.batch,
        }
    }
}

/// The words with which a session cookie starts.
pub open spec fn session_key() -> Seq<char> {
    "TR4KER_session="@
}

/// The first of the two that is not empty.
pub open spec fn value_or(value: Seq<char>, default: Seq<char>) -> Seq<char> {
    if value.len() == 0 {
        default
    } else {
        value
    }
}

/// The value that a variable of the environment has, or `default` where it is empty.
pub fn env_or(value: &str, default: &str) -> (r: String)
    ensures
        r@ == value_or(value@, default@),
{
    if value.is_empty() {
        default.to_owned()
    } else {
        value.to_owned()
    }
}

/// The settings that an environment means.
pub open spec fn settings(env: Env) -> CfgView {
    CfgView {
        ladder: text::without_end(env.ladder_url@, '/'),
        token: env.worker_token@,
        tr_base: text::without_end(value_or(env.tr4ker_base@, DEFAULT_BASE@), '/'),
        tr_user: env.tr4ker_user@,
        tr_pass: env.tr4ker_pass@,
        tr_cookie: text::without_start(text::trimmed(env.tr4ker_cookie@), session_key()),
        batch: batch_size(env.batch@),
    }
}

/// How many items a lease asks for: the number that is given, or the default where none that a
/// `u32` can hold is.
pub open spec fn batch_size(given: Seq<char>) -> u32 {
    match text::number_up_to(given, u32::MAX as int) {
        Some(n) => n as u32,
        None => DEFAULT_BATCH,
    }
}

impl CfgView {
    /// Both a name and a password are there.
    pub open spec fn has_creds(self) -> bool {
        self.tr_user.len() > 0 && self.tr_pass.len() > 0
    }

    /// What has to be set before a worker can start, and is not.
    pub open spec fn gap(self) -> Option<ConfigGap> {
        if self.ladder.len() == 0 {
            Some(ConfigGap::LadderUrl)
        } else if self.token.len() == 0 {
            Some(ConfigGap::WorkerToken)
        } else if !self.has_creds() && self.tr_cookie.len() == 0 {
            Some(ConfigGap::Authentication)
        } else {
            None
        }
    }
}

/// A setting that is missing.
#[derive(Clone, Copy, Debug, PartialEq, Eq, Structural)]
pub enum ConfigGap {
    LadderUrl,
    WorkerToken,
    Authentication,
}

/// How a worker proves to the tracker who it is.
#[derive(Clone, Copy, Debug, PartialEq, Eq, Structural)]
pub enum AuthMode {
    Credentials,
    Cookie,
}

impl Cfg {
    /// Reads the settings out of the environment.
    pub fn load(env: Env) -> (r: Cfg)
        ensures
            r@ == settings(env),
    {
        proof {
            reveal_strlit("TR4KER_session=");
        }
        let trimmed = text::trim(env.tr4ker_cookie.as_str());
        let base = env_or(env.tr4ker_base.as_str(), DEFAULT_BASE);
        Cfg {
            ladder: text::trim_end_char(env.ladder_url.as_str(), '/'),
            token: env.worker_token,
            tr_base: text::trim_end_char(base.as_str(), '/'),
            tr_user: env.tr4ker_user,
            tr_pass: env.tr4ker_pass,
            tr_cookie: text::trim_start_text(trimmed.as_str(), "TR4KER_session="),
            batch: match text::parse_u32(env.batch.as_str()) {
                Some(n) => n,
                None => DEFAULT_BATCH,
            },
        }
    }

    /// Whether both a name and a password are there.
    pub fn has_creds(&self) -> (r: bool)
        ensures
            r == self@.has_creds(),
    {
        !self.tr_user.as_str().is_empty() && !self.tr_pass.as_str().is_empty()
    }

    /// How the worker logs in, or the first setting that it lacks.
    pub fn check(&self) -> (r: Result<AuthMode, ConfigGap>)
        ensures
            r is Err <==> self@.gap() is Some,
            r is Err ==> r->Err_0 == self@.gap()->Some_0,
            r is Ok ==> r->Ok_0 == (if self@.has_creds() {
                AuthMode::Credentials
            } else {
                AuthMode::Cookie
            }),
    {
        if self.ladder.as_str().is_empty() {
            Err(ConfigGap::LadderUrl)
        } else if self.token.as_str().is_empty() {
            Err(ConfigGap::WorkerToken)
        } else if self.has_creds() {
            Ok(AuthMode::Credentials)
        } else if self.tr_cookie.as_str().is_empty() {
            Err(ConfigGap::Authentication)
        } else {
            Ok(AuthMode::Cookie)
        }
    }
}

/// The addresses that are read do not end with a slash, and the cookie does not start with its
/// name.
pub proof fn law_settings_are_bare(env: Env)
    ensures
        settings(env).ladder.len() > 0 ==> settings(env).ladder.last() != '/',
        settings(env).tr_base.len() > 0 ==> settings(env).tr_base.last() != '/',
        !session_key().is_prefix_of(settings(env).tr_cookie),
{
    reveal_strlit("TR4KER_session=");
    text::law_end_is_gone(env.ladder_url@, '/');
    text::law_end_is_gone(value_or(env.tr4ker_base@, DEFAULT_BASE@), '/');
    text::law_start_is_gone(text::trimmed(env.tr4ker_cookie@), session_key());
}

/// A cookie means the same whether it is given with its name before it or without.
pub proof fn law_cookie_may_bear_its_name(bare: Env, named: Env)
    requires
        bare.tr4ker_cookie@.len() > 0 ==> !text::white_space(bare.tr4ker_cookie@[0]),
        named.tr4ker_cookie@ == session_key() + bare.tr4ker_cookie@,
    ensures
        settings(named).tr_cookie == settings(bare).tr_cookie,
{
    reveal_strlit("TR4KER_session=");
    let key = session_key();
    let cookie = bare.tr4ker_cookie@;
    text::lemma_trimmed_behind(key, cookie);
    let all = text::trimmed(key + cookie);
    assert(key.is_prefix_of(all));
    assert(all.skip(key.len() as int) =~= text::trimmed_end(cookie));
}

/// Settings that lack nothing hold a cookie or what it takes to log in.
pub proof fn law_complete_settings_can_authenticate(cfg: CfgView)
    requires
        cfg.gap() is None,
    ensures
        cfg.ladder.len() > 0,
        cfg.token.len() > 0,
        cfg.tr_cookie.len() > 0 || cfg.has_creds(),
{
}

/// The token, the name and the password are taken as they are given.
pub proof fn law_credentials_are_taken_as_given(env: Env)
    ensures
        settings(env).token == env.worker_token@,
        settings(env).tr_user == env.tr4ker_user@,
        settings(env).tr_pass == env.tr4ker_pass@,
{
}

/// The addresses lose the slashes at their end and nothing else; a tracker that is not named is the
/// one at `https://tr4ker.net`.
pub proof fn law_addresses_lose_slashes_alone(env: Env)
    ensures
        settings(env).ladder.is_prefix_of(env.ladder_url@),
        forall|i: int|
            settings(env).ladder.len() <= i < env.ladder_url@.len() ==> #[trigger] env.ladder_url@[i]
                == '/',
        env.tr4ker_base@.len() == 0 ==> settings(env).tr_base == "https://tr4ker.net"@,
        env.tr4ker_base@.len() > 0 ==> settings(env).tr_base.is_prefix_of(env.tr4ker_base@),
        forall|i: int|
            settings(env).tr_base.len() <= i < env.tr4ker_base@.len()
                ==> #[trigger] env.tr4ker_base@[i] == '/',
{
    reveal_strlit("https://tr4ker.net");
    text::law_end_is_gone(env.ladder_url@, '/');
    text::law_end_is_gone(value_or(env.tr4ker_base@, DEFAULT_BASE@), '/');
}

/// A setting that is there is kept, and one that is empty gives way to its default.
pub proof fn law_defaults_stand_in_for_nothing_else(value: Seq<char>, default: Seq<char>)
    ensures
        value.len() > 0 ==> value_or(value, default) == value,
        value.len() == 0 ==> value_or(value, default) == default,
{
}

/// A bare cookie is taken as it is given, with white space around it or without.
pub proof fn law_bare_cookie_is_kept(
    env: Env,
    before: Seq<char>,
    cookie: Seq<char>,
    after: Seq<char>,
)
    requires
        env.tr4ker_cookie@ == before + cookie + after,
        forall|i: int| 0 <= i < before.len() ==> text::white_space(#[trigger] before[i]),
        forall|i: int| 0 <= i < after.len() ==> text::white_space(#[trigger] after[i]),
        cookie.len() > 0 ==> !text::white_space(cookie[0]) && !text::white_space(cookie.last()),
        !"TR4KER_session="@.is_prefix_of(cookie),
    ensures
        settings(env).tr_cookie == cookie,
{
    text::law_white_space_around_is_lost(before, cookie, after);
    text::law_only_the_start_is_taken_off(cookie, session_key());
}

/// A cookie may bear its name once or more often, with white space around it or without.
pub proof fn law_name_of_the_cookie_is_taken_off(
    env: Env,
    before: Seq<char>,
    cookie: Seq<char>,
    after: Seq<char>,
)
    requires
        env.tr4ker_cookie@ == before + ("TR4KER_session="@ + cookie) + after,
        forall|i: int| 0 <= i < before.len() ==> text::white_space(#[trigger] before[i]),
        forall|i: int| 0 <= i < after.len() ==> text::white_space(#[trigger] after[i]),
        cookie.len() > 0 ==> !text::white_space(cookie.last()),
    ensures
        settings(env).tr_cookie == text::without_start(cookie, "TR4KER_session="@),
{
    reveal_strlit("TR4KER_session=");
    text::law_white_space_around_is_lost(before, session_key() + cookie, after);
    text::law_only_the_start_is_taken_off(cookie, session_key());
}

/// A lease asks for as many items as are given as a number, and for 150 where none is given that
/// can be read.
pub proof fn law_batch_is_the_number_given(env: Env)
    ensures
        settings(env).batch == match text::number_up_to(env.batch@, 4_294_967_295) {
            Some(n) => n,
            None => 150,
        },
        env.batch@.len() == 0 ==> settings(env).batch == 150,
{
    text::law_numbers_are_bounded(env.batch@, 4_294_967_295);
}

/// A worker can log in by itself exactly with both a name and a password.
pub proof fn law_credentials_are_a_name_and_a_password(cfg: CfgView)
    ensures
        cfg.has_creds() <==> cfg.tr_user.len() > 0 && cfg.tr_pass.len() > 0,
{
}

/// What is missing is named in the order of the ladder, the token and the means to prove who the
/// worker is; nothing is missing exactly where all three are there.
pub proof fn law_first_gap_is_named(cfg: CfgView)
    ensures
        cfg.gap() == Some(ConfigGap::LadderUrl) <==> cfg.ladder.len() == 0,
        cfg.gap() == Some(ConfigGap::WorkerToken) <==> cfg.ladder.len() > 0 && cfg.token.len()
            == 0,
        cfg.gap() == Some(ConfigGap::Authentication) <==> {
            &&& cfg.ladder.len() > 0
            &&& cfg.token.len() > 0
            &&& cfg.tr_cookie.len() == 0
            &&& cfg.tr_user.len() == 0 || cfg.tr_pass.len() == 0
        },
        cfg.gap() is None <==> {
            &&& cfg.ladder.len() > 0
            &&& cfg.token.len() > 0
            &&& cfg.tr_cookie.len() > 0 || (cfg.tr_user.len() > 0 && cfg.tr_pass.len() > 0)
        },
{
}

/// The settings are seen as they are.
pub proof fn law_settings_are_seen_whole(cfg: Cfg)
    ensures
        cfg@.ladder == cfg.ladder@,
        cfg@.token == cfg.token@,
        cfg@.tr_base == cfg.tr_base@,
        cfg@.tr_user == cfg.tr_user@,
        cfg@.tr_pass == cfg.tr_pass@,
        cfg@.tr_cookie == cfg.tr_cookie@,
        cfg@.batch == cfg.batch,
{
}

} // verus!
