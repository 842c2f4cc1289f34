use l4dder_worker::config::{env_or, AuthMode, Cfg, ConfigGap, Env};

fn empty() -> Env {
    Env {
        ladder_url: String::new(),
        worker_token: String::new(),
        tr4ker_base: String::new(),
        tr4ker_user: String::new(),
        tr4ker_pass: String::new(),
        tr4ker_cookie: String::new(),
        batch: String::new(),
    }
}

fn full() -> Env {
    Env {
        ladder_url: "https://ladder.example//".to_string(),
        worker_token: "tok".to_string(),
        tr4ker_base: "http://localhost:8080/".to_string(),
        tr4ker_user: "zoe".to_string(),
        tr4ker_pass: "secret".to_string(),
        tr4ker_cookie: "  TR4KER_session=TR4KER_session=abc; \n".to_string(),
        batch: "25".to_string(),
    }
}

#[test]
fn settings_are_read() {
    let cfg = Cfg::load(full());
    assert_eq!(cfg.ladder, "https://ladder.example");
    assert_eq!(cfg.token, "tok");
    assert_eq!(cfg.tr_base, "http://localhost:8080");
    assert_eq!(cfg.tr_user, "zoe");
    assert_eq!(cfg.tr_pass, "secret");
    assert_eq!(cfg.tr_cookie, "abc;");
    assert_eq!(cfg.batch, 25);
}

#[test]
fn settings_have_defaults() {
    let cfg = Cfg::load(empty());
    assert_eq!(cfg.ladder, "");
    assert_eq!(cfg.tr_base, "https://tr4ker.net");
    assert_eq!(cfg.tr_cookie, "");
    assert_eq!(cfg.batch, 150);
}

#[test]
fn an_unreadable_batch_is_the_default() {
    for given in ["many", "-1", "4294967296", " 7"] {
        let mut env = empty();
        env.batch = given.to_string();
        assert_eq!(Cfg::load(env).batch, 150);
    }
    let mut env = empty();
    env.batch = "+7".to_string();
    assert_eq!(Cfg::load(env).batch, 7);
}

#[test]
fn a_cookie_may_bear_its_name() {
    let mut bare = empty();
    bare.tr4ker_cookie = "abc ".to_string();
    let mut named = empty();
    named.tr4ker_cookie = "TR4KER_session=abc ".to_string();
    assert_eq!(Cfg::load(bare).tr_cookie, "abc");
    assert_eq!(Cfg::load(named).tr_cookie, "abc");
}

#[test]
fn an_empty_value_falls_back() {
    assert_eq!(env_or("", "x"), "x");
    assert_eq!(env_or("y", "x"), "y");
    assert_eq!(env_or("", ""), "");
}

#[test]
fn credentials_are_a_name_and_a_password() {
    assert!(Cfg::load(full()).has_creds());
    let mut env = full();
    env.tr4ker_pass = String::new();
    assert!(!Cfg::load(env).has_creds());
    let mut env = full();
    env.tr4ker_user = String::new();
    assert!(!Cfg::load(env).has_creds());
}

#[test]
fn the_first_missing_setting_is_named() {
    assert_eq!(Cfg::load(full()).check(), Ok(AuthMode::Credentials));
    assert_eq!(Cfg::load(empty()).check(), Err(ConfigGap::LadderUrl));
    let mut env = full();
    env.ladder_url = "/".to_string();
    env.worker_token = String::new();
    assert_eq!(Cfg::load(env).check(), Err(ConfigGap::LadderUrl));
    let mut env = full();
    env.worker_token = String::new();
    assert_eq!(Cfg::load(env).check(), Err(ConfigGap::WorkerToken));
    let mut env = full();
    env.tr4ker_pass = String::new();
    assert_eq!(Cfg::load(env).check(), Ok(AuthMode::Cookie));
    let mut env = full();
    env.tr4ker_pass = String::new();
    env.tr4ker_cookie = " TR4KER_session= ".to_string();
    assert_eq!(Cfg::load(env).check(), Err(ConfigGap::Authentication));
}

#[test]
fn a_clone_holds_the_same() {
    let cfg = Cfg::load(full()).clone();
    assert_eq!(cfg.tr_cookie, "abc;");
    assert_eq!(cfg.batch, 25);
}
