use l4dder_worker::json::{parse_json, Json};
use l4dder_worker::profile::{
    badge_tier, level_of, path_of_search, search_prefix, Progress, Scrape, ScrapeOut,
};
use l4dder_worker::session::{Ask, Fetch, Phase};

fn doc(s: &str) -> Json {
    parse_json(s.as_bytes()).unwrap()
}

fn found(s: &str) -> Fetch {
    Fetch::Found(doc(s))
}

#[test]
fn upload_badges_stand_for_a_tier() {
    assert_eq!(level_of("Upload 3"), 3);
    assert_eq!(level_of("Upload 1 To 5"), 15);
    assert_eq!(level_of("Premier Upload"), 1);
    assert_eq!(level_of("Premier Upload 4"), 4);
    assert_eq!(level_of("Upload"), 0);
    assert_eq!(level_of("upload 3"), 0);
    assert_eq!(level_of("Download 3"), 0);
    assert_eq!(level_of("Premier"), 0);
    assert_eq!(level_of(""), 0);
    assert_eq!(level_of("Upload 9223372036854775807"), i64::MAX);
    assert_eq!(level_of("Upload 9223372036854775808"), 0);
    assert_eq!(level_of("Premier Upload 9223372036854775808"), 1);
}

#[test]
fn the_highest_tier_counts() {
    let list = "[{\"name\": \"Upload 2\"}, {\"name\": \"Upload 7\"}, {\"name\": \"Upload 5\"}]";
    assert_eq!(badge_tier(&found(list)), Some(7));
    assert_eq!(badge_tier(&found(&format!("{{\"badges\": {}}}", list))), Some(7));
    assert_eq!(badge_tier(&found(&format!("{{\"data\": {}}}", list))), Some(7));
}

#[test]
fn badges_go_before_data() {
    let d = "{\"badges\": [{\"name\": \"Upload 2\"}], \"data\": [{\"name\": \"Upload 9\"}]}";
    assert_eq!(badge_tier(&found(d)), Some(2));
    let d = "{\"badges\": 1, \"data\": [{\"name\": \"Upload 9\"}]}";
    assert_eq!(badge_tier(&found(d)), Some(0));
}

#[test]
fn no_badges_are_tier_zero() {
    assert_eq!(badge_tier(&found("[]")), Some(0));
    assert_eq!(badge_tier(&found("{}")), Some(0));
    assert_eq!(badge_tier(&found("7")), Some(0));
    assert_eq!(badge_tier(&found("[{\"name\": 3}, {}, 4, \"Upload 8\"]")), Some(0));
}

#[test]
fn badges_that_did_not_come_leave_the_tier_open() {
    assert_eq!(badge_tier(&Fetch::Gone), None);
    assert_eq!(badge_tier(&Fetch::Fail), None);
}

#[test]
fn a_search_lists_names() {
    let list = "[{\"username\": \"ann\"}, {\"name\": \"x\"}, {\"username\": 3}, {\"username\": \"bob\"}]";
    let names = Some(vec!["ann".to_string(), "bob".to_string()]);
    assert_eq!(search_prefix(&found(list)), names);
    assert_eq!(search_prefix(&found(&format!("{{\"users\": {}}}", list))), names);
    assert_eq!(search_prefix(&found(&format!("{{\"data\": {}}}", list))), names);
    assert_eq!(search_prefix(&found("{\"users\": null, \"data\": [1]}")), Some(vec![]));
}

#[test]
fn a_search_may_find_nothing_or_fail() {
    assert_eq!(search_prefix(&found("[]")), Some(vec![]));
    assert_eq!(search_prefix(&Fetch::Gone), Some(vec![]));
    assert_eq!(search_prefix(&Fetch::Fail), None);
}

#[test]
fn a_search_stands_under_its_prefix() {
    assert_eq!(path_of_search("a b"), "/api/users/search?q=a%20b");
}

#[test]
fn a_known_user_is_sampled() {
    let profile = "{\"id\": 12, \"role\": \"user\", \"uploaded\": 100, \"downloaded\": 50,
        \"bonus_upload\": 3, \"seeding_count\": 4, \"joined_at\": \"2020\", \"last_seen_at\": 7}";
    let next = match Scrape::begin("zoe".to_string()).fetched(found(profile), 5) {
        Progress::Going(next, Ask::Clock) => next,
        _ => panic!(),
    };
    assert_eq!(next.phase, Phase::Cooldown);
    let sample = match next.fetched(found("[{\"name\": \"Upload 6\"}]"), 1234) {
        Progress::Done(ScrapeOut::Scraped(sample)) => sample,
        _ => panic!(),
    };
    assert_eq!(sample.username, "zoe");
    assert_eq!(sample.id, 12);
    assert_eq!(sample.role, Some("user".to_string()));
    assert_eq!(sample.uploaded, 100);
    assert_eq!(sample.downloaded, 50);
    assert_eq!(sample.bonus_upload, 3);
    assert_eq!(sample.seeding_count, 4);
    assert_eq!(sample.joined_at, Some("2020".to_string()));
    assert_eq!(sample.last_seen_at, None);
    assert_eq!(sample.upload_tier, Some(6));
    assert_eq!(sample.scraped_at, 1234);
}

#[test]
fn a_sample_may_lack_the_tier() {
    let next = match Scrape::begin("zoe".to_string()).fetched(found("{\"id\": 1}"), 5) {
        Progress::Going(next, _) => next,
        _ => panic!(),
    };
    match next.fetched(Fetch::Fail, 6) {
        Progress::Done(ScrapeOut::Scraped(sample)) => {
            assert_eq!(sample.upload_tier, None);
            assert_eq!(sample.uploaded, 0);
            assert_eq!(sample.role, None);
        }
        _ => panic!(),
    }
}

#[test]
fn a_user_without_a_profile_is_gone() {
    for fetch in [Fetch::Gone, found("{}"), found("{\"id\": \"12\"}"), found("[]")] {
        assert!(matches!(
            Scrape::begin("zoe".to_string()).fetched(fetch, 5),
            Progress::Done(ScrapeOut::Gone)
        ));
    }
}

#[test]
fn a_profile_that_did_not_come_fails_the_scrape() {
    assert!(matches!(
        Scrape::begin("zoe".to_string()).fetched(Fetch::Fail, 5),
        Progress::Done(ScrapeOut::Fail)
    ));
}
