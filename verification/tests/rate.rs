use l4dder_worker::rate::{
    count, gap, lower, pause, raise, FULL_RATE, MAX_BACKOFF, MIN_RATE, RATE_STEP, SECOND,
};

#[test]
fn answers_raise_the_rate_step_by_step() {
    assert_eq!(raise(MIN_RATE, FULL_RATE), MIN_RATE + RATE_STEP);
    assert_eq!(raise(800_000_000_000_000_000, FULL_RATE), 950_000_000_000_000_000);
    assert_eq!(raise(850_000_000_000_000_000, FULL_RATE), FULL_RATE);
    assert_eq!(raise(950_000_000_000_000_000, FULL_RATE), FULL_RATE);
    assert_eq!(raise(FULL_RATE, FULL_RATE), FULL_RATE);
}

#[test]
fn refusals_lower_the_rate_by_a_fifth() {
    assert_eq!(lower(FULL_RATE), 800_000_000_000_000_000);
    assert_eq!(lower(800_000_000_000_000_000), 640_000_000_000_000_000);
    assert_eq!(lower(350_000_000_000_000_000), MIN_RATE);
    assert_eq!(lower(MIN_RATE), MIN_RATE);
}

#[test]
fn five_answers_restore_the_full_rate() {
    let mut rate = MIN_RATE;
    for _ in 0..5 {
        assert!(rate < FULL_RATE);
        rate = raise(rate, FULL_RATE);
    }
    assert_eq!(rate, FULL_RATE);
}

#[test]
fn the_rate_agrees_with_floating_point() {
    let mut rate = FULL_RATE;
    let mut reference = 1.0f64;
    for n in 0..1000u32 {
        if n % 3 == 1 || n % 7 == 2 {
            rate = raise(rate, FULL_RATE);
            if reference < 1.0 {
                reference = (reference + 0.15).min(1.0);
            }
        } else {
            rate = lower(rate);
            reference = (reference * 0.8).max(0.3);
        }
        assert!((rate as f64 / 1e18 - reference).abs() < 1e-12, "{}", n);
        let seconds = 1.0 / reference.max(0.2);
        assert!((gap(rate) as f64 / 1e9 - seconds).abs() < 1e-8, "{}", n);
    }
}

#[test]
fn requests_are_spaced_by_the_rate() {
    assert_eq!(gap(FULL_RATE), SECOND);
    assert_eq!(gap(800_000_000_000_000_000), 1_250_000_000);
    assert_eq!(gap(MIN_RATE), 3_333_333_333);
    assert_eq!(gap(0), 5_000_000_000);
}

#[test]
fn pauses_grow_up_to_five_minutes() {
    assert_eq!(pause(20, 0), 0);
    assert_eq!(pause(20, 1), 20);
    assert_eq!(pause(20, 15), 300);
    assert_eq!(pause(20, 16), MAX_BACKOFF);
    assert_eq!(pause(30, 10), 300);
    assert_eq!(pause(30, u32::MAX), 300);
}

#[test]
fn refusals_are_counted() {
    assert_eq!(count(0), 1);
    assert_eq!(count(u32::MAX), u32::MAX);
}
