use rustis::reconnection::policy_delay_millis;
use rustis::reconnection::{add_jitter, incr_with_max, saturating_pow, ReconnectionConfig, ReconnectionState};

#[test]
fn a_constant_policy_waits_the_same_until_its_attempts_are_spent() {
    let mut state = ReconnectionState::new(ReconnectionConfig::Constant {
        delay: 100,
        max_attempts: 2,
        jitter: 0,
    });
    assert_eq!(Some(100), state.next_delay());
    assert_eq!(Some(100), state.next_delay());
    assert_eq!(None, state.next_delay());
    assert_eq!(2, state.attempts);

    state.reset_attempts();
    assert_eq!(Some(100), state.next_delay());
}

#[test]
fn a_linear_policy_grows_by_its_delay_up_to_the_ceiling() {
    let mut state = ReconnectionState::new(ReconnectionConfig::Linear {
        max_delay: 250,
        max_attempts: 0,
        delay: 100,
        jitter: 0,
    });
    assert_eq!(Some(100), state.next_delay());
    assert_eq!(Some(200), state.next_delay());
    assert_eq!(Some(250), state.next_delay());
    assert_eq!(Some(250), state.next_delay());
}

#[test]
fn an_exponential_policy_multiplies_up_to_the_ceiling() {
    let mut state = ReconnectionState::new(ReconnectionConfig::Exponential {
        min_delay: 10,
        max_delay: 1000,
        max_attempts: 0,
        multiplicative_factor: 3,
        jitter: 0,
    });
    assert_eq!(Some(10), state.next_delay());
    assert_eq!(Some(30), state.next_delay());
    assert_eq!(Some(90), state.next_delay());
    assert_eq!(Some(270), state.next_delay());
    assert_eq!(Some(810), state.next_delay());
    assert_eq!(Some(1000), state.next_delay());
}

#[test]
fn jitter_stays_below_its_bound_and_above_the_delay() {
    for _ in 0..100 {
        let d = add_jitter(500, 10);
        assert!((500..510).contains(&d));
    }
    assert_eq!(500, add_jitter(500, 0));
    assert_eq!(u64::MAX, add_jitter(u64::MAX, 5));
}

#[test]
fn a_jittered_ceiling_is_exceeded_by_at_most_the_jitter() {
    let mut state = ReconnectionState::new(ReconnectionConfig::Linear {
        max_delay: 100,
        max_attempts: 0,
        delay: 1000,
        jitter: 20,
    });
    for _ in 0..20 {
        let d = state.next_delay().unwrap();
        assert!((100..120).contains(&d));
    }
}

#[test]
fn attempts_are_counted_up_to_the_limit() {
    assert_eq!(Some(1), incr_with_max(0, 3));
    assert_eq!(None, incr_with_max(3, 3));
    assert_eq!(Some(u32::MAX), incr_with_max(u32::MAX, 0));
}

#[test]
fn a_power_saturates_instead_of_wrapping() {
    assert_eq!(1, saturating_pow(7, 0));
    assert_eq!(343, saturating_pow(7, 3));
    assert_eq!(0, saturating_pow(0, 5));
    assert_eq!(1, saturating_pow(1, u32::MAX));
    assert_eq!(u64::MAX, saturating_pow(2, 64));
    assert_eq!(1 << 63, saturating_pow(2, 63));
}

#[test]
fn a_policy_of_the_callers_counts_without_limit_and_saturates() {
    let mut state = ReconnectionState::new(ReconnectionConfig::Constant { delay: 1, max_attempts: 1, jitter: 0 });
    assert_eq!(1, state.count_policy_attempt());
    assert_eq!(2, state.count_policy_attempt());
    state.attempts = u32::MAX;
    assert_eq!(u32::MAX, state.count_policy_attempt());
    assert_eq!(1500, policy_delay_millis(1500));
    assert_eq!(u64::MAX, policy_delay_millis(u128::from(u64::MAX) + 1));
}

#[test]
fn a_drawn_spread_is_added_and_saturates() {
    assert_eq!(150, rustis::reconnection::jittered_delay(100, 50));
    assert_eq!(u64::MAX, rustis::reconnection::jittered_delay(u64::MAX - 1, 5));
}
