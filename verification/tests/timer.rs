use snake_core::timer::Timer;

#[test]
fn a_new_timer_has_nothing_accumulated() {
    let t = Timer::new(150, true);
    assert_eq!(
        t,
        Timer { elapsed: 0, duration: 150, finished: false, just_finished: false, repeating: true }
    );
}

#[test]
fn a_tick_below_the_interval_only_accumulates() {
    let mut t = Timer::new(150, true);
    assert!(!t.tick(100));
    assert_eq!(t.elapsed, 100);
    assert!(!t.finished);
    assert!(!t.just_finished);
}

#[test]
fn a_repeating_timer_fires_when_the_interval_is_reached_exactly() {
    let mut t = Timer::new(150, true);
    assert!(!t.tick(149));
    assert!(t.tick(1));
    assert_eq!(t.elapsed, 0);
    assert!(t.finished);
    assert!(t.just_finished);
}

#[test]
fn a_repeating_timer_keeps_the_excess() {
    let mut t = Timer::new(150, true);
    assert!(!t.tick(100));
    assert!(t.tick(100));
    assert_eq!(t.elapsed, 50);
    assert!(!t.tick(99));
    assert_eq!(t.elapsed, 149);
    assert!(!t.finished);
    assert!(t.tick(1));
    assert_eq!(t.elapsed, 0);
}

#[test]
fn a_repeating_timer_wraps_a_long_tick_modulo_the_interval() {
    let mut t = Timer::new(150, true);
    assert!(t.tick(1000));
    assert_eq!(t.elapsed, 100);
}

#[test]
fn a_repeating_timer_is_finished_only_on_the_firing_tick() {
    let mut t = Timer::new(10, true);
    assert!(t.tick(10));
    assert!(!t.tick(1));
    assert!(!t.finished);
    assert!(!t.just_finished);
    assert_eq!(t.elapsed, 1);
}

#[test]
fn a_one_shot_timer_stays_finished_and_stops_accumulating() {
    let mut t = Timer::new(10, false);
    assert!(!t.tick(4));
    assert!(t.tick(8));
    assert_eq!(t.elapsed, 12);
    assert!(t.just_finished);
    assert!(t.tick(100));
    assert_eq!(t.elapsed, 12);
    assert!(t.finished);
    assert!(!t.just_finished);
}

#[test]
fn a_tick_of_zero_changes_nothing_before_the_interval() {
    let mut t = Timer::new(10, true);
    t.tick(3);
    assert!(!t.tick(0));
    assert_eq!(t.elapsed, 3);
}

#[test]
fn a_repeating_timer_with_zero_interval_fires_on_every_tick() {
    let mut t = Timer::new(0, true);
    assert!(t.tick(5));
    assert_eq!(t.elapsed, 0);
    assert!(t.tick(0));
    assert_eq!(t.elapsed, 0);
}

#[test]
fn the_sum_is_taken_without_overflow() {
    let mut t = Timer::new(u64::MAX, true);
    assert!(!t.tick(u64::MAX - 1));
    assert!(t.tick(u64::MAX));
    assert_eq!(t.elapsed, u64::MAX - 1);
}

#[test]
fn a_one_shot_timer_caps_the_accumulator() {
    let mut t = Timer::new(u64::MAX, false);
    assert!(!t.tick(u64::MAX - 1));
    assert!(t.tick(u64::MAX));
    assert_eq!(t.elapsed, u64::MAX);
}

#[test]
fn reset_clears_the_accumulator_and_the_flags() {
    let mut t = Timer::new(10, false);
    t.tick(25);
    t.reset();
    assert_eq!(
        t,
        Timer { elapsed: 0, duration: 10, finished: false, just_finished: false, repeating: false }
    );
    assert!(!t.tick(9));
}
