use cpu_load_simulator::cpu::{cycle_sleep_nanos, CPU_CYCLE_NANOS, MIN_SLEEP_NANOS};

#[test]
fn sleeps_the_rest_of_the_cycle() {
    assert_eq!(cycle_sleep_nanos(0), 10_000_000);
    assert_eq!(cycle_sleep_nanos(4_000_000), 6_000_000);
    assert_eq!(cycle_sleep_nanos(9_899_999), 100_001);
}

#[test]
fn never_sleeps_less_than_the_minimum() {
    assert_eq!(cycle_sleep_nanos(9_900_000), 100_000);
    assert_eq!(cycle_sleep_nanos(9_950_000), 100_000);
    assert_eq!(cycle_sleep_nanos(20_000_000), 100_000);
    assert_eq!(cycle_sleep_nanos(u128::MAX), MIN_SLEEP_NANOS);
}

#[test]
fn cycle_keeps_its_length() {
    for elapsed in [1u128, 123_456, 5_000_000, 9_800_000] {
        assert_eq!(elapsed + cycle_sleep_nanos(elapsed), CPU_CYCLE_NANOS);
    }
}

