use lubun::kernel::timer::Timer;

#[test]
fn delay_ms_without_frequency_waits_nothing() {
    let timer = Timer::init();
    assert_eq!(timer.delay_ms(1000, 0), None);
}

#[test]
fn delay_ms_converts_to_ticks() {
    let timer = Timer::init();
    assert_eq!(timer.delay_ms(10, 3_000_000_000), Some(30_000_000));
    assert_eq!(timer.delay_ms(0, 3_000_000_000), Some(0));
    assert_eq!(timer.delay_ms(5, 2_999), Some(10));
    assert_eq!(timer.delay_ms(1000, 3_000_000_999), Some(3_000_000_000));
    assert_eq!(timer.delay_ms(7, 1_000), Some(7));
    assert_eq!(timer.delay_ms(5, 999), Some(4));
}

#[test]
fn delay_ms_below_one_khz() {
    let timer = Timer::init();
    assert_eq!(timer.delay_ms(1000, 500), Some(500));
    assert_eq!(timer.delay_ms(3, 1), Some(0));
    assert_eq!(timer.delay_ms(2500, 1), Some(2));
}

#[test]
fn delay_ms_saturates() {
    let timer = Timer::init();
    assert_eq!(timer.delay_ms(u64::MAX, 2_000), Some(u64::MAX));
    assert_eq!(timer.delay_ms(u64::MAX, 1_000), Some(u64::MAX));
    assert_eq!(timer.delay_ms(u64::MAX, 999), Some(18_428_297_329_635_842_063));
    assert_eq!(timer.delay_ms(u64::MAX, u64::MAX), Some(u64::MAX));
}

#[test]
fn delay_cycles_waits_full_length() {
    let timer = Timer::init();
    let delay = timer.delay_cycles(100, 50);
    assert!(!delay.is_done(100));
    assert!(!delay.is_done(149));
    assert!(delay.is_done(150));
    assert!(delay.is_done(10_000));
}

#[test]
fn delay_cycles_across_counter_wrap() {
    let timer = Timer::init();
    let delay = timer.delay_cycles(u64::MAX - 9, 20);
    assert!(!delay.is_done(u64::MAX));
    assert!(!delay.is_done(9));
    assert!(delay.is_done(10));
}

#[test]
fn zero_cycle_delay_is_done_at_once() {
    let timer = Timer::init();
    let delay = timer.delay_cycles(12345, 0);
    assert!(delay.is_done(12345));
    assert!(delay.is_done(0));
}
