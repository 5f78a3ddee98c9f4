use strassen::timer::Timer;

#[test]
fn test_timer_records_elapsed() {
    let mut timer = Timer::new();
    timer.start();
    let first = timer.stop();
    // A second reading from the same mark can only be later.
    let second = timer.stop();
    assert!(second >= first);
}
