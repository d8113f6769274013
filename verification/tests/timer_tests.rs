use dungeon_logic::timer::RepeatTimer;

#[test]
fn a_timer_finishes_and_goes_on() {
    let mut t = RepeatTimer::new(1000);
    assert_eq!((t.duration_ms, t.elapsed_ms), (1000, 0));
    assert!(!t.tick(999));
    assert_eq!(t.elapsed_ms, 999);
    assert!(t.tick(1));
    assert_eq!(t.elapsed_ms, 0);
    assert!(t.tick(2500));
    assert_eq!(t.elapsed_ms, 500);
    t.reset();
    assert_eq!(t.elapsed_ms, 0);
}
