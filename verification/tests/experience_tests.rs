use dungeon_logic::experience::{PlayerExperience, MAX_LEVEL};

#[test]
fn starts_at_level_one() {
    let e = PlayerExperience::new();
    assert_eq!((e.current(), e.to_lv_up(), e.lv(), e.orb_bonus()), (0, 100, 1, 0));
}

#[test]
fn experience_accumulates_below_threshold() {
    let mut e = PlayerExperience::new();
    e.give(60);
    e.give(39);
    assert_eq!((e.current(), e.lv()), (99, 1));
    assert!(!e.take_level_up_popup());
}

#[test]
fn level_up_keeps_surplus_and_grows_requirement() {
    let mut e = PlayerExperience::new();
    e.give(130);
    assert_eq!((e.current(), e.lv(), e.to_lv_up()), (30, 2, 140));
    assert!(e.take_level_up_popup());
    assert!(!e.take_level_up_popup());
}

#[test]
fn requirements_grow_by_seven_fifths() {
    let mut e = PlayerExperience::new();
    let expected = [100u32, 140, 196, 274, 383, 536, 750, 1050, 1470];
    for lv in 1..=9u8 {
        assert_eq!(e.lv(), lv);
        assert_eq!(e.to_lv_up(), expected[(lv - 1) as usize]);
        let need = e.to_lv_up();
        e.give(need);
    }
    assert_eq!(e.lv(), MAX_LEVEL);
}

#[test]
fn no_level_past_the_cap() {
    let mut e = PlayerExperience::new();
    for _ in 0..20 {
        let need = e.to_lv_up();
        e.give(need);
    }
    assert_eq!(e.lv(), MAX_LEVEL);
    assert_eq!(e.to_lv_up(), 1470);
}

#[test]
fn orb_bonus_counts() {
    let mut e = PlayerExperience::new();
    e.add_orb_bonus();
    e.add_orb_bonus();
    assert_eq!(e.orb_bonus(), 2);
    assert_eq!(e.current(), 0);
}

#[test]
fn one_call_levels_up_once_at_most() {
    let mut e = PlayerExperience::new();
    e.give(1000);
    assert_eq!((e.lv(), e.current(), e.to_lv_up()), (2, 900, 140));
    e.give(0);
    assert_eq!((e.lv(), e.current()), (3, 760));
}
