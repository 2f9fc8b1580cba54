use tetris_battle::garbage::calc_attack;
use tetris_battle::Scoring;

#[test]
fn new_scoring_starts_at_level_one() {
    let s = Scoring::new();
    assert_eq!(s.score, 0);
    assert_eq!(s.level, 1);
    assert_eq!(s.lines, 0);
    assert_eq!(s.combo, -1);
    assert!(!s.b2b);
    assert_eq!(s.pending_attack, 0);
}

#[test]
fn drops_score_one_and_two_points_per_row() {
    let mut s = Scoring::new();
    s.add_soft_drop(3);
    assert_eq!(s.score, 3);
    s.add_hard_drop(5);
    assert_eq!(s.score, 13);
}

#[test]
fn register_clear_scores_combos_and_back_to_back() {
    let mut s = Scoring::new();
    // single: 100 x level 1, combo 0, no attack
    assert_eq!(s.register_clear(1), 0);
    assert_eq!(s.score, 100);
    assert_eq!(s.combo, 0);
    // tetris: 800, combo 1 adds 50, attack 4 + combo 1
    assert_eq!(s.register_clear(4), 5);
    assert_eq!(s.score, 950);
    assert_eq!(s.lines, 5);
    assert!(s.b2b);
    // back-to-back tetris: 800 + 400 + combo 2 x 50, attack 4 + 1 + 1
    assert_eq!(s.register_clear(4), 6);
    assert_eq!(s.score, 2250);
    assert_eq!(s.lines, 9);
    assert_eq!(s.level, 1);
    // a lock without lines breaks the combo
    assert_eq!(s.register_clear(0), 0);
    assert_eq!(s.combo, -1);
    assert_eq!(s.score, 2250);
    // level 2 after ten lines: double 300 x 2, combo 0
    assert_eq!(s.register_clear(2), 1);
    assert_eq!(s.lines, 11);
    assert_eq!(s.level, 2);
    assert_eq!(s.score, 2850);
    assert!(!s.b2b);
}

#[test]
fn take_attack_returns_the_owed_lines_once() {
    let mut s = Scoring::new();
    s.register_clear(2);
    s.register_clear(3);
    // double: 1 + combo 0; triple: 2 + combo 1 -> 1
    assert_eq!(s.take_attack(), 4);
    assert_eq!(s.take_attack(), 0);
}

#[test]
fn gravity_follows_the_guideline_curve() {
    let mut s = Scoring::new();
    assert_eq!(s.gravity_ms(), 1000);
    s.set_level(2);
    assert_eq!(s.gravity_ms(), 793);
    s.set_level(10);
    assert_eq!(s.gravity_ms(), 64);
    s.set_level(18);
    assert_eq!(s.gravity_ms(), 1);
    s.set_level(25);
    assert_eq!(s.gravity_ms(), 0);
    s.set_level(0);
    assert_eq!(s.gravity_ms(), 1239);
}

#[test]
fn gravity_table_matches_the_float_formula() {
    for level in 0u32..=30 {
        let mut s = Scoring::new();
        s.set_level(level);
        let l = level.min(20) as f64;
        let seconds = (0.8 - (l - 1.0) * 0.007).powf(l - 1.0);
        assert_eq!(s.gravity_ms(), (seconds * 1000.0) as u32, "level {}", level);
    }
}

#[test]
fn tick_never_drops() {
    let mut s = Scoring::new();
    assert!(!s.tick());
    assert_eq!(s.score, 0);
}

#[test]
fn a_clear_sends_what_calc_attack_computes() {
    let mut s = Scoring::new();
    for lines in [4u32, 4, 1, 2, 3, 4, 4, 1, 1, 1, 1, 1] {
        let b2b = s.b2b;
        let attack = s.register_clear(lines);
        assert_eq!(attack, calc_attack(lines, b2b, s.combo));
    }
}

#[test]
fn score_never_drops_and_level_follows_lines() {
    let mut s = Scoring::new();
    let mut last = 0;
    for lines in [1u32, 0, 4, 3, 0, 2, 4, 4, 1] {
        s.register_clear(lines);
        assert!(s.score >= last);
        last = s.score;
        assert_eq!(s.level, s.lines / 10 + 1);
    }
    assert_eq!(s.lines, 19);
}

#[test]
fn gravity_never_slows_down_with_level() {
    let mut s = Scoring::new();
    let mut prev = u32::MAX;
    for level in 0..=25 {
        s.set_level(level);
        assert!(s.gravity_ms() <= prev);
        prev = s.gravity_ms();
    }
}

#[test]
fn take_attack_returns_every_attack_since_the_last_take() {
    let mut s = Scoring::new();
    let mut sent = 0;
    sent += s.register_clear(2);
    s.add_soft_drop(3);
    sent += s.register_clear(3);
    s.add_hard_drop(10);
    sent += s.register_clear(4);
    sent += s.register_clear(0);
    assert_eq!(s.take_attack(), sent);
    let mut again = 0;
    again += s.register_clear(4);
    again += s.register_clear(4);
    assert_eq!(s.take_attack(), again);
}
