use tetris_battle::{GameState, RandomDraws};

/// Picks that leave the fresh bag I, O, T, S, Z, J, L as it is.
fn identity_draws() -> RandomDraws {
    RandomDraws { bag_picks: vec![6, 5, 4, 3, 2, 1], garbage_hole: 0 }
}

/// Picks a zero random number would give: the bag becomes O, T, S, Z, J, L, I.
fn zero_draws() -> RandomDraws {
    RandomDraws { bag_picks: vec![0, 0, 0, 0, 0, 0], garbage_hole: 0 }
}

#[test]
fn new_game_spawns_the_last_piece_of_the_bag() {
    let g = GameState::new(1, &identity_draws());
    let snap = g.snapshot();
    // L is popped first, then J fills the preview
    assert_eq!(snap.current.color, 7);
    assert_eq!(snap.current.cells, vec![[5, 0], [3, 1], [4, 1], [5, 1]]);
    assert_eq!(snap.next.len(), 1);
    assert_eq!(snap.next[0].color, 6);
    assert_eq!(snap.next[0].cells, vec![[3, 0], [3, 1], [4, 1], [5, 1]]);
    assert_eq!(snap.ghost_y, 22);
    assert_eq!(snap.score, 0);
    assert_eq!(snap.level, 1);
    assert_eq!(snap.lines, 0);
    assert!(!snap.game_over);
    assert_eq!(snap.pending_garbage, 0);
    assert_eq!(snap.board.len(), 24);
}

#[test]
fn preview_is_capped_at_four() {
    let g = GameState::new(9, &identity_draws());
    let snap = g.snapshot();
    assert_eq!(snap.next.len(), 4);
    // J, Z, S, T follow L
    let colors: Vec<u8> = snap.next.iter().map(|p| p.color).collect();
    assert_eq!(colors, vec![6, 5, 4, 3]);
    let none = GameState::new(0, &identity_draws());
    assert_eq!(none.snapshot().next.len(), 0);
}

#[test]
fn zero_draws_shuffle_like_a_zero_random_number() {
    let g = GameState::new(4, &zero_draws());
    let snap = g.snapshot();
    // bag O, T, S, Z, J, L, I: I first, then L, J, Z, S
    assert_eq!(snap.current.color, 1);
    let colors: Vec<u8> = snap.next.iter().map(|p| p.color).collect();
    assert_eq!(colors, vec![7, 6, 5, 4]);
}

#[test]
fn moves_stop_at_the_walls() {
    let mut g = GameState::new(0, &zero_draws());
    for _ in 0..3 {
        assert!(g.move_left());
    }
    assert!(!g.move_left());
    assert_eq!(g.snapshot().current.cells, vec![[0, 1], [1, 1], [2, 1], [3, 1]]);
    for _ in 0..6 {
        assert!(g.move_right());
    }
    assert!(!g.move_right());
    assert_eq!(g.snapshot().current.cells, vec![[6, 1], [7, 1], [8, 1], [9, 1]]);
}

#[test]
fn move_left_then_right_comes_back() {
    let mut g = GameState::new(0, &zero_draws());
    let before = g.snapshot().current.cells;
    assert!(g.move_left());
    assert!(g.move_right());
    assert_eq!(g.snapshot().current.cells, before);
}

#[test]
fn rotation_turns_and_kicks_off_the_wall() {
    let mut g = GameState::new(0, &zero_draws());
    assert!(g.rotate_cw());
    assert_eq!(g.snapshot().current.cells, vec![[5, 0], [5, 1], [5, 2], [5, 3]]);
    assert!(g.rotate_ccw());
    assert_eq!(g.snapshot().current.cells, vec![[3, 1], [4, 1], [5, 1], [6, 1]]);
    assert!(g.rotate_cw());
    for _ in 0..5 {
        assert!(g.move_left());
    }
    assert!(!g.move_left());
    assert_eq!(g.snapshot().current.cells, vec![[0, 0], [0, 1], [0, 2], [0, 3]]);
    // R -> 2 at the left wall: (0, 0) and (-1, 0) fail, (2, 0) fits
    assert!(g.rotate_cw());
    assert_eq!(g.snapshot().current.cells, vec![[0, 2], [1, 2], [2, 2], [3, 2]]);
}

#[test]
fn soft_drop_and_gravity_score_one_point() {
    let mut g = GameState::new(0, &zero_draws());
    assert!(g.soft_drop());
    assert_eq!(g.get_score(), 1);
    assert_eq!(g.gravity_tick(&zero_draws()), 0);
    assert_eq!(g.get_score(), 2);
    assert_eq!(g.snapshot().current.cells, vec![[3, 3], [4, 3], [5, 3], [6, 3]]);
}

#[test]
fn hard_drop_lands_on_the_ghost_row_and_scores_two_per_row() {
    let mut g = GameState::new(0, &zero_draws());
    assert_eq!(g.snapshot().ghost_y, 22);
    assert_eq!(g.hard_drop(&zero_draws()), 22);
    assert_eq!(g.get_score(), 44);
    let snap = g.snapshot();
    assert_eq!(snap.board[23], vec![0, 0, 0, 1, 1, 1, 1, 0, 0, 0]);
    // the next piece (L) has spawned
    assert_eq!(snap.current.color, 7);
    let text = g.board_compact();
    assert_eq!(text.len(), 240);
    assert_eq!(&text[230..], "0001111000");
    assert_eq!(&text[..10], "0000000000");
}

#[test]
fn gravity_tick_locks_a_landed_piece() {
    let mut g = GameState::new(0, &zero_draws());
    for _ in 0..22 {
        assert!(g.soft_drop());
    }
    assert_eq!(g.gravity_tick(&zero_draws()), 0);
    let snap = g.snapshot();
    assert_eq!(snap.board[23], vec![0, 0, 0, 1, 1, 1, 1, 0, 0, 0]);
    assert_eq!(snap.current.color, 7);
    assert_eq!(g.get_score(), 22);
}

/// I lands, one garbage row rises under it, L lands on it, then a J turned and
/// pushed to the wall fills the hole and clears the garbage row.
fn play_to_first_clear(g: &mut GameState, garbage_before_j: u32) {
    let d = zero_draws();
    g.receive_garbage(1);
    assert_eq!(g.hard_drop(&d), 22);
    assert_eq!(g.hard_drop(&d), 20);
    if garbage_before_j > 0 {
        g.receive_garbage(garbage_before_j);
    }
    assert!(g.rotate_cw());
    for _ in 0..4 {
        assert!(g.move_left());
    }
    assert!(!g.move_left());
    assert_eq!(g.hard_drop(&d), 21);
}

#[test]
fn filling_the_garbage_hole_clears_a_line() {
    let mut g = GameState::new(0, &zero_draws());
    play_to_first_clear(&mut g, 0);
    assert_eq!(g.get_lines(), 1);
    // 44 + 40 + 42 for the drops, 100 for the single
    assert_eq!(g.get_score(), 226);
    assert_eq!(g.take_attack(), 0);
    let snap = g.snapshot();
    assert_eq!(snap.board[23], vec![6, 0, 0, 1, 1, 1, 1, 0, 0, 0]);
    assert_eq!(snap.board[22], vec![6, 6, 0, 7, 7, 7, 0, 0, 0, 0]);
    assert_eq!(snap.board[21], vec![0, 0, 0, 0, 0, 7, 0, 0, 0, 0]);
    assert_eq!(snap.pending_garbage, 0);
}

#[test]
fn cleared_lines_cancel_pending_garbage() {
    let mut g = GameState::new(0, &zero_draws());
    play_to_first_clear(&mut g, 3);
    // one of the three lines is cancelled, two rise with the hole at column 0
    let snap = g.snapshot();
    assert_eq!(snap.pending_garbage, 0);
    assert_eq!(snap.board[23], vec![0, 8, 8, 8, 8, 8, 8, 8, 8, 8]);
    assert_eq!(snap.board[22], vec![0, 8, 8, 8, 8, 8, 8, 8, 8, 8]);
    assert_eq!(snap.board[21], vec![6, 0, 0, 1, 1, 1, 1, 0, 0, 0]);
}

#[test]
fn garbage_waits_for_the_next_lock() {
    let mut g = GameState::new(0, &zero_draws());
    g.receive_garbage(2);
    g.receive_garbage(3);
    let snap = g.snapshot();
    assert_eq!(snap.pending_garbage, 5);
    assert_eq!(snap.board[23], vec![0; 10]);
}

#[test]
fn a_blocked_spawn_ends_the_game_and_stops_gravity() {
    let mut g = GameState::new(0, &zero_draws());
    g.receive_garbage(24);
    assert_eq!(g.hard_drop(&zero_draws()), 22);
    assert!(g.is_game_over());
    let snap = g.snapshot();
    for row in &snap.board {
        assert_eq!(row, &vec![0, 8, 8, 8, 8, 8, 8, 8, 8, 8]);
    }
    let score = g.get_score();
    assert_eq!(g.gravity_tick(&zero_draws()), 0);
    assert_eq!(g.get_score(), score);
    assert!(g.is_game_over());
}

#[test]
fn level_is_set_from_outside() {
    let mut g = GameState::new(0, &zero_draws());
    assert_eq!(g.get_level(), 1);
    assert_eq!(g.get_gravity_ms(), 1000);
    g.set_level(3);
    assert_eq!(g.get_level(), 3);
    assert_eq!(g.get_gravity_ms(), 617);
}

#[test]
fn bags_hold_each_kind_once() {
    let picks = vec![vec![6, 5, 4, 3, 2, 1], vec![0, 0, 0, 0, 0, 0], vec![3, 1, 4, 1, 2, 0], vec![6, 0, 2, 3, 0, 1]];
    for p in picks {
        let bag = tetris_battle::bag::new_bag(&p);
        let mut idx: Vec<u8> = bag.iter().map(|t| t.index()).collect();
        idx.sort();
        assert_eq!(idx, vec![0, 1, 2, 3, 4, 5, 6]);
    }
}

#[test]
fn an_i_piece_in_the_garbage_well_is_a_tetris() {
    let d = zero_draws();
    let mut g = GameState::new(0, &d);
    g.receive_garbage(4);
    // I, then L, J, Z, S, T, O stacked in the middle columns
    for _ in 0..7 {
        g.hard_drop(&d);
    }
    assert!(!g.is_game_over());
    let snap = g.snapshot();
    assert_eq!(snap.current.color, 1);
    for r in 20..24 {
        assert_eq!(snap.board[r][0], 0);
    }
    assert!(g.rotate_cw());
    for _ in 0..5 {
        assert!(g.move_left());
    }
    assert_eq!(g.hard_drop(&d), 20);
    assert_eq!(g.get_lines(), 4);
    assert_eq!(g.take_attack(), 4);
    assert_eq!(g.take_attack(), 0);
    let after = g.snapshot();
    for r in 20..24 {
        assert_ne!(after.board[r], vec![8, 8, 8, 8, 8, 8, 8, 8, 8, 8]);
        assert!(after.board[r].iter().any(|&c| c == 0));
    }
}

#[test]
fn srs_kicks_count_rows_upward() {
    // I on the floor: rotation 0 -> R fails in place and with the sideways kicks,
    // (-2, -1) would go below the floor, and (1, 2) lifts it two rows.
    let mut g = GameState::new(0, &zero_draws());
    for _ in 0..22 {
        assert!(g.soft_drop());
    }
    assert!(!g.soft_drop());
    assert!(g.rotate_cw());
    assert_eq!(g.snapshot().current.cells, vec![[6, 20], [6, 21], [6, 22], [6, 23]]);
}

#[test]
fn every_block_of_seven_pieces_is_a_full_bag() {
    let d = RandomDraws { bag_picks: vec![3, 1, 4, 1, 2, 0], garbage_hole: 0 };
    let mut g = GameState::new(4, &d);
    let mut seen: Vec<u8> = Vec::new();
    for _ in 0..14 {
        let snap = g.snapshot();
        seen.push(snap.current.color);
        // spread the pieces so the stack stays low
        let left = seen.len() % 3;
        for _ in 0..left * 2 {
            g.move_left();
        }
        g.hard_drop(&d);
    }
    for block in seen.chunks(7) {
        let mut b = block.to_vec();
        b.sort();
        assert_eq!(b, vec![1, 2, 3, 4, 5, 6, 7]);
    }
}
