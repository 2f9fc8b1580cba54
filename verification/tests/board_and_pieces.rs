use tetris_battle::board::{HEIGHT, HIDDEN, WIDTH};
use tetris_battle::garbage::calc_attack;
use tetris_battle::piece::{cells_for, wall_kicks};
use tetris_battle::{Board, Piece, PieceType};

fn piece_at(pt: PieceType, rot: u8, x: i32, y: i32) -> Piece {
    Piece { piece_type: pt, rotation: rot, x, y, cells: cells_for(pt, rot) }
}

#[test]
fn new_board_is_empty_and_full_size() {
    let b = Board::new();
    assert_eq!(b.cells.len(), HEIGHT + HIDDEN);
    for row in &b.cells {
        assert_eq!(row, &vec![0u8; WIDTH]);
    }
    assert_eq!(b.visible_cells().len(), HEIGHT);
}

#[test]
fn visible_cells_skip_the_hidden_rows() {
    let mut b = Board::new();
    b.cells[HIDDEN][0] = 5;
    b.cells[HIDDEN - 1][0] = 7;
    let v = b.visible_cells();
    assert_eq!(v[0][0], 5);
    assert_eq!(v.len(), 20);
}

#[test]
fn spawned_piece_fits_empty_board() {
    let b = Board::new();
    for pt in [PieceType::I, PieceType::O, PieceType::T, PieceType::S, PieceType::Z, PieceType::J, PieceType::L] {
        assert!(b.is_valid(&Piece::new(pt)));
    }
}

#[test]
fn is_valid_rejects_walls_floor_and_filled_cells() {
    let mut b = Board::new();
    // I, rotation 0 occupies row y + 1, columns x..x+3
    assert!(!b.is_valid(&piece_at(PieceType::I, 0, -1, 0)));
    assert!(!b.is_valid(&piece_at(PieceType::I, 0, 7, 0)));
    assert!(b.is_valid(&piece_at(PieceType::I, 0, 6, 0)));
    assert!(b.is_valid(&piece_at(PieceType::I, 0, 0, 22)));
    assert!(!b.is_valid(&piece_at(PieceType::I, 0, 0, 23)));
    // cells above the top are allowed
    assert!(b.is_valid(&piece_at(PieceType::I, 0, 0, -5)));
    b.cells[10][2] = 3;
    assert!(!b.is_valid(&piece_at(PieceType::I, 0, 0, 9)));
    assert!(b.is_valid(&piece_at(PieceType::I, 0, 3, 9)));
}

#[test]
fn absolute_cells_add_the_origin() {
    let p = piece_at(PieceType::T, 0, 3, 5);
    assert_eq!(p.absolute_cells(), vec![[4, 5], [3, 6], [4, 6], [5, 6]]);
    let s = Piece::new(PieceType::O);
    assert_eq!(s.x, 3);
    assert_eq!(s.y, 0);
    assert_eq!(s.rotation, 0);
    assert_eq!(s.absolute_cells(), vec![[4, 0], [5, 0], [4, 1], [5, 1]]);
}

#[test]
fn lock_piece_paints_its_colour_on_board_cells_only() {
    let mut b = Board::new();
    b.lock_piece(&Piece::new(PieceType::O));
    assert_eq!(b.cells[0][4], 2);
    assert_eq!(b.cells[0][5], 2);
    assert_eq!(b.cells[1][4], 2);
    assert_eq!(b.cells[1][5], 2);
    assert_eq!(b.cells[0][3], 0);
    // a piece partly above the top paints only its cells on the board
    let mut c = Board::new();
    c.lock_piece(&piece_at(PieceType::I, 1, 0, -2));
    assert_eq!(c.cells[0][2], 1);
    assert_eq!(c.cells[1][2], 1);
    assert_eq!(c.cells[2][2], 0);
}

#[test]
fn clear_lines_removes_full_rows_and_drops_the_rest() {
    let mut b = Board::new();
    b.cells[23] = vec![1; 10];
    b.cells[22][0] = 4;
    b.cells[21] = vec![2; 10];
    b.cells[20][9] = 6;
    let n = b.clear_lines();
    assert_eq!(n, 2);
    assert_eq!(b.cells.len(), 24);
    assert_eq!(b.cells[23][0], 4);
    assert_eq!(b.cells[22][9], 6);
    assert_eq!(b.cells[0], vec![0; 10]);
    assert_eq!(b.cells[1], vec![0; 10]);
    assert_eq!(b.clear_lines(), 0);
}

#[test]
fn add_garbage_raises_rows_with_a_hole() {
    let mut b = Board::new();
    b.cells[23][5] = 3;
    b.add_garbage(2, 4);
    assert_eq!(b.cells[21][5], 3);
    assert_eq!(b.cells[22], vec![8, 8, 8, 8, 0, 8, 8, 8, 8, 8]);
    assert_eq!(b.cells[23], vec![8, 8, 8, 8, 0, 8, 8, 8, 8, 8]);
    let mut c = Board::new();
    c.add_garbage(30, 0);
    assert_eq!(c.cells.len(), 24);
    assert_eq!(c.cells[0], vec![0, 8, 8, 8, 8, 8, 8, 8, 8, 8]);
    let mut d = Board::new();
    d.add_garbage(0, 0);
    assert_eq!(d.cells, Board::new().cells);
}

#[test]
fn cells_for_follows_the_guideline_shapes() {
    assert_eq!(cells_for(PieceType::I, 1), vec![[2, 0], [2, 1], [2, 2], [2, 3]]);
    assert_eq!(cells_for(PieceType::O, 3), cells_for(PieceType::O, 0));
    assert_eq!(cells_for(PieceType::T, 7), cells_for(PieceType::T, 3));
    assert_eq!(cells_for(PieceType::L, 0), vec![[2, 0], [0, 1], [1, 1], [2, 1]]);
    assert_eq!(cells_for(PieceType::J, 2), vec![[0, 1], [1, 1], [2, 1], [2, 2]]);
}

#[test]
fn wall_kicks_follow_srs() {
    assert_eq!(wall_kicks(PieceType::I, 0, 1), vec![(0, 0), (-2, 0), (1, 0), (-2, -1), (1, 2)]);
    assert_eq!(wall_kicks(PieceType::T, 0, 1), vec![(0, 0), (-1, 0), (-1, 1), (0, -2), (-1, -2)]);
    assert_eq!(wall_kicks(PieceType::S, 3, 0), vec![(0, 0), (-1, 0), (-1, -1), (0, 2), (-1, 2)]);
    assert_eq!(wall_kicks(PieceType::I, 3, 0), vec![(0, 0), (1, 0), (-2, 0), (1, -2), (-2, 1)]);
    // a pair that is not a quarter turn falls back to the first row
    assert_eq!(wall_kicks(PieceType::Z, 0, 2), wall_kicks(PieceType::Z, 0, 1));
}

#[test]
fn calc_attack_table() {
    assert_eq!(calc_attack(1, false, 0), 0);
    assert_eq!(calc_attack(2, false, 0), 1);
    assert_eq!(calc_attack(3, false, 0), 2);
    assert_eq!(calc_attack(4, false, 0), 4);
    assert_eq!(calc_attack(4, true, 0), 5);
    assert_eq!(calc_attack(3, true, 0), 2);
    assert_eq!(calc_attack(2, false, 3), 3);
    assert_eq!(calc_attack(1, false, 6), 3);
    assert_eq!(calc_attack(1, false, 9), 4);
    // the combo table has no entry for -1: it falls to the last arm
    assert_eq!(calc_attack(0, false, -1), 4);
}

#[test]
fn piece_colours_are_one_to_seven() {
    assert_eq!(PieceType::I.color(), 1);
    assert_eq!(PieceType::L.color(), 7);
    assert_eq!(PieceType::Z.index(), 4);
}

#[test]
fn garbage_rows_are_never_full() {
    let mut b = Board::new();
    b.add_garbage(5, 9);
    assert_eq!(b.clear_lines(), 0);
    assert_eq!(b.cells[23][9], 0);
}

#[test]
fn clear_lines_refills_a_short_board_to_full_height() {
    let mut b = Board { cells: vec![vec![1; 10], vec![0, 2, 0, 0, 0, 0, 0, 0, 0, 0]] };
    assert_eq!(b.clear_lines(), 1);
    assert_eq!(b.cells.len(), 24);
    assert_eq!(b.cells[23], vec![0, 2, 0, 0, 0, 0, 0, 0, 0, 0]);
    assert_eq!(b.cells[0], vec![0; 10]);
}
