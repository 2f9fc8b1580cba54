use vstd::prelude::*;

verus! {

/// Garbage lines sent for clearing `lines` lines at once: none for a single, one for
/// a double, two for a triple, four for a Tetris.
pub open spec fn line_attack(lines: u32) -> int {
    if lines == 2 {
        1
    } else if lines == 3 {
        2
    } else if lines == 4 {
        4
    } else {
        0
    }
}

/// Garbage lines added by a combo count: 0 for 0, 1 for 1-2, 2 for 3-4, 3 for 5-6,
/// and 4 for any other count.
pub open spec fn combo_attack(combo: int) -> int {
    if combo == 0 {
        0
    } else if combo == 1 || combo == 2 {
        1
    } else if combo == 3 || combo == 4 {
        2
    } else if combo == 5 || combo == 6 {
        3
    } else {
        4
    }
}

/// Attack lines for a clear: the line attack, one more for a back-to-back Tetris,
/// and the combo attack.
pub fn calc_attack(lines_cleared: u32, b2b: bool, combo: i32) -> (a: u32)
    ensures
        a == line_attack(lines_cleared) + (if b2b && lines_cleared == 4 { 1int } else { 0int })
            + combo_attack(combo as int),
        a <= 9,
{
    let base: u32 = if lines_cleared == 1 {
        0
    } else if lines_cleared == 2 {
        1
    } else if lines_cleared == 3 {
        2
    } else if lines_cleared == 4 {
        4
    } else {
        0
    };
    let b2b_bonus: u32 = if b2b && lines_cleared == 4 {
        1
    } else {
        0
    };
    let combo_bonus: u32 = if combo == 0 {
        0
    } else if combo == 1 || combo == 2 {
        1
    } else if combo == 3 || combo == 4 {
        2
    } else if combo == 5 || combo == 6 {
        3
    } else {
        4
    };
    base + b2b_bonus + combo_bonus
}

} // verus!
