use vstd::prelude::*;

use crate::garbage::{combo_attack, line_attack};

verus! {

/// Points for clearing `lines` lines at once, before the level multiplier.
pub open spec fn line_score(lines: u32) -> u32 {
    if lines == 1 {
        100
    } else if lines == 2 {
        300
    } else if lines == 3 {
        500
    } else {
        800
    }
}

/// Gravity interval in milliseconds for a level from 0 to 20: the Tetris Guideline
/// curve `(0.8 - (level - 1) * 0.007) ^ (level - 1)` seconds, truncated to whole
/// milliseconds.
pub open spec fn gravity_table(level: u32) -> u32 {
    if level == 0 {
        1239
    } else if level == 1 {
        1000
    } else if level == 2 {
        793
    } else if level == 3 {
        617
    } else if level == 4 {
        472
    } else if level == 5 {
        355
    } else if level == 6 {
        262
    } else if level == 7 {
        189
    } else if level == 8 {
        134
    } else if level == 9 {
        93
    } else if level == 10 {
        64
    } else if level == 11 {
        42
    } else if level == 12 {
        28
    } else if level == 13 {
        18
    } else if level == 14 {
        11
    } else if level == 15 {
        7
    } else if level == 16 {
        4
    } else if level == 17 {
        2
    } else if level == 18 {
        1
    } else {
        0
    }
}

/// The level reached with `lines` cleared lines: one more than a tenth of them.
pub open spec fn level_for(lines: int) -> int {
    lines / 10 + 1
}

/// Scoring system following the Tetris Guideline.
pub struct Scoring {
    pub score: u32,
    pub level: u32,
    pub lines: u32,
    pub combo: i32,
    /// back-to-back (consecutive Tetris)
    pub b2b: bool,
    pub pending_attack: u32,
    pub gravity_counter: u32,
}

impl Scoring {
    /// The back-to-back bonus a clear of `lines` lines earns now.
    pub open spec fn b2b_bonus(self, lines: u32) -> int {
        if lines == 4 && self.b2b {
            1
        } else {
            0
        }
    }

    /// Level after clearing `lines` more lines.
    pub open spec fn level_after(self, lines: u32) -> int {
        level_for(self.lines + lines)
    }

    /// Combo count after a lock that clears at least one line.
    pub open spec fn combo_after(self) -> int {
        self.combo + 1
    }

    /// Points a clear of `lines > 0` lines earns: line points and back-to-back bonus
    /// times the new level, plus 50 per combo step times the new level.
    pub open spec fn clear_points(self, lines: u32) -> int {
        let level = self.level_after(lines);
        let base = line_score(lines);
        base * level + self.b2b_bonus(lines) * (base / 2) * level + if self.combo_after() > 0 {
            50 * self.combo_after() * level
        } else {
            0
        }
    }

    /// Attack lines a clear of `lines > 0` lines sends.
    pub open spec fn clear_attack(self, lines: u32) -> int {
        line_attack(lines) + self.b2b_bonus(lines) + combo_attack(self.combo_after())
    }

    /// The counters after registering a clear of `lines` lines: a lock that clears
    /// nothing resets the combo to -1; a clear adds its lines, sets the level to one
    /// more than a tenth of all lines, adds its points, sets back-to-back exactly when
    /// it is a Tetris, and owes its attack.
    pub open spec fn after_clear(self, lines: u32) -> Scoring {
        if lines == 0 {
            Scoring { combo: -1i32, ..self }
        } else {
            Scoring {
                combo: self.combo_after() as i32,
                lines: (self.lines + lines) as u32,
                level: self.level_after(lines) as u32,
                score: (self.score + self.clear_points(lines)) as u32,
                b2b: lines == 4,
                pending_attack: (self.pending_attack + self.clear_attack(lines)) as u32,
                ..self
            }
        }
    }

    /// The counters a clear of `lines` lines touches stay within their integer types.
    pub open spec fn clear_fits(self, lines: u32) -> bool {
        lines > 0 ==> {
            let level = self.level_after(lines);
            let base = line_score(lines);
            &&& self.lines + lines <= u32::MAX
            &&& self.combo_after() <= i32::MAX
            &&& base * level <= u32::MAX
            &&& (base / 2) * level <= u32::MAX
            &&& 50 * self.combo_after() <= u32::MAX
            &&& 50 * self.combo_after() * level <= u32::MAX
            &&& base * level + self.b2b_bonus(lines) * (base / 2) * level <= u32::MAX
            &&& self.score + self.clear_points(lines) <= u32::MAX
            &&& self.pending_attack + self.clear_attack(lines) <= u32::MAX
        }
    }

    /// Score 0, level 1, no lines, no combo (-1), no back-to-back, nothing owed.
    pub open spec fn initial() -> Scoring {
        Scoring {
            score: 0,
            level: 1,
            lines: 0,
            combo: -1i32,
            b2b: false,
            pending_attack: 0,
            gravity_counter: 0,
        }
    }

    /// Score 0, level 1, no lines, no combo, no back-to-back, nothing owed.
    pub fn new() -> (s: Self)
        ensures
            s == Scoring::initial(),
    {
        Scoring {
            score: 0,
            level: 1,
            lines: 0,
            combo: -1,
            b2b: false,
            pending_attack: 0,
            gravity_counter: 0,
        }
    }

    /// One point per row of soft drop.
    pub fn add_soft_drop(&mut self, rows: u32)
        requires
            old(self).score + rows <= u32::MAX,
        ensures
            *final(self) == (Scoring { score: (old(self).score + rows) as u32, ..*old(self) }),
    {
        self.score += rows;
    }

    /// Two points per row of hard drop.
    pub fn add_hard_drop(&mut self, rows: u32)
        requires
            old(self).score + 2 * rows <= u32::MAX,
        ensures
            *final(self) == (Scoring { score: (old(self).score + 2 * rows) as u32, ..*old(self) }),
    {
        self.score += rows * 2;
    }

    /// Registers a line clear and returns the attack lines to send. A lock that clears
    /// nothing breaks the combo; a clear adds its lines, sets the level to one more
    /// than a tenth of all lines, scores, and owes its attack.
    pub fn register_clear(&mut self, lines: u32) -> (attack: u32)
        requires
            old(self).clear_fits(lines),
        ensures
            *final(self) == old(self).after_clear(lines),
            attack == if lines == 0 { 0 } else { old(self).clear_attack(lines) },
    {
        if lines == 0 {
            self.combo = -1;
            return 0;
        }
        self.combo += 1;
        self.lines += lines;
        self.level = (self.lines / 10) + 1;

        let is_difficult = lines == 4;
        let b2b_bonus: u32 = if is_difficult && self.b2b {
            1
        } else {
            0
        };
        self.b2b = is_difficult;

        let base: u32 = if lines == 1 {
            100
        } else if lines == 2 {
            300
        } else if lines == 3 {
            500
        } else {
            800
        };
        assert(b2b_bonus * (base / 2) * self.level <= (base / 2) * self.level) by (nonlinear_arith)
            requires
                b2b_bonus <= 1,
        ;
        self.score += base * self.level + b2b_bonus * (base / 2) * self.level;

        if self.combo > 0 {
            self.score += 50 * self.combo as u32 * self.level;
        }

        let attack_base: u32 = if lines == 1 {
            0
        } else if lines == 2 {
            1
        } else if lines == 3 {
            2
        } else if lines == 4 {
            4
        } else {
            0
        };
        let combo_attack: u32 = if self.combo == 0 {
            0
        } else if self.combo == 1 || self.combo == 2 {
            1
        } else if self.combo == 3 || self.combo == 4 {
            2
        } else if self.combo == 5 || self.combo == 6 {
            3
        } else {
            4
        };
        let total_attack = attack_base + b2b_bonus + combo_attack;
        self.pending_attack += total_attack;
        total_attack
    }

    /// Returns the attack lines owed and clears them.
    pub fn take_attack(&mut self) -> (a: u32)
        ensures
            a == old(self).pending_attack,
            *final(self) == (Scoring { pending_attack: 0, ..*old(self) }),
    {
        let a = self.pending_attack;
        self.pending_attack = 0;
        a
    }

    /// Returns the gravity interval in milliseconds for the level (levels above 20
    /// count as 20).
    pub fn gravity_ms(&self) -> (ms: u32)
        ensures
            ms == gravity_table(if self.level < 20 { self.level } else { 20 }),
    {
        let level = if self.level < 20 {
            self.level
        } else {
            20
        };
        if level == 0 {
            1239
        } else if level == 1 {
            1000
        } else if level == 2 {
            793
        } else if level == 3 {
            617
        } else if level == 4 {
            472
        } else if level == 5 {
            355
        } else if level == 6 {
            262
        } else if level == 7 {
            189
        } else if level == 8 {
            134
        } else if level == 9 {
            93
        } else if level == 10 {
            64
        } else if level == 11 {
            42
        } else if level == 12 {
            28
        } else if level == 13 {
            18
        } else if level == 14 {
            11
        } else if level == 15 {
            7
        } else if level == 16 {
            4
        } else if level == 17 {
            2
        } else if level == 18 {
            1
        } else {
            0
        }
    }

    /// Gravity is driven by the caller's timer, so the piece never falls on a tick here.
    pub fn tick(&mut self) -> (fall: bool)
        ensures
            !fall,
            *final(self) == *old(self),
    {
        false
    }

    /// Sets the level (the shared level a server broadcasts); nothing else changes.
    pub fn set_level(&mut self, level: u32)
        ensures
            *final(self) == (Scoring { level, ..*old(self) }),
    {
        self.level = level;
    }
}

} // verus!
