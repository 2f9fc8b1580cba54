use vstd::prelude::*;

use crate::board::{cleared, fits, raised};
use crate::bag::RandomDraws;
use crate::game::{drop_rows, moved_to, rotation_result, turned, GameState};
use crate::piece::{kicks, lemma_kicks_well_formed, placed, shape};
use crate::garbage::{combo_attack, line_attack};
use crate::room::winner_for;
use crate::scoring::{gravity_table, level_for, Scoring};

verus! {

/// The attack a registered clear sends is exactly what `calc_attack` computes from
/// the lines, the back-to-back flag before the clear, and the combo after it.
pub proof fn lemma_clear_attack_is_calc_attack(s: Scoring, lines: u32)
    requires
        lines > 0,
    ensures
        s.clear_attack(lines) == line_attack(lines) + (if s.b2b && lines == 4 { 1int } else { 0int })
            + combo_attack(s.combo + 1),
{
}

/// Once a clear has been registered, the level is one more than a tenth of the lines;
/// locks that clear nothing keep it that way.
pub proof fn lemma_level_tracks_lines(s: Scoring, lines: u32)
    requires
        s.clear_fits(lines),
        lines > 0 || s.level == level_for(s.lines as int),
    ensures
        s.after_clear(lines).level == level_for(s.after_clear(lines).lines as int),
{
}

/// A scoring call that can come between two `take_attack` calls.
pub enum ScoreStep {
    /// `register_clear(lines)`
    Clear(u32),
    /// `add_soft_drop(rows)`
    SoftDrop(u32),
    /// `add_hard_drop(rows)`
    HardDrop(u32),
}

/// The counters after one step.
pub open spec fn after_step(s: Scoring, step: ScoreStep) -> Scoring {
    match step {
        ScoreStep::Clear(n) => s.after_clear(n),
        ScoreStep::SoftDrop(r) => Scoring { score: (s.score + r) as u32, ..s },
        ScoreStep::HardDrop(r) => Scoring { score: (s.score + 2 * r) as u32, ..s },
    }
}

/// The attack one step returns: that of a clear, none for a drop.
pub open spec fn step_attack(s: Scoring, step: ScoreStep) -> int {
    match step {
        ScoreStep::Clear(n) => if n == 0 { 0 } else { s.clear_attack(n) },
        _ => 0,
    }
}

/// The step stays within the counters' integer types (the `requires` of its call).
pub open spec fn step_fits(s: Scoring, step: ScoreStep) -> bool {
    match step {
        ScoreStep::Clear(n) => s.clear_fits(n),
        ScoreStep::SoftDrop(r) => s.score + r <= u32::MAX,
        ScoreStep::HardDrop(r) => s.score + 2 * r <= u32::MAX,
    }
}

/// The counters after the steps in order.
pub open spec fn after_steps(s: Scoring, steps: Seq<ScoreStep>) -> Scoring
    decreases steps.len(),
{
    if steps.len() == 0 {
        s
    } else {
        after_step(after_steps(s, steps.drop_last()), steps.last())
    }
}

/// The attacks the steps return, summed.
pub open spec fn attacks_sent(s: Scoring, steps: Seq<ScoreStep>) -> int
    decreases steps.len(),
{
    if steps.len() == 0 {
        0
    } else {
        attacks_sent(s, steps.drop_last()) + step_attack(after_steps(s, steps.drop_last()), steps.last())
    }
}

/// Every step fits the counters it meets.
pub open spec fn steps_fit(s: Scoring, steps: Seq<ScoreStep>) -> bool
    decreases steps.len(),
{
    steps.len() == 0 || (steps_fit(s, steps.drop_last()) && step_fits(after_steps(s, steps.drop_last()), steps.last()))
}

/// No attack is lost or counted twice: after any run of clears and drops, the attack
/// owed is what was owed before plus every attack the clears returned. Starting from
/// a fresh `Scoring` or right after `take_attack` (both owe nothing), the next
/// `take_attack` therefore returns exactly the sum of what the clears returned.
pub proof fn lemma_attack_conserved(s: Scoring, steps: Seq<ScoreStep>)
    requires
        steps_fit(s, steps),
    ensures
        after_steps(s, steps).pending_attack == s.pending_attack + attacks_sent(s, steps),
    decreases steps.len(),
{
    if steps.len() > 0 {
        lemma_attack_conserved(s, steps.drop_last());
    }
}

/// The score never goes down when a clear is registered.
pub proof fn lemma_score_never_drops(s: Scoring, lines: u32)
    requires
        s.clear_fits(lines),
    ensures
        s.after_clear(lines).score >= s.score,
{
    if lines > 0 {
        let level = s.level_after(lines);
        assert(level >= 1);
        assert(crate::scoring::line_score(lines) * level >= 0) by (nonlinear_arith)
            requires
                level >= 1,
        ;
        assert(s.b2b_bonus(lines) * (crate::scoring::line_score(lines) / 2) * level >= 0) by (nonlinear_arith)
            requires
                level >= 1,
                s.b2b_bonus(lines) >= 0,
        ;
        if s.combo_after() > 0 {
            assert(50 * s.combo_after() * level >= 0) by (nonlinear_arith)
                requires
                    level >= 1,
                    s.combo_after() > 0,
            ;
        }
    }
}

/// The landing row of a straight drop is a resting place: the piece fits there when
/// it fits where it starts, and one row further down it does not fit.
pub proof fn lemma_drop_rests(rows: Seq<Seq<u8>>, cells: Seq<[i32; 2]>, x: int, y: int)
    requires
        y <= 24,
    ensures
        ({
            let land = y + drop_rows(rows, cells, x, y);
            &&& !(land < 24 && fits(rows, placed(cells, x, land + 1)))
            &&& fits(rows, placed(cells, x, y)) ==> fits(rows, placed(cells, x, land))
        }),
    decreases 24 - y,
{
    if y < 24 && fits(rows, placed(cells, x, y + 1)) {
        lemma_drop_rests(rows, cells, x, y + 1);
    }
}

/// Gravity never slows down as the level rises.
pub proof fn lemma_gravity_speeds_up(a: u32, b: u32)
    requires
        a <= b <= 20,
    ensures
        gravity_table(b) <= gravity_table(a),
{
}

/// The winner of a match is the other player: a loss reported by slot 1 makes slot 2
/// the winner, and one by slot 2 makes slot 1 the winner.
pub proof fn lemma_winner_is_other()
    ensures
        winner_for(1) == 2,
        winner_for(2) == 1,
{
}

/// A lock never revives a finished game, and always leaves no garbage pending.
pub proof fn lemma_lock_keeps_game_over(g0: GameState, g1: GameState, draws: RandomDraws)
    requires
        GameState::lock_result(g0, g1, draws),
    ensures
        g0.over() ==> g1.over(),
        g1.garbage_pending() == 0,
{
}

/// Cleared lines cancel pending garbage one for one. After a lock that clears `n`
/// lines with `p` garbage lines pending, exactly `p - n` garbage rows rise under the
/// cleared stack when `p > n`, and none when `n >= p`; nothing stays pending.
pub proof fn lemma_lock_cancels_garbage(g0: GameState, g1: GameState, draws: RandomDraws)
    requires
        GameState::locks_into(g0, g1, draws),
    ensures
        ({
            let p = g0.garbage_pending() as int;
            let n = g0.lock_lines();
            let rising = if p > n { p - n } else { 0 };
            g1.rows() == raised(cleared(g0.with_piece()), rising, draws.garbage_hole as int)
        }),
        g0.lock_lines() >= g0.garbage_pending() ==> g1.rows() == cleared(g0.with_piece()),
        g1.garbage_pending() == 0,
{
    let c = cleared(g0.with_piece());
    assert(raised(c, 0, draws.garbage_hole as int) =~= c);
}

/// A turn by one quarter in either direction moves the rotation index by that
/// quarter modulo four, in `0..4`: turning back undoes it, and the two directions
/// reach different states (counter-clockwise from 0 is 3, clockwise is 1).
pub proof fn lemma_turn_steps_mod_four(rot: u8, dir: int)
    requires
        rot < 4,
        dir == 1 || dir == -1,
    ensures
        turned(rot, dir) < 4,
        (turned(rot, dir) - rot - dir) % 4 == 0,
        turned(turned(rot, dir), -dir) == rot,
        turned(rot, 1) != turned(rot, -1),
{
}

/// A turn that needs no kick is undone by the opposite turn: from a piece that fits
/// where it is, turning by `dir` with its first (unshifted) kick fitting and then
/// turning back both succeed and give back the piece as it was.
pub proof fn lemma_turn_back_restores(g0: GameState, g1: GameState, g2: GameState, dir: int, ok1: bool, ok2: bool)
    requires
        g0.wf(),
        dir == 1 || dir == -1,
        fits(g0.rows(), placed(g0.active().cells@, g0.active().x as int, g0.active().y as int)),
        g0.kick_fits(
            turned(g0.active().rotation, dir),
            kicks(g0.active().piece_type, g0.active().rotation, turned(g0.active().rotation, dir)),
            0,
        ),
        rotation_result(g0, g1, dir, ok1),
        g1.rows() == g0.rows(),
        rotation_result(g1, g2, -dir, ok2),
    ensures
        ok1,
        ok2,
        moved_to(g0.active(), g2.active(), g0.active().x as int, g0.active().y as int),
{
    let p = g0.active();
    let to = turned(p.rotation, dir);
    let ks = kicks(p.piece_type, p.rotation, to);
    lemma_kicks_well_formed(p.piece_type, p.rotation, to);
    lemma_turn_steps_mod_four(p.rotation, dir);
    assert(ok1);
    let k = choose|k: int|
        0 <= k < ks.len() && #[trigger] g0.kick_fits(to, ks, k) && (forall|j: int|
            0 <= j < k ==> !g0.kick_fits(to, ks, j)) && g1.active().piece_type == p.piece_type
            && g1.active().rotation == to && g1.active().cells@ == shape(p.piece_type, to)
            && g1.active().x == p.x + ks[k].0 && g1.active().y == p.y - ks[k].1;
    assert(k == 0);
    let q = g1.active();
    let back = turned(q.rotation, -dir);
    assert(back == p.rotation);
    let ks2 = kicks(q.piece_type, q.rotation, back);
    lemma_kicks_well_formed(q.piece_type, q.rotation, back);
    assert(placed(shape(q.piece_type, back), q.x + ks2[0].0, q.y - ks2[0].1)
        =~= placed(p.cells@, p.x as int, p.y as int));
    assert(g1.kick_fits(back, ks2, 0));
    assert(ok2);
    let k2 = choose|k: int|
        0 <= k < ks2.len() && #[trigger] g1.kick_fits(back, ks2, k) && (forall|j: int|
            0 <= j < k ==> !g1.kick_fits(back, ks2, j)) && g2.active().piece_type == q.piece_type
            && g2.active().rotation == back && g2.active().cells@ == shape(q.piece_type, back)
            && g2.active().x == q.x + ks2[k].0 && g2.active().y == q.y - ks2[k].1;
    assert(k2 == 0);
}

/// A lock that clears nothing only resets the combo: back-to-back, score, lines,
/// level, owed attack and the gravity counter stay as they were.
pub proof fn lemma_empty_lock_only_resets_combo(s: Scoring)
    ensures
        s.after_clear(0).combo == -1,
        s.after_clear(0).b2b == s.b2b,
        s.after_clear(0).score == s.score,
        s.after_clear(0).lines == s.lines,
        s.after_clear(0).level == s.level,
        s.after_clear(0).pending_attack == s.pending_attack,
        s.after_clear(0).gravity_counter == s.gravity_counter,
{
}

/// The counters after `k` locks that clear nothing.
pub open spec fn after_empty_locks(s: Scoring, k: nat) -> Scoring
    decreases k,
{
    if k == 0 {
        s
    } else {
        after_empty_locks(s, (k - 1) as nat).after_clear(0)
    }
}

/// Back-to-back survives locks that clear nothing: after a Tetris and then `k >= 1`
/// locks that clear nothing, the next Tetris is back-to-back. It sends 5 lines (4 for
/// the Tetris, 1 for back-to-back, none for the combo that restarts) and earns
/// 800 + 400 points per level.
pub proof fn lemma_b2b_survives_empty_locks(s: Scoring, k: nat)
    requires
        k >= 1,
    ensures
        ({
            let t = after_empty_locks(s.after_clear(4), k);
            &&& t.b2b
            &&& t.combo == -1
            &&& t.clear_attack(4) == 5
            &&& t.clear_points(4) == 1200 * t.level_after(4)
        }),
    decreases k,
{
    let t0 = s.after_clear(4);
    assert(t0.b2b);
    if k > 1 {
        lemma_b2b_survives_empty_locks(s, (k - 1) as nat);
    }
    let t = after_empty_locks(t0, k);
    let prev = after_empty_locks(t0, (k - 1) as nat);
    assert(prev.b2b) by {
        if k > 1 {
        } else {
            assert(prev == t0);
        }
    }
    assert(t == prev.after_clear(0));
    let level = t.level_after(4);
    assert(800 * level + 400 * level == 1200 * level);
}

} // verus!
