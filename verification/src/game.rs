use vstd::prelude::*;

use crate::board::{Board, views, WIDTH, HEIGHT, HIDDEN, fits, empty_rows, kept_rows, painted, cleared, raised, no_full_row};
use crate::piece::{Piece, PieceType, placed, shape, offsets_in_box, lemma_shape_in_box, kicks, kicks_well_formed, lemma_kicks_well_formed, wall_kicks, cells_for};
use crate::bag::{RandomDraws, bag_for, drawn, new_bag, lemma_shuffled_len, block, is_full_bag, in_bag_blocks, lemma_reverse_full_bag, lemma_blocks_append};
use crate::scoring::Scoring;
use crate::text::push_char;

verus! {

/// The piece is a fresh piece of kind `pt` at the spawn position.
pub open spec fn is_spawn(p: Piece, pt: PieceType) -> bool {
    &&& p.piece_type == pt
    &&& p.rotation == 0
    &&& p.x == 3
    &&& p.y == 0
    &&& p.cells@ == shape(pt, 0)
}

/// `q` is `p` with its origin moved to `(x, y)`.
pub open spec fn moved_to(p: Piece, q: Piece, x: int, y: int) -> bool {
    &&& q.piece_type == p.piece_type
    &&& q.rotation == p.rotation
    &&& q.cells@ == p.cells@
    &&& q.x == x
    &&& q.y == y
}

/// A copy of a well-shaped piece with its origin shifted by `(dx, dy)`.
fn shifted(p: &Piece, dx: i32, dy: i32) -> (q: Piece)
    requires
        p.rotation < 4,
        p.cells@ == shape(p.piece_type, p.rotation),
        i32::MIN <= p.x + dx <= i32::MAX,
        i32::MIN <= p.y + dy <= i32::MAX,
    ensures
        moved_to(*p, q, p.x + dx, p.y + dy),
{
    Piece {
        piece_type: p.piece_type,
        rotation: p.rotation,
        x: p.x + dx,
        y: p.y + dy,
        cells: crate::piece::cells_for(p.piece_type, p.rotation),
    }
}

/// A piece whose origin is in the band `-5..=26` rows, `-5..=11` columns with offsets
/// in its 4x4 box has all its absolute cells in `i32`.
proof fn lemma_coords_fit(p: Piece)
    requires
        offsets_in_box(p.cells@),
        -5 <= p.x <= 11,
        -7 <= p.y <= 26,
    ensures
        p.coords_fit(),
{
}

/// A piece that fits has its origin in columns -3 to 9 and above row 24.
proof fn lemma_band(rows: Seq<Seq<u8>>, p: Piece)
    requires
        offsets_in_box(p.cells@),
        p.cells@.len() == 4,
        p.coords_fit(),
        fits(rows, p.absolute()),
    ensures
        -3 <= p.x <= 9,
        p.y <= 23,
{
    let a = p.absolute();
    assert(crate::board::cell_free(rows, a[0]));
    assert(a[0] == crate::piece::cell(p.cells@[0][0] + p.x, p.cells@[0][1] + p.y));
}

/// A kick chosen as the first that fits never lifts a piece above row -5: a lift
/// only comes after the same column shift without it, and above the board the two
/// fit alike. Kick offsets count rows upward, so kick `(dx, dy)` puts the origin
/// at column `x + dx`, row `y - dy`.
proof fn lemma_kick_keeps_band(
    rows: Seq<Seq<u8>>,
    cells: Seq<[i32; 2]>,
    x: int,
    y: int,
    ks: Seq<(i32, i32)>,
    k: int,
)
    requires
        -5 <= y <= 23,
        -3 <= x <= 9,
        offsets_in_box(cells),
        kicks_well_formed(ks),
        0 <= k < 5,
        fits(rows, placed(cells, x + ks[k].0, y - ks[k].1)),
        forall|j: int| 0 <= j < k ==> !fits(rows, #[trigger] placed(cells, x + ks[j].0, y - ks[j].1)),
    ensures
        y - ks[k].1 >= -5,
{
    if y - ks[k].1 < -5 {
        assert(ks[k].1 != 0);
        let j = choose|j: int| 0 <= j < k && ks[j].1 == 0 && #[trigger] ks[j].0 == ks[k].0;
        let at_j = placed(cells, x + ks[j].0, y - ks[j].1);
        let at_k = placed(cells, x + ks[k].0, y - ks[k].1);
        assert forall|i: int| 0 <= i < at_j.len() implies crate::board::cell_free(rows, #[trigger] at_j[i]) by {
            assert(crate::board::cell_free(rows, at_k[i]));
        }
        assert(fits(rows, at_j));
    }
}

/// A straight drop never takes a piece whose cells lie in its 4x4 box below row 23.
proof fn lemma_drop_bound(rows: Seq<Seq<u8>>, cells: Seq<[i32; 2]>, x: int, y: int)
    requires
        offsets_in_box(cells),
        cells.len() == 4,
        -5 <= x <= 11,
        -7 <= y <= 23,
    ensures
        y + drop_rows(rows, cells, x, y) <= 23,
    decreases 24 - y,
{
    if y < 24 && fits(rows, placed(cells, x, y + 1)) {
        let a = placed(cells, x, y + 1);
        assert(crate::board::cell_free(rows, a[0]));
        lemma_drop_bound(rows, cells, x, y + 1);
    }
}

/// The rotation index after turning `rot` by `dir` quarter turns.
pub open spec fn turned(rot: u8, dir: int) -> u8 {
    ((rot + dir) % 4) as u8
}

/// The outcome of turning the piece of `g0` by `dir` quarter turns: it turns exactly
/// when some kick fits, and then lands at the first kick that fits, its rows
/// counted upward; otherwise it stays.
pub open spec fn rotation_result(g0: GameState, g1: GameState, dir: int, ok: bool) -> bool {
    let p = g0.active();
    let to = turned(p.rotation, dir);
    let ks = kicks(p.piece_type, p.rotation, to);
    &&& ok == exists|k: int| 0 <= k < ks.len() && #[trigger] g0.kick_fits(to, ks, k)
    &&& ok ==> exists|k: int|
        0 <= k < ks.len() && #[trigger] g0.kick_fits(to, ks, k) && (forall|j: int|
            0 <= j < k ==> !g0.kick_fits(to, ks, j)) && g1.active().piece_type == p.piece_type
            && g1.active().rotation == to && g1.active().cells@ == shape(p.piece_type, to)
            && g1.active().x == p.x + ks[k].0 && g1.active().y == p.y - ks[k].1
    &&& !ok ==> g1.active() == p
}

/// How many rows the cells at origin `(x, y)` can fall before the next row down
/// no longer fits.
pub open spec fn drop_rows(rows: Seq<Seq<u8>>, cells: Seq<[i32; 2]>, x: int, y: int) -> nat
    decreases 24 - y,
{
    if y < 24 && fits(rows, placed(cells, x, y + 1)) {
        1 + drop_rows(rows, cells, x, y + 1)
    } else {
        0
    }
}

/// The number of full rows.
pub open spec fn full_rows(rows: Seq<Seq<u8>>) -> int {
    rows.len() - kept_rows(rows).len()
}

/// The cells and colour of a piece, for drawing.
#[derive(Clone)]
pub struct PieceSnapshot {
    pub cells: Vec<[i32; 2]>,
    pub color: u8,
}

/// Everything a client draws for one game.
#[derive(Clone)]
pub struct GameSnapshot {
    pub board: Vec<Vec<u8>>,
    pub current: PieceSnapshot,
    pub next: Vec<PieceSnapshot>,
    pub ghost_y: i32,
    pub score: u32,
    pub level: u32,
    pub lines: u32,
    pub game_over: bool,
    pub pending_garbage: u32,
}

/// The character of a cell in the compact board text: its colour as a digit.
pub open spec fn digit(c: u8) -> char {
    ((c + 48) as u8) as char
}

/// The compact board text: the cells row by row, each as its digit.
pub open spec fn compact_text(rows: Seq<Seq<u8>>) -> Seq<char> {
    rows.map_values(|row: Seq<u8>| row.map_values(|c: u8| digit(c))).flatten()
}

/// The state of one player's game.
pub struct GameState {
    board: Board,
    current_piece: Piece,
    next_pieces: Vec<PieceType>,
    bag: Vec<PieceType>,
    scoring: Scoring,
    game_over: bool,
    pending_garbage: u32,
    next_count: u8,
    pending_attack: u32,
    /// Every piece that has fallen so far, the falling one last.
    spawned: Ghost<Seq<PieceType>>,
}

impl GameState {
    /// The board.
    pub closed spec fn board_state(self) -> Board {
        self.board
    }

    /// The falling piece.
    pub closed spec fn active(self) -> Piece {
        self.current_piece
    }

    /// The queue of next pieces, first to come first.
    pub closed spec fn queue(self) -> Seq<PieceType> {
        self.next_pieces@
    }

    /// What is left of the current bag; pieces are taken from its back.
    pub closed spec fn bag_left(self) -> Seq<PieceType> {
        self.bag@
    }

    /// The scoring counters.
    pub closed spec fn score_state(self) -> Scoring {
        self.scoring
    }

    /// Whether the game is over.
    pub closed spec fn over(self) -> bool {
        self.game_over
    }

    /// Garbage lines received and not yet applied.
    pub closed spec fn garbage_pending(self) -> u32 {
        self.pending_garbage
    }

    /// How many next pieces are previewed (0 to 4).
    pub closed spec fn preview_count(self) -> u8 {
        self.next_count
    }

    /// Attack lines generated and not yet taken.
    pub closed spec fn attack_pending(self) -> u32 {
        self.pending_attack
    }

    /// Every piece that has fallen so far, in order, the falling one last.
    pub closed spec fn spawned_pieces(self) -> Seq<PieceType> {
        self.spawned@
    }

    /// Every piece drawn so far, in order: those that have fallen, then the queue,
    /// then what is left of the bag, in the order it will be drawn.
    pub open spec fn piece_stream(self) -> Seq<PieceType> {
        self.spawned_pieces() + self.queue() + self.bag_left().reverse()
    }

    /// The board rows.
    pub open spec fn rows(self) -> Seq<Seq<u8>> {
        self.board_state().rows()
    }

    /// The piece has its shape for its rotation, and its origin lies in the band where
    /// every reachable position lies: columns -3 to 9, rows -5 to 23.
    pub open spec fn piece_ok(p: Piece) -> bool {
        &&& p.rotation < 4
        &&& p.cells@ == shape(p.piece_type, p.rotation)
        &&& -3 <= p.x <= 9
        &&& -5 <= p.y <= 23
    }

    /// Well-formedness: a full-size board without full rows, a well-placed piece, a
    /// queue one longer than the preview, at most one bag of pieces left, the falling
    /// piece last of those that have fallen, and every piece drawn so far in blocks of
    /// seven that each hold every kind once.
    pub open spec fn wf(self) -> bool {
        &&& self.board_state().wf()
        &&& no_full_row(self.rows())
        &&& Self::piece_ok(self.active())
        &&& self.preview_count() <= 4
        &&& self.queue().len() == self.preview_count() + 1
        &&& self.bag_left().len() <= 7
        &&& self.spawned_pieces().len() >= 1
        &&& self.spawned_pieces().last() == self.active().piece_type
        &&& in_bag_blocks(self.piece_stream())
    }

    /// The game with its scoring counters replaced.
    pub closed spec fn with_scoring(self, s: Scoring) -> GameState {
        GameState { scoring: s, ..self }
    }

    /// Replacing the scoring changes only the scoring.
    pub proof fn lemma_with_scoring(self, s: Scoring)
        ensures
            self.with_scoring(s).score_state() == s,
            self.with_scoring(s).active() == self.active(),
            self.with_scoring(s).board_state() == self.board_state(),
            self.with_scoring(s).queue() == self.queue(),
            self.with_scoring(s).bag_left() == self.bag_left(),
            self.with_scoring(s).over() == self.over(),
            self.with_scoring(s).garbage_pending() == self.garbage_pending(),
            self.with_scoring(s).preview_count() == self.preview_count(),
            self.with_scoring(s).attack_pending() == self.attack_pending(),
            self.with_scoring(s).spawned_pieces() == self.spawned_pieces(),
    {
    }

    /// Everything but the falling piece is as in `other`.
    pub open spec fn same_but_piece(self, other: Self) -> bool {
        &&& self.board_state() == other.board_state()
        &&& self.queue() == other.queue()
        &&& self.bag_left() == other.bag_left()
        &&& self.score_state() == other.score_state()
        &&& self.over() == other.over()
        &&& self.garbage_pending() == other.garbage_pending()
        &&& self.preview_count() == other.preview_count()
        &&& self.attack_pending() == other.attack_pending()
        &&& self.spawned_pieces() == other.spawned_pieces()
    }

    /// Room in the counters for any single step: a drop of up to 30 rows scored twice,
    /// then a clear of up to four lines, and the attack it sends.
    pub open spec fn has_room(self) -> bool {
        let s = self.score_state();
        &&& s.score + 60 <= u32::MAX
        &&& forall|extra: u32, n: u32|
            extra <= 60 && n <= 4 ==> #[trigger] Scoring {
                score: (s.score + extra) as u32,
                ..s
            }.clear_fits(n)
        &&& self.attack_pending() + 9 <= u32::MAX
    }

    /// Whether the falling piece moved by `(dx, dy)` fits the board.
    pub open spec fn fits_moved(self, dx: int, dy: int) -> bool {
        fits(self.rows(), placed(self.active().cells@, self.active().x + dx, self.active().y + dy))
    }

    /// Tries to move the piece by `(dx, dy)` (one step); reports whether it moved.
    fn try_move(&mut self, dx: i32, dy: i32) -> (ok: bool)
        requires
            old(self).wf(),
            -1 <= dx <= 1,
            0 <= dy <= 1,
        ensures
            final(self).wf(),
            final(self).same_but_piece(*old(self)),
            ok == old(self).fits_moved(dx as int, dy as int),
            ok ==> moved_to(old(self).active(), final(self).active(), old(self).active().x + dx, old(self).active().y + dy),
            !ok ==> final(self).active() == old(self).active(),
    {
        let p = shifted(&self.current_piece, dx, dy);
        proof {
            lemma_shape_in_box(p.piece_type, p.rotation);
            lemma_coords_fit(p);
        }
        if self.board.is_valid(&p) {
            proof {
                lemma_band(self.rows(), p);
            }
            self.current_piece = p;
            true
        } else {
            false
        }
    }

    /// Moves the piece one column left if it fits there; reports whether it moved.
    pub fn move_left(&mut self) -> (ok: bool)
        requires
            old(self).wf(),
        ensures
            final(self).wf(),
            final(self).same_but_piece(*old(self)),
            ok == old(self).fits_moved(-1, 0),
            ok ==> moved_to(old(self).active(), final(self).active(), old(self).active().x - 1, old(self).active().y as int),
            !ok ==> final(self).active() == old(self).active(),
    {
        self.try_move(-1, 0)
    }

    /// Moves the piece one column right if it fits there; reports whether it moved.
    pub fn move_right(&mut self) -> (ok: bool)
        requires
            old(self).wf(),
        ensures
            final(self).wf(),
            final(self).same_but_piece(*old(self)),
            ok == old(self).fits_moved(1, 0),
            ok ==> moved_to(old(self).active(), final(self).active(), old(self).active().x + 1, old(self).active().y as int),
            !ok ==> final(self).active() == old(self).active(),
    {
        self.try_move(1, 0)
    }

    /// Moves the piece one row down if it fits there, scoring one point; reports
    /// whether it moved.
    pub fn soft_drop(&mut self) -> (ok: bool)
        requires
            old(self).wf(),
            old(self).fits_moved(0, 1) ==> old(self).score_state().score < u32::MAX,
        ensures
            final(self).wf(),
            ok == old(self).fits_moved(0, 1),
            ok ==> moved_to(old(self).active(), final(self).active(), old(self).active().x as int, old(self).active().y + 1),
            ok ==> final(self).score_state() == (Scoring { score: (old(self).score_state().score + 1) as u32, ..old(self).score_state() }),
            !ok ==> final(self).active() == old(self).active() && final(self).score_state()
                == old(self).score_state(),
            final(self).board_state() == old(self).board_state(),
            final(self).queue() == old(self).queue(),
            final(self).bag_left() == old(self).bag_left(),
            final(self).over() == old(self).over(),
            final(self).garbage_pending() == old(self).garbage_pending(),
            final(self).preview_count() == old(self).preview_count(),
            final(self).attack_pending() == old(self).attack_pending(),
            final(self).spawned_pieces() == old(self).spawned_pieces(),
    {
        let ok = self.try_move(0, 1);
        if ok {
            self.scoring.add_soft_drop(1);
        }
        ok
    }

    /// A new game: an empty board, the last piece of a fresh bag falling from the
    /// spawn position, the queue filled from the rest of that bag, a preview of at
    /// most four pieces, initial scoring, and nothing pending.
    pub fn new(next_count: u8, draws: &RandomDraws) -> (g: GameState)
        requires
            draws.wf(),
        ensures
            g.wf(),
            g.rows() == empty_rows((HEIGHT + HIDDEN) as nat),
            is_spawn(g.active(), bag_for(draws.bag_picks@)[6]),
            g.preview_count() == if next_count < 4 { next_count } else { 4 },
            (g.queue(), g.bag_left()) == drawn(
                Seq::empty(),
                bag_for(draws.bag_picks@).take(6),
                bag_for(draws.bag_picks@),
                g.preview_count() + 1,
            ),
            g.score_state() == Scoring::initial(),
            !g.over(),
            g.garbage_pending() == 0,
            g.attack_pending() == 0,
            g.spawned_pieces() == seq![bag_for(draws.bag_picks@)[6]],
    {
        let mut bag = new_bag(&draws.bag_picks);
        let ghost full = bag@;
        let first = bag.pop().unwrap();
        assert(bag@ =~= full.take(6));
        let mut state = GameState {
            board: Board::new(),
            current_piece: Piece::new(first),
            next_pieces: Vec::new(),
            bag,
            scoring: Scoring::new(),
            game_over: false,
            pending_garbage: 0,
            next_count: if next_count < 4 {
                next_count
            } else {
                4
            },
            pending_attack: 0,
            spawned: Ghost(Seq::empty().push(first)),
        };
        assert(state.next_pieces@ =~= Seq::<PieceType>::empty());
        assert forall|r: int| 0 <= r < state.rows().len() implies !crate::board::row_full(#[trigger] state.rows()[r]) by {
            assert(state.rows()[r][0] == 0);
        }
        assert(no_full_row(state.rows()));
        proof {
            lemma_reverse_full_bag(full);
            assert(state.piece_stream() =~= full.reverse());
            assert(block(full.reverse(), 0) =~= full.reverse());
        }
        state.refill_next(draws);
        state
    }

    /// Takes the first queued piece as the new falling piece at the spawn position,
    /// tops the queue up again, and ends the game if the new piece does not fit.
    fn spawn_next(&mut self, draws: &RandomDraws)
        requires
            old(self).wf(),
            draws.wf(),
        ensures
            final(self).wf(),
            (final(self).queue(), final(self).bag_left()) == drawn(
                old(self).queue().drop_first(),
                old(self).bag_left(),
                bag_for(draws.bag_picks@),
                1,
            ),
            is_spawn(final(self).active(), old(self).queue()[0]),
            final(self).over() == (old(self).over() || !fits(
                old(self).rows(),
                placed(shape(old(self).queue()[0], 0), 3, 0),
            )),
            final(self).board_state() == old(self).board_state(),
            final(self).score_state() == old(self).score_state(),
            final(self).garbage_pending() == old(self).garbage_pending(),
            final(self).preview_count() == old(self).preview_count(),
            final(self).attack_pending() == old(self).attack_pending(),
            final(self).spawned_pieces() == old(self).spawned_pieces().push(old(self).queue()[0]),
    {
        let ghost q = self.next_pieces@;
        let ghost stream = self.piece_stream();
        let pt = self.next_pieces.remove(0);
        assert(self.next_pieces@ =~= q.drop_first());
        self.spawned = Ghost(self.spawned@.push(pt));
        assert(self.piece_stream() =~= stream);
        self.refill_next(draws);
        self.current_piece = Piece::new(pt);
        proof {
            lemma_shape_in_box(pt, 0);
            lemma_coords_fit(self.current_piece);
        }
        if !self.board.is_valid(&self.current_piece) {
            self.game_over = true;
        }
    }

    /// Turns the piece clockwise, trying its SRS kicks in order; reports whether it turned.
    pub fn rotate_cw(&mut self) -> (ok: bool)
        requires
            old(self).wf(),
        ensures
            final(self).wf(),
            final(self).same_but_piece(*old(self)),
            rotation_result(*old(self), *final(self), 1, ok),
    {
        self.try_rotate(1)
    }

    /// Turns the piece counter-clockwise, trying its SRS kicks in order; reports
    /// whether it turned.
    pub fn rotate_ccw(&mut self) -> (ok: bool)
        requires
            old(self).wf(),
        ensures
            final(self).wf(),
            final(self).same_but_piece(*old(self)),
            rotation_result(*old(self), *final(self), -1, ok),
    {
        self.try_rotate(-1)
    }

    /// Whether the falling piece, turned to rotation `to` and shifted by kick `k` of
    /// `ks`, fits the board. Kick offsets count rows upward (SRS), so kick `(dx, dy)`
    /// moves the origin to column `x + dx`, row `y - dy`.
    pub open spec fn kick_fits(self, to: u8, ks: Seq<(i32, i32)>, k: int) -> bool {
        fits(
            self.rows(),
            placed(shape(self.active().piece_type, to), self.active().x + ks[k].0, self.active().y - ks[k].1),
        )
    }

    /// The falling piece turned by `dir` quarter turns, at the first of its SRS kicks
    /// that fits, if any. Reports whether it turned.
    fn try_rotate(&mut self, dir: i32) -> (ok: bool)
        requires
            old(self).wf(),
            dir == 1 || dir == -1,
        ensures
            final(self).wf(),
            final(self).same_but_piece(*old(self)),
            rotation_result(*old(self), *final(self), dir as int, ok),
    {
        let old_rot = self.current_piece.rotation;
        let pt = self.current_piece.piece_type;
        let new_rot: u8 = match (old_rot as i32 + dir).checked_rem_euclid(4) {
            Some(r) => r as u8,
            None => 0,
        };
        assert(new_rot == turned(old_rot, dir as int));
        let base = Piece {
            piece_type: pt,
            rotation: new_rot,
            x: self.current_piece.x,
            y: self.current_piece.y,
            cells: cells_for(pt, new_rot),
        };
        let ks = wall_kicks(pt, old_rot, new_rot);
        let ghost g = *self;
        proof {
            lemma_kicks_well_formed(pt, old_rot, new_rot);
            lemma_shape_in_box(pt, new_rot);
        }
        let n = ks.len();
        for i in 0..n
            invariant
                *self == g,
                g == *old(self),
                g.wf(),
                n == ks@.len(),
                ks@ == kicks(pt, old_rot, new_rot),
                kicks_well_formed(ks@),
                new_rot == turned(old_rot, dir as int),
                pt == g.active().piece_type,
                old_rot == g.active().rotation,
                new_rot < 4,
                base.piece_type == pt,
                base.rotation == new_rot,
                base.cells@ == shape(pt, new_rot),
                base.x == g.active().x,
                base.y == g.active().y,
                offsets_in_box(shape(pt, new_rot)),
                shape(pt, new_rot).len() == 4,
                forall|j: int| 0 <= j < i ==> !g.kick_fits(new_rot, ks@, j),
        {
            let (dx, dy) = ks[i];
            let pk = shifted(&base, dx, -dy);
            proof {
                lemma_coords_fit(pk);
            }
            if self.board.is_valid(&pk) {
                proof {
                    lemma_band(self.rows(), pk);
                    assert forall|j: int| 0 <= j < i implies !fits(
                        g.rows(),
                        #[trigger] placed(shape(pt, new_rot), g.active().x + ks@[j].0, g.active().y - ks@[j].1),
                    ) by {
                        assert(!g.kick_fits(new_rot, ks@, j));
                    }
                    lemma_kick_keeps_band(g.rows(), shape(pt, new_rot), g.active().x as int, g.active().y as int, ks@, i as int);
                    assert(g.kick_fits(new_rot, ks@, i as int));
                }
                self.current_piece = pk;
                assert(self.same_but_piece(g));
                assert(self.active().x == g.active().x + ks@[i as int].0);
                return true;
            }
        }
        false
    }

    /// The rows with the falling piece painted in its colour.
    pub open spec fn with_piece(self) -> Seq<Seq<u8>> {
        painted(self.rows(), self.active().absolute(), self.active().piece_type.color_of())
    }

    /// Lines a lock of the falling piece where it is clears.
    pub open spec fn lock_lines(self) -> int {
        full_rows(self.with_piece())
    }

    /// Pending garbage that the lock's cleared lines do not cancel.
    pub open spec fn garbage_after_cancel(self) -> int {
        if self.lock_lines() >= self.garbage_pending() {
            0
        } else {
            self.garbage_pending() - self.lock_lines()
        }
    }

    /// The rows after locking the piece where it is: painted, cleared, and raised by
    /// the garbage left after cancellation, its hole at `hole`.
    pub open spec fn locked_rows(self, hole: int) -> Seq<Seq<u8>> {
        raised(cleared(self.with_piece()), self.garbage_after_cancel(), hole)
    }

    /// A lock clears at most four lines: the board has no full row before it, and the
    /// four cells of the piece lie in at most four rows.
    pub proof fn lemma_lock_lines_bound(self)
        requires
            self.wf(),
        ensures
            0 <= self.lock_lines() <= 4,
    {
        lemma_shape_in_box(self.active().piece_type, self.active().rotation);
        crate::board::lemma_paint_fills_at_most(
            self.rows(),
            self.active().absolute(),
            self.active().piece_type.color_of(),
        );
        crate::board::lemma_full_rows_count(self.with_piece());
    }

    /// Attack lines queued after locking the piece where it is.
    pub open spec fn attack_after_lock(self) -> int {
        let n = self.lock_lines() as u32;
        self.attack_pending() + if n == 0 { 0 } else { self.score_state().clear_attack(n) }
    }

    /// Lines a lock of the falling piece would clear with its origin at row `y`.
    pub open spec fn lines_at(self, y: int) -> int {
        full_rows(
            painted(
                self.rows(),
                placed(self.active().cells@, self.active().x as int, y),
                self.active().piece_type.color_of(),
            ),
        )
    }

    /// The counters `s` and the attack queue can take registering a clear of `n`
    /// lines and queueing its attack.
    pub open spec fn lock_fits(self, s: Scoring, n: int) -> bool {
        &&& s.clear_fits(n as u32)
        &&& self.attack_pending() + (if n == 0 { 0 } else { s.clear_attack(n as u32) }) <= u32::MAX
    }

    /// No counter overflows in a hard drop: the piece falls `d` rows, scores `2 d`,
    /// and locks where it lands.
    pub open spec fn hard_drop_fits(self) -> bool {
        let p = self.active();
        let d = drop_rows(self.rows(), p.cells@, p.x as int, p.y as int);
        let s = self.score_state();
        &&& s.score + 2 * d <= u32::MAX
        &&& self.lock_fits(Scoring { score: (s.score + 2 * d) as u32, ..s }, self.lines_at(p.y + d))
    }

    /// The 7-bag law: the pieces that have fallen, taken in blocks of seven from the
    /// first, hold every kind once in each complete block, and the queue and what is
    /// left of the bag continue that sequence in drawing order, still in such blocks.
    pub proof fn lemma_seven_bag(self)
        requires
            self.wf(),
        ensures
            forall|j: int|
                0 <= j && 7 * j + 7 <= self.spawned_pieces().len() ==> is_full_bag(
                    #[trigger] block(self.spawned_pieces(), j),
                ),
            in_bag_blocks(self.spawned_pieces() + self.queue() + self.bag_left().reverse()),
    {
        let st = self.piece_stream();
        let sp = self.spawned_pieces();
        assert(sp =~= st.take(sp.len() as int));
        crate::bag::lemma_prefix_blocks(st, sp);
    }

    /// A lock anywhere clears at most four lines.
    pub proof fn lemma_lines_at_bound(self, y: int)
        requires
            self.wf(),
        ensures
            0 <= self.lines_at(y) <= 4,
    {
        let p = self.active();
        lemma_shape_in_box(p.piece_type, p.rotation);
        let cells = placed(p.cells@, p.x as int, y);
        let color = p.piece_type.color_of();
        crate::board::lemma_paint_fills_at_most(self.rows(), cells, color);
        crate::board::lemma_full_rows_count(painted(self.rows(), cells, color));
    }

    /// The counter room of `has_room` covers the exact needs of a hard drop and of a
    /// gravity tick.
    pub proof fn lemma_room_covers_steps(self)
        requires
            self.wf(),
            self.has_room(),
        ensures
            self.hard_drop_fits(),
            self.tick_fits(),
    {
        let p = self.active();
        let s = self.score_state();
        lemma_shape_in_box(p.piece_type, p.rotation);
        lemma_drop_bound(self.rows(), p.cells@, p.x as int, p.y as int);
        let d = drop_rows(self.rows(), p.cells@, p.x as int, p.y as int);
        self.lemma_lines_at_bound(p.y + d);
        let n = self.lines_at(p.y + d);
        let extra = (2 * d) as u32;
        assert(Scoring { score: (s.score + extra) as u32, ..s }.clear_fits(n as u32));
        assert(Scoring { score: (s.score + extra) as u32, ..s } == Scoring { score: (s.score + 2 * d) as u32, ..s });
        self.lemma_lock_lines_bound();
        let m = self.lock_lines();
        assert(Scoring { score: (s.score + 0u32) as u32, ..s }.clear_fits(m as u32));
        assert(Scoring { score: (s.score + 0u32) as u32, ..s } == s);
    }

    /// No counter overflows in a gravity tick: a game that is on either falls one row,
    /// scoring one point, or locks where it is.
    pub open spec fn tick_fits(self) -> bool {
        !self.over() ==> if self.fits_moved(0, 1) {
            self.score_state().score < u32::MAX
        } else {
            self.lock_fits(self.score_state(), self.lock_lines())
        }
    }

    /// The effect of locking the falling piece of `g0` where it is, with `draws`
    /// supplying a new bag and the garbage hole: the piece is painted, full lines are
    /// cleared and scored, cleared lines cancel pending garbage and the rest rises
    /// from the bottom, the attack is queued, and the next piece spawns.
    pub open spec fn lock_result(g0: GameState, g1: GameState, draws: RandomDraws) -> bool {
        &&& Self::locks_into(g0, g1, draws)
        &&& g1.attack_pending() == g0.attack_after_lock()
    }

    /// Everything a lock does but the attack it queues.
    pub open spec fn locks_into(g0: GameState, g1: GameState, draws: RandomDraws) -> bool {
        let n = g0.lock_lines() as u32;
        let rows = g0.locked_rows(draws.garbage_hole as int);
        &&& g1.rows() == rows
        &&& g1.score_state() == g0.score_state().after_clear(n)
        &&& g1.garbage_pending() == 0
        &&& (g1.queue(), g1.bag_left()) == drawn(g0.queue().drop_first(), g0.bag_left(), bag_for(draws.bag_picks@), 1)
        &&& is_spawn(g1.active(), g0.queue()[0])
        &&& g1.over() == (g0.over() || !fits(rows, placed(shape(g0.queue()[0], 0), 3, 0)))
        &&& g1.preview_count() == g0.preview_count()
        &&& g1.spawned_pieces() == g0.spawned_pieces().push(g0.queue()[0])
    }

    /// Locks the piece where it is, clears lines, settles garbage and spawns the next.
    fn lock_piece(&mut self, draws: &RandomDraws)
        requires
            old(self).wf(),
            old(self).lock_fits(old(self).score_state(), old(self).lock_lines()),
            draws.wf(),
        ensures
            final(self).wf(),
            Self::lock_result(*old(self), *final(self), *draws),
    {
        let ghost g = *self;
        proof {
            lemma_shape_in_box(self.current_piece.piece_type, self.current_piece.rotation);
            lemma_coords_fit(self.current_piece);
            g.lemma_lock_lines_bound();
        }
        self.board.lock_piece(&self.current_piece);
        let lines_cleared = self.board.clear_lines();
        assert(lines_cleared as int == g.lock_lines());
        proof {
            crate::board::lemma_no_full_row_after_clear(g.with_piece());
        }
        assert(g.score_state().clear_fits(lines_cleared));
        let attack = self.scoring.register_clear(lines_cleared);
        if lines_cleared > 0 && self.pending_garbage > 0 {
            let cancelled = if lines_cleared < self.pending_garbage {
                lines_cleared
            } else {
                self.pending_garbage
            };
            self.pending_garbage = self.pending_garbage.saturating_sub(cancelled);
        }
        assert(self.pending_garbage == g.garbage_after_cancel());
        if self.pending_garbage > 0 {
            let count = self.pending_garbage;
            self.board.add_garbage(count, draws.garbage_hole);
            proof {
                crate::board::lemma_raise_keeps_rows_not_full(
                    cleared(g.with_piece()),
                    count as int,
                    draws.garbage_hole as int,
                );
            }
            self.pending_garbage = 0;
        } else {
            assert(self.rows() =~= raised(self.rows(), 0, draws.garbage_hole as int));
        }
        if attack > 0 {
            self.pending_attack += attack;
        }
        self.spawn_next(draws);
    }

    /// Drops the piece straight down as far as it fits, scores two points per row,
    /// locks it, and returns the rows dropped.
    pub fn hard_drop(&mut self, draws: &RandomDraws) -> (dropped: u32)
        requires
            old(self).wf(),
            old(self).hard_drop_fits(),
            draws.wf(),
        ensures
            final(self).wf(),
            dropped == drop_rows(old(self).rows(), old(self).active().cells@, old(self).active().x as int, old(self).active().y as int),
            ({
                let s = old(self).score_state();
                let dropped_state = Scoring { score: (s.score + 2 * dropped) as u32, ..s };
                exists|g: GameState|
                    g.wf() && g.same_but_piece(GameState::with_scoring(*old(self), dropped_state)) && #[trigger] g.score_state() == dropped_state
                    && moved_to(old(self).active(), g.active(), old(self).active().x as int, old(self).active().y + dropped)
                    && Self::lock_result(g, *final(self), *draws)
            }),
    {
        let ghost g0 = *self;
        let mut dropped: u32 = 0;
        loop
            invariant
                self.wf(),
                self.same_but_piece(g0),
                g0.wf(),
                moved_to(g0.active(), self.active(), g0.active().x as int, g0.active().y + dropped),
                drop_rows(g0.rows(), g0.active().cells@, g0.active().x as int, g0.active().y as int)
                    == dropped + drop_rows(g0.rows(), g0.active().cells@, g0.active().x as int, self.active().y as int),
                dropped <= 28,
            ensures
                self.wf(),
                self.same_but_piece(g0),
                moved_to(g0.active(), self.active(), g0.active().x as int, g0.active().y + dropped),
                drop_rows(g0.rows(), g0.active().cells@, g0.active().x as int, g0.active().y as int) == dropped,
                dropped <= 28,
            decreases 23 - self.active().y,
        {
            if !self.try_move(0, 1) {
                break;
            }
            dropped += 1;
        }
        let ghost g = *self;
        self.scoring.add_hard_drop(dropped);
        proof {
            let s = g0.score_state();
            assert(self.score_state() == Scoring { score: (s.score + 2 * dropped) as u32, ..s });
            assert(self.active().absolute() == placed(g0.active().cells@, g0.active().x as int, g0.active().y + dropped));
            assert(self.lock_lines() == g0.lines_at(g0.active().y + dropped));
        }
        let ghost gd = *self;
        self.lock_piece(draws);
        let ghost ds = Scoring { score: (g0.score_state().score + 2 * dropped) as u32, ..g0.score_state() };
        assert(gd.score_state() == ds);
        assert(gd.same_but_piece(GameState::with_scoring(g0, ds)));
        dropped
    }

    /// All of the state is as in `other`.
    pub open spec fn same_as(self, other: Self) -> bool {
        self.same_but_piece(other) && self.active() == other.active()
    }

    /// Gravity tick: when the game is on, the piece falls one row (one point) or,
    /// when it cannot, locks; returns the attack lines queued, which are then cleared.
    /// When the game is over nothing changes and nothing is sent.
    pub fn gravity_tick(&mut self, draws: &RandomDraws) -> (sent: u32)
        requires
            old(self).wf(),
            old(self).tick_fits(),
            draws.wf(),
        ensures
            final(self).wf(),
            old(self).over() ==> sent == 0 && final(self).same_as(*old(self)),
            !old(self).over() && old(self).fits_moved(0, 1) ==> {
                &&& sent == old(self).attack_pending()
                &&& final(self).attack_pending() == 0
                &&& moved_to(old(self).active(), final(self).active(), old(self).active().x as int, old(self).active().y + 1)
                &&& final(self).score_state() == (Scoring { score: (old(self).score_state().score + 1) as u32, ..old(self).score_state() })
                &&& final(self).board_state() == old(self).board_state()
                &&& final(self).queue() == old(self).queue()
                &&& final(self).bag_left() == old(self).bag_left()
                &&& final(self).over() == old(self).over()
                &&& final(self).garbage_pending() == old(self).garbage_pending()
                &&& final(self).preview_count() == old(self).preview_count()
                &&& final(self).spawned_pieces() == old(self).spawned_pieces()
            },
            !old(self).over() && !old(self).fits_moved(0, 1) ==> {
                &&& sent == old(self).attack_after_lock()
                &&& final(self).attack_pending() == 0
                &&& Self::locks_into(*old(self), *final(self), *draws)
            },
    {
        if self.game_over {
            return 0;
        }
        let ghost g0 = *self;
        if !self.soft_drop() {
            self.lock_piece(draws);
        }
        let a = self.pending_attack;
        self.pending_attack = 0;
        a
    }

    /// Returns the attack lines queued and clears them.
    pub fn take_attack(&mut self) -> (a: u32)
        ensures
            a == old(self).attack_pending(),
            final(self).attack_pending() == 0,
            final(self).active() == old(self).active(),
            final(self).board_state() == old(self).board_state(),
            final(self).queue() == old(self).queue(),
            final(self).bag_left() == old(self).bag_left(),
            final(self).score_state() == old(self).score_state(),
            final(self).over() == old(self).over(),
            final(self).garbage_pending() == old(self).garbage_pending(),
            final(self).preview_count() == old(self).preview_count(),
            final(self).spawned_pieces() == old(self).spawned_pieces(),
    {
        let a = self.pending_attack;
        self.pending_attack = 0;
        a
    }

    /// Adds received garbage lines to the pending garbage.
    pub fn receive_garbage(&mut self, lines: u32)
        requires
            old(self).garbage_pending() + lines <= u32::MAX,
        ensures
            final(self).garbage_pending() == old(self).garbage_pending() + lines,
            final(self).active() == old(self).active(),
            final(self).board_state() == old(self).board_state(),
            final(self).queue() == old(self).queue(),
            final(self).bag_left() == old(self).bag_left(),
            final(self).score_state() == old(self).score_state(),
            final(self).over() == old(self).over(),
            final(self).preview_count() == old(self).preview_count(),
            final(self).attack_pending() == old(self).attack_pending(),
            final(self).spawned_pieces() == old(self).spawned_pieces(),
    {
        self.pending_garbage += lines;
    }

    /// Whether the game is over.
    pub fn is_game_over(&self) -> (b: bool)
        ensures
            b == self.over(),
    {
        self.game_over
    }

    /// The score.
    pub fn get_score(&self) -> (v: u32)
        ensures
            v == self.score_state().score,
    {
        self.scoring.score
    }

    /// The level.
    pub fn get_level(&self) -> (v: u32)
        ensures
            v == self.score_state().level,
    {
        self.scoring.level
    }

    /// The lines cleared.
    pub fn get_lines(&self) -> (v: u32)
        ensures
            v == self.score_state().lines,
    {
        self.scoring.lines
    }

    /// The gravity interval in milliseconds for the level.
    pub fn get_gravity_ms(&self) -> (ms: u32)
        ensures
            ms == crate::scoring::gravity_table(
                if self.score_state().level < 20 { self.score_state().level } else { 20 },
            ),
    {
        self.scoring.gravity_ms()
    }

    /// Sets the level from the server broadcast (shared global level).
    pub fn set_level(&mut self, level: u32)
        ensures
            final(self).score_state() == (Scoring { level, ..old(self).score_state() }),
            final(self).active() == old(self).active(),
            final(self).board_state() == old(self).board_state(),
            final(self).queue() == old(self).queue(),
            final(self).bag_left() == old(self).bag_left(),
            final(self).over() == old(self).over(),
            final(self).garbage_pending() == old(self).garbage_pending(),
            final(self).preview_count() == old(self).preview_count(),
            final(self).attack_pending() == old(self).attack_pending(),
            final(self).spawned_pieces() == old(self).spawned_pieces(),
    {
        self.scoring.set_level(level);
    }

    /// The row the falling piece would land on if dropped straight down.
    pub open spec fn ghost_row(self) -> int {
        self.active().y + drop_rows(self.rows(), self.active().cells@, self.active().x as int, self.active().y as int)
    }

    /// The row the falling piece would land on if dropped straight down.
    fn compute_ghost_y(&self) -> (y: i32)
        requires
            self.wf(),
        ensures
            y == self.ghost_row(),
    {
        let mut p = shifted(&self.current_piece, 0, 0);
        let ghost p0 = self.active();
        loop
            invariant
                self.wf(),
                p0 == self.active(),
                moved_to(p0, p, p0.x as int, p.y as int),
                p0.y <= p.y <= 23,
                p.rotation < 4,
                p.cells@ == shape(p.piece_type, p.rotation),
                drop_rows(self.rows(), p0.cells@, p0.x as int, p0.y as int)
                    == (p.y - p0.y) + drop_rows(self.rows(), p0.cells@, p0.x as int, p.y as int),
            ensures
                p.y == self.ghost_row(),
            decreases 23 - p.y,
        {
            let np = shifted(&p, 0, 1);
            proof {
                lemma_shape_in_box(np.piece_type, np.rotation);
                lemma_coords_fit(np);
            }
            if self.board.is_valid(&np) {
                proof {
                    lemma_band(self.rows(), np);
                }
                p = np;
            } else {
                break;
            }
        }
        p.y
    }

    /// The drawing data: the board, the falling piece's cells and colour, the first
    /// `next_count` queued pieces at the spawn position, the landing row, the counters
    /// and the flags.
    pub fn snapshot(&self) -> (snap: GameSnapshot)
        requires
            self.wf(),
        ensures
            views(snap.board@) == self.rows(),
            snap.current.cells@ == self.active().absolute(),
            snap.current.color == self.active().piece_type.color_of(),
            snap.next@.len() == self.preview_count(),
            forall|i: int| 0 <= i < snap.next@.len() ==> {
                &&& (#[trigger] snap.next@[i]).cells@ == placed(shape(self.queue()[i], 0), 3, 0)
                &&& snap.next@[i].color == self.queue()[i].color_of()
            },
            snap.ghost_y == self.ghost_row(),
            snap.score == self.score_state().score,
            snap.level == self.score_state().level,
            snap.lines == self.score_state().lines,
            snap.game_over == self.over(),
            snap.pending_garbage == self.garbage_pending(),
    {
        let ghost_y = self.compute_ghost_y();
        let mut board: Vec<Vec<u8>> = Vec::new();
        let h = self.board.cells.len();
        for r in 0..h
            invariant
                h == self.board.cells@.len(),
                board@.len() == r,
                views(board@) == self.rows().take(r as int),
        {
            let row = crate::board::copy_line(&self.board.cells[r]);
            let ghost before = views(board@);
            board.push(row);
            assert forall|k: int| 0 <= k < r + 1 implies #[trigger] views(board@)[k] == self.rows().take(r + 1)[k] by {
                if k < r {
                    assert(before[k] == self.rows().take(r as int)[k]);
                }
            }
            assert(views(board@) =~= self.rows().take(r + 1));
        }
        assert(self.rows().take(h as int) =~= self.rows());
        proof {
            lemma_shape_in_box(self.current_piece.piece_type, self.current_piece.rotation);
            lemma_coords_fit(self.current_piece);
        }
        let current = PieceSnapshot {
            cells: self.current_piece.absolute_cells(),
            color: self.current_piece.piece_type.color(),
        };
        let mut next: Vec<PieceSnapshot> = Vec::new();
        let count = self.next_count as usize;
        for i in 0..count
            invariant
                self.wf(),
                count == self.preview_count(),
                next@.len() == i,
                forall|k: int| 0 <= k < i ==> {
                    &&& (#[trigger] next@[k]).cells@ == placed(shape(self.queue()[k], 0), 3, 0)
                    &&& next@[k].color == self.queue()[k].color_of()
                },
        {
            let pt = self.next_pieces[i];
            let p = Piece::new(pt);
            proof {
                lemma_shape_in_box(pt, 0);
                lemma_coords_fit(p);
            }
            next.push(PieceSnapshot { cells: p.absolute_cells(), color: pt.color() });
        }
        GameSnapshot {
            board,
            current,
            next,
            ghost_y,
            score: self.scoring.score,
            level: self.scoring.level,
            lines: self.scoring.lines,
            game_over: self.game_over,
            pending_garbage: self.pending_garbage,
        }
    }

    /// The board as text: every cell, row by row, as its colour digit.
    pub fn board_compact(&self) -> (text: String)
        requires
            self.wf(),
        ensures
            text@ == compact_text(self.rows()),
    {
        let mut result = String::new();
        let h = self.board.cells.len();
        let ghost rows = self.rows();
        let ghost f = |row: Seq<u8>| row.map_values(|c: u8| digit(c));
        for r in 0..h
            invariant
                self.wf(),
                h == rows.len(),
                rows == self.rows(),
                f == (|row: Seq<u8>| row.map_values(|c: u8| digit(c))),
                result@ == rows.take(r as int).map_values(f).flatten(),
        {
            let row = &self.board.cells[r];
            let ghost before = result@;
            for c in 0..WIDTH
                invariant
                    self.wf(),
                    row@ == rows[r as int],
                    row@.len() == WIDTH,
                    forall|k: int| 0 <= k < WIDTH ==> #[trigger] row@[k] <= 8,
                    result@ == before + row@.take(c as int).map_values(|c: u8| digit(c)),
            {
                let cell = row[c];
                push_char(&mut result, (48u8 + cell) as char);
                assert(row@.take(c + 1).map_values(|c: u8| digit(c)) =~= row@.take(c as int).map_values(|c: u8| digit(c)).push(digit(cell)));
            }
            assert(row@.take(WIDTH as int) =~= row@);
            proof {
                assert(rows.take(r + 1).map_values(f) =~= rows.take(r as int).map_values(f).push(f(rows[r as int])));
                rows.take(r as int).map_values(f).lemma_flatten_push(f(rows[r as int]));
            }
        }
        assert(rows.take(h as int) =~= rows);
        result
    }

    /// Garbage lines received and not yet applied.
    pub fn get_pending_garbage(&self) -> (v: u32)
        ensures
            v == self.garbage_pending(),
    {
        self.pending_garbage
    }

    /// The bounds `has_headroom` tests: lines, combo and owed attack below their
    /// limits, the level a step can reach (`L`, from four more lines) and the combo it
    /// can reach (`C`) at most 100 000 000, and the score plus 60 drop points plus
    /// `1200 L + 50 C L` within `u32`.
    pub open spec fn headroom_bounds(self) -> bool {
        let s = self.score_state();
        let level = (s.lines + 4) / 10 + 1;
        let combo = if s.combo < 0 { 0 } else { s.combo + 1 };
        &&& s.lines <= u32::MAX - 4
        &&& s.combo != i32::MAX
        &&& self.attack_pending() <= u32::MAX - 9
        &&& s.pending_attack <= u32::MAX - 9
        &&& combo <= 100_000_000
        &&& level <= 100_000_000
        &&& s.score + 60 + 1200 * level + 50 * combo * level <= u32::MAX
    }

    /// A test that the counters have room for any single step (see `has_room`): it
    /// bounds every product for the largest level and combo a step can reach.
    pub fn has_headroom(&self) -> (b: bool)
        ensures
            b == self.headroom_bounds(),
            b ==> self.has_room(),
            b && self.wf() ==> self.hard_drop_fits() && self.tick_fits(),
    {
        let s = &self.scoring;
        if s.lines > u32::MAX - 4 || s.combo == i32::MAX || self.pending_attack > u32::MAX - 9
            || s.pending_attack > u32::MAX - 9 {
            return false;
        }
        let level: u64 = (s.lines as u64 + 4) / 10 + 1;
        let combo: u64 = if s.combo < 0 {
            0
        } else {
            s.combo as u64 + 1
        };
        if combo > 100_000_000 || level > 100_000_000 {
            return false;
        }
        assert(50 * combo * level <= 50 * 100_000_000 * 100_000_000) by (nonlinear_arith)
            requires
                combo <= 100_000_000,
                level <= 100_000_000,
        ;
        let worst: u64 = 1200 * level + 50 * combo * level;
        if s.score as u64 + 60 + worst > u32::MAX as u64 {
            return false;
        }
        proof {
            let sc = self.score_state();
            assert forall|extra: u32, n: u32| extra <= 60 && n <= 4 implies #[trigger] Scoring {
                score: (sc.score + extra) as u32,
                ..sc
            }.clear_fits(n) by {
                let t = Scoring { score: (sc.score + extra) as u32, ..sc };
                if n > 0 {
                    let lv = t.level_after(n);
                    let base = crate::scoring::line_score(n);
                    let c = t.combo_after();
                    assert(1 <= lv <= level);
                    assert(base <= 800);
                    assert(base * lv <= 800 * level) by (nonlinear_arith)
                        requires
                            0 <= base <= 800,
                            1 <= lv <= level,
                    ;
                    assert((base / 2) * lv <= 400 * level) by (nonlinear_arith)
                        requires
                            0 <= base <= 800,
                            1 <= lv <= level,
                    ;
                    assert(t.b2b_bonus(n) * (base / 2) * lv <= (base / 2) * lv) by (nonlinear_arith)
                        requires
                            0 <= t.b2b_bonus(n) <= 1,
                            0 <= base / 2,
                            1 <= lv,
                    ;
                    if c > 0 {
                        assert(c <= combo);
                        assert(50 * c * lv <= 50 * combo * level) by (nonlinear_arith)
                            requires
                                0 < c <= combo,
                                1 <= lv <= level,
                        ;
                        assert(50 * c <= 50 * combo * level) by (nonlinear_arith)
                            requires
                                0 < c <= combo,
                                1 <= level,
                        ;
                    } else {
                        assert(50 * c * lv <= 0) by (nonlinear_arith)
                            requires
                                c <= 0,
                                1 <= lv,
                        ;
                    }
                    assert(t.clear_attack(n) <= 9);
                    assert(t.clear_points(n) <= worst);
                }
            }
            if self.wf() {
                self.lemma_room_covers_steps();
            }
        }
        true
    }

    /// Tops the queue up to `next_count + 1` pieces.
    fn refill_next(&mut self, draws: &RandomDraws)
        requires
            draws.wf(),
            old(self).next_pieces@.len() <= old(self).next_count + 1,
            old(self).next_count + 1 - old(self).next_pieces@.len() <= old(self).bag@.len() + 7,
            old(self).bag@.len() <= 7,
        ensures
            (final(self).next_pieces@, final(self).bag@) == drawn(
                old(self).next_pieces@,
                old(self).bag@,
                bag_for(draws.bag_picks@),
                old(self).next_count + 1 - old(self).next_pieces@.len(),
            ),
            final(self).next_pieces@.len() == old(self).next_count + 1,
            final(self).bag@.len() <= 7,
            final(self).board == old(self).board,
            final(self).current_piece == old(self).current_piece,
            final(self).scoring == old(self).scoring,
            final(self).game_over == old(self).game_over,
            final(self).pending_garbage == old(self).pending_garbage,
            final(self).next_count == old(self).next_count,
            final(self).pending_attack == old(self).pending_attack,
            final(self).spawned == old(self).spawned,
            in_bag_blocks(old(self).spawned@ + old(self).next_pieces@ + old(self).bag@.reverse())
                ==> in_bag_blocks(final(self).spawned@ + final(self).next_pieces@ + final(self).bag@.reverse()),
    {
        let ghost was_blocks = in_bag_blocks(self.spawned@ + self.next_pieces@ + self.bag@.reverse());
        let ghost next0 = self.next_pieces@;
        let ghost bag0 = self.bag@;
        let ghost fresh = bag_for(draws.bag_picks@);
        let ghost need = self.next_count + 1 - next0.len();
        let ghost stream = bag0.reverse() + fresh.reverse();
        let want = self.next_count as usize + 1;
        proof {
            lemma_shuffled_len(draws.bag_picks@, 6);
        }
        while self.next_pieces.len() < want
            invariant
                draws.wf(),
                fresh == bag_for(draws.bag_picks@),
                fresh.len() == 7,
                want == self.next_count + 1,
                need == want - next0.len(),
                0 <= need <= bag0.len() + 7,
                bag0.len() <= 7,
                stream == bag0.reverse() + fresh.reverse(),
                next0.len() <= self.next_pieces@.len() <= want,
                self.next_pieces@ == next0 + stream.take(self.next_pieces@.len() - next0.len()),
                ({
                    let m = self.next_pieces@.len() - next0.len();
                    (m <= bag0.len() && self.bag@ == bag0.take(bag0.len() - m)) || (m > bag0.len()
                        && self.bag@ == fresh.take(fresh.len() - (m - bag0.len())))
                }),
                self.board == old(self).board,
                self.current_piece == old(self).current_piece,
                self.scoring == old(self).scoring,
                self.game_over == old(self).game_over,
                self.pending_garbage == old(self).pending_garbage,
                self.next_count == old(self).next_count,
                self.pending_attack == old(self).pending_attack,
                self.spawned == old(self).spawned,
                was_blocks ==> in_bag_blocks(self.spawned@ + self.next_pieces@ + self.bag@.reverse()),
            decreases want - self.next_pieces@.len(),
        {
            let ghost m = self.next_pieces@.len() - next0.len();
            let ghost s0 = self.spawned@ + self.next_pieces@ + self.bag@.reverse();
            if self.bag.is_empty() {
                self.bag = new_bag(&draws.bag_picks);
                assert(m == bag0.len());
                proof {
                    lemma_reverse_full_bag(self.bag@);
                    if was_blocks {
                        lemma_blocks_append(s0, self.bag@.reverse());
                        assert(s0 + self.bag@.reverse() =~= self.spawned@ + self.next_pieces@ + self.bag@.reverse());
                    }
                }
            }
            let ghost bag_before = self.bag@;
            let ghost next_before = self.next_pieces@;
            let pt = self.bag.pop().unwrap();
            self.next_pieces.push(pt);
            proof {
                assert(bag_before.reverse() =~= seq![pt] + self.bag@.reverse());
                assert(self.spawned@ + self.next_pieces@ + self.bag@.reverse() =~= self.spawned@ + next_before
                    + bag_before.reverse());
            }
            proof {
                if m < bag0.len() {
                    assert(bag_before == bag0.take(bag0.len() - m));
                    assert(pt == bag0[bag0.len() - m - 1]);
                    assert(stream[m] == bag0.reverse()[m]);
                    assert(self.bag@ =~= bag0.take(bag0.len() - (m + 1)));
                } else {
                    assert(bag_before == fresh.take(fresh.len() - (m - bag0.len())));
                    assert(stream[m] == fresh.reverse()[m - bag0.len()]);
                    assert(self.bag@ =~= fresh.take(fresh.len() - (m + 1 - bag0.len())));
                }
                assert(self.next_pieces@ =~= next0 + stream.take(m + 1));
            }
        }
    }
}

} // verus!
