use vstd::prelude::*;

use crate::piece::Piece;

verus! {

pub const WIDTH: usize = 10;

pub const HEIGHT: usize = 20;

/// Hidden rows above the visible area.
pub const HIDDEN: usize = 4;

/// Colour of a garbage cell.
pub const GARBAGE: u8 = 8;

/// A row of `WIDTH` empty cells.
pub open spec fn empty_row() -> Seq<u8> {
    Seq::new(WIDTH as nat, |c: int| 0u8)
}

/// A garbage row: every cell grey except the hole.
pub open spec fn garbage_row(hole: int) -> Seq<u8> {
    Seq::new(WIDTH as nat, |c: int| if c == hole { 0u8 } else { GARBAGE })
}

/// A row with no empty cell.
pub open spec fn row_full(row: Seq<u8>) -> bool {
    forall|c: int| 0 <= c < row.len() ==> #[trigger] row[c] != 0
}

/// A board cell a piece cell may occupy: inside the columns, above the floor, and
/// either above the top (hidden area included) or empty.
pub open spec fn cell_free(rows: Seq<Seq<u8>>, p: [i32; 2]) -> bool {
    &&& 0 <= p[0] < WIDTH
    &&& p[1] < HEIGHT + HIDDEN
    &&& p[1] >= 0 ==> rows[p[1] as int][p[0] as int] == 0
}

/// All the given absolute cells are free.
pub open spec fn fits(rows: Seq<Seq<u8>>, cells: Seq<[i32; 2]>) -> bool {
    forall|i: int| 0 <= i < cells.len() ==> cell_free(rows, #[trigger] cells[i])
}

/// Some cell of the list is at column `c`, row `r`.
pub open spec fn covers(cells: Seq<[i32; 2]>, r: int, c: int) -> bool {
    exists|i: int| 0 <= i < cells.len() && (#[trigger] cells[i])[0] == c && cells[i][1] == r
}

/// The rows after painting every listed cell that lies on the board with `color`.
pub open spec fn painted(rows: Seq<Seq<u8>>, cells: Seq<[i32; 2]>, color: u8) -> Seq<Seq<u8>> {
    Seq::new(
        rows.len(),
        |r: int|
            Seq::new(
                rows[r].len(),
                |c: int|
                    if r < HEIGHT + HIDDEN && c < WIDTH && covers(cells, r, c) {
                        color
                    } else {
                        rows[r][c]
                    },
            ),
    )
}

/// The rows that are not full, in their order.
pub open spec fn kept_rows(rows: Seq<Seq<u8>>) -> Seq<Seq<u8>> {
    rows.filter(not_full())
}

/// The test for a row that stays when lines are cleared.
pub open spec fn not_full() -> spec_fn(Seq<u8>) -> bool {
    |row: Seq<u8>| !row_full(row)
}

/// `n` empty rows.
pub open spec fn empty_rows(n: nat) -> Seq<Seq<u8>> {
    Seq::new(n, |r: int| empty_row())
}

/// How many empty rows refill the top after clearing: enough to bring the board
/// back to `HEIGHT + HIDDEN` rows.
pub open spec fn refill_count(rows: Seq<Seq<u8>>) -> nat {
    if kept_rows(rows).len() < HEIGHT + HIDDEN {
        (HEIGHT + HIDDEN - kept_rows(rows).len()) as nat
    } else {
        0
    }
}

/// The rows after removing the full ones and refilling the top with empty rows.
pub open spec fn cleared(rows: Seq<Seq<u8>>) -> Seq<Seq<u8>> {
    empty_rows(refill_count(rows)) + kept_rows(rows)
}

/// The rows after `count` rising garbage rows with the hole at column `hole`.
pub open spec fn raised(rows: Seq<Seq<u8>>, count: int, hole: int) -> Seq<Seq<u8>> {
    Seq::new(
        rows.len(),
        |r: int| if r + count < rows.len() { rows[r + count] } else { garbage_row(hole) },
    )
}

/// The contents of each row.
pub open spec fn views(cells: Seq<Vec<u8>>) -> Seq<Seq<u8>> {
    Seq::new(cells.len(), |r: int| cells[r]@)
}

/// No row is full.
pub open spec fn no_full_row(rows: Seq<Seq<u8>>) -> bool {
    forall|r: int| 0 <= r < rows.len() ==> !row_full(#[trigger] rows[r])
}

/// The indices of the full rows.
pub open spec fn full_set(rows: Seq<Seq<u8>>) -> Set<int> {
    Set::new(|r: int| 0 <= r < rows.len() && row_full(rows[r]))
}

/// The rows the listed cells lie in.
pub open spec fn rows_hit(cells: Seq<[i32; 2]>) -> Set<int> {
    cells.map_values(|p: [i32; 2]| p[1] as int).to_set()
}

/// The number of rows that clearing removes is the number of full rows.
pub proof fn lemma_full_rows_count(rows: Seq<Seq<u8>>)
    ensures
        full_set(rows).finite(),
        rows.len() - kept_rows(rows).len() == full_set(rows).len(),
    decreases rows.len(),
{
    broadcast use vstd::set::group_set_axioms;

    reveal(Seq::filter);
    if rows.len() == 0 {
        assert(full_set(rows) =~= Set::<int>::empty());
    } else {
        let init = rows.drop_last();
        lemma_full_rows_count(init);
        let last = (rows.len() - 1) as int;
        assert(rows.drop_last() == init);
        if row_full(rows[last]) {
            assert(full_set(rows) =~= full_set(init).insert(last));
            assert(!full_set(init).contains(last));
        } else {
            assert(full_set(rows) =~= full_set(init));
        }
    }
}

/// Painting cells can make full only rows that the cells lie in: on a board with no
/// full row, at most as many rows are full afterwards as there are cells.
pub proof fn lemma_paint_fills_at_most(rows: Seq<Seq<u8>>, cells: Seq<[i32; 2]>, color: u8)
    requires
        no_full_row(rows),
    ensures
        full_set(painted(rows, cells, color)).len() <= cells.len(),
        full_set(painted(rows, cells, color)).finite(),
{
    broadcast use vstd::set::group_set_axioms;

    let p = painted(rows, cells, color);
    let hit = rows_hit(cells);
    let ys = cells.map_values(|q: [i32; 2]| q[1] as int);
    ys.lemma_cardinality_of_set();
    vstd::seq_lib::seq_to_set_is_finite(ys);
    assert forall|r: int| full_set(p).contains(r) implies hit.contains(r) by {
        if !hit.contains(r) {
            assert forall|c: int| 0 <= c < p[r].len() implies p[r][c] == rows[r][c] by {
                if covers(cells, r, c) {
                    let i = choose|i: int| 0 <= i < cells.len() && (#[trigger] cells[i])[0] == c && cells[i][1] == r;
                    assert(ys[i] == r);
                    assert(ys.contains(r));
                }
            }
            assert(p[r] =~= rows[r]);
        }
    }
    vstd::set_lib::lemma_len_subset(full_set(p), hit);
}

/// After clearing, no row is full.
pub proof fn lemma_no_full_row_after_clear(rows: Seq<Seq<u8>>)
    ensures
        forall|r: int| 0 <= r < cleared(rows).len() ==> !row_full(#[trigger] cleared(rows)[r]),
{
    let kept = kept_rows(rows);
    let n = refill_count(rows);
    assert forall|r: int| 0 <= r < cleared(rows).len() implies !row_full(#[trigger] cleared(rows)[r]) by {
        if r < n {
            assert(cleared(rows)[r] == empty_row());
            assert(empty_row()[0] == 0);
        } else {
            rows.lemma_filter_pred(not_full(), r - n);
            assert(cleared(rows)[r] == kept[r - n]);
        }
    }
}

/// A garbage row always has its hole, so it is never full.
pub proof fn lemma_garbage_row_not_full(hole: int)
    requires
        0 <= hole < WIDTH,
    ensures
        !row_full(garbage_row(hole)),
{
    assert(garbage_row(hole)[hole] == 0);
}

/// Rising garbage keeps every row that was not full not full.
pub proof fn lemma_raise_keeps_rows_not_full(rows: Seq<Seq<u8>>, count: int, hole: int)
    requires
        0 <= count,
        0 <= hole < WIDTH,
        forall|r: int| 0 <= r < rows.len() ==> !row_full(#[trigger] rows[r]),
    ensures
        forall|r: int| 0 <= r < rows.len() ==> !row_full(#[trigger] raised(rows, count, hole)[r]),
{
    assert forall|r: int| 0 <= r < rows.len() implies !row_full(#[trigger] raised(rows, count, hole)[r]) by {
        if r + count < rows.len() {
            assert(raised(rows, count, hole)[r] == rows[r + count]);
        } else {
            lemma_garbage_row_not_full(hole);
        }
    }
}

/// The playfield: `HEIGHT + HIDDEN` rows of `WIDTH` cells; 0 is empty, 1 to 7 a
/// piece colour, 8 garbage.
#[derive(Clone)]
pub struct Board {
    pub cells: Vec<Vec<u8>>,
}

impl Board {
    /// The cells, row by row.
    pub open spec fn rows(self) -> Seq<Seq<u8>> {
        views(self.cells@)
    }

    /// The board has its full size and every cell holds a colour from 0 to 8.
    pub open spec fn wf(self) -> bool {
        &&& self.cells@.len() == HEIGHT + HIDDEN
        &&& forall|r: int|
            0 <= r < self.cells@.len() ==> (#[trigger] self.cells@[r])@.len() == WIDTH
        &&& forall|r: int, c: int|
            0 <= r < self.cells@.len() && 0 <= c < WIDTH ==> #[trigger] self.cells@[r]@[c]
                <= GARBAGE
    }

    /// The board has the rows and columns of the playfield: at least `HEIGHT + HIDDEN`
    /// rows, the first `HEIGHT + HIDDEN` of them at least `WIDTH` wide.
    pub open spec fn spans_field(self) -> bool {
        &&& self.cells@.len() >= HEIGHT + HIDDEN
        &&& forall|r: int|
            0 <= r < HEIGHT + HIDDEN ==> (#[trigger] self.cells@[r])@.len() >= WIDTH
    }

    /// Whether the piece fits the board.
    pub open spec fn accepts(self, piece: Piece) -> bool {
        fits(self.rows(), piece.absolute())
    }

    /// An empty board.
    pub fn new() -> (b: Board)
        ensures
            b.wf(),
            b.rows() == empty_rows((HEIGHT + HIDDEN) as nat),
    {
        let mut cells: Vec<Vec<u8>> = Vec::new();
        for r in 0..HEIGHT + HIDDEN
            invariant
                cells@.len() == r,
                forall|k: int| 0 <= k < r ==> (#[trigger] cells@[k])@ == empty_row(),
        {
            cells.push(empty_line());
        }
        let b = Board { cells };
        assert(b.rows() =~= empty_rows((HEIGHT + HIDDEN) as nat));
        b
    }

    /// Whether every cell of the piece is inside the columns, above the floor, and
    /// either above the top or on an empty cell.
    pub fn is_valid(&self, piece: &Piece) -> (ok: bool)
        requires
            self.spans_field(),
            piece.coords_fit(),
        ensures
            ok == self.accepts(*piece),
    {
        let abs = piece.absolute_cells();
        let n = abs.len();
        for i in 0..n
            invariant
                self.spans_field(),
                abs@ == piece.absolute(),
                n == abs@.len(),
                forall|j: int| 0 <= j < i ==> cell_free(self.rows(), #[trigger] abs@[j]),
        {
            let cx = abs[i][0];
            let cy = abs[i][1];
            if cx < 0 || cx >= WIDTH as i32 {
                return false;
            }
            if cy >= (HEIGHT + HIDDEN) as i32 {
                return false;
            }
            if cy >= 0 {
                if self.cells[cy as usize][cx as usize] != 0 {
                    assert(!cell_free(self.rows(), abs@[i as int]));
                    return false;
                }
            }
        }
        true
    }

    /// Paints every cell of the piece that lies on the board with the piece's colour.
    pub fn lock_piece(&mut self, piece: &Piece)
        requires
            old(self).spans_field(),
            piece.coords_fit(),
        ensures
            final(self).spans_field(),
            old(self).wf() ==> final(self).wf(),
            final(self).rows() == painted(old(self).rows(), piece.absolute(), piece.piece_type.color_of()),
    {
        let color = piece.piece_type.color();
        let abs = piece.absolute_cells();
        let n = abs.len();
        let ghost start = self.rows();
        let ghost was_wf = self.wf();
        proof {
            let none = abs@.take(0);
            assert forall|r: int| 0 <= r < start.len() implies (#[trigger] painted(start, none, color)[r]) =~= start[r] by {}
            assert(painted(start, none, color) =~= start);
        }
        for i in 0..n
            invariant
                self.spans_field(),
                was_wf ==> self.wf(),
                abs@ == piece.absolute(),
                n == abs@.len(),
                1 <= color <= 7,
                start.len() >= HEIGHT + HIDDEN,
                self.cells@.len() == start.len(),
                forall|r: int| 0 <= r < start.len() ==> (#[trigger] self.cells@[r])@.len() == start[r].len(),
                self.rows() == painted(start, abs@.take(i as int), color),
        {
            let cx = abs[i][0];
            let cy = abs[i][1];
            let ghost before = self.rows();
            if cy >= 0 && cy < (HEIGHT + HIDDEN) as i32 && cx >= 0 && cx < WIDTH as i32 {
                self.cells[cy as usize][cx as usize] = color;
            }
            proof {
                let prev = abs@.take(i as int);
                let next = abs@.take(i + 1);
                let p = abs@[i as int];
                assert(next == prev.push(p));
                assert forall|r: int, c: int| 0 <= r < start.len() && 0 <= c < start[r].len() implies
                    covers(next, r, c) == (covers(prev, r, c) || (p[0] == c && p[1] == r)) by {
                    if covers(next, r, c) {
                        let k = choose|k: int| 0 <= k < next.len() && (#[trigger] next[k])[0] == c && next[k][1] == r;
                        if k < prev.len() {
                            assert(prev[k] == next[k]);
                        }
                    }
                    if covers(prev, r, c) {
                        let k = choose|k: int| 0 <= k < prev.len() && (#[trigger] prev[k])[0] == c && prev[k][1] == r;
                        assert(next[k] == prev[k]);
                    }
                    if p[0] == c && p[1] == r {
                        assert(next[i as int] == p);
                    }
                }
                let goal = painted(start, next, color);
                assert forall|r: int| 0 <= r < start.len() implies (#[trigger] self.rows()[r]) =~= goal[r] by {
                    assert forall|c: int| 0 <= c < start[r].len() implies self.rows()[r][c] == goal[r][c] by {
                        assert(before[r][c] == painted(start, prev, color)[r][c]);
                    }
                }
                assert(self.rows() =~= goal);
            }
        }
        assert(abs@.take(n as int) =~= abs@);
    }

    /// Clears full lines and returns the count of lines cleared: the rows that are
    /// not full keep their order and sink to the bottom, and empty rows refill the top.
    pub fn clear_lines(&mut self) -> (n: u32)
        requires
            old(self).cells@.len() <= u32::MAX,
        ensures
            old(self).wf() ==> final(self).wf(),
            final(self).rows() == cleared(old(self).rows()),
            n == old(self).rows().len() - kept_rows(old(self).rows()).len(),
    {
        let total = HEIGHT + HIDDEN;
        let ghost start = self.rows();
        let ghost was_wf = self.wf();
        let mut cleared_count: u32 = 0;
        let mut new_cells: Vec<Vec<u8>> = Vec::new();
        let len = self.cells.len();
        for i in 0..len
            invariant
                start == self.rows(),
                was_wf == self.wf(),
                len == start.len(),
                len <= u32::MAX,
                views(new_cells@) == kept_rows(start.take(i as int)),
                cleared_count == i - new_cells@.len(),
                new_cells@.len() <= i,
                was_wf ==> forall|r: int| 0 <= r < new_cells@.len() ==> (#[trigger] new_cells@[r])@.len() == WIDTH,
                was_wf ==> forall|r: int, c: int|
                    0 <= r < new_cells@.len() && 0 <= c < WIDTH ==> #[trigger] new_cells@[r]@[c] <= GARBAGE,
        {
            let ghost kept_before = views(new_cells@);
            proof {
                reveal(Seq::filter);
                assert(start.take(i + 1).drop_last() =~= start.take(i as int));
                assert(start.take(i + 1).last() == start[i as int]);
            }
            let full = is_full(&self.cells[i]);
            if full {
                cleared_count += 1;
            } else {
                let row = copy_line(&self.cells[i]);
                new_cells.push(row);
                assert(views(new_cells@) =~= kept_before.push(start[i as int]));
            }
        }
        assert(start.take(len as int) =~= start);
        let ghost kept = kept_rows(start);
        let ghost k = new_cells@.len();
        while new_cells.len() < total
            invariant
                total == HEIGHT + HIDDEN,
                k <= new_cells@.len(),
                k < total ==> new_cells@.len() <= total,
                k >= total ==> new_cells@.len() == k,
                views(new_cells@) == empty_rows((new_cells@.len() - k) as nat) + kept,
                kept.len() == k,
                was_wf ==> forall|r: int| 0 <= r < new_cells@.len() ==> (#[trigger] new_cells@[r])@.len() == WIDTH,
                was_wf ==> forall|r: int, c: int|
                    0 <= r < new_cells@.len() && 0 <= c < WIDTH ==> #[trigger] new_cells@[r]@[c] <= GARBAGE,
            decreases total - new_cells@.len(),
        {
            let ghost before = views(new_cells@);
            new_cells.insert(0, empty_line());
            assert(views(new_cells@) =~= empty_rows((new_cells@.len() - k) as nat) + kept) by {
                let m = (new_cells@.len() - 1 - k) as nat;
                let lhs = views(new_cells@);
                let rhs = empty_rows(m + 1) + kept;
                assert forall|r: int| 0 <= r < lhs.len() implies lhs[r] == rhs[r] by {
                    if r > 0 {
                        assert(lhs[r] == before[r - 1]);
                        assert((empty_rows(m) + kept)[r - 1] == rhs[r]);
                    }
                }
            }
        }
        self.cells = new_cells;
        assert(self.rows() =~= cleared(start)) by {
            if k >= total {
                assert(empty_rows(0) + kept =~= kept);
            }
        }
        cleared_count
    }

    /// Adds `count` garbage rows at the bottom, each with its hole at column `hole`;
    /// the rows above rise by `count`, and those pushed past the top are lost.
    pub fn add_garbage(&mut self, count: u32, hole: usize)
        requires
            hole < WIDTH,
            count == 0 || old(self).cells@.len() > 0,
        ensures
            old(self).wf() ==> final(self).wf(),
            final(self).rows() == raised(old(self).rows(), count as int, hole as int),
    {
        let ghost start = self.rows();
        let ghost was_wf = self.wf();
        for t in 0..count
            invariant
                hole < WIDTH,
                count == 0 || start.len() > 0,
                self.cells@.len() == start.len(),
                was_wf ==> self.wf(),
                self.rows() == raised(start, t as int, hole as int),
        {
            let ghost before = self.rows();
            self.cells.remove(0);
            let row = garbage_line(hole);
            self.cells.push(row);
            assert(self.rows() =~= raised(start, t + 1, hole as int)) by {
                assert forall|r: int| 0 <= r < start.len() implies #[trigger] self.rows()[r] == raised(start, t + 1, hole as int)[r] by {
                    if r + 1 < start.len() {
                        assert(self.rows()[r] == before[r + 1]);
                    }
                }
            }
        }
        assert(self.rows() =~= raised(start, count as int, hole as int)) by {
            if count == 0 {
                assert(self.rows() =~= start);
            }
        }
    }

    /// The visible rows, without the hidden rows above them.
    pub fn visible_cells(&self) -> (v: &[Vec<u8>])
        requires
            self.cells@.len() >= HIDDEN,
        ensures
            v@ == self.cells@.subrange(HIDDEN as int, self.cells@.len() as int),
    {
        vstd::slice::slice_subrange(self.cells.as_slice(), HIDDEN, self.cells.len())
    }
}

/// Whether no cell of the row is empty.
fn is_full(row: &Vec<u8>) -> (b: bool)
    ensures
        b == row_full(row@),
{
    let n = row.len();
    for c in 0..n
        invariant
            n == row@.len(),
            forall|k: int| 0 <= k < c ==> #[trigger] row@[k] != 0,
    {
        if row[c] == 0 {
            return false;
        }
    }
    true
}

/// A copy of the row.
pub(crate) fn copy_line(row: &Vec<u8>) -> (v: Vec<u8>)
    ensures
        v@ == row@,
{
    let mut v: Vec<u8> = Vec::new();
    let n = row.len();
    for c in 0..n
        invariant
            n == row@.len(),
            v@ == row@.take(c as int),
    {
        v.push(row[c]);
        assert(v@ =~= row@.take(c + 1));
    }
    assert(row@.take(n as int) =~= row@);
    v
}

/// A garbage row with its hole at `hole`.
fn garbage_line(hole: usize) -> (v: Vec<u8>)
    requires
        hole < WIDTH,
    ensures
        v@ == garbage_row(hole as int),
{
    let mut v: Vec<u8> = Vec::new();
    for c in 0..WIDTH
        invariant
            v@ == garbage_row(hole as int).take(c as int),
    {
        if c == hole {
            v.push(0);
        } else {
            v.push(GARBAGE);
        }
        assert(v@ =~= garbage_row(hole as int).take(c + 1));
    }
    assert(garbage_row(hole as int).take(WIDTH as int) =~= garbage_row(hole as int));
    v
}

/// A fresh row of `WIDTH` empty cells.
fn empty_line() -> (v: Vec<u8>)
    ensures
        v@ == empty_row(),
{
    let mut v: Vec<u8> = Vec::new();
    for c in 0..WIDTH
        invariant
            v@.len() == c,
            forall|k: int| 0 <= k < c ==> #[trigger] v@[k] == 0,
    {
        v.push(0);
    }
    assert(v@ =~= empty_row());
    v
}

} // verus!
