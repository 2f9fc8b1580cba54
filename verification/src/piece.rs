use vstd::prelude::*;

verus! {

/// The seven tetromino kinds.
#[derive(Clone, Copy, Debug, PartialEq, Eq, Structural)]
pub enum PieceType {
    I,
    O,
    T,
    S,
    Z,
    J,
    L,
}

impl PieceType {
    /// Position of the kind in the order I, O, T, S, Z, J, L.
    pub open spec fn ordinal(self) -> u8 {
        match self {
            PieceType::I => 0,
            PieceType::O => 1,
            PieceType::T => 2,
            PieceType::S => 3,
            PieceType::Z => 4,
            PieceType::J => 5,
            PieceType::L => 6,
        }
    }

    /// Position of the kind in the order I, O, T, S, Z, J, L.
    pub fn index(&self) -> (r: u8)
        ensures
            r == self.ordinal(),
            r < 7,
    {
        match self {
            PieceType::I => 0,
            PieceType::O => 1,
            PieceType::T => 2,
            PieceType::S => 3,
            PieceType::Z => 4,
            PieceType::J => 5,
            PieceType::L => 6,
        }
    }

    /// The board colour of a locked cell of this kind: its ordinal plus one.
    pub open spec fn color_of(self) -> u8 {
        (self.ordinal() + 1) as u8
    }

    /// The board colour of a locked cell of this kind: its ordinal plus one.
    pub fn color(&self) -> (r: u8)
        ensures
            r == self.color_of(),
            1 <= r <= 7,
    {
        self.index() + 1
    }
}

/// A cell offset `[col, row]`.
pub open spec fn cell(c: int, r: int) -> [i32; 2] {
    [c as i32, r as i32]
}

/// The four cells, relative to the piece origin, that a kind occupies in a rotation
/// (rotations other than 0, 1 and 2 read as rotation 3).
pub open spec fn shape(pt: PieceType, rot: u8) -> Seq<[i32; 2]> {
    match pt {
        PieceType::I => if rot == 0 {
            seq![cell(0, 1), cell(1, 1), cell(2, 1), cell(3, 1)]
        } else if rot == 1 {
            seq![cell(2, 0), cell(2, 1), cell(2, 2), cell(2, 3)]
        } else if rot == 2 {
            seq![cell(0, 2), cell(1, 2), cell(2, 2), cell(3, 2)]
        } else {
            seq![cell(1, 0), cell(1, 1), cell(1, 2), cell(1, 3)]
        },
        PieceType::O => seq![cell(1, 0), cell(2, 0), cell(1, 1), cell(2, 1)],
        PieceType::T => if rot == 0 {
            seq![cell(1, 0), cell(0, 1), cell(1, 1), cell(2, 1)]
        } else if rot == 1 {
            seq![cell(1, 0), cell(1, 1), cell(2, 1), cell(1, 2)]
        } else if rot == 2 {
            seq![cell(0, 1), cell(1, 1), cell(2, 1), cell(1, 2)]
        } else {
            seq![cell(1, 0), cell(0, 1), cell(1, 1), cell(1, 2)]
        },
        PieceType::S => if rot == 0 {
            seq![cell(1, 0), cell(2, 0), cell(0, 1), cell(1, 1)]
        } else if rot == 1 {
            seq![cell(1, 0), cell(1, 1), cell(2, 1), cell(2, 2)]
        } else if rot == 2 {
            seq![cell(1, 1), cell(2, 1), cell(0, 2), cell(1, 2)]
        } else {
            seq![cell(0, 0), cell(0, 1), cell(1, 1), cell(1, 2)]
        },
        PieceType::Z => if rot == 0 {
            seq![cell(0, 0), cell(1, 0), cell(1, 1), cell(2, 1)]
        } else if rot == 1 {
            seq![cell(2, 0), cell(1, 1), cell(2, 1), cell(1, 2)]
        } else if rot == 2 {
            seq![cell(0, 1), cell(1, 1), cell(1, 2), cell(2, 2)]
        } else {
            seq![cell(1, 0), cell(0, 1), cell(1, 1), cell(0, 2)]
        },
        PieceType::J => if rot == 0 {
            seq![cell(0, 0), cell(0, 1), cell(1, 1), cell(2, 1)]
        } else if rot == 1 {
            seq![cell(1, 0), cell(2, 0), cell(1, 1), cell(1, 2)]
        } else if rot == 2 {
            seq![cell(0, 1), cell(1, 1), cell(2, 1), cell(2, 2)]
        } else {
            seq![cell(1, 0), cell(1, 1), cell(0, 2), cell(1, 2)]
        },
        PieceType::L => if rot == 0 {
            seq![cell(2, 0), cell(0, 1), cell(1, 1), cell(2, 1)]
        } else if rot == 1 {
            seq![cell(1, 0), cell(1, 1), cell(1, 2), cell(2, 2)]
        } else if rot == 2 {
            seq![cell(0, 1), cell(1, 1), cell(2, 1), cell(0, 2)]
        } else {
            seq![cell(0, 0), cell(1, 0), cell(1, 1), cell(1, 2)]
        },
    }
}

/// Every offset lies in the 4x4 box `[0, 3] x [0, 3]`.
pub open spec fn offsets_in_box(cells: Seq<[i32; 2]>) -> bool {
    forall|i: int|
        0 <= i < cells.len() ==> 0 <= #[trigger] cells[i][0] <= 3 && 0 <= cells[i][1] <= 3
}

/// Every shape has exactly four cells, all inside the 4x4 box of the piece origin.
pub proof fn lemma_shape_in_box(pt: PieceType, rot: u8)
    ensures
        shape(pt, rot).len() == 4,
        offsets_in_box(shape(pt, rot)),
{
}

/// The cell `c` turned a quarter turn clockwise on the board (rows grow downward), as
/// `(col, row)`, then shifted by `(dx, dy)`.
pub open spec fn quarter_turned(c: [i32; 2], dx: int, dy: int) -> (int, int) {
    (dx - c[1], dy + c[0])
}

/// The cell `c` as `(col, row)`.
pub open spec fn coords(c: [i32; 2]) -> (int, int) {
    (c[0] as int, c[1] as int)
}

/// `b` holds exactly the cells of `a` turned a quarter turn clockwise and shifted by
/// `(dx, dy)`.
pub open spec fn is_quarter_turn(a: Seq<[i32; 2]>, b: Seq<[i32; 2]>, dx: int, dy: int) -> bool {
    &&& a.len() == b.len()
    &&& forall|i: int|
        #![trigger a[i]]
        0 <= i < a.len() ==> exists|j: int| 0 <= j < b.len() && #[trigger] coords(b[j]) == quarter_turned(a[i], dx, dy)
    &&& forall|j: int|
        #![trigger b[j]]
        0 <= j < b.len() ==> exists|i: int| 0 <= i < a.len() && coords(b[j]) == #[trigger] quarter_turned(a[i], dx, dy)
}

/// The shift that brings a kind's quarter-turned cells back into its box.
spec fn turn_shift(pt: PieceType) -> (int, int) {
    match pt {
        PieceType::I => (3, 0),
        PieceType::O => (2, -1),
        _ => (2, 0),
    }
}

/// `p` is one of the four cells of `b`.
spec fn among_four(p: (int, int), b: Seq<[i32; 2]>) -> bool {
    p == coords(b[0]) || p == coords(b[1]) || p == coords(b[2]) || p == coords(b[3])
}

/// `p` is one of the four cells of `a` quarter-turned and shifted by `(dx, dy)`.
spec fn turned_among_four(p: (int, int), a: Seq<[i32; 2]>, dx: int, dy: int) -> bool {
    p == quarter_turned(a[0], dx, dy) || p == quarter_turned(a[1], dx, dy) || p == quarter_turned(a[2], dx, dy)
        || p == quarter_turned(a[3], dx, dy)
}

/// For four cells each way, the quarter-turn relation reduces to eight memberships.
proof fn lemma_four_cells_turn(a: Seq<[i32; 2]>, b: Seq<[i32; 2]>, dx: int, dy: int)
    requires
        a.len() == 4,
        b.len() == 4,
        among_four(quarter_turned(a[0], dx, dy), b),
        among_four(quarter_turned(a[1], dx, dy), b),
        among_four(quarter_turned(a[2], dx, dy), b),
        among_four(quarter_turned(a[3], dx, dy), b),
        turned_among_four(coords(b[0]), a, dx, dy),
        turned_among_four(coords(b[1]), a, dx, dy),
        turned_among_four(coords(b[2]), a, dx, dy),
        turned_among_four(coords(b[3]), a, dx, dy),
    ensures
        is_quarter_turn(a, b, dx, dy),
{
    assert forall|i: int| #![trigger a[i]] 0 <= i < a.len() implies exists|j: int|
        0 <= j < b.len() && #[trigger] coords(b[j]) == quarter_turned(a[i], dx, dy) by {
        assert(i == 0 || i == 1 || i == 2 || i == 3);
        if coords(b[0]) == quarter_turned(a[i], dx, dy) {
        } else if coords(b[1]) == quarter_turned(a[i], dx, dy) {
        } else if coords(b[2]) == quarter_turned(a[i], dx, dy) {
        } else {
            assert(coords(b[3]) == quarter_turned(a[i], dx, dy));
        }
    }
    assert forall|j: int| #![trigger b[j]] 0 <= j < b.len() implies exists|i: int|
        0 <= i < a.len() && coords(b[j]) == #[trigger] quarter_turned(a[i], dx, dy) by {
        assert(j == 0 || j == 1 || j == 2 || j == 3);
        if coords(b[j]) == quarter_turned(a[0], dx, dy) {
        } else if coords(b[j]) == quarter_turned(a[1], dx, dy) {
        } else if coords(b[j]) == quarter_turned(a[2], dx, dy) {
        } else {
            assert(coords(b[j]) == quarter_turned(a[3], dx, dy));
        }
    }
}

/// Each rotation state of a kind is the previous one turned a quarter turn clockwise,
/// up to a shift within the box: state `r + 1` (state 0 after state 3) has the same
/// shape as state `r`, so no rotation turns one kind into another.
pub proof fn lemma_states_are_quarter_turns(pt: PieceType, r: u8)
    requires
        r < 4,
    ensures
        exists|dx: int, dy: int| #[trigger] is_quarter_turn(shape(pt, r), shape(pt, ((r + 1) % 4) as u8), dx, dy),
{
    let (dx, dy) = turn_shift(pt);
    let a = shape(pt, r);
    let b = shape(pt, ((r + 1) % 4) as u8);
    if r == 0 {
        lemma_four_cells_turn(a, b, dx, dy);
    } else if r == 1 {
        lemma_four_cells_turn(a, b, dx, dy);
    } else if r == 2 {
        lemma_four_cells_turn(a, b, dx, dy);
    } else {
        lemma_four_cells_turn(a, b, dx, dy);
    }
    assert(is_quarter_turn(a, b, dx, dy));
}

/// Returns cells for a given piece type and rotation (relative coordinates).
pub fn cells_for(pt: PieceType, rot: u8) -> (v: Vec<[i32; 2]>)
    ensures
        v@ == shape(pt, rot),
{
    match pt {
        PieceType::I => if rot == 0 {
            vec![[0, 1], [1, 1], [2, 1], [3, 1]]
        } else if rot == 1 {
            vec![[2, 0], [2, 1], [2, 2], [2, 3]]
        } else if rot == 2 {
            vec![[0, 2], [1, 2], [2, 2], [3, 2]]
        } else {
            vec![[1, 0], [1, 1], [1, 2], [1, 3]]
        },
        PieceType::O => vec![[1, 0], [2, 0], [1, 1], [2, 1]],
        PieceType::T => if rot == 0 {
            vec![[1, 0], [0, 1], [1, 1], [2, 1]]
        } else if rot == 1 {
            vec![[1, 0], [1, 1], [2, 1], [1, 2]]
        } else if rot == 2 {
            vec![[0, 1], [1, 1], [2, 1], [1, 2]]
        } else {
            vec![[1, 0], [0, 1], [1, 1], [1, 2]]
        },
        PieceType::S => if rot == 0 {
            vec![[1, 0], [2, 0], [0, 1], [1, 1]]
        } else if rot == 1 {
            vec![[1, 0], [1, 1], [2, 1], [2, 2]]
        } else if rot == 2 {
            vec![[1, 1], [2, 1], [0, 2], [1, 2]]
        } else {
            vec![[0, 0], [0, 1], [1, 1], [1, 2]]
        },
        PieceType::Z => if rot == 0 {
            vec![[0, 0], [1, 0], [1, 1], [2, 1]]
        } else if rot == 1 {
            vec![[2, 0], [1, 1], [2, 1], [1, 2]]
        } else if rot == 2 {
            vec![[0, 1], [1, 1], [1, 2], [2, 2]]
        } else {
            vec![[1, 0], [0, 1], [1, 1], [0, 2]]
        },
        PieceType::J => if rot == 0 {
            vec![[0, 0], [0, 1], [1, 1], [2, 1]]
        } else if rot == 1 {
            vec![[1, 0], [2, 0], [1, 1], [1, 2]]
        } else if rot == 2 {
            vec![[0, 1], [1, 1], [2, 1], [2, 2]]
        } else {
            vec![[1, 0], [1, 1], [0, 2], [1, 2]]
        },
        PieceType::L => if rot == 0 {
            vec![[2, 0], [0, 1], [1, 1], [2, 1]]
        } else if rot == 1 {
            vec![[1, 0], [1, 1], [1, 2], [2, 2]]
        } else if rot == 2 {
            vec![[0, 1], [1, 1], [2, 1], [0, 2]]
        } else {
            vec![[0, 0], [1, 0], [1, 1], [1, 2]]
        },
    }
}

/// A kick offset `(dx, dy)`.
pub open spec fn kick(dx: int, dy: int) -> (i32, i32) {
    (dx as i32, dy as i32)
}

/// Row of the kick tables used for a rotation from `from` to `to`
/// (pairs that are not one quarter turn apart use the first row).
pub open spec fn kick_row(from: u8, to: u8) -> int {
    if from == 0 && to == 1 {
        0
    } else if from == 1 && to == 0 {
        1
    } else if from == 1 && to == 2 {
        2
    } else if from == 2 && to == 1 {
        3
    } else if from == 2 && to == 3 {
        4
    } else if from == 3 && to == 2 {
        5
    } else if from == 3 && to == 0 {
        6
    } else if from == 0 && to == 3 {
        7
    } else {
        0
    }
}

/// SRS kick offsets for the J, L, S, T and Z pieces (and O).
pub open spec fn jlstz_row(row: int) -> Seq<(i32, i32)> {
    if row == 0 || row == 3 {
        seq![kick(0, 0), kick(-1, 0), kick(-1, 1), kick(0, -2), kick(-1, -2)]
    } else if row == 1 || row == 2 {
        seq![kick(0, 0), kick(1, 0), kick(1, -1), kick(0, 2), kick(1, 2)]
    } else if row == 4 || row == 7 {
        seq![kick(0, 0), kick(1, 0), kick(1, 1), kick(0, -2), kick(1, -2)]
    } else {
        seq![kick(0, 0), kick(-1, 0), kick(-1, -1), kick(0, 2), kick(-1, 2)]
    }
}

/// SRS kick offsets for the I piece.
pub open spec fn i_row(row: int) -> Seq<(i32, i32)> {
    if row == 0 || row == 5 {
        seq![kick(0, 0), kick(-2, 0), kick(1, 0), kick(-2, -1), kick(1, 2)]
    } else if row == 1 || row == 4 {
        seq![kick(0, 0), kick(2, 0), kick(-1, 0), kick(2, 1), kick(-1, -2)]
    } else if row == 2 || row == 7 {
        seq![kick(0, 0), kick(-1, 0), kick(2, 0), kick(-1, 2), kick(2, -1)]
    } else {
        seq![kick(0, 0), kick(1, 0), kick(-2, 0), kick(1, -2), kick(-2, 1)]
    }
}

/// The offsets tried, in order, when rotating a piece of kind `pt` from `from` to `to`.
pub open spec fn kicks(pt: PieceType, from: u8, to: u8) -> Seq<(i32, i32)> {
    if pt == PieceType::I {
        i_row(kick_row(from, to))
    } else {
        jlstz_row(kick_row(from, to))
    }
}

/// A kick list starts with the unshifted position, and every kick that moves the
/// piece vertically comes after a purely horizontal kick with the same column shift.
pub open spec fn kicks_well_formed(s: Seq<(i32, i32)>) -> bool {
    &&& s.len() == 5
    &&& s[0] == kick(0, 0)
    &&& forall|k: int|
        0 <= k < s.len() && #[trigger] s[k].1 != 0 ==> exists|j: int|
            0 <= j < k && s[j].1 == 0 && #[trigger] s[j].0 == s[k].0
    &&& forall|k: int| 0 <= k < s.len() ==> -2 <= #[trigger] s[k].0 <= 2 && -2 <= s[k].1 <= 2
}

/// Every kick list is well formed: it starts with no shift, stays within two cells,
/// and shifts vertically only after trying the same column shift without one.
pub proof fn lemma_kicks_well_formed(pt: PieceType, from: u8, to: u8)
    ensures
        kicks_well_formed(kicks(pt, from, to)),
{
    let s = kicks(pt, from, to);
    assert forall|k: int| 0 <= k < s.len() && #[trigger] s[k].1 != 0 implies exists|j: int|
        0 <= j < k && s[j].1 == 0 && #[trigger] s[j].0 == s[k].0 by {
        if s[k].0 == s[0].0 {
            assert(s[0].1 == 0 && s[0].0 == s[k].0);
        } else if s[k].0 == s[1].0 {
            assert(s[1].1 == 0 && s[1].0 == s[k].0);
        } else {
            assert(s[2].1 == 0 && s[2].0 == s[k].0);
        }
    }
}

fn jlstz_kicks(from: u8, to: u8) -> (v: Vec<(i32, i32)>)
    ensures
        v@ == jlstz_row(kick_row(from, to)),
{
    let idx: usize = if from == 0 && to == 1 {
        0
    } else if from == 1 && to == 0 {
        1
    } else if from == 1 && to == 2 {
        2
    } else if from == 2 && to == 1 {
        3
    } else if from == 2 && to == 3 {
        4
    } else if from == 3 && to == 2 {
        5
    } else if from == 3 && to == 0 {
        6
    } else if from == 0 && to == 3 {
        7
    } else {
        0
    };
    if idx == 0 || idx == 3 {
        vec![(0, 0), (-1, 0), (-1, 1), (0, -2), (-1, -2)]
    } else if idx == 1 || idx == 2 {
        vec![(0, 0), (1, 0), (1, -1), (0, 2), (1, 2)]
    } else if idx == 4 || idx == 7 {
        vec![(0, 0), (1, 0), (1, 1), (0, -2), (1, -2)]
    } else {
        vec![(0, 0), (-1, 0), (-1, -1), (0, 2), (-1, 2)]
    }
}

fn i_kicks(from: u8, to: u8) -> (v: Vec<(i32, i32)>)
    ensures
        v@ == i_row(kick_row(from, to)),
{
    let idx: usize = if from == 0 && to == 1 {
        0
    } else if from == 1 && to == 0 {
        1
    } else if from == 1 && to == 2 {
        2
    } else if from == 2 && to == 1 {
        3
    } else if from == 2 && to == 3 {
        4
    } else if from == 3 && to == 2 {
        5
    } else if from == 3 && to == 0 {
        6
    } else if from == 0 && to == 3 {
        7
    } else {
        0
    };
    if idx == 0 || idx == 5 {
        vec![(0, 0), (-2, 0), (1, 0), (-2, -1), (1, 2)]
    } else if idx == 1 || idx == 4 {
        vec![(0, 0), (2, 0), (-1, 0), (2, 1), (-1, -2)]
    } else if idx == 2 || idx == 7 {
        vec![(0, 0), (-1, 0), (2, 0), (-1, 2), (2, -1)]
    } else {
        vec![(0, 0), (1, 0), (-2, 0), (1, -2), (-2, 1)]
    }
}

/// SRS wall kicks: the list of `(dx, dy)` offsets to try, `(0, 0)` first.
pub fn wall_kicks(pt: PieceType, from: u8, to: u8) -> (v: Vec<(i32, i32)>)
    ensures
        v@ == kicks(pt, from, to),
{
    if pt == PieceType::I {
        i_kicks(from, to)
    } else {
        jlstz_kicks(from, to)
    }
}

/// A falling piece: its kind, rotation, origin and cell offsets.
#[derive(Clone, Debug)]
pub struct Piece {
    pub piece_type: PieceType,
    /// 0 to 3
    pub rotation: u8,
    /// column of the origin
    pub x: i32,
    /// row of the origin (0 = top row of the board, hidden rows included)
    pub y: i32,
    /// offsets `[col, row]` from `(x, y)`
    pub cells: Vec<[i32; 2]>,
}

/// The cells `cells` occupy when their origin is at column `x` and row `y`.
pub open spec fn placed(cells: Seq<[i32; 2]>, x: int, y: int) -> Seq<[i32; 2]> {
    Seq::new(cells.len(), |i: int| cell(cells[i][0] + x, cells[i][1] + y))
}

impl Piece {
    /// The absolute board cells of the piece.
    pub open spec fn absolute(self) -> Seq<[i32; 2]> {
        placed(self.cells@, self.x as int, self.y as int)
    }

    /// Every absolute cell coordinate is an `i32`.
    pub open spec fn coords_fit(self) -> bool {
        forall|i: int|
            0 <= i < self.cells@.len() ==> i32::MIN <= #[trigger] self.cells@[i][0] + self.x
                <= i32::MAX && i32::MIN <= self.cells@[i][1] + self.y <= i32::MAX
    }

    /// A new piece of the given kind in rotation 0 at the spawn position (3, 0).
    pub fn new(pt: PieceType) -> (p: Piece)
        ensures
            p.piece_type == pt,
            p.rotation == 0,
            p.x == 3,
            p.y == 0,
            p.cells@ == shape(pt, 0),
    {
        let cells = cells_for(pt, 0);
        Piece { piece_type: pt, rotation: 0, x: 3, y: 0, cells }
    }

    /// The absolute `[col, row]` board cells of the piece.
    pub fn absolute_cells(&self) -> (v: Vec<[i32; 2]>)
        requires
            self.coords_fit(),
        ensures
            v@ == self.absolute(),
    {
        let mut v: Vec<[i32; 2]> = Vec::new();
        let n = self.cells.len();
        for i in 0..n
            invariant
                n == self.cells@.len(),
                self.coords_fit(),
                v@.len() == i,
                forall|j: int| 0 <= j < i ==> #[trigger] v@[j] == self.absolute()[j],
        {
            let c = self.cells[i];
            assert(i32::MIN <= self.cells@[i as int][0] + self.x <= i32::MAX);
            v.push([c[0] + self.x, c[1] + self.y]);
        }
        assert(v@ =~= self.absolute());
        v
    }
}

} // verus!
