use vstd::prelude::*;

use crate::board::WIDTH;
use crate::piece::PieceType;

verus! {

/// The random values one game step may consume: the six Fisher-Yates picks that
/// shuffle a new bag (`bag_picks[k]` is the partner of position `6 - k`, at most
/// `6 - k`), and the column of the hole of a garbage batch.
pub struct RandomDraws {
    pub bag_picks: Vec<usize>,
    pub garbage_hole: usize,
}

impl RandomDraws {
    /// The picks are six in-range Fisher-Yates indices and the hole is a column.
    pub open spec fn wf(self) -> bool {
        &&& self.bag_picks@.len() == 6
        &&& forall|k: int| 0 <= k < 6 ==> #[trigger] self.bag_picks@[k] <= 6 - k
        &&& self.garbage_hole < WIDTH
    }
}

/// The seven kinds in the order I, O, T, S, Z, J, L.
pub open spec fn fresh_bag() -> Seq<PieceType> {
    seq![
        PieceType::I,
        PieceType::O,
        PieceType::T,
        PieceType::S,
        PieceType::Z,
        PieceType::J,
        PieceType::L,
    ]
}

/// `s` with the elements at `i` and `j` exchanged.
pub open spec fn swapped(s: Seq<PieceType>, i: int, j: int) -> Seq<PieceType> {
    s.update(i, s[j]).update(j, s[i])
}

/// The fresh bag after the first `k` Fisher-Yates swaps: swap `k` exchanges
/// position `6 - k` with position `picks[k]`.
pub open spec fn shuffled(picks: Seq<usize>, k: nat) -> Seq<PieceType>
    decreases k,
{
    if k == 0 {
        fresh_bag()
    } else {
        swapped(shuffled(picks, (k - 1) as nat), 6 - (k - 1), picks[k - 1] as int)
    }
}

/// Each swap stays inside the seven positions, so the bag keeps its length.
pub proof fn lemma_shuffled_len(picks: Seq<usize>, k: nat)
    requires
        k <= 6,
        picks.len() == 6,
        forall|m: int| 0 <= m < 6 ==> #[trigger] picks[m] <= 6 - m,
    ensures
        shuffled(picks, k).len() == 7,
    decreases k,
{
    if k > 0 {
        lemma_shuffled_len(picks, (k - 1) as nat);
        assert(picks[k - 1] <= 6 - (k - 1));
    }
}

/// The bag the six picks shuffle.
pub open spec fn bag_for(picks: Seq<usize>) -> Seq<PieceType> {
    shuffled(picks, 6)
}

/// Seven pieces, each kind exactly once.
pub open spec fn is_full_bag(s: Seq<PieceType>) -> bool {
    &&& s.len() == 7
    &&& forall|i: int, j: int| 0 <= i < j < 7 ==> s[i] != s[j]
    &&& forall|t: PieceType| s.contains(t)
}

/// Block `j` of seven pieces.
pub open spec fn block(s: Seq<PieceType>, j: int) -> Seq<PieceType> {
    s.subrange(7 * j, 7 * j + 7)
}

/// The pieces split into blocks of seven, each holding every kind once.
pub open spec fn in_bag_blocks(s: Seq<PieceType>) -> bool {
    &&& s.len() % 7 == 0
    &&& forall|j: int| 0 <= j < s.len() / 7 ==> is_full_bag(#[trigger] block(s, j))
}

/// A full bag read backwards is still a full bag.
pub proof fn lemma_reverse_full_bag(b: Seq<PieceType>)
    requires
        is_full_bag(b),
    ensures
        is_full_bag(b.reverse()),
{
    let r = b.reverse();
    assert forall|i: int, j: int| 0 <= i < j < 7 implies r[i] != r[j] by {
        assert(r[i] == b[6 - i] && r[j] == b[6 - j]);
    }
    assert forall|t: PieceType| r.contains(t) by {
        assert(b.contains(t));
        let k = choose|k: int| 0 <= k < b.len() && b[k] == t;
        assert(r[6 - k] == t);
    }
}

/// Appending a full bag to pieces in full-bag blocks keeps them in full-bag blocks.
pub proof fn lemma_blocks_append(s: Seq<PieceType>, b: Seq<PieceType>)
    requires
        in_bag_blocks(s),
        is_full_bag(b),
    ensures
        in_bag_blocks(s + b),
{
    let t = s + b;
    let n = s.len() / 7;
    assert(t.len() / 7 == n + 1);
    assert forall|j: int| 0 <= j < t.len() / 7 implies is_full_bag(#[trigger] block(t, j)) by {
        if j < n {
            assert(block(t, j) =~= block(s, j));
        } else {
            assert(block(t, j) =~= b);
        }
    }
}

/// A prefix of a sequence in full-bag blocks has every complete block full.
pub proof fn lemma_prefix_blocks(s: Seq<PieceType>, p: Seq<PieceType>)
    requires
        in_bag_blocks(s),
        p.len() <= s.len(),
        p == s.take(p.len() as int),
    ensures
        forall|j: int| 0 <= j && 7 * j + 7 <= p.len() ==> is_full_bag(#[trigger] block(p, j)),
{
    assert forall|j: int| 0 <= j && 7 * j + 7 <= p.len() implies is_full_bag(#[trigger] block(p, j)) by {
        assert(block(p, j) =~= block(s, j));
        assert(j < s.len() / 7);
    }
}

/// A new 7-bag: the kinds in order I, O, T, S, Z, J, L, shuffled by the picks
/// (Fisher-Yates from the last position down).
pub fn new_bag(picks: &Vec<usize>) -> (bag: Vec<PieceType>)
    requires
        picks@.len() == 6,
        forall|k: int| 0 <= k < 6 ==> #[trigger] picks@[k] <= 6 - k,
    ensures
        bag@ == bag_for(picks@),
        is_full_bag(bag@),
{
    let mut bag = vec![
        PieceType::I,
        PieceType::O,
        PieceType::T,
        PieceType::S,
        PieceType::Z,
        PieceType::J,
        PieceType::L,
    ];
    proof {
        assert(bag@ =~= fresh_bag());
        assert(bag@[0] == PieceType::I && bag@[1] == PieceType::O && bag@[2] == PieceType::T);
        assert forall|t: PieceType| bag@.contains(t) by {
            match t {
                PieceType::I => assert(bag@[0] == t),
                PieceType::O => assert(bag@[1] == t),
                PieceType::T => assert(bag@[2] == t),
                PieceType::S => assert(bag@[3] == t),
                PieceType::Z => assert(bag@[4] == t),
                PieceType::J => assert(bag@[5] == t),
                PieceType::L => assert(bag@[6] == t),
            }
        }
    }
    for k in 0..6
        invariant
            picks@.len() == 6,
            forall|m: int| 0 <= m < 6 ==> #[trigger] picks@[m] <= 6 - m,
            bag@ == shuffled(picks@, k as nat),
            is_full_bag(bag@),
    {
        let i = 6 - k;
        let j = picks[k];
        let ghost before = bag@;
        let a = bag[i];
        let b = bag[j];
        bag.set(i, b);
        bag.set(j, a);
        proof {
            assert(bag@ =~= swapped(before, i as int, j as int));
            assert forall|t: PieceType| bag@.contains(t) by {
                assert(before.contains(t));
                let idx = choose|idx: int| 0 <= idx < before.len() && before[idx] == t;
                if idx == i {
                    assert(bag@[j as int] == t);
                } else if idx == j {
                    assert(bag@[i as int] == t);
                } else {
                    assert(bag@[idx] == t);
                }
            }
            assert forall|p: int, q: int| 0 <= p < q < 7 implies bag@[p] != bag@[q] by {
                let pp = if p == i { j as int } else if p == j { i as int } else { p };
                let qq = if q == i { j as int } else if q == j { i as int } else { q };
                assert(bag@[p] == before[pp]);
                assert(bag@[q] == before[qq]);
                if pp < qq {
                    assert(before[pp] != before[qq]);
                } else {
                    assert(before[qq] != before[pp]);
                }
            }
        }
    }
    bag
}

/// The queue after drawing `need` pieces, and the bag left: pieces come off the back
/// of the bag, and once it is empty off the back of `fresh`.
pub open spec fn drawn(next: Seq<PieceType>, bag: Seq<PieceType>, fresh: Seq<PieceType>, need: int) -> (
    Seq<PieceType>,
    Seq<PieceType>,
) {
    let stream = bag.reverse() + fresh.reverse();
    if need <= bag.len() {
        (next + stream.take(need), bag.take(bag.len() - need))
    } else {
        (next + stream.take(need), fresh.take(fresh.len() - (need - bag.len())))
    }
}

} // verus!
