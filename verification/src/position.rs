//! The 30 positions of the grid, pairs of positions, and the fixed tables
//! that are indexed by position.

use crate::text::decimal;
use crate::text::push_decimal;
use vstd::prelude::*;

verus! {

/// Number of key positions on the grid: three rows of ten.
pub const POSITIONS: usize = 30;

/// Number of unordered pairs of distinct positions.
pub const PAIRS: usize = 435;

/// Column of each position. The two inner places of each hand share one
/// column, so the ten places of a row fall into eight columns.
pub const I_TO_COL: [usize; 30] = [
    0, 1, 2, 3, 3, 4, 4, 5, 6, 7,
    0, 1, 2, 3, 3, 4, 4, 5, 6, 7,
    0, 1, 2, 3, 3, 4, 4, 5, 6, 7,
];

/// Whether each position takes part in any scissor motion.
const AFFECTS_SCISSOR: [bool; 30] = [
    true, true, true, true, true, true, true, true, true, true,
    true, true, false, false, false, false, false, false, true, true,
    true, true, true, false, true, false, false, true, true, true,
];

/// Row of position `pos`: 0 at the top, 2 at the bottom.
pub open spec fn row_of(pos: int) -> int {
    pos / 10
}

/// Place of position `pos` within its row: 0 at the left, 9 at the right.
pub open spec fn place_of(pos: int) -> int {
    pos % 10
}

/// Column of position `pos`, for `0 <= pos < 30`.
pub open spec fn column_of(pos: int) -> int {
    let c = pos % 10;
    if c <= 3 {
        c
    } else if c == 4 {
        3
    } else if c <= 6 {
        4
    } else {
        c - 2
    }
}

/// Whether position `pos` takes part in any scissor motion.
pub open spec fn scissor_position(pos: int) -> bool {
    !(12 <= pos <= 17 || pos == 23 || pos == 25 || pos == 26)
}

/// Column of a position, read from [`I_TO_COL`].
pub fn column_index(pos: usize) -> (col: usize)
    requires
        pos < POSITIONS,
    ensures
        col == column_of(pos as int),
        col < 8,
{
    I_TO_COL[pos]
}

/// Two positions, kept in the order in which they were given.
#[derive(Copy, Clone, Debug, PartialEq, Eq, Structural)]
pub struct PosPair(pub usize, pub usize);

impl PosPair {
    /// Both members are positions of the grid.
    pub open spec fn valid(&self) -> bool {
        self.0 < POSITIONS && self.1 < POSITIONS
    }

    /// The pair of the first position with itself.
    pub fn default() -> (pair: Self)
        ensures
            pair == PosPair(0, 0),
    {
        PosPair(0, 0)
    }

    /// The pair of `x1` and `x2`, in this order. It is a pair of positions
    /// if both are below 30.
    pub fn new(x1: usize, x2: usize) -> (pair: Self)
        ensures
            pair == PosPair(x1, x2),
    {
        PosPair(x1, x2)
    }

    /// The pair as text: both members in decimal, in round brackets.
    pub fn to_string(&self) -> (text: String)
        ensures
            text@ == seq!['('] + decimal(self.0 as nat) + seq![',', ' '] + decimal(self.1 as nat)
                + seq![')'],
    {
        let mut text = String::new();
        text.push('(');
        push_decimal(&mut text, self.0);
        text.push(',');
        text.push(' ');
        push_decimal(&mut text, self.1);
        text.push(')');
        assert(text@ =~= seq!['('] + decimal(self.0 as nat) + seq![',', ' '] + decimal(
            self.1 as nat,
        ) + seq![')']);
        text
    }

    /// True iff either member is flagged as a scissor position.
    pub fn affects_scissor(&self) -> (flag: bool)
        requires
            self.valid(),
        ensures
            flag == (scissor_position(self.0 as int) || scissor_position(self.1 as int)),
    {
        AFFECTS_SCISSOR[self.0] || AFFECTS_SCISSOR[self.1]
    }
}

/// Index at which the enumeration of pairs reaches the pairs whose first
/// member is `a`.
pub open spec fn pair_start(a: int) -> int {
    a * (59 - a) / 2
}

/// Index of the pair `(a, b)`, `a < b`, in the enumeration of all pairs:
/// first members ascending, and second members ascending under each first.
pub open spec fn pair_index(a: int, b: int) -> int {
    pair_start(a) + (b - a - 1)
}

/// The pairs that begin with `a` fill the `29 - a` indices from
/// `pair_start(a)` on, and the enumeration ends at 435.
pub proof fn lemma_pair_start(a: int)
    requires
        0 <= a < 30,
    ensures
        pair_start(a + 1) == pair_start(a) + 29 - a,
        0 <= pair_start(a),
        pair_start(a + 1) <= 435,
        pair_start(0) == 0,
        pair_start(30) == 435,
{
    assert((a + 1) * (59 - (a + 1)) == a * (59 - a) + 2 * (29 - a)) by (nonlinear_arith);
    assert(0 <= a * (59 - a)) by (nonlinear_arith)
        requires
            0 <= a < 30,
    ;
    assert((a + 1) * (58 - a) <= 870) by (nonlinear_arith)
        requires
            0 <= a < 30,
    ;
}

/// Every pair `a < b < 30` has an index below 435.
pub proof fn lemma_pair_index_range(a: int, b: int)
    requires
        0 <= a < b < 30,
    ensures
        0 <= pair_start(a) <= pair_index(a, b) < pair_start(a + 1) <= 435,
{
    lemma_pair_start(a);
}

/// The pairs of a later first member start at a later index.
pub proof fn lemma_pair_start_monotone(a: int, c: int)
    requires
        0 <= a <= c <= 30,
    ensures
        pair_start(a) <= pair_start(c),
    decreases c - a,
{
    if a < c {
        lemma_pair_start(c - 1);
        lemma_pair_start_monotone(a, c - 1);
    }
}

/// `pairs` is the enumeration of all pairs: the pair `(a, b)`, `a < b`,
/// stands at `pair_index(a, b)`, and every entry is such a pair at its own
/// index.
pub open spec fn enumerates_pairs(pairs: Seq<PosPair>) -> bool {
    &&& pairs.len() == PAIRS
    &&& forall|a: int, b: int|
        0 <= a < b < 30 ==> pairs[#[trigger] pair_index(a, b)] == PosPair(a as usize, b as usize)
    &&& forall|k: int|
        0 <= k < 435 ==> {
            let pair = #[trigger] pairs[k];
            pair.0 < pair.1 < 30 && pair_index(pair.0 as int, pair.1 as int) == k
        }
}

/// An enumeration of all pairs has 435 entries, holds no pair of positions
/// twice, in either order, and holds every pair `a < b` of positions.
pub proof fn lemma_enumeration_complete(pairs: Seq<PosPair>)
    requires
        enumerates_pairs(pairs),
    ensures
        pairs.len() == 435,
        forall|j: int, k: int|
            0 <= j < k < 435 ==> #[trigger] pairs[j] != #[trigger] pairs[k] && !(pairs[j].0
                == pairs[k].1 && pairs[j].1 == pairs[k].0),
        forall|a: int, b: int|
            #![trigger pair_index(a, b)]
            0 <= a < b < 30 ==> 0 <= pair_index(a, b) < 435 && pairs[pair_index(a, b)] == PosPair(
                a as usize,
                b as usize,
            ),
        forall|a: int, b: int, k: int|
            0 <= a < b < 30 && 0 <= k < 435 && #[trigger] pairs[k] == PosPair(
                a as usize,
                b as usize,
            ) ==> k == #[trigger] pair_index(a, b),
{
    assert forall|a: int, b: int| #![trigger pair_index(a, b)] 0 <= a < b < 30 implies 0
        <= pair_index(a, b) < 435 by {
        lemma_pair_index_range(a, b);
    }
}

/// There is one enumeration of all pairs.
pub proof fn lemma_enumeration_unique(first: Seq<PosPair>, second: Seq<PosPair>)
    requires
        enumerates_pairs(first),
        enumerates_pairs(second),
    ensures
        first == second,
{
    assert forall|k: int| 0 <= k < 435 implies first[k] == second[k] by {
        let pair = first[k];
        assert(second[pair_index(pair.0 as int, pair.1 as int)] == pair);
    }
    assert(first =~= second);
}

/// All 435 pairs of distinct positions, each once, smaller member first,
/// ordered by the first member and then by the second.
pub fn get_possible_swaps() -> (swaps: [PosPair; 435])
    ensures
        enumerates_pairs(swaps@),
{
    let mut res = [PosPair(0, 0);435];
    let mut i: usize = 0;
    let mut pos1: usize = 0;
    proof {
        lemma_pair_start(0);
    }
    while pos1 < 30
        invariant
            pos1 <= 30,
            i == pair_start(pos1 as int),
            forall|a: int, b: int|
                0 <= a < b < 30 && a < pos1 ==> res@[#[trigger] pair_index(a, b)] == PosPair(
                    a as usize,
                    b as usize,
                ),
            forall|k: int|
                0 <= k < i ==> {
                    let pair = #[trigger] res@[k];
                    pair.0 < pair.1 < 30 && pair_index(pair.0 as int, pair.1 as int) == k
                },
        decreases 30 - pos1,
    {
        let mut pos2 = pos1 + 1;
        proof {
            lemma_pair_start(pos1 as int);
        }
        while pos2 < 30
            invariant
                pos1 < 30,
                pos1 < pos2 <= 30,
                i == pair_start(pos1 as int) + (pos2 - pos1 - 1),
                0 <= pair_start(pos1 as int),
                pair_start(pos1 as int + 1) == pair_start(pos1 as int) + 29 - pos1,
                pair_start(pos1 as int + 1) <= 435,
                forall|a: int, b: int|
                    0 <= a < b < 30 && (a < pos1 || (a == pos1 && b < pos2)) ==> res@[#[trigger] pair_index(
                        a,
                        b,
                    )] == PosPair(a as usize, b as usize),
                forall|k: int|
                    0 <= k < i ==> {
                        let pair = #[trigger] res@[k];
                        pair.0 < pair.1 < 30 && pair_index(pair.0 as int, pair.1 as int) == k
                    },
            decreases 30 - pos2,
        {
            let ghost before = res@;
            res[i] = PosPair(pos1, pos2);
            proof {
                assert(pair_index(pos1 as int, pos2 as int) == i);
                assert forall|a: int, b: int|
                    0 <= a < b < 30 && (a < pos1 || (a == pos1 && b < pos2 + 1)) implies res@[#[trigger] pair_index(
                    a,
                    b,
                )] == PosPair(a as usize, b as usize) by {
                    if a == pos1 && b == pos2 {
                    } else {
                        lemma_pair_index_range(a, b);
                        if a < pos1 {
                            lemma_pair_start_monotone(a + 1, pos1 as int);
                        }
                        assert(pair_index(a, b) != i);
                        assert(before[pair_index(a, b)] == PosPair(a as usize, b as usize));
                    }
                }
            }
            i += 1;
            pos2 += 1;
        }
        pos1 += 1;
    }
    proof {
        lemma_pair_start(29);
    }
    res
}

} // verus!

