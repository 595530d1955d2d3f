//! The fixed tables of position pairs: same-finger pairs, the travel that
//! belongs to each of them, and scissor pairs.

use crate::position::column_of;
use crate::position::place_of;
use crate::position::row_of;
use crate::position::PosPair;
use itertools::Itertools;
use vstd::prelude::*;

verus! {

/// The pairs of `items` whose first member stands at index `first` or
/// later: for each such index, ascending, the item there with each later
/// item, ascending.
pub open spec fn pairs_from<T>(items: Seq<T>, first: int) -> Seq<(T, T)>
    decreases items.len() - first,
{
    if first < 0 || first >= items.len() {
        Seq::empty()
    } else {
        Seq::new((items.len() - first - 1) as nat, |k: int| (items[first], items[first + 1 + k]))
            + pairs_from(items, first + 1)
    }
}

/// All pairs of items at two different indices of `items`, the earlier
/// item first, ordered by the first index and then by the second.
pub open spec fn pair_combinations<T>(items: Seq<T>) -> Seq<(T, T)> {
    pairs_from(items, 0)
}

/// `Itertools::combinations` with length 2, over the items of a slice:
/// every choice of two indices `i < j`, as the pair of the items there, in
/// lexicographic order of `(i, j)`. Equal items are not merged.
#[verifier::external_body]
fn pairs_of<T: Copy>(items: &[T]) -> (pairs: Vec<(T, T)>)
    ensures
        pairs@ == pair_combinations(items@),
{
    items.iter().copied().combinations(2).map(|pair| (pair[0], pair[1])).collect()
}

/// Three items give three pairs, in this order.
pub proof fn lemma_pairs_of_three<T>(items: Seq<T>)
    requires
        items.len() == 3,
    ensures
        pair_combinations(items) =~= seq![
            (items[0], items[1]),
            (items[0], items[2]),
            (items[1], items[2]),
        ],
{
    reveal_with_fuel(pairs_from, 4);
}

/// Six items give fifteen pairs, in this order.
pub proof fn lemma_pairs_of_six<T>(items: Seq<T>)
    requires
        items.len() == 6,
    ensures
        pair_combinations(items) =~= seq![
            (items[0], items[1]),
            (items[0], items[2]),
            (items[0], items[3]),
            (items[0], items[4]),
            (items[0], items[5]),
            (items[1], items[2]),
            (items[1], items[3]),
            (items[1], items[4]),
            (items[1], items[5]),
            (items[2], items[3]),
            (items[2], items[4]),
            (items[2], items[5]),
            (items[3], items[4]),
            (items[3], items[5]),
            (items[4], items[5]),
        ],
{
    reveal_with_fuel(pairs_from, 7);
}

/// The same pairs, as pairs of positions.
pub open spec fn as_pos_pairs(pairs: Seq<(usize, usize)>) -> Seq<PosPair> {
    Seq::new(pairs.len(), |k: int| PosPair(pairs[k].0, pairs[k].1))
}

/// The places of a row that one finger has to itself.
pub const SINGLE_PLACES: [usize; 6] = [0, 1, 2, 7, 8, 9];

/// The inner places of a row, by the left one of each hand's two: an index
/// finger has this place and the one to its right.
pub const INDEX_PLACES: [usize; 2] = [3, 5];

/// The three positions at place `place`, top to bottom.
pub open spec fn place_keys(place: int) -> Seq<usize> {
    seq![place as usize, (place + 10) as usize, (place + 20) as usize]
}

/// The six positions of an index finger whose left place is `place`: the
/// left place top to bottom, then the right one.
pub open spec fn index_keys(place: int) -> Seq<usize> {
    seq![
        place as usize,
        (place + 10) as usize,
        (place + 20) as usize,
        (place + 1) as usize,
        (place + 11) as usize,
        (place + 21) as usize,
    ]
}

/// The positions of each finger, finger by finger: first the fingers with
/// one place, then the two index fingers.
pub open spec fn finger_groups() -> Seq<Seq<usize>> {
    Seq::new(
        8,
        |g: int|
            if g < 6 {
                place_keys(SINGLE_PLACES[g] as int)
            } else {
                index_keys(INDEX_PLACES[g - 6] as int)
            },
    )
}

/// The pairs within each group, group after group.
pub open spec fn group_pairs(groups: Seq<Seq<usize>>) -> Seq<PosPair>
    decreases groups.len(),
{
    if groups.len() == 0 {
        Seq::empty()
    } else {
        group_pairs(groups.drop_last()) + as_pos_pairs(pair_combinations(groups.last()))
    }
}

/// The same-finger pairs: for each finger, every pair of its positions.
pub open spec fn sfb_pairs() -> Seq<PosPair> {
    group_pairs(finger_groups())
}

/// Appends to `out` the pairs of the positions `keys`.
fn push_pairs(out: &mut Vec<PosPair>, keys: &[usize])
    ensures
        final(out)@ == old(out)@ + as_pos_pairs(pair_combinations(keys@)),
{
    let pairs = pairs_of(keys);
    let mut k: usize = 0;
    while k < pairs.len()
        invariant
            k <= pairs@.len(),
            out@ == old(out)@ + as_pos_pairs(pairs@.take(k as int)),
        decreases pairs@.len() - k,
    {
        out.push(PosPair(pairs[k].0, pairs[k].1));
        k += 1;
        assert(out@ =~= old(out)@ + as_pos_pairs(pairs@.take(k as int)));
    }
    assert(pairs@.take(k as int) =~= pairs@);
}

/// The items of `items` as a table of `N` entries.
fn as_table<T: Copy, const N: usize>(items: &Vec<T>, fill: T) -> (table: [T; N])
    requires
        items@.len() == N,
    ensures
        table@ == items@,
{
    let mut table = [fill;N];
    let mut k: usize = 0;
    while k < N
        invariant
            k <= N,
            items@.len() == N,
            forall|j: int| 0 <= j < k ==> table@[j] == items@[j],
        decreases N - k,
    {
        table[k] = items[k];
        k += 1;
    }
    assert(table@ =~= items@);
    table
}

/// The same-finger pairs written out.
pub proof fn lemma_sfb_pairs()
    ensures
        sfb_pairs() =~= seq![
            PosPair(0, 10),
            PosPair(0, 20),
            PosPair(10, 20),
            PosPair(1, 11),
            PosPair(1, 21),
            PosPair(11, 21),
            PosPair(2, 12),
            PosPair(2, 22),
            PosPair(12, 22),
            PosPair(7, 17),
            PosPair(7, 27),
            PosPair(17, 27),
            PosPair(8, 18),
            PosPair(8, 28),
            PosPair(18, 28),
            PosPair(9, 19),
            PosPair(9, 29),
            PosPair(19, 29),
            PosPair(3, 13),
            PosPair(3, 23),
            PosPair(3, 4),
            PosPair(3, 14),
            PosPair(3, 24),
            PosPair(13, 23),
            PosPair(13, 4),
            PosPair(13, 14),
            PosPair(13, 24),
            PosPair(23, 4),
            PosPair(23, 14),
            PosPair(23, 24),
            PosPair(4, 14),
            PosPair(4, 24),
            PosPair(14, 24),
            PosPair(5, 15),
            PosPair(5, 25),
            PosPair(5, 6),
            PosPair(5, 16),
            PosPair(5, 26),
            PosPair(15, 25),
            PosPair(15, 6),
            PosPair(15, 16),
            PosPair(15, 26),
            PosPair(25, 6),
            PosPair(25, 16),
            PosPair(25, 26),
            PosPair(6, 16),
            PosPair(6, 26),
            PosPair(16, 26),
        ],
{
    let groups = finger_groups();
    lemma_group_pairs_step(groups, 0);
    lemma_group_pairs_step(groups, 1);
    lemma_group_pairs_step(groups, 2);
    lemma_group_pairs_step(groups, 3);
    lemma_group_pairs_step(groups, 4);
    lemma_group_pairs_step(groups, 5);
    lemma_group_pairs_step(groups, 6);
    lemma_group_pairs_step(groups, 7);
    assert(groups.take(0) =~= Seq::<Seq<usize>>::empty());
    assert(groups.take(8) =~= groups);
    lemma_pairs_of_three(groups[0]);
    lemma_pairs_of_three(groups[1]);
    lemma_pairs_of_three(groups[2]);
    lemma_pairs_of_three(groups[3]);
    lemma_pairs_of_three(groups[4]);
    lemma_pairs_of_three(groups[5]);
    lemma_pairs_of_six(groups[6]);
    lemma_pairs_of_six(groups[7]);
}

/// Number of pairs among six items whose first item stands before index
/// `first`.
pub open spec fn pairs_before(first: int) -> int {
    if first <= 0 {
        0
    } else if first == 1 {
        5
    } else if first == 2 {
        9
    } else if first == 3 {
        12
    } else {
        14
    }
}

/// Where the pair of the positions `a < b` of one column stands among the
/// same-finger pairs.
pub open spec fn sfb_index(a: int, b: int) -> int {
    let place = place_of(a);
    if place == place_of(b) && !(3 <= place <= 6) {
        let group = if place < 3 {
            place
        } else {
            place - 4
        };
        3 * group + row_of(a) + row_of(b) - 1
    } else {
        let left = if place <= 4 {
            3int
        } else {
            5int
        };
        let i = 3 * (place - left) + row_of(a);
        let j = 3 * (place_of(b) - left) + row_of(b);
        let lo = if i < j {
            i
        } else {
            j
        };
        let hi = if i < j {
            j
        } else {
            i
        };
        let base = if left == 3 {
            18int
        } else {
            33int
        };
        base + pairs_before(lo) + (hi - lo - 1)
    }
}

/// Every same-finger pair is a pair of two positions of one column.
pub proof fn lemma_sfb_in_column(k: int)
    requires
        0 <= k < 48,
    ensures
        sfb_pairs().len() == 48,
        sfb_pairs()[k].valid(),
        sfb_pairs()[k].0 != sfb_pairs()[k].1,
        column_of(sfb_pairs()[k].0 as int) == column_of(sfb_pairs()[k].1 as int),
        sfb_pairs()[k].0 < sfb_pairs()[k].1 ==> sfb_index(
            sfb_pairs()[k].0 as int,
            sfb_pairs()[k].1 as int,
        ) == k,
        sfb_pairs()[k].1 < sfb_pairs()[k].0 ==> sfb_index(
            sfb_pairs()[k].1 as int,
            sfb_pairs()[k].0 as int,
        ) == k,
{
    lemma_sfb_pairs();
}

/// Every pair of two positions `a < b` of one column is a same-finger
/// pair, in one of its two orders, and stands at `sfb_index(a, b)`.
pub proof fn lemma_sfb_of_column(a: int, b: int)
    requires
        0 <= a < b < 30,
        column_of(a) == column_of(b),
    ensures
        0 <= sfb_index(a, b) < 48,
        sfb_pairs()[sfb_index(a, b)] == PosPair(a as usize, b as usize) || sfb_pairs()[sfb_index(
            a,
            b,
        )] == PosPair(b as usize, a as usize),
{
    lemma_sfb_pairs();
    let place = place_of(a);
    let other = place_of(b);
    assert(a == place + 10 * row_of(a));
    assert(b == other + 10 * row_of(b));
    assert(0 <= row_of(a) <= 2 && 0 <= row_of(b) <= 2);
    if place == other && !(3 <= place <= 6) {
        assert(row_of(a) < row_of(b));
    } else {
        assert(3 <= place <= 6 && 3 <= other <= 6);
    }
}

/// No pair of positions is a same-finger pair twice, in either order.
pub proof fn lemma_sfb_distinct(j: int, k: int)
    requires
        0 <= j < k < 48,
    ensures
        sfb_pairs()[j] != sfb_pairs()[k],
        !(sfb_pairs()[j].0 == sfb_pairs()[k].1 && sfb_pairs()[j].1 == sfb_pairs()[k].0),
{
    lemma_sfb_in_column(j);
    lemma_sfb_in_column(k);
}

/// The pairs of the first `g + 1` groups are those of the first `g`
/// groups, and then the pairs within group `g`.
pub proof fn lemma_group_pairs_step(groups: Seq<Seq<usize>>, g: int)
    requires
        0 <= g < groups.len(),
    ensures
        group_pairs(groups.take(g + 1)) == group_pairs(groups.take(g)) + as_pos_pairs(
            pair_combinations(groups[g]),
        ),
{
    assert(groups.take(g + 1).drop_last() =~= groups.take(g));
    assert(groups.take(g + 1).last() == groups[g]);
}

/// The 48 same-finger pairs: for each finger, every pair of its positions.
/// The fingers with one place come first, then the two index fingers.
pub fn get_sfb_indices() -> (sfb: [PosPair; 48])
    ensures
        sfb@ == sfb_pairs(),
{
    let mut found: Vec<PosPair> = Vec::new();
    let mut g: usize = 0;
    assert(finger_groups().take(0) =~= Seq::<Seq<usize>>::empty());
    while g < 6
        invariant
            g <= 6,
            found@ == group_pairs(finger_groups().take(g as int)),
        decreases 6 - g,
    {
        let i = SINGLE_PLACES[g];
        let keys = [i, i + 10, i + 20];
        proof {
            lemma_group_pairs_step(finger_groups(), g as int);
            assert(keys@ =~= finger_groups()[g as int]);
        }
        push_pairs(&mut found, &keys);
        g += 1;
    }
    while g < 8
        invariant
            6 <= g <= 8,
            found@ == group_pairs(finger_groups().take(g as int)),
        decreases 8 - g,
    {
        let i = INDEX_PLACES[g - 6];
        let keys = [i, i + 10, i + 20, i + 1, i + 11, i + 21];
        proof {
            lemma_group_pairs_step(finger_groups(), g as int);
            assert(keys@ =~= finger_groups()[g as int]);
        }
        push_pairs(&mut found, &keys);
        g += 1;
    }
    proof {
        assert(finger_groups().take(8) =~= finger_groups());
        lemma_sfb_pairs();
    }
    as_table(&found, PosPair(0, 0))
}

/// What decides the travel cost of a same-finger pair.
#[derive(Copy, Clone, Debug, PartialEq, Eq, Structural)]
pub enum Travel {
    /// The finger stays at its place and moves over `rows` rows; its
    /// weight is `weight` tenths.
    Vertical { rows: u8, weight: u8 },
    /// An index finger moves from the second position of the pair to the
    /// first: `dx` places to the right and `dy` rows down.
    Lateral { dx: i32, dy: i32 },
}

/// Weight of the finger of each single place, in tenths, in the order of
/// [`SINGLE_PLACES`].
pub const FINGER_WEIGHTS: [u8; 6] = [14, 36, 48, 48, 36, 14];

/// Place and row of the six positions of an index finger, counted from its
/// top left position, in the order of [`index_keys`].
pub open spec fn index_offsets() -> Seq<(i32, i32)> {
    seq![(0i32, 0i32), (0i32, 1i32), (0i32, 2i32), (1i32, 0i32), (1i32, 1i32), (1i32, 2i32)]
}

/// The travels at the single places: per place the pairs top to middle,
/// top to bottom and middle to bottom.
pub open spec fn vertical_travels() -> Seq<Travel> {
    Seq::new(
        18,
        |k: int|
            Travel::Vertical { rows: if k % 3 == 1 { 2u8 } else { 1u8 }, weight: FINGER_WEIGHTS[k / 3] },
    )
}

/// The travels of one index finger: for each pair of its positions, how
/// far the first lies from the second.
pub open spec fn lateral_travels() -> Seq<Travel> {
    let pairs = pair_combinations(index_offsets());
    Seq::new(
        pairs.len(),
        |k: int|
            Travel::Lateral { dx: (pairs[k].0.0 - pairs[k].1.0) as i32, dy: (pairs[k].0.1 - pairs[k].1.1) as i32 },
    )
}

/// The travel of each same-finger pair, in the order of [`sfb_pairs`].
pub open spec fn travel_terms() -> Seq<Travel> {
    vertical_travels() + lateral_travels() + lateral_travels()
}

/// Weight in tenths of the finger that has the single place `place`.
pub open spec fn finger_weight(place: int) -> int {
    if place == 0 || place == 9 {
        14
    } else if place == 1 || place == 8 {
        36
    } else {
        48
    }
}

/// The travel between two positions of one finger, read off the grid.
pub open spec fn travel_between(a: int, b: int) -> Travel {
    if 3 <= place_of(a) <= 6 {
        Travel::Lateral {
            dx: (place_of(a) - place_of(b)) as i32,
            dy: (row_of(a) - row_of(b)) as i32,
        }
    } else {
        Travel::Vertical { rows: (row_of(b) - row_of(a)) as u8, weight: finger_weight(place_of(a)) as u8 }
    }
}

/// The two tables match entry by entry: the travel at an index is the
/// travel between the positions of the same-finger pair at that index.
pub proof fn lemma_travel_matches_pair(k: int)
    requires
        0 <= k < 48,
    ensures
        sfb_pairs().len() == 48,
        travel_terms().len() == 48,
        travel_terms()[k] == travel_between(sfb_pairs()[k].0 as int, sfb_pairs()[k].1 as int),
{
    lemma_sfb_pairs();
    lemma_pairs_of_six(index_offsets());
}

/// The travel of each of the 48 same-finger pairs, in the order of
/// [`get_sfb_indices`].
pub fn get_travels() -> (travels: [Travel; 48])
    ensures
        travels@ == travel_terms(),
{
    let mut found: Vec<Travel> = Vec::new();
    let mut g: usize = 0;
    while g < 6
        invariant
            g <= 6,
            found@ == vertical_travels().take(3 * g),
        decreases 6 - g,
    {
        let weight = FINGER_WEIGHTS[g];
        found.push(Travel::Vertical { rows: 1, weight });
        found.push(Travel::Vertical { rows: 2, weight });
        found.push(Travel::Vertical { rows: 1, weight });
        g += 1;
        assert(found@ =~= vertical_travels().take(3 * g));
    }
    assert(vertical_travels().take(18) =~= vertical_travels());
    let offsets: [(i32, i32); 6] = [(0, 0), (0, 1), (0, 2), (1, 0), (1, 1), (1, 2)];
    assert(offsets@ =~= index_offsets());
    proof {
        lemma_pairs_of_six(index_offsets());
    }
    let mut hand: usize = 0;
    while hand < 2
        invariant
            hand <= 2,
            offsets@ == index_offsets(),
            pair_combinations(index_offsets()).len() == 15,
            found@ == vertical_travels() + if hand == 0 {
                Seq::<Travel>::empty()
            } else if hand == 1 {
                lateral_travels()
            } else {
                lateral_travels() + lateral_travels()
            },
        decreases 2 - hand,
    {
        let ghost before = found@;
        let pairs = pairs_of(&offsets);
        proof {
            lemma_pairs_of_six(index_offsets());
        }
        let mut k: usize = 0;
        while k < pairs.len()
            invariant
                k <= pairs@.len(),
                pairs@ == pair_combinations(index_offsets()),
                pairs@.len() == 15,
                forall|j: int|
                    0 <= j < 15 ==> 0 <= (#[trigger] pairs@[j]).0.0 <= 1 && 0 <= pairs@[j].0.1 <= 2
                        && 0 <= pairs@[j].1.0 <= 1 && 0 <= pairs@[j].1.1 <= 2,
                found@ == before + lateral_travels().take(k as int),
            decreases pairs@.len() - k,
        {
            let (first, second) = pairs[k];
            found.push(Travel::Lateral { dx: first.0 - second.0, dy: first.1 - second.1 });
            k += 1;
            assert(found@ =~= before + lateral_travels().take(k as int));
        }
        assert(lateral_travels().take(15) =~= lateral_travels());
        hand += 1;
        assert(found@ =~= vertical_travels() + if hand == 1 {
            lateral_travels()
        } else {
            lateral_travels() + lateral_travels()
        });
    }
    as_table(&found, Travel::Vertical { rows: 0, weight: 0 })
}

/// Each of the 48 same-finger pairs with its travel.
pub fn get_fspeed_terms() -> (terms: [(PosPair, Travel); 48])
    ensures
        forall|k: int| 0 <= k < 48 ==> #[trigger] terms@[k] == (sfb_pairs()[k], travel_terms()[k]),
        forall|k: int|
            0 <= k < 48 ==> (#[trigger] terms@[k]).1 == travel_between(
                terms@[k].0.0 as int,
                terms@[k].0.1 as int,
            ),
{
    let pairs = get_sfb_indices();
    let travels = get_travels();
    let mut terms = [(PosPair(0, 0), Travel::Vertical { rows: 0, weight: 0 });48];
    let mut k: usize = 0;
    while k < 48
        invariant
            k <= 48,
            pairs@ == sfb_pairs(),
            travels@ == travel_terms(),
            forall|j: int| 0 <= j < k ==> #[trigger] terms@[j] == (pairs@[j], travels@[j]),
        decreases 48 - k,
    {
        terms[k] = (pairs[k], travels[k]);
        k += 1;
    }
    assert forall|k: int| 0 <= k < 48 implies (#[trigger] terms@[k]).1 == travel_between(
        terms@[k].0.0 as int,
        terms@[k].0.1 as int,
    ) by {
        lemma_travel_matches_pair(k);
    }
    terms
}

/// The scissor pairs: pinky at the top with ring at home, pinky at home
/// with ring at the bottom, the stretches of the inner index places, and
/// the stretches over two rows between neighbouring places.
pub open spec fn scissor_pairs() -> Seq<PosPair> {
    seq![
        PosPair(0, 11),
        PosPair(9, 18),
        PosPair(10, 21),
        PosPair(19, 28),
        PosPair(2, 24),
        PosPair(22, 4),
        PosPair(5, 27),
        PosPair(0, 21),
        PosPair(1, 20),
        PosPair(1, 22),
        PosPair(2, 21),
        PosPair(3, 22),
        PosPair(6, 27),
        PosPair(7, 28),
        PosPair(8, 27),
        PosPair(8, 29),
        PosPair(9, 28),
    ]
}

/// The places from which a stretch over two rows reaches into the place to
/// the right.
pub const STRETCH_PLACES: [usize; 6] = [0, 1, 2, 6, 7, 8];

/// Number of two-row stretches that the first `g` of [`STRETCH_PLACES`]
/// give: two each, but one for place 2 and one for place 6.
pub open spec fn stretches_before(g: int) -> int {
    if g <= 2 {
        2 * g
    } else if g == 3 {
        5
    } else {
        2 * g - 2
    }
}

/// A position is flagged as a scissor position exactly if some scissor
/// pair holds it, and every scissor pair is a pair of positions.
pub proof fn lemma_scissor_flags()
    ensures
        forall|k: int| 0 <= k < 17 ==> (#[trigger] scissor_pairs()[k]).valid(),
        forall|pos: int|
            0 <= pos < 30 ==> (#[trigger] crate::position::scissor_position(pos) <==> exists|k: int|
                0 <= k < 17 && (scissor_pairs()[k].0 == pos || scissor_pairs()[k].1 == pos)),
{
    let pairs = scissor_pairs();
    assert forall|pos: int| 0 <= pos < 30 implies (#[trigger] crate::position::scissor_position(pos)
        <==> exists|k: int| 0 <= k < 17 && (pairs[k].0 == pos || pairs[k].1 == pos)) by {
        if crate::position::scissor_position(pos) {
            let k: int = if pos == 0 {
                0
            } else if pos == 1 {
                8
            } else if pos == 2 {
                4
            } else if pos == 3 {
                11
            } else if pos == 4 {
                5
            } else if pos == 5 {
                6
            } else if pos == 6 {
                12
            } else if pos == 7 {
                13
            } else if pos == 8 {
                14
            } else if pos == 9 {
                1
            } else if pos == 10 {
                2
            } else if pos == 11 {
                0
            } else if pos == 18 {
                1
            } else if pos == 19 {
                3
            } else if pos == 20 {
                8
            } else if pos == 21 {
                2
            } else if pos == 22 {
                5
            } else if pos == 24 {
                4
            } else if pos == 27 {
                6
            } else if pos == 28 {
                3
            } else {
                15
            };
            assert(0 <= k < 17 && (pairs[k].0 == pos || pairs[k].1 == pos));
        }
    }
}

/// The 17 scissor pairs.
pub fn get_scissor_indices() -> (scissors: [PosPair; 17])
    ensures
        scissors@ == scissor_pairs(),
{
    let mut found: Vec<PosPair> = Vec::new();
    found.push(PosPair(0, 11));
    found.push(PosPair(9, 18));
    found.push(PosPair(10, 21));
    found.push(PosPair(19, 28));
    found.push(PosPair(2, 24));
    found.push(PosPair(22, 4));
    found.push(PosPair(5, 27));
    assert(found@ =~= scissor_pairs().take(7));
    let mut g: usize = 0;
    while g < 6
        invariant
            g <= 6,
            found@ == scissor_pairs().take(7 + stretches_before(g as int)),
        decreases 6 - g,
    {
        let i = STRETCH_PLACES[g];
        if i != 2 {
            found.push(PosPair(i, i + 21));
        }
        if i != 6 {
            found.push(PosPair(i + 1, i + 20));
        }
        g += 1;
        assert(found@ =~= scissor_pairs().take(7 + stretches_before(g as int)));
    }
    assert(scissor_pairs().take(17) =~= scissor_pairs());
    as_table(&found, PosPair(0, 0))
}

} // verus!
