//! Shuffling a sequence while some of its positions stay pinned.
//!
//! The shuffle is a Fisher-Yates pass over the positions that are not
//! pinned. What it does with a given run of random draws is fixed by
//! [`shuffled`]; the draws themselves come from the thread's generator.

use nanorand::tls::TlsWyRand;
use nanorand::Rng;
use vstd::prelude::*;
use vstd::seq_lib::to_multiset_contains;
use vstd::seq_lib::to_multiset_update;

verus! {

/// `items` with the entries at `a` and `b` exchanged.
pub open spec fn swap_at<T>(items: Seq<T>, a: int, b: int) -> Seq<T> {
    items.update(a, items[b]).update(b, items[a])
}

/// The indices below `len` that `pins` does not hold, ascending.
pub open spec fn free_indices(len: nat, pins: Seq<usize>) -> Seq<usize>
    decreases len,
{
    if len == 0 {
        Seq::empty()
    } else {
        let last = (len - 1) as usize;
        let rest = free_indices((len - 1) as nat, pins);
        if pins.contains(last) {
            rest
        } else {
            rest.push(last)
        }
    }
}

/// `draws` holds one draw for each of `count` steps, and the draw of step
/// `m` lies in `m..count`.
pub open spec fn valid_draws(draws: Seq<usize>, count: nat) -> bool {
    &&& draws.len() == count
    &&& forall|m: int| 0 <= m < count ==> m <= #[trigger] draws[m] < count
}

/// `items` after the first `steps` steps of the pass: step `m` exchanges the
/// entries at `free[m]` and `free[draws[m]]`.
pub open spec fn shuffled<T>(items: Seq<T>, free: Seq<usize>, draws: Seq<usize>, steps: nat) -> Seq<
    T,
>
    decreases steps,
{
    if steps == 0 {
        items
    } else {
        let m = steps - 1;
        swap_at(
            shuffled(items, free, draws, m as nat),
            free[m] as int,
            free[draws[m] as int] as int,
        )
    }
}

/// The entries of `items` at the indices `free`, in that order.
pub open spec fn values_at<T>(items: Seq<T>, free: Seq<usize>) -> Seq<T> {
    Seq::new(free.len(), |k: int| items[free[k] as int])
}

/// `after` is what some valid run of draws makes of `before`.
pub open spec fn is_pinned_shuffle<T>(before: Seq<T>, after: Seq<T>, pins: Seq<usize>) -> bool {
    let free = free_indices(before.len(), pins);
    exists|draws: Seq<usize>|
        valid_draws(draws, free.len()) && after == #[trigger] shuffled(
            before,
            free,
            draws,
            free.len(),
        )
}

/// The free indices are exactly the unpinned indices below `len`, each once
/// and in ascending order.
pub proof fn lemma_free_indices(len: nat, pins: Seq<usize>)
    requires
        len <= usize::MAX,
    ensures
        free_indices(len, pins).len() <= len,
        forall|k: int|
            0 <= k < free_indices(len, pins).len() ==> {
                let i = #[trigger] free_indices(len, pins)[k];
                i < len && !pins.contains(i)
            },
        forall|j: int, k: int|
            0 <= j < k < free_indices(len, pins).len() ==> free_indices(len, pins)[j]
                < free_indices(len, pins)[k],
        forall|i: usize| i < len && !pins.contains(i) ==> free_indices(len, pins).contains(i),
    decreases len,
{
    if len > 0 {
        let last = (len - 1) as usize;
        let rest = free_indices((len - 1) as nat, pins);
        lemma_free_indices((len - 1) as nat, pins);
        let all = free_indices(len, pins);
        assert forall|i: usize| i < len && !pins.contains(i) implies all.contains(i) by {
            if i == last {
                assert(all[all.len() - 1] == i);
            } else {
                assert(rest.contains(i));
                let k = choose|k: int| 0 <= k < rest.len() && rest[k] == i;
                assert(all[k] == i);
            }
        }
    }
}

/// Exchanging two entries keeps the length, the other entries and the
/// multiset of entries.
pub proof fn lemma_swap_at<T>(items: Seq<T>, a: int, b: int)
    requires
        0 <= a < items.len(),
        0 <= b < items.len(),
    ensures
        swap_at(items, a, b).len() == items.len(),
        swap_at(items, a, b)[a] == items[b],
        swap_at(items, a, b)[b] == items[a],
        forall|i: int|
            0 <= i < items.len() && i != a && i != b ==> swap_at(items, a, b)[i] == items[i],
        swap_at(items, a, b).to_multiset() == items.to_multiset(),
{
    broadcast use {vstd::multiset::group_multiset_axioms, vstd::multiset::group_multiset_properties};

    if a == b {
        assert(swap_at(items, a, b) =~= items);
    } else {
        let first = items.update(a, items[b]);
        let all = items.to_multiset();
        to_multiset_update(items, a, items[b]);
        to_multiset_update(first, b, items[a]);
        to_multiset_contains(items, items[a]);
        to_multiset_contains(items, items[b]);
        assert(items.contains(items[a]));
        assert(items.contains(items[b]));
        assert forall|v: T|
            all.insert(items[b]).remove(items[a]).insert(items[a]).remove(items[b]).count(v)
                == all.count(v) by {}
        assert(swap_at(items, a, b).to_multiset() =~= all);
    }
}

/// What every pass keeps, whatever was drawn: the length, the entries at
/// pinned indices, the multiset of all entries, and the multiset of the
/// entries at free indices.
pub proof fn lemma_shuffled<T>(items: Seq<T>, pins: Seq<usize>, draws: Seq<usize>, steps: nat)
    requires
        items.len() <= usize::MAX,
        valid_draws(draws, free_indices(items.len(), pins).len()),
        steps <= free_indices(items.len(), pins).len(),
    ensures
        shuffled(items, free_indices(items.len(), pins), draws, steps).len() == items.len(),
        forall|i: int|
            0 <= i < items.len() && pins.contains(i as usize) ==> shuffled(
                items,
                free_indices(items.len(), pins),
                draws,
                steps,
            )[i] == items[i],
        shuffled(items, free_indices(items.len(), pins), draws, steps).to_multiset()
            == items.to_multiset(),
        values_at(
            shuffled(items, free_indices(items.len(), pins), draws, steps),
            free_indices(items.len(), pins),
        ).to_multiset() == values_at(items, free_indices(items.len(), pins)).to_multiset(),
    decreases steps,
{
    if steps > 0 {
        let free = free_indices(items.len(), pins);
        let m = steps - 1;
        let d = draws[m] as int;
        let prev = shuffled(items, free, draws, m as nat);
        let next = shuffled(items, free, draws, steps);
        lemma_shuffled(items, pins, draws, m as nat);
        lemma_free_indices(items.len(), pins);
        assert(free[m] < items.len() && !pins.contains(free[m]));
        assert(free[d] < items.len() && !pins.contains(free[d]));
        lemma_swap_at(prev, free[m] as int, free[d] as int);
        lemma_swap_at(values_at(prev, free), m, d);
        assert(values_at(next, free) =~= swap_at(values_at(prev, free), m, d)) by {
            assert forall|k: int| 0 <= k < free.len() implies values_at(next, free)[k] == swap_at(
                values_at(prev, free),
                m,
                d,
            )[k] by {
                if k != m && k != d {
                    assert(free[k] != free[m]);
                    assert(free[k] != free[d]);
                }
            }
        }
    }
}

/// `<[T]>::swap` exchanges the entries at `a` and `b`, and panics when
/// either index is out of bounds.
pub assume_specification<V>[ <[V]>::swap ](slice: &mut [V], a: usize, b: usize)
    requires
        a < old(slice)@.len(),
        b < old(slice)@.len(),
    ensures
        final(slice)@ == swap_at(old(slice)@, a as int, b as int),
;

/// `nanorand::tls::TlsWyRand`, the handle on a thread's generator.
#[verifier::external_type_specification]
#[verifier::external_body]
pub struct ExTlsWyRand(TlsWyRand);

/// `nanorand::tls_rng`: a handle on the generator of the calling thread.
/// Nothing is known of the numbers it will give.
#[verifier::external_body]
fn thread_rng() -> TlsWyRand {
    nanorand::tls_rng()
}

/// `Rng::generate_range` on the half-open range `lo..hi`: some number in
/// that range. An empty range is left out: on one the call answers `lo`.
#[verifier::external_body]
fn draw_between(rng: &mut TlsWyRand, lo: usize, hi: usize) -> (drawn: usize)
    requires
        lo < hi,
    ensures
        lo <= drawn < hi,
{
    rng.generate_range(lo..hi)
}

/// Whether `pins` holds `index`.
fn is_pinned(pins: &[usize], index: usize) -> (found: bool)
    ensures
        found == pins@.contains(index),
{
    let mut k: usize = 0;
    while k < pins.len()
        invariant
            k <= pins@.len(),
            forall|j: int| 0 <= j < k ==> pins@[j] != index,
        decreases pins@.len() - k,
    {
        if pins[k] == index {
            return true;
        }
        k += 1;
    }
    false
}

/// The indices of a sequence of length `len` that `pins` leaves free,
/// ascending.
pub fn free_positions(len: usize, pins: &[usize]) -> (free: Vec<usize>)
    ensures
        free@ == free_indices(len as nat, pins@),
{
    let mut free: Vec<usize> = Vec::new();
    let mut i: usize = 0;
    while i < len
        invariant
            i <= len,
            free@ == free_indices(i as nat, pins@),
        decreases len - i,
    {
        if !is_pinned(pins, i) {
            free.push(i);
        }
        i += 1;
    }
    free
}

/// Runs the pass over `slice` with the draws given: step `m` exchanges the
/// entries at `free[m]` and `free[draws[m]]`.
fn apply_draws<T>(slice: &mut [T], free: &Vec<usize>, draws: &[usize], Ghost(pins): Ghost<Seq<usize>>)
    requires
        old(slice)@.len() <= usize::MAX,
        free@ == free_indices(old(slice)@.len(), pins),
        valid_draws(draws@, free@.len()),
    ensures
        final(slice)@ == shuffled(old(slice)@, free@, draws@, free@.len()),
{
    let ghost before = slice@;
    let mut m: usize = 0;
    while m < free.len()
        invariant
            m <= free@.len(),
            before.len() <= usize::MAX,
            slice@.len() == before.len(),
            free@ == free_indices(before.len(), pins),
            valid_draws(draws@, free@.len()),
            slice@ == shuffled(before, free@, draws@, m as nat),
        decreases free@.len() - m,
    {
        proof {
            lemma_free_indices(before.len(), pins);
            lemma_shuffled(before, pins, draws@, (m + 1) as nat);
        }
        let d = draws[m];
        assert(free@[m as int] < before.len());
        assert(free@[d as int] < before.len());
        slice.swap(free[m], free[d]);
        m += 1;
    }
}

/// The shuffle that the draws `draws` give: the pinned entries of `slice`
/// stay, and the free ones are exchanged step by step as [`shuffled`] says.
pub fn shuffle_pins_with<T>(slice: &mut [T], pins: &[usize], draws: &[usize])
    requires
        valid_draws(draws@, free_indices(old(slice)@.len(), pins@).len()),
    ensures
        final(slice)@ == shuffled(
            old(slice)@,
            free_indices(old(slice)@.len(), pins@),
            draws@,
            draws@.len(),
        ),
{
    let free = free_positions(slice.len(), pins);
    apply_draws(slice, &free, draws, Ghost(pins@));
}

/// Shuffles the entries of `slice` whose indices are not in `pins`, by a
/// Fisher-Yates pass with draws from the thread's generator. `N` bounds
/// both the number of pins and the number of free indices.
pub fn shuffle_pins<const N: usize, T>(slice: &mut [T], pins: &[usize])
    requires
        pins@.len() <= N,
        free_indices(old(slice)@.len(), pins@).len() <= N,
    ensures
        is_pinned_shuffle(old(slice)@, final(slice)@, pins@),
        final(slice)@.len() == old(slice)@.len(),
        forall|i: int|
            0 <= i < old(slice)@.len() && pins@.contains(i as usize) ==> final(slice)@[i] == old(
                slice,
            )@[i],
        final(slice)@.to_multiset() == old(slice)@.to_multiset(),
        values_at(final(slice)@, free_indices(old(slice)@.len(), pins@)).to_multiset()
            == values_at(old(slice)@, free_indices(old(slice)@.len(), pins@)).to_multiset(),
{
    if pins.len() > N {
        return unreached();
    }
    let free = free_positions(slice.len(), pins);
    if free.len() > N {
        return unreached();
    }
    let mut rng = thread_rng();
    let mut draws: Vec<usize> = Vec::new();
    let mut m: usize = 0;
    while m < free.len()
        invariant
            m <= free@.len(),
            draws@.len() == m,
            forall|j: int| 0 <= j < m ==> j <= #[trigger] draws@[j] < free@.len(),
        decreases free@.len() - m,
    {
        let drawn = draw_between(&mut rng, m, free.len());
        draws.push(drawn);
        m += 1;
    }
    proof {
        lemma_shuffled(slice@, pins@, draws@, free@.len());
    }
    apply_draws(slice, &free, draws.as_slice(), Ghost(pins@));
}

} // verus!
