//! The reachability resolver: the per-point semantics of the game's
//! portal search, a naive per-point reference resolver, and the
//! production resolver that subdivides the destination region instead of
//! scanning every block.

use vstd::prelude::*;

use crate::portal::Portal;
use crate::pos::{axis_coord, lemma_square_bound, pos_in_bounds, Axis, BlockPos, MAX_COORD};
use crate::region::{lemma_point_distance_bounds, BlockRegion};
use crate::world::{Dimension, PortalDestinations, WorldPortals};

verus! {

/// The candidate portals a resolver query may run over: every candidate
/// owns a valid block region with coordinates small enough for distance
/// arithmetic.
pub open spec fn candidates_ok(cands: Seq<Portal>) -> bool {
    forall|i: int|
        0 <= i < cands.len() ==> (#[trigger] cands[i]).region.valid() && cands[i].region.in_bounds()
}

/// Whether candidate `i` is a teleport target for the single point `p`:
/// it is within search range of `p`, and no candidate in range of `p` is
/// strictly closer by squared Euclidean distance. Ties keep every tied
/// candidate.
pub open spec fn wins_at(cands: Seq<Portal>, dim: Dimension, p: BlockPos, i: int) -> bool {
    &&& 0 <= i < cands.len()
    &&& cands[i].spec_in_range_of_point(p, dim)
    &&& forall|j: int|
        0 <= j < cands.len() && (#[trigger] cands[j]).spec_in_range_of_point(p, dim)
            ==> cands[i].region.spec_distance_sq_to_point(p)
            <= cands[j].region.spec_distance_sq_to_point(p)
}

/// Whether candidate `i` is a teleport target for at least one point of
/// the region.
pub open spec fn reachable_from(
    cands: Seq<Portal>,
    dim: Dimension,
    region: BlockRegion,
    i: int,
) -> bool {
    exists|p: BlockPos| #[trigger] region.contains_point(p) && wins_at(cands, dim, p, i)
}

/// Whether the point `p` has no candidate within search range at all.
pub open spec fn point_has_no_candidate(cands: Seq<Portal>, dim: Dimension, p: BlockPos) -> bool {
    forall|j: int| 0 <= j < cands.len() ==> !(#[trigger] cands[j]).spec_in_range_of_point(p, dim)
}

/// Whether some point of the region has no candidate in search range at
/// all, so that the game would generate a brand-new portal there.
pub open spec fn new_portal_possible(cands: Seq<Portal>, dim: Dimension, region: BlockRegion) -> bool {
    exists|p: BlockPos|
        #[trigger] region.contains_point(p) && forall|j: int|
            0 <= j < cands.len() ==> !(#[trigger] cands[j]).spec_in_range_of_point(p, dim)
}

/// Whether the index sequence `s` holds the value `i`.
pub open spec fn contains_idx(s: Seq<usize>, i: int) -> bool {
    exists|k: int| 0 <= k < s.len() && (#[trigger] s[k]) as int == i
}

/// Whether the working set `might` still holds every candidate that is a
/// winner somewhere in the region. The resolver prunes its working set
/// only in ways that keep this true.
pub open spec fn covers_winners(
    cands: Seq<Portal>,
    dim: Dimension,
    region: BlockRegion,
    might: Seq<usize>,
) -> bool {
    forall|p: BlockPos, i: int|
        region.contains_point(p) && #[trigger] wins_at(cands, dim, p, i) ==> contains_idx(might, i)
}

/// Whether candidate `w` is, among the first `n` candidates, an in-range
/// one at minimal distance from `p`.
pub open spec fn min_among_prefix(
    cands: Seq<Portal>,
    dim: Dimension,
    p: BlockPos,
    w: int,
    n: int,
) -> bool {
    &&& 0 <= w < n
    &&& cands[w].spec_in_range_of_point(p, dim)
    &&& forall|k: int|
        0 <= k < n && (#[trigger] cands[k]).spec_in_range_of_point(p, dim)
            ==> cands[w].region.spec_distance_sq_to_point(p)
            <= cands[k].region.spec_distance_sq_to_point(p)
}

/// Among any nonempty set of in-range candidates there is a closest one:
/// some candidate wins at `p`.
pub proof fn lemma_winner_exists(cands: Seq<Portal>, dim: Dimension, p: BlockPos, j: int)
    requires
        0 <= j < cands.len(),
        cands[j].spec_in_range_of_point(p, dim),
    ensures
        exists|w: int| #[trigger] wins_at(cands, dim, p, w),
{
    lemma_min_prefix(cands, dim, p, cands.len() as int);
    let w = choose|w: int| #[trigger] min_among_prefix(cands, dim, p, w, cands.len() as int);
    assert(wins_at(cands, dim, p, w));
}

/// Induction step for `lemma_winner_exists`: the first `n` candidates,
/// if any of them is in range of `p`, contain one at minimal distance.
proof fn lemma_min_prefix(cands: Seq<Portal>, dim: Dimension, p: BlockPos, n: int)
    requires
        1 <= n <= cands.len(),
        exists|j: int| 0 <= j < n && (#[trigger] cands[j]).spec_in_range_of_point(p, dim),
    ensures
        exists|w: int| #[trigger] min_among_prefix(cands, dim, p, w, n),
    decreases n,
{
    if n == 1 {
        let j = choose|j: int| 0 <= j < 1 && (#[trigger] cands[j]).spec_in_range_of_point(p, dim);
        assert(j == 0);
        assert(min_among_prefix(cands, dim, p, 0, 1));
    } else {
        let last = n - 1;
        if cands[last].spec_in_range_of_point(p, dim) {
            if exists|j: int| 0 <= j < n - 1 && (#[trigger] cands[j]).spec_in_range_of_point(p, dim) {
                lemma_min_prefix(cands, dim, p, n - 1);
                let w = choose|w: int| #[trigger] min_among_prefix(cands, dim, p, w, n - 1);
                if cands[w].region.spec_distance_sq_to_point(p)
                    <= cands[last].region.spec_distance_sq_to_point(p) {
                    assert(min_among_prefix(cands, dim, p, w, n));
                } else {
                    assert(min_among_prefix(cands, dim, p, last, n));
                }
            } else {
                assert(min_among_prefix(cands, dim, p, last, n));
            }
        } else {
            let j0 = choose|j: int| 0 <= j < n && (#[trigger] cands[j]).spec_in_range_of_point(p, dim);
            assert(j0 < n - 1);
            lemma_min_prefix(cands, dim, p, n - 1);
            let w = choose|w: int| #[trigger] min_among_prefix(cands, dim, p, w, n - 1);
            assert(min_among_prefix(cands, dim, p, w, n));
        }
    }
}

/// A candidate that is strictly farther from every point of the region
/// than an always-in-range competitor can never be a winner in the
/// region: pruning it is sound.
pub proof fn lemma_dominated_never_wins(
    cands: Seq<Portal>,
    dim: Dimension,
    region: BlockRegion,
    i: int,
    j: int,
)
    requires
        region.valid(),
        candidates_ok(cands),
        0 <= i < cands.len(),
        0 <= j < cands.len(),
        forall|p: BlockPos|
            #[trigger] region.contains_point(p) ==> cands[i].spec_in_range_of_point(p, dim),
        region.spec_min_distance_sq_to(cands[j].region) > region.spec_max_distance_sq_to(
            cands[i].region,
        ),
    ensures
        forall|p: BlockPos| #[trigger] region.contains_point(p) ==> !wins_at(cands, dim, p, j),
{
    assert forall|p: BlockPos| #[trigger] region.contains_point(p) implies !wins_at(
        cands,
        dim,
        p,
        j,
    ) by {
        lemma_point_distance_bounds(region, cands[j].region, p);
        lemma_point_distance_bounds(region, cands[i].region, p);
        assert(cands[i].region.spec_distance_sq_to_point(p)
            < cands[j].region.spec_distance_sq_to_point(p));
    }
}

/// Whether `v` is no larger than any key that is present.
pub open spec fn opt_key_min_holds(keys: Seq<Option<i64>>, v: i64) -> bool {
    forall|j: int| 0 <= j < keys.len() && (#[trigger] keys[j]) is Some ==> v <= keys[j]->0
}

/// The items among the first `n` whose key is present and minimal over
/// the whole key sequence, in index order, duplicates kept.
pub open spec fn spec_minima_prefix<T>(items: Seq<T>, keys: Seq<Option<i64>>, n: int) -> Seq<T>
    decreases n,
{
    if n <= 0 {
        Seq::empty()
    } else {
        let rest = spec_minima_prefix(items, keys, n - 1);
        if keys[n - 1] is Some && opt_key_min_holds(keys, keys[n - 1]->0) {
            rest.push(items[n - 1])
        } else {
            rest
        }
    }
}

/// The items among the first `n` whose key is exactly `Some(m)`, in
/// index order, duplicates kept.
pub open spec fn spec_matching_prefix<T>(
    items: Seq<T>,
    keys: Seq<Option<i64>>,
    n: int,
    m: i64,
) -> Seq<T>
    decreases n,
{
    if n <= 0 {
        Seq::empty()
    } else {
        let rest = spec_matching_prefix(items, keys, n - 1, m);
        if keys[n - 1] == Some(m) {
            rest.push(items[n - 1])
        } else {
            rest
        }
    }
}

/// Where no prefix key equals `Some(m)`, nothing matches.
proof fn lemma_matching_prefix_empty<T>(items: Seq<T>, keys: Seq<Option<i64>>, n: int, m: i64)
    requires
        forall|pos: int| 0 <= pos < n ==> (#[trigger] keys[pos]) != Some(m),
    ensures
        spec_matching_prefix(items, keys, n, m).len() == 0,
    decreases n,
{
    if n > 0 {
        lemma_matching_prefix_empty(items, keys, n - 1, m);
    }
}

/// Where no key is present at all, the minima selection is empty.
proof fn lemma_minima_prefix_empty<T>(items: Seq<T>, keys: Seq<Option<i64>>, n: int)
    requires
        forall|pos: int| 0 <= pos < n ==> !((#[trigger] keys[pos]) is Some),
    ensures
        spec_minima_prefix(items, keys, n).len() == 0,
    decreases n,
{
    if n > 0 {
        lemma_minima_prefix_empty(items, keys, n - 1);
    }
}

/// When `m` is the least present key, matching `Some(m)` selects
/// exactly the minima.
proof fn lemma_matching_is_minima<T>(items: Seq<T>, keys: Seq<Option<i64>>, n: int, m: i64)
    requires
        0 <= n <= keys.len(),
        opt_key_min_holds(keys, m),
        exists|pos: int| 0 <= pos < keys.len() && (#[trigger] keys[pos]) == Some(m),
    ensures
        spec_matching_prefix(items, keys, n, m) == spec_minima_prefix(items, keys, n),
    decreases n,
{
    if n > 0 {
        lemma_matching_is_minima(items, keys, n - 1, m);
        if keys[n - 1] is Some {
            let v = keys[n - 1]->0;
            if opt_key_min_holds(keys, v) {
                let posm = choose|pos: int|
                    0 <= pos < keys.len() && (#[trigger] keys[pos]) == Some(m);
                assert(v <= m);
                assert(m <= v);
            }
        }
    }
}

/// Selects, among `items`, all those whose key is present and minimal:
/// an absent key excludes its item, every item tied for the lowest
/// present key is kept, and the survivors come in input order.
pub fn minima_by_opt_key<T: Copy>(items: &Vec<T>, keys: &Vec<Option<i64>>) -> (r: Vec<T>)
    requires
        items@.len() == keys@.len(),
    ensures
        r@ == spec_minima_prefix(items@, keys@, items@.len() as int),
        forall|x: T|
            #[trigger] r@.contains(x) <==> exists|pos: int|
                0 <= pos < items@.len() && items@[pos] == x && (#[trigger] keys@[pos]) is Some
                    && opt_key_min_holds(keys@, keys@[pos]->0),
        (r@.len() == 0) <==> (forall|pos: int| 0 <= pos < keys@.len() ==> !((#[trigger] keys@[pos]) is Some)),
{
    let mut ret: Vec<T> = Vec::new();
    let mut min_key: Option<i64> = None;
    let mut idx: usize = 0;
    while idx < items.len()
        invariant
            items@.len() == keys@.len(),
            0 <= idx <= items@.len(),
            min_key is None ==> (forall|pos: int| 0 <= pos < idx ==> !((#[trigger] keys@[pos]) is Some))
                && ret@.len() == 0,
            min_key is Some ==> (exists|pos: int|
                0 <= pos < idx && (#[trigger] keys@[pos]) == Some(min_key->0)) && (forall|pos: int|
                0 <= pos < idx && (#[trigger] keys@[pos]) is Some ==> min_key->0 <= keys@[pos]->0)
                && ret@.len() > 0,
            forall|x: T|
                #[trigger] ret@.contains(x) <==> (min_key is Some && exists|pos: int|
                    0 <= pos < idx && items@[pos] == x && (#[trigger] keys@[pos]) == Some(
                        min_key->0,
                    )),
            min_key is Some ==> ret@ == spec_matching_prefix(
                items@,
                keys@,
                idx as int,
                min_key->0,
            ),
        decreases items@.len() - idx,
    {
        let ghost old_min = min_key;
        match keys[idx] {
            None => {},
            Some(k) => {
                let push_new = match min_key {
                    None => true,
                    Some(m) => k < m,
                };
                if push_new {
                    min_key = Some(k);
                    ret.clear();
                    ret.push(items[idx]);
                    proof {
                        assert(ret@.len() == 1 && ret@[0] == items@[idx as int]);
                        assert forall|x: T| #[trigger] ret@.contains(x) implies x == items@[idx as int] by {
                            let t = choose|t: int| 0 <= t < ret@.len() && ret@[t] == x;
                            assert(t == 0);
                        }
                        assert(ret@.contains(items@[idx as int])) by {
                            assert(ret@[0] == items@[idx as int]);
                        }
                        // No earlier key can equal the new, strictly
                        // smaller minimum.
                        assert forall|pos: int|
                            0 <= pos < idx && (#[trigger] keys@[pos]) is Some implies keys@[pos]->0
                            > k by {
                            if old_min is Some {
                                assert(old_min->0 <= keys@[pos]->0);
                            }
                        }
                        lemma_matching_prefix_empty(items@, keys@, idx as int, k);
                        assert(spec_matching_prefix(items@, keys@, idx as int, k)
                            =~= Seq::<T>::empty());
                        assert(spec_matching_prefix(items@, keys@, idx + 1, k) =~= ret@);
                    }
                } else {
                    let m = match min_key {
                        Some(m) => m,
                        None => 0,
                    };
                    if k == m {
                        let ghost old_ret = ret@;
                        ret.push(items[idx]);
                        proof {
                            assert(ret@ == old_ret.push(items@[idx as int]));
                            assert forall|x: T| #[trigger] ret@.contains(x) implies (
                            old_ret.contains(x) || x == items@[idx as int]) by {
                                let t = choose|t: int| 0 <= t < ret@.len() && ret@[t] == x;
                                if t < old_ret.len() {
                                    assert(old_ret[t] == x);
                                }
                            }
                            assert forall|x: T| old_ret.contains(x) implies #[trigger] ret@.contains(
                                x,
                            ) by {
                                let t = choose|t: int| 0 <= t < old_ret.len() && old_ret[t] == x;
                                assert(ret@[t] == x);
                            }
                            assert(ret@.contains(items@[idx as int])) by {
                                assert(ret@[ret@.len() - 1] == items@[idx as int]);
                            }
                            assert(spec_matching_prefix(items@, keys@, idx + 1, m)
                                =~= old_ret.push(items@[idx as int]));
                        }
                    }
                }
            },
        }
        idx += 1;
    }
    proof {
        if min_key is Some {
            let m = min_key->0;
            assert(opt_key_min_holds(keys@, m));
            lemma_matching_is_minima(items@, keys@, keys@.len() as int, m);
            assert(ret@ == spec_minima_prefix(items@, keys@, items@.len() as int));
            assert forall|x: T| #[trigger] ret@.contains(x) implies exists|pos: int|
                0 <= pos < items@.len() && items@[pos] == x && (#[trigger] keys@[pos]) is Some
                    && opt_key_min_holds(keys@, keys@[pos]->0) by {
                let pos = choose|pos: int|
                    0 <= pos < idx && items@[pos] == x && (#[trigger] keys@[pos]) == Some(m);
                assert(opt_key_min_holds(keys@, m));
                assert((keys@[pos]) is Some && opt_key_min_holds(keys@, keys@[pos]->0));
            }
            assert forall|x: T|
                (exists|pos: int|
                    0 <= pos < items@.len() && items@[pos] == x && (#[trigger] keys@[pos]) is Some
                        && opt_key_min_holds(keys@, keys@[pos]->0)) implies #[trigger] ret@.contains(
                x,
            ) by {
                let pos = choose|pos: int|
                    0 <= pos < items@.len() && items@[pos] == x && (#[trigger] keys@[pos]) is Some
                        && opt_key_min_holds(keys@, keys@[pos]->0);
                let v = keys@[pos]->0;
                assert(v <= m) by {
                    let posm = choose|q: int| 0 <= q < idx && (#[trigger] keys@[q]) == Some(m);
                    assert(keys@[posm] is Some);
                }
                assert(m <= v);
                assert(keys@[pos] == Some(m));
            }
        } else {
            lemma_minima_prefix_empty(items@, keys@, keys@.len() as int);
            assert(ret@ =~= spec_minima_prefix(items@, keys@, items@.len() as int));
        }
    }
    ret
}

/// Copies a list of indices.
pub(crate) fn copy_indices(v: &Vec<usize>) -> (r: Vec<usize>)
    ensures
        r@ == v@,
{
    let mut r: Vec<usize> = Vec::new();
    let mut i: usize = 0;
    while i < v.len()
        invariant
            0 <= i <= v@.len(),
            r@ == v@.subrange(0, i as int),
        decreases v@.len() - i,
    {
        r.push(v[i]);
        i += 1;
    }
    proof {
        assert(r@ == v@.subrange(0, v@.len() as int));
        assert(v@.subrange(0, v@.len() as int) == v@);
    }
    r
}

/// A vector of `n` copies of `false`.
pub(crate) fn false_vec(n: usize) -> (r: Vec<bool>)
    ensures
        r@.len() == n,
        forall|i: int| 0 <= i < n ==> !(#[trigger] r@[i]),
    {
    let mut r: Vec<bool> = Vec::new();
    let mut i: usize = 0;
    while i < n
        invariant
            0 <= i <= n,
            r@.len() == i,
            forall|t: int| 0 <= t < i ==> !(#[trigger] r@[t]),
        decreases n - i,
    {
        r.push(false);
        i += 1;
    }
    r
}

/// Whether two index lists hold the same values in the same order. Used
/// only to decide where to subdivide; no proof rests on it.
fn eq_indices(a: &Vec<usize>, b: &Vec<usize>) -> bool {
    if a.len() != b.len() {
        return false;
    }
    let mut i: usize = 0;
    while i < a.len()
        invariant
            a@.len() == b@.len(),
            0 <= i <= a@.len(),
        decreases a@.len() - i,
    {
        if a[i] != b[i] {
            return false;
        }
        i += 1;
    }
    true
}

/// The squared distance from a bounded point to a bounded region fits an
/// `i64` with a wide margin.
pub proof fn lemma_distance_fits(r: BlockRegion, p: BlockPos)
    requires
        r.in_bounds(),
        pos_in_bounds(p),
    ensures
        0 <= r.spec_distance_sq_to_point(p) < i64::MAX,
{
    let m = 2 * MAX_COORD as int;
    let gx = crate::region::gap_to_interval(r.min.x as int, r.max.x as int, p.x as int);
    let gy = crate::region::gap_to_interval(r.min.y as int, r.max.y as int, p.y as int);
    let gz = crate::region::gap_to_interval(r.min.z as int, r.max.z as int, p.z as int);
    lemma_square_bound(gx, m);
    lemma_square_bound(gy, m);
    lemma_square_bound(gz, m);
    assert(m * m == 18014398509481984) by (nonlinear_arith)
        requires
            m == 134217728,
    ;
    assert(r.spec_distance_sq_to_point(p) == gx * gx + gy * gy + gz * gz);
    assert(gx * gx + gy * gy + gz * gz <= 3 * 18014398509481984);
}

/// The key of one candidate at one point: its squared distance when it
/// is in search range, absent otherwise.
pub open spec fn spec_candidate_key(
    cands: Seq<Portal>,
    dim: Dimension,
    p: BlockPos,
    i: int,
) -> Option<i64> {
    if cands[i].spec_in_range_of_point(p, dim) {
        Some(cands[i].region.spec_distance_sq_to_point(p) as i64)
    } else {
        None
    }
}

/// Computes the key of each working-set candidate at the point `p`.
fn candidate_keys(
    candidates: &Vec<Portal>,
    might: &Vec<usize>,
    p: BlockPos,
    dim: Dimension,
) -> (keys: Vec<Option<i64>>)
    requires
        candidates_ok(candidates@),
        pos_in_bounds(p),
        forall|k: int| 0 <= k < might@.len() ==> (#[trigger] might@[k]) < candidates@.len(),
    ensures
        keys@.len() == might@.len(),
        forall|k: int|
            0 <= k < might@.len() ==> (#[trigger] keys@[k]) == spec_candidate_key(
                candidates@,
                dim,
                p,
                might@[k] as int,
            ),
{
    let mut keys: Vec<Option<i64>> = Vec::new();
    let mut k: usize = 0;
    while k < might.len()
        invariant
            candidates_ok(candidates@),
            pos_in_bounds(p),
            forall|t: int| 0 <= t < might@.len() ==> (#[trigger] might@[t]) < candidates@.len(),
            0 <= k <= might@.len(),
            keys@.len() == k,
            forall|t: int|
                0 <= t < k ==> (#[trigger] keys@[t]) == spec_candidate_key(
                    candidates@,
                    dim,
                    p,
                    might@[t] as int,
                ),
        decreases might@.len() - k,
    {
        let c = might[k];
        let key = if candidates[c].is_in_range_of_point(p, dim) {
            Some(candidates[c].region.min_euclidean_distance_sq_to_point(p))
        } else {
            None
        };
        keys.push(key);
        k += 1;
    }
    keys
}

/// Connects the minima selection at one point with the per-point
/// semantics: as long as the working set still holds every winner at
/// `p`, the selected indices are exactly the winners at `p`, and the
/// selection is empty exactly when no candidate at all is in range of
/// `p`.
pub proof fn lemma_winners_characterization(
    cands: Seq<Portal>,
    dim: Dimension,
    p: BlockPos,
    might: Seq<usize>,
    keys: Seq<Option<i64>>,
    ws: Seq<usize>,
)
    requires
        candidates_ok(cands),
        pos_in_bounds(p),
        keys.len() == might.len(),
        forall|k: int|
            0 <= k < might.len() ==> (#[trigger] keys[k]) == spec_candidate_key(
                cands,
                dim,
                p,
                might[k] as int,
            ),
        forall|k: int| 0 <= k < might.len() ==> (#[trigger] might[k]) < cands.len(),
        forall|i: int| #[trigger] wins_at(cands, dim, p, i) ==> contains_idx(might, i),
        forall|x: usize|
            #[trigger] ws.contains(x) <==> exists|pos: int|
                0 <= pos < might.len() && might[pos] == x && (#[trigger] keys[pos]) is Some
                    && opt_key_min_holds(keys, keys[pos]->0),
        (ws.len() == 0) <==> (forall|pos: int|
            0 <= pos < keys.len() ==> !((#[trigger] keys[pos]) is Some)),
    ensures
        forall|i: int| #[trigger] contains_idx(ws, i) <==> wins_at(cands, dim, p, i),
        (ws.len() == 0) <==> (forall|j: int|
            0 <= j < cands.len() ==> !(#[trigger] cands[j]).spec_in_range_of_point(p, dim)),
        forall|k: int| 0 <= k < ws.len() ==> (#[trigger] ws[k]) < cands.len(),
{
    assert forall|i: int| #[trigger] contains_idx(ws, i) implies wins_at(cands, dim, p, i) by {
        let k = choose|k: int| 0 <= k < ws.len() && (#[trigger] ws[k]) as int == i;
        let x = ws[k];
        assert(ws.contains(x));
        let pos = choose|pos: int|
            0 <= pos < might.len() && might[pos] == x && (#[trigger] keys[pos]) is Some
                && opt_key_min_holds(keys, keys[pos]->0);
        assert(cands[i].spec_in_range_of_point(p, dim));
        lemma_distance_fits(cands[i].region, p);
        assert forall|j: int|
            0 <= j < cands.len() && (#[trigger] cands[j]).spec_in_range_of_point(p, dim) implies cands[
            i
        ].region.spec_distance_sq_to_point(p) <= cands[j].region.spec_distance_sq_to_point(p) by {
            lemma_winner_exists(cands, dim, p, j);
            let w = choose|w: int| #[trigger] wins_at(cands, dim, p, w);
            assert(contains_idx(might, w));
            let kw = choose|kw: int| 0 <= kw < might.len() && (#[trigger] might[kw]) as int == w;
            lemma_distance_fits(cands[w].region, p);
            assert(keys[kw] is Some);
            assert(keys[pos]->0 <= keys[kw]->0);
            assert(cands[i].region.spec_distance_sq_to_point(p)
                <= cands[w].region.spec_distance_sq_to_point(p));
            assert(cands[w].region.spec_distance_sq_to_point(p)
                <= cands[j].region.spec_distance_sq_to_point(p));
        }
    }
    assert forall|i: int| #[trigger] wins_at(cands, dim, p, i) implies contains_idx(ws, i) by {
        assert(contains_idx(might, i));
        let k = choose|k: int| 0 <= k < might.len() && (#[trigger] might[k]) as int == i;
        lemma_distance_fits(cands[i].region, p);
        assert(keys[k] is Some);
        assert(opt_key_min_holds(keys, keys[k]->0)) by {
            assert forall|q: int|
                0 <= q < keys.len() && (#[trigger] keys[q]) is Some implies keys[k]->0
                <= keys[q]->0 by {
                let jq = might[q] as int;
                assert(cands[jq].spec_in_range_of_point(p, dim));
                lemma_distance_fits(cands[jq].region, p);
                assert(cands[i].region.spec_distance_sq_to_point(p)
                    <= cands[jq].region.spec_distance_sq_to_point(p));
            }
        }
        assert(ws.contains(might[k]));
        let t = choose|t: int| 0 <= t < ws.len() && ws[t] == might[k];
        assert((ws[t]) as int == i);
    }
    if ws.len() == 0 {
        assert forall|j: int| 0 <= j < cands.len() implies !(#[trigger] cands[j]).spec_in_range_of_point(
            p,
            dim,
        ) by {
            if cands[j].spec_in_range_of_point(p, dim) {
                lemma_winner_exists(cands, dim, p, j);
                let w = choose|w: int| #[trigger] wins_at(cands, dim, p, w);
                assert(contains_idx(might, w));
                let kw = choose|kw: int| 0 <= kw < might.len() && (#[trigger] might[kw]) as int == w;
                assert(keys[kw] is Some);
            }
        }
    } else {
        let x0 = ws[0];
        assert(ws.contains(x0));
        let pos = choose|pos: int|
            0 <= pos < might.len() && might[pos] == x0 && (#[trigger] keys[pos]) is Some
                && opt_key_min_holds(keys, keys[pos]->0);
        assert(cands[might[pos] as int].spec_in_range_of_point(p, dim));
    }
    assert forall|k: int| 0 <= k < ws.len() implies (#[trigger] ws[k]) < cands.len() by {
        let x = ws[k];
        assert(ws.contains(x));
        let pos = choose|pos: int|
            0 <= pos < might.len() && might[pos] == x && (#[trigger] keys[pos]) is Some
                && opt_key_min_holds(keys, keys[pos]->0);
    }
}

/// What one resolver step accumulates over one region: the confirmed
/// set only grows, every new mark is a genuine winner somewhere in the
/// region, and the new-portal flag is only raised when some point of the
/// region has no candidate in range.
pub open spec fn mark_inv(
    cands: Seq<Portal>,
    dim: Dimension,
    region: BlockRegion,
    confirmed0: Seq<bool>,
    confirmed: Seq<bool>,
    np0: bool,
    np: bool,
) -> bool {
    &&& confirmed.len() == confirmed0.len()
    &&& forall|i: int| 0 <= i < confirmed.len() && confirmed0[i] ==> #[trigger] confirmed[i]
    &&& forall|i: int|
        0 <= i < confirmed.len() && #[trigger] confirmed[i] && !confirmed0[i] ==> reachable_from(
            cands,
            dim,
            region,
            i,
        )
    &&& np0 ==> np
    &&& np ==> np0 || new_portal_possible(cands, dim, region)
}

/// What one corner's winner list states: its members are exactly the
/// winners at that corner point, it is empty exactly when nothing at all
/// is in range there, and its members index the candidate list.
pub open spec fn winners_ok(ws: Seq<usize>, cands: Seq<Portal>, dim: Dimension, p: BlockPos) -> bool {
    &&& forall|i: int| #[trigger] contains_idx(ws, i) <==> wins_at(cands, dim, p, i)
    &&& (ws.len() == 0) <==> (forall|j: int|
        0 <= j < cands.len() ==> !(#[trigger] cands[j]).spec_in_range_of_point(p, dim))
    &&& forall|k: int| 0 <= k < ws.len() ==> (#[trigger] ws[k]) < cands.len()
}

/// Whether every winner at a corner point of the region is confirmed.
pub open spec fn corner_winners_confirmed(
    cands: Seq<Portal>,
    dim: Dimension,
    region: BlockRegion,
    confirmed: Seq<bool>,
) -> bool {
    forall|p: BlockPos, i: int|
        region.is_corner(p) && region.contains_point(p) && #[trigger] wins_at(cands, dim, p, i)
            ==> 0 <= i < confirmed.len() && confirmed[i]
}

/// One step of the subdivision resolver: prunes the working set,
/// decides the eight corners of the region exactly, and cuts the region
/// in two and recurses wherever the corners alone do not settle it. The
/// result is exact: on return the marks hold precisely the winners of
/// the region, and the flag tells precisely whether some point of the
/// region is uncovered.
#[verifier::rlimit(80)]
fn mark_reachable_portals(
    dim: Dimension,
    region: BlockRegion,
    candidates: &Vec<Portal>,
    might: Vec<usize>,
    confirmed: &mut Vec<bool>,
    new_portal: &mut bool,
)
    requires
        region.valid(),
        region.in_bounds(),
        candidates_ok(candidates@),
        old(confirmed)@.len() == candidates@.len(),
        forall|k: int| 0 <= k < might@.len() ==> (#[trigger] might@[k]) < candidates@.len(),
        covers_winners(candidates@, dim, region, might@),
    ensures
        final(confirmed)@.len() == old(confirmed)@.len(),
        forall|i: int|
            0 <= i < final(confirmed)@.len() ==> final(confirmed)@[i] == (old(confirmed)@[i]
                || reachable_from(candidates@, dim, region, i)),
        *final(new_portal) == (*old(new_portal) || new_portal_possible(candidates@, dim, region)),
    decreases region.extent_sum(),
{
    // Keep only candidates within the search range of some point of the
    // region.
    let mut kept: Vec<usize> = Vec::new();
    let mut ki: usize = 0;
    while ki < might.len()
        invariant
            candidates_ok(candidates@),
            region.valid(),
            region.in_bounds(),
            forall|k: int| 0 <= k < might@.len() ==> (#[trigger] might@[k]) < candidates@.len(),
            0 <= ki <= might@.len(),
            kept@.len() <= ki,
            forall|t: int| 0 <= t < kept@.len() ==> (#[trigger] kept@[t]) < candidates@.len(),
            forall|k: int|
                0 <= k < ki && candidates@[might@[k] as int].spec_in_range_of_region(region, dim)
                    ==> kept@.contains(#[trigger] might@[k]),
        decreases might@.len() - ki,
    {
        let c = might[ki];
        if candidates[c].is_in_range_of_region(region, dim) {
            let ghost old_kept = kept@;
            kept.push(c);
            proof {
                assert(kept@[kept@.len() - 1] == c);
                assert(forall|x: usize| old_kept.contains(x) ==> #[trigger] kept@.contains(x)) by {
                    assert(forall|t: int| 0 <= t < old_kept.len() ==> kept@[t] == old_kept[t]);
                }
                assert(kept@.contains(c));
            }
        }
        ki += 1;
    }
    proof {
        assert forall|p: BlockPos, i: int|
            region.contains_point(p) && #[trigger] wins_at(candidates@, dim, p, i) implies contains_idx(
            kept@,
            i,
        ) by {
            assert(contains_idx(might@, i));
            let k = choose|k: int| 0 <= k < might@.len() && (#[trigger] might@[k]) as int == i;
            assert(candidates@[i].spec_in_range_of_point(p, dim));
            assert(candidates@[i].spec_in_range_of_region(region, dim));
            assert(kept@.contains(might@[k]));
            let t = choose|t: int| 0 <= t < kept@.len() && kept@[t] == might@[k];
            assert((kept@[t]) as int == i);
        }
    }

    // Keep only candidates that are not strictly farther from every
    // point of the region than some always-in-range competitor.
    let mut smallest_max: Option<i64> = None;
    let mut si: usize = 0;
    while si < kept.len()
        invariant
            candidates_ok(candidates@),
            region.valid(),
            region.in_bounds(),
            forall|t: int| 0 <= t < kept@.len() ==> (#[trigger] kept@[t]) < candidates@.len(),
            0 <= si <= kept@.len(),
            smallest_max is Some ==> exists|w: int|
                0 <= w < candidates@.len() && (#[trigger] candidates@[w]).spec_always_in_range_of_region(
                    region,
                    dim,
                ) && region.spec_max_distance_sq_to(candidates@[w].region) == smallest_max->0,
        decreases kept@.len() - si,
    {
        let c = kept[si];
        if candidates[c].is_always_in_range_of_region(region, dim) {
            let d = region.max_euclidean_distance_sq_to(candidates[c].region);
            let take = match smallest_max {
                None => true,
                Some(m) => d < m,
            };
            if take {
                smallest_max = Some(d);
                proof {
                    assert(candidates@[c as int].spec_always_in_range_of_region(region, dim)
                        && region.spec_max_distance_sq_to(candidates@[c as int].region) == d);
                }
            }
        }
        si += 1;
    }
    let mut kept2: Vec<usize> = Vec::new();
    match smallest_max {
        None => {
            kept2 = kept;
        },
        Some(m) => {
            let mut ri: usize = 0;
            while ri < kept.len()
                invariant
                    candidates_ok(candidates@),
                    region.valid(),
                    region.in_bounds(),
                    forall|t: int| 0 <= t < kept@.len() ==> (#[trigger] kept@[t]) < candidates@.len(),
                    0 <= ri <= kept@.len(),
                    kept2@.len() <= ri,
                    forall|t: int| 0 <= t < kept2@.len() ==> (#[trigger] kept2@[t]) < candidates@.len(),
                    forall|k: int|
                        0 <= k < ri && region.spec_min_distance_sq_to(
                            candidates@[kept@[k] as int].region,
                        ) <= m ==> kept2@.contains(#[trigger] kept@[k]),
                decreases kept@.len() - ri,
            {
                let c = kept[ri];
                if region.min_euclidean_distance_sq_to(candidates[c].region) <= m {
                    let ghost old_kept2 = kept2@;
                    kept2.push(c);
                    proof {
                        assert(kept2@[kept2@.len() - 1] == c);
                        assert(forall|x: usize|
                            old_kept2.contains(x) ==> #[trigger] kept2@.contains(x)) by {
                            assert(forall|t: int|
                                0 <= t < old_kept2.len() ==> kept2@[t] == old_kept2[t]);
                        }
                        assert(kept2@.contains(c));
                    }
                }
                ri += 1;
            }
            proof {
                let w = choose|w: int|
                    0 <= w < candidates@.len() && (#[trigger] candidates@[w]).spec_always_in_range_of_region(
                        region,
                        dim,
                    ) && region.spec_max_distance_sq_to(candidates@[w].region) == m;
                assert forall|p: BlockPos, i: int|
                    region.contains_point(p) && #[trigger] wins_at(candidates@, dim, p, i) implies contains_idx(
                    kept2@,
                    i,
                ) by {
                    assert(contains_idx(kept@, i));
                    let k = choose|k: int| 0 <= k < kept@.len() && (#[trigger] kept@[k]) as int == i;
                    if region.spec_min_distance_sq_to(candidates@[i].region) <= m {
                        assert(kept2@.contains(kept@[k]));
                        let t = choose|t: int| 0 <= t < kept2@.len() && kept2@[t] == kept@[k];
                        assert((kept2@[t]) as int == i);
                    } else {
                        lemma_dominated_never_wins(candidates@, dim, region, w, i);
                        assert(false);
                    }
                }
            }
        },
    }
    proof {
        assert(covers_winners(candidates@, dim, region, kept2@));
        if might@.len() == 0 {
            assert(kept2@.len() == 0);
        }
    }

    // Decide each of the eight corners exactly.
    let corner_arr = region.corners();
    let mut winner_lists: Vec<Vec<usize>> = Vec::new();
    let mut ci: usize = 0;
    while ci < 8
        invariant
            candidates_ok(candidates@),
            region.valid(),
            region.in_bounds(),
            forall|t: int| 0 <= t < kept2@.len() ==> (#[trigger] kept2@[t]) < candidates@.len(),
            covers_winners(candidates@, dim, region, kept2@),
            forall|k: int| 0 <= k < 8 ==> corner_arr[k] == region.spec_corner(k),
            0 <= ci <= 8,
            winner_lists@.len() == ci,
            forall|c: int|
                0 <= c < ci ==> winners_ok(
                    (#[trigger] winner_lists@[c])@,
                    candidates@,
                    dim,
                    region.spec_corner(c),
                ),
            kept2@.len() == 0 ==> forall|c: int| 0 <= c < ci ==> (#[trigger] winner_lists@[c])@.len() == 0,
        decreases 8 - ci,
    {
        let corner = corner_arr[ci];
        proof {
            assert(corner == region.spec_corner(ci as int));
            assert(pos_in_bounds(corner));
            assert(region.contains_point(corner));
        }
        let keys = candidate_keys(candidates, &kept2, corner, dim);
        let ws = minima_by_opt_key(&kept2, &keys);
        proof {
            assert forall|i: int| #[trigger] wins_at(candidates@, dim, corner, i) implies contains_idx(
                kept2@,
                i,
            ) by {
                assert(region.contains_point(corner));
            }
            lemma_winners_characterization(candidates@, dim, corner, kept2@, keys@, ws@);
        }
        winner_lists.push(ws);
        ci += 1;
    }

    // Raise the new-portal flag if some corner has no candidate in range
    // at all, and confirm every corner winner.
    let mut fi: usize = 0;
    let mut any_empty = false;
    while fi < 8
        invariant
            winner_lists@.len() == 8,
            0 <= fi <= 8,
            forall|c: int|
                0 <= c < 8 ==> winners_ok(
                    (#[trigger] winner_lists@[c])@,
                    candidates@,
                    dim,
                    region.spec_corner(c),
                ),
            any_empty ==> exists|c: int| 0 <= c < 8 && (#[trigger] winner_lists@[c])@.len() == 0,
            !any_empty ==> forall|c: int| 0 <= c < fi ==> (#[trigger] winner_lists@[c])@.len() != 0,
        decreases 8 - fi,
    {
        if winner_lists[fi].len() == 0 {
            any_empty = true;
        }
        fi += 1;
    }
    if any_empty {
        proof {
            let c = choose|c: int| 0 <= c < 8 && (#[trigger] winner_lists@[c])@.len() == 0;
            let p = region.spec_corner(c);
            assert(region.contains_point(p));
            assert(new_portal_possible(candidates@, dim, region));
        }
        *new_portal = true;
    }
    proof {
        if kept2@.len() == 0 {
            assert(winner_lists@[0]@.len() == 0);
        }
    }

    let mut mi: usize = 0;
    while mi < 8
        invariant
            candidates_ok(candidates@),
            region.valid(),
            region.in_bounds(),
            winner_lists@.len() == 8,
            confirmed@.len() == candidates@.len(),
            0 <= mi <= 8,
            forall|c: int|
                0 <= c < 8 ==> winners_ok(
                    (#[trigger] winner_lists@[c])@,
                    candidates@,
                    dim,
                    region.spec_corner(c),
                ),
            mark_inv(
                candidates@,
                dim,
                region,
                old(confirmed)@,
                confirmed@,
                *old(new_portal),
                *new_portal,
            ),
            forall|c: int, i: int|
                0 <= c < mi && #[trigger] contains_idx(winner_lists@[c]@, i) ==> 0 <= i
                    < confirmed@.len() && confirmed@[i],
        decreases 8 - mi,
    {
        let ws = &winner_lists[mi];
        let mut wi: usize = 0;
        while wi < ws.len()
            invariant
                candidates_ok(candidates@),
                region.valid(),
                region.in_bounds(),
                winner_lists@.len() == 8,
                confirmed@.len() == candidates@.len(),
                0 <= mi < 8,
                0 <= wi <= ws@.len(),
                ws == winner_lists@[mi as int],
                forall|c: int|
                    0 <= c < 8 ==> winners_ok(
                        (#[trigger] winner_lists@[c])@,
                        candidates@,
                        dim,
                        region.spec_corner(c),
                    ),
                mark_inv(
                    candidates@,
                    dim,
                    region,
                    old(confirmed)@,
                    confirmed@,
                    *old(new_portal),
                    *new_portal,
                ),
                forall|c: int, i: int|
                    0 <= c < mi && #[trigger] contains_idx(winner_lists@[c]@, i) ==> 0 <= i
                        < confirmed@.len() && confirmed@[i],
                forall|t: int| 0 <= t < wi ==> confirmed@[(#[trigger] ws@[t]) as int],
            decreases ws@.len() - wi,
        {
            let x = ws[wi];
            proof {
                assert(contains_idx(ws@, x as int)) by {
                    assert((ws@[wi as int]) as int == x as int);
                }
                assert(wins_at(candidates@, dim, region.spec_corner(mi as int), x as int));
                assert(region.contains_point(region.spec_corner(mi as int)));
                assert(reachable_from(candidates@, dim, region, x as int));
            }
            let ghost old_c = confirmed@;
            confirmed.set(x, true);
            proof {
                assert(confirmed@ == old_c.update(x as int, true));
            }
            wi += 1;
        }
        proof {
            assert forall|i: int| contains_idx((winner_lists@[mi as int])@, i) implies 0 <= i
                < confirmed@.len() && confirmed@[i] by {
                let t = choose|t: int| 0 <= t < ws@.len() && (#[trigger] ws@[t]) as int == i;
                assert(confirmed@[(ws@[t]) as int]);
            }
        }
        mi += 1;
    }
    proof {
        assert forall|p: BlockPos, i: int|
            region.is_corner(p) && region.contains_point(p) && #[trigger] wins_at(
                candidates@,
                dim,
                p,
                i,
            ) implies 0 <= i < confirmed@.len() && confirmed@[i] by {
            let b0: int = if p.x == region.min.x { 0 } else { 1 };
            let b1: int = if p.y == region.min.y { 0 } else { 1 };
            let b2: int = if p.z == region.min.z { 0 } else { 1 };
            let k = b0 + 2 * b1 + 4 * b2;
            assert(0 <= k < 8);
            assert(region.spec_corner(k) == p);
            assert(winners_ok((winner_lists@[k])@, candidates@, dim, p));
            assert(contains_idx((winner_lists@[k])@, i));
        }
        assert(corner_winners_confirmed(candidates@, dim, region, confirmed@));
        if exists|p: BlockPos|
            region.is_corner(p) && #[trigger] region.contains_point(p) && point_has_no_candidate(
                candidates@,
                dim,
                p,
            ) {
            let p = choose|p: BlockPos|
                region.is_corner(p) && #[trigger] region.contains_point(p)
                    && point_has_no_candidate(candidates@, dim, p);
            let b0: int = if p.x == region.min.x { 0 } else { 1 };
            let b1: int = if p.y == region.min.y { 0 } else { 1 };
            let b2: int = if p.z == region.min.z { 0 } else { 1 };
            let k = b0 + 2 * b1 + 4 * b2;
            assert(0 <= k < 8);
            assert(region.spec_corner(k) == p);
            assert(winners_ok((winner_lists@[k])@, candidates@, dim, p));
            assert((winner_lists@[k])@.len() == 0);
            assert(any_empty);
            assert(*new_portal);
        }
    }

    // The region is settled when every surviving candidate is confirmed
    // and the new-portal truth is decided: an empty working set leaves
    // every point uncovered, an always-in-range survivor leaves none
    // uncovered, and an already-raised flag needs no further evidence.
    let mut all_confirmed = true;
    let mut ei: usize = 0;
    while ei < kept2.len()
        invariant
            confirmed@.len() == candidates@.len(),
            forall|t: int| 0 <= t < kept2@.len() ==> (#[trigger] kept2@[t]) < candidates@.len(),
            0 <= ei <= kept2@.len(),
            all_confirmed ==> forall|t: int|
                0 <= t < ei ==> confirmed@[(#[trigger] kept2@[t]) as int],
        decreases kept2@.len() - ei,
    {
        if !confirmed[kept2[ei]] {
            all_confirmed = false;
        }
        ei += 1;
    }
    let mut always_witness = false;
    let mut aw: usize = 0;
    while aw < kept2.len()
        invariant
            candidates_ok(candidates@),
            region.valid(),
            region.in_bounds(),
            forall|t: int| 0 <= t < kept2@.len() ==> (#[trigger] kept2@[t]) < candidates@.len(),
            0 <= aw <= kept2@.len(),
            always_witness ==> exists|w: int|
                0 <= w < candidates@.len() && (#[trigger] candidates@[w]).spec_always_in_range_of_region(
                    region,
                    dim,
                ),
        decreases kept2@.len() - aw,
    {
        if candidates[kept2[aw]].is_always_in_range_of_region(region, dim) {
            always_witness = true;
        }
        aw += 1;
    }

    let single_point = region.min.x == region.max.x && region.min.y == region.max.y && region.min.z
        == region.max.z;
    if single_point {
        proof {
            assert forall|i: int| 0 <= i < confirmed@.len() implies confirmed@[i] == (old(
                confirmed,
            )@[i] || reachable_from(candidates@, dim, region, i)) by {
                if reachable_from(candidates@, dim, region, i) {
                    let p = choose|p: BlockPos|
                        #[trigger] region.contains_point(p) && wins_at(candidates@, dim, p, i);
                    assert(p == region.min);
                    assert(region.is_corner(p));
                }
            }
            if new_portal_possible(candidates@, dim, region) {
                let p = choose|p: BlockPos|
                    #[trigger] region.contains_point(p) && forall|j: int|
                        0 <= j < candidates@.len() ==> !(#[trigger] candidates@[j]).spec_in_range_of_point(
                            p,
                            dim,
                        );
                assert(p == region.min);
                assert(region.is_corner(p) && point_has_no_candidate(candidates@, dim, p));
                assert(*new_portal);
            }
            assert(*new_portal == (*old(new_portal) || new_portal_possible(
                candidates@,
                dim,
                region,
            )));
        }
        return ;
    }
    if all_confirmed && (kept2.len() == 0 || always_witness || *new_portal) {
        proof {
            assert forall|i: int| 0 <= i < confirmed@.len() implies confirmed@[i] == (old(
                confirmed,
            )@[i] || reachable_from(candidates@, dim, region, i)) by {
                if reachable_from(candidates@, dim, region, i) {
                    assert(contains_idx(kept2@, i));
                    let t = choose|t: int|
                        0 <= t < kept2@.len() && (#[trigger] kept2@[t]) as int == i;
                    assert(confirmed@[(kept2@[t]) as int]);
                }
            }
            if kept2@.len() == 0 {
                assert forall|j: int|
                    0 <= j < candidates@.len() implies !(#[trigger] candidates@[j]).spec_in_range_of_point(
                    region.min,
                    dim,
                ) by {
                    if candidates@[j].spec_in_range_of_point(region.min, dim) {
                        lemma_winner_exists(candidates@, dim, region.min, j);
                        let w = choose|w: int| #[trigger] wins_at(candidates@, dim, region.min, w);
                        assert(region.contains_point(region.min));
                        assert(contains_idx(kept2@, w));
                        assert(false);
                    }
                }
                assert(region.contains_point(region.min));
                assert(new_portal_possible(candidates@, dim, region));
                assert(region.is_corner(region.min) && point_has_no_candidate(
                    candidates@,
                    dim,
                    region.min,
                ));
                assert(*new_portal);
            } else if *new_portal {
            } else {
                let w = choose|w: int|
                    0 <= w < candidates@.len() && (#[trigger] candidates@[w]).spec_always_in_range_of_region(
                        region,
                        dim,
                    );
                if new_portal_possible(candidates@, dim, region) {
                    let p = choose|p: BlockPos|
                        #[trigger] region.contains_point(p) && forall|j: int|
                            0 <= j < candidates@.len() ==> !(#[trigger] candidates@[j]).spec_in_range_of_point(
                                p,
                                dim,
                            );
                    assert(candidates@[w].spec_in_range_of_point(p, dim));
                    assert(false);
                }
            }
            assert(*new_portal == (*old(new_portal) || new_portal_possible(
                candidates@,
                dim,
                region,
            )));
        }
        return ;
    }

    // Subdivide: cut the region in half at the midpoint of an axis,
    // preferring one along which the corners disagree, and resolve both
    // halves. The cut partitions the region, so no point escapes.
    let ext_x = region.max.x - region.min.x;
    let ext_y = region.max.y - region.min.y;
    let ext_z = region.max.z - region.min.z;
    let disagree_x = !eq_indices(&winner_lists[0], &winner_lists[1]) || !eq_indices(
        &winner_lists[2],
        &winner_lists[3],
    ) || !eq_indices(&winner_lists[4], &winner_lists[5]) || !eq_indices(
        &winner_lists[6],
        &winner_lists[7],
    );
    let disagree_y = !eq_indices(&winner_lists[0], &winner_lists[2]) || !eq_indices(
        &winner_lists[1],
        &winner_lists[3],
    ) || !eq_indices(&winner_lists[4], &winner_lists[6]) || !eq_indices(
        &winner_lists[5],
        &winner_lists[7],
    );
    let disagree_z = !eq_indices(&winner_lists[0], &winner_lists[4]) || !eq_indices(
        &winner_lists[1],
        &winner_lists[5],
    ) || !eq_indices(&winner_lists[2], &winner_lists[6]) || !eq_indices(
        &winner_lists[3],
        &winner_lists[7],
    );
    let axis = if disagree_x && ext_x >= 1 {
        Axis::X
    } else if disagree_y && ext_y >= 1 {
        Axis::Y
    } else if disagree_z && ext_z >= 1 {
        Axis::Z
    } else if ext_x >= ext_y && ext_x >= ext_z {
        Axis::X
    } else if ext_y >= ext_z {
        Axis::Y
    } else {
        Axis::Z
    };
    proof {
        assert(axis_coord(region.max, axis) - axis_coord(region.min, axis) >= 1);
    }
    let ext_axis = region.max.on_axis(axis) - region.min.on_axis(axis);
    let mid = region.min.on_axis(axis) + (((ext_axis as u64) / 2) as i64);
    let halves = region.split_at(axis, mid);
    let h0 = halves[0];
    let h1 = halves[1];
    match (h0, h1) {
        (Some(lo), Some(hi)) => {
            proof {
                assert forall|p: BlockPos| #[trigger] region.contains_point(p) <==> (
                lo.contains_point(p) || hi.contains_point(p)) by {}
                assert forall|p: BlockPos, i: int|
                    lo.contains_point(p) && #[trigger] wins_at(candidates@, dim, p, i) implies contains_idx(
                    kept2@,
                    i,
                ) by {
                    assert(region.contains_point(p));
                }
                assert forall|p: BlockPos, i: int|
                    hi.contains_point(p) && #[trigger] wins_at(candidates@, dim, p, i) implies contains_idx(
                    kept2@,
                    i,
                ) by {
                    assert(region.contains_point(p));
                }
            }
            let might_lo = copy_indices(&kept2);
            let ghost c1 = confirmed@;
            let ghost np1 = *new_portal;
            mark_reachable_portals(dim, lo, candidates, might_lo, confirmed, new_portal);
            let might_hi = copy_indices(&kept2);
            let ghost c2 = confirmed@;
            let ghost np2 = *new_portal;
            mark_reachable_portals(dim, hi, candidates, might_hi, confirmed, new_portal);
            proof {
                assert forall|i: int| 0 <= i < confirmed@.len() implies confirmed@[i] == (old(
                    confirmed,
                )@[i] || reachable_from(candidates@, dim, region, i)) by {
                    if confirmed@[i] {
                        if c2[i] {
                            if !c1[i] {
                                assert(reachable_from(candidates@, dim, lo, i));
                                let p = choose|p: BlockPos|
                                    #[trigger] lo.contains_point(p) && wins_at(
                                        candidates@,
                                        dim,
                                        p,
                                        i,
                                    );
                                assert(region.contains_point(p));
                            }
                        } else {
                            assert(reachable_from(candidates@, dim, hi, i));
                            let p = choose|p: BlockPos|
                                #[trigger] hi.contains_point(p) && wins_at(candidates@, dim, p, i);
                            assert(region.contains_point(p));
                        }
                    } else {
                        if reachable_from(candidates@, dim, region, i) {
                            let p = choose|p: BlockPos|
                                #[trigger] region.contains_point(p) && wins_at(
                                    candidates@,
                                    dim,
                                    p,
                                    i,
                                );
                            if lo.contains_point(p) {
                                assert(reachable_from(candidates@, dim, lo, i));
                                assert(c2[i]);
                            } else {
                                assert(hi.contains_point(p));
                                assert(reachable_from(candidates@, dim, hi, i));
                                assert(confirmed@[i]);
                            }
                            assert(false);
                        }
                    }
                }
                if *new_portal {
                    if np2 {
                        if !np1 {
                            assert(new_portal_possible(candidates@, dim, lo));
                            let p = choose|p: BlockPos|
                                #[trigger] lo.contains_point(p) && forall|j: int|
                                    0 <= j < candidates@.len() ==> !(#[trigger] candidates@[j]).spec_in_range_of_point(
                                        p,
                                        dim,
                                    );
                            assert(region.contains_point(p));
                            assert(new_portal_possible(candidates@, dim, region));
                        }
                    } else {
                        assert(new_portal_possible(candidates@, dim, hi));
                        let p = choose|p: BlockPos|
                            #[trigger] hi.contains_point(p) && forall|j: int|
                                0 <= j < candidates@.len() ==> !(#[trigger] candidates@[j]).spec_in_range_of_point(
                                    p,
                                    dim,
                                );
                        assert(region.contains_point(p));
                        assert(new_portal_possible(candidates@, dim, region));
                    }
                } else {
                    if new_portal_possible(candidates@, dim, region) {
                        let p = choose|p: BlockPos|
                            #[trigger] region.contains_point(p) && forall|j: int|
                                0 <= j < candidates@.len() ==> !(#[trigger] candidates@[j]).spec_in_range_of_point(
                                    p,
                                    dim,
                                );
                        if lo.contains_point(p) {
                            assert(new_portal_possible(candidates@, dim, lo));
                            assert(np2);
                        } else {
                            assert(hi.contains_point(p));
                            assert(new_portal_possible(candidates@, dim, hi));
                            assert(*new_portal);
                        }
                        assert(false);
                    }
                }
                assert(*new_portal == (*old(new_portal) || new_portal_possible(
                    candidates@,
                    dim,
                    region,
                )));
            }
        },
        _ => {
            proof {
                assert(false);
            }
        },
    }
}

/// Collects the indices of the set entries of `marked`, in strictly
/// increasing order.
fn collect_marked(marked: &Vec<bool>) -> (r: Vec<usize>)
    ensures
        forall|i: int|
            #[trigger] contains_idx(r@, i) <==> (0 <= i < marked@.len() && marked@[i]),
        forall|a: int, b: int| 0 <= a < b < r@.len() ==> r@[a] < r@[b],
        forall|k: int| 0 <= k < r@.len() ==> (#[trigger] r@[k]) < marked@.len(),
{
    let mut r: Vec<usize> = Vec::new();
    let mut i: usize = 0;
    while i < marked.len()
        invariant
            0 <= i <= marked@.len(),
            forall|j: int| #[trigger] contains_idx(r@, j) <==> (0 <= j < i && marked@[j]),
            forall|a: int, b: int| 0 <= a < b < r@.len() ==> r@[a] < r@[b],
            forall|k: int| 0 <= k < r@.len() ==> (#[trigger] r@[k]) < i,
        decreases marked@.len() - i,
    {
        if marked[i] {
            let ghost old_r = r@;
            r.push(i);
            proof {
                assert(r@[r@.len() - 1] == i);
                assert(forall|t: int| 0 <= t < old_r.len() ==> r@[t] == old_r[t]);
                assert forall|j: int| #[trigger] contains_idx(r@, j) implies (0 <= j < i + 1
                    && marked@[j]) by {
                    let k = choose|k: int| 0 <= k < r@.len() && (#[trigger] r@[k]) as int == j;
                    if k < old_r.len() {
                        assert(contains_idx(old_r, j));
                    }
                }
                assert forall|j: int| 0 <= j < i + 1 && marked@[j] implies #[trigger] contains_idx(
                    r@,
                    j,
                ) by {
                    if j < i {
                        assert(contains_idx(old_r, j));
                        let k = choose|k: int| 0 <= k < old_r.len() && (#[trigger] old_r[k]) as int == j;
                        assert((r@[k]) as int == j);
                    } else {
                        assert((r@[r@.len() - 1]) as int == j);
                    }
                }
            }
        } else {
            proof {
                assert forall|j: int| #[trigger] contains_idx(r@, j) implies (0 <= j < i + 1
                    && marked@[j]) by {}
                assert forall|j: int| 0 <= j < i + 1 && marked@[j] implies #[trigger] contains_idx(
                    r@,
                    j,
                ) by {
                    assert(j != i);
                }
            }
        }
        i += 1;
    }
    r
}

impl WorldPortals {
    /// Returns which portals of the destination dimension are reachable
    /// teleport targets for the destination region, and whether some
    /// point of the region would generate a brand-new portal.
    ///
    /// The answer is exact: the returned indices are precisely the
    /// candidates that the game's per-point portal search would pick
    /// for some point of the region, and the flag is raised precisely
    /// when some point of the region has no candidate in range — the
    /// same contract the per-point reference resolver carries, reached
    /// without scanning every block.
    pub fn portal_destinations(
        &self,
        destination_dimension: Dimension,
        destination_region: BlockRegion,
    ) -> (r: PortalDestinations)
        requires
            destination_region.valid(),
            destination_region.in_bounds(),
            candidates_ok(self.spec_portals_in(destination_dimension)),
        ensures
            resolution_of(
                self.spec_portals_in(destination_dimension),
                destination_dimension,
                destination_region,
                r,
            ),
            forall|k: int|
                0 <= k < r.existing_portals@.len() ==> (#[trigger] r.existing_portals@[k])
                    < self.spec_portals_in(destination_dimension).len(),
    {
        let candidates = self.portals_in(destination_dimension);
        let n = candidates.len();
        let mut confirmed = false_vec(n);
        let mut might: Vec<usize> = Vec::new();
        let mut i: usize = 0;
        while i < n
            invariant
                0 <= i <= n,
                might@.len() == i,
                forall|t: int| 0 <= t < i ==> (#[trigger] might@[t]) as int == t,
            decreases n - i,
        {
            might.push(i);
            i += 1;
        }
        let mut new_portal = false;
        proof {
            assert forall|p: BlockPos, j: int|
                destination_region.contains_point(p) && #[trigger] wins_at(
                    candidates@,
                    destination_dimension,
                    p,
                    j,
                ) implies contains_idx(might@, j) by {
                assert((might@[j]) as int == j);
            }
        }
        mark_reachable_portals(
            destination_dimension,
            destination_region,
            candidates,
            might,
            &mut confirmed,
            &mut new_portal,
        );
        let existing_portals = collect_marked(&confirmed);
        PortalDestinations { existing_portals, new_portal }
    }
}

impl WorldPortals {
    /// The single-point convenience query: which portals of `dimension`
    /// the game's portal search would pick for an entity teleporting to
    /// exactly `point`, and whether it would instead create a new
    /// portal there. The degenerate one-block-region case of
    /// `portal_destinations`, with an exact answer.
    pub fn entity_destinations(&self, dimension: Dimension, point: BlockPos) -> (r:
        PortalDestinations)
        requires
            pos_in_bounds(point),
            candidates_ok(self.spec_portals_in(dimension)),
        ensures
            ({
                let cands = self.spec_portals_in(dimension);
                &&& forall|i: int|
                    #[trigger] contains_idx(r.existing_portals@, i) <==> wins_at(
                        cands,
                        dimension,
                        point,
                        i,
                    )
                &&& r.new_portal == point_has_no_candidate(cands, dimension, point)
                &&& forall|a: int, b: int|
                    0 <= a < b < r.existing_portals@.len() ==> r.existing_portals@[a]
                        < r.existing_portals@[b]
                &&& forall|k: int|
                    0 <= k < r.existing_portals@.len() ==> (#[trigger] r.existing_portals@[k])
                        < cands.len()
            }),
    {
        let region = BlockRegion { min: point, max: point };
        let r = self.portal_destinations(dimension, region);
        proof {
            let cands = self.spec_portals_in(dimension);
            assert forall|i: int| #[trigger] contains_idx(r.existing_portals@, i) implies wins_at(
                cands,
                dimension,
                point,
                i,
            ) by {
                assert(reachable_from(cands, dimension, region, i));
                let p = choose|p: BlockPos|
                    #[trigger] region.contains_point(p) && wins_at(cands, dimension, p, i);
                assert(p == point);
            }
            assert forall|i: int| wins_at(cands, dimension, point, i) implies #[trigger] contains_idx(
                r.existing_portals@,
                i,
            ) by {
                assert(region.is_corner(point) && region.contains_point(point));
            }
            if r.new_portal {
                assert(new_portal_possible(cands, dimension, region));
                let p = choose|p: BlockPos|
                    #[trigger] region.contains_point(p) && forall|j: int|
                        0 <= j < cands.len() ==> !(#[trigger] cands[j]).spec_in_range_of_point(
                            p,
                            dimension,
                        );
                assert(p == point);
            }
            if point_has_no_candidate(cands, dimension, point) {
                assert(region.is_corner(point) && region.contains_point(point));
            }
        }
        r
    }
}

/// Whether `p` lies in the region and strictly before the scan cursor
/// `(z, y, x)` in the naive resolver's z-major, then y, then x order.
pub open spec fn point_processed(region: BlockRegion, p: BlockPos, z: int, y: int, x: int) -> bool {
    region.contains_point(p) && (p.z < z || (p.z == z && (p.y < y || (p.y == y && p.x < x))))
}

/// The naive resolver's loop state: `marked` holds exactly the winners
/// of already-scanned points, and `np` whether an already-scanned point
/// had no candidate in range.
pub open spec fn naive_state_ok(
    cands: Seq<Portal>,
    dim: Dimension,
    region: BlockRegion,
    marked: Seq<bool>,
    np: bool,
    z: int,
    y: int,
    x: int,
) -> bool {
    &&& forall|i: int|
        0 <= i < cands.len() ==> ((#[trigger] marked[i]) <==> exists|p: BlockPos|
            #[trigger] point_processed(region, p, z, y, x) && wins_at(cands, dim, p, i))
    &&& np <==> exists|p: BlockPos|
        #[trigger] point_processed(region, p, z, y, x) && (forall|j: int|
            0 <= j < cands.len() ==> !(#[trigger] cands[j]).spec_in_range_of_point(p, dim))
}

/// Scanning one more point extends the processed set by exactly that
/// point.
proof fn lemma_scan_step(region: BlockRegion, p0: BlockPos)
    requires
        region.contains_point(p0),
    ensures
        forall|q: BlockPos|
            point_processed(region, q, p0.z as int, p0.y as int, p0.x + 1) <==> (point_processed(
                region,
                q,
                p0.z as int,
                p0.y as int,
                p0.x as int,
            ) || q == p0),
{
}

/// The naive loop state carries over to a new cursor that describes the
/// same set of processed points.
proof fn lemma_state_transfer(
    cands: Seq<Portal>,
    dim: Dimension,
    region: BlockRegion,
    marked: Seq<bool>,
    np: bool,
    z1: int,
    y1: int,
    x1: int,
    z2: int,
    y2: int,
    x2: int,
)
    requires
        naive_state_ok(cands, dim, region, marked, np, z1, y1, x1),
        forall|q: BlockPos|
            point_processed(region, q, z1, y1, x1) <==> point_processed(region, q, z2, y2, x2),
    ensures
        naive_state_ok(cands, dim, region, marked, np, z2, y2, x2),
{
    assert forall|i: int| 0 <= i < cands.len() implies ((#[trigger] marked[i]) <==> exists|
        p: BlockPos,
    | #[trigger] point_processed(region, p, z2, y2, x2) && wins_at(cands, dim, p, i)) by {
        if marked[i] {
            let p = choose|p: BlockPos|
                #[trigger] point_processed(region, p, z1, y1, x1) && wins_at(cands, dim, p, i);
            assert(point_processed(region, p, z2, y2, x2));
        } else {
            if exists|p: BlockPos|
                #[trigger] point_processed(region, p, z2, y2, x2) && wins_at(cands, dim, p, i) {
                let p = choose|p: BlockPos|
                    #[trigger] point_processed(region, p, z2, y2, x2) && wins_at(cands, dim, p, i);
                assert(point_processed(region, p, z1, y1, x1));
                assert(false);
            }
        }
    }
    if np {
        let p = choose|p: BlockPos|
            #[trigger] point_processed(region, p, z1, y1, x1) && (forall|j: int|
                0 <= j < cands.len() ==> !(#[trigger] cands[j]).spec_in_range_of_point(p, dim));
        assert(point_processed(region, p, z2, y2, x2));
    } else {
        if exists|p: BlockPos|
            #[trigger] point_processed(region, p, z2, y2, x2) && (forall|j: int|
                0 <= j < cands.len() ==> !(#[trigger] cands[j]).spec_in_range_of_point(p, dim)) {
            let p = choose|p: BlockPos|
                #[trigger] point_processed(region, p, z2, y2, x2) && (forall|j: int|
                    0 <= j < cands.len() ==> !(#[trigger] cands[j]).spec_in_range_of_point(p, dim));
            assert(point_processed(region, p, z1, y1, x1));
            assert(false);
        }
    }
}

impl WorldPortals {
    /// The reference resolver: scans every block point of the
    /// destination region and asks, for each, which candidates the
    /// game's portal search would pick. Correct but proportional to the
    /// volume of the region; the subdivision resolver exists to avoid
    /// this cost.
    ///
    /// Returns exactly the set of candidates that win at some point of
    /// the region, and whether some point has no candidate in range.
    pub fn portal_destinations_naive(
        &self,
        destination_dimension: Dimension,
        destination_region: BlockRegion,
    ) -> (r: PortalDestinations)
        requires
            destination_region.valid(),
            destination_region.in_bounds(),
            candidates_ok(self.spec_portals_in(destination_dimension)),
        ensures
            resolution_of(
                self.spec_portals_in(destination_dimension),
                destination_dimension,
                destination_region,
                r,
            ),
            forall|k: int|
                0 <= k < r.existing_portals@.len() ==> (#[trigger] r.existing_portals@[k])
                    < self.spec_portals_in(destination_dimension).len(),
    {
        let dim = destination_dimension;
        let region = destination_region;
        let candidates = self.portals_in(dim);
        let n = candidates.len();
        let mut marked = false_vec(n);
        let mut all_idx: Vec<usize> = Vec::new();
        let mut ii: usize = 0;
        while ii < n
            invariant
                0 <= ii <= n,
                all_idx@.len() == ii,
                forall|t: int| 0 <= t < ii ==> (#[trigger] all_idx@[t]) as int == t,
            decreases n - ii,
        {
            all_idx.push(ii);
            ii += 1;
        }
        let mut new_portal = false;
        let ghost cands = candidates@;
        proof {
            assert forall|i: int| 0 <= i < cands.len() implies ((#[trigger] marked@[i]) <==> exists|
                p: BlockPos,
            |
                #[trigger] point_processed(
                    region,
                    p,
                    region.min.z as int,
                    region.min.y as int,
                    region.min.x as int,
                ) && wins_at(cands, dim, p, i)) by {
                if exists|p: BlockPos|
                    #[trigger] point_processed(
                        region,
                        p,
                        region.min.z as int,
                        region.min.y as int,
                        region.min.x as int,
                    ) && wins_at(cands, dim, p, i) {
                    let p = choose|p: BlockPos|
                        #[trigger] point_processed(
                            region,
                            p,
                            region.min.z as int,
                            region.min.y as int,
                            region.min.x as int,
                        ) && wins_at(cands, dim, p, i);
                    assert(false);
                }
            }
            if exists|p: BlockPos|
                #[trigger] point_processed(
                    region,
                    p,
                    region.min.z as int,
                    region.min.y as int,
                    region.min.x as int,
                ) && (forall|j: int|
                    0 <= j < cands.len() ==> !(#[trigger] cands[j]).spec_in_range_of_point(p, dim)) {
                let p = choose|p: BlockPos|
                    #[trigger] point_processed(
                        region,
                        p,
                        region.min.z as int,
                        region.min.y as int,
                        region.min.x as int,
                    ) && (forall|j: int|
                        0 <= j < cands.len() ==> !(#[trigger] cands[j]).spec_in_range_of_point(
                            p,
                            dim,
                        ));
                assert(false);
            }
            assert(naive_state_ok(
                cands,
                dim,
                region,
                marked@,
                new_portal,
                region.min.z as int,
                region.min.y as int,
                region.min.x as int,
            ));
        }
        let mut z = region.min.z;
        while z <= region.max.z
            invariant
                candidates_ok(cands),
                cands == candidates@,
                region.valid(),
                region.in_bounds(),
                n == cands.len(),
                marked@.len() == n,
                all_idx@.len() == n,
                forall|t: int| 0 <= t < n ==> (#[trigger] all_idx@[t]) as int == t,
                region.min.z <= z <= region.max.z + 1,
                naive_state_ok(
                    cands,
                    dim,
                    region,
                    marked@,
                    new_portal,
                    z as int,
                    region.min.y as int,
                    region.min.x as int,
                ),
            decreases region.max.z + 1 - z,
        {
            let mut y = region.min.y;
            while y <= region.max.y
                invariant
                    candidates_ok(cands),
                    cands == candidates@,
                    region.valid(),
                    region.in_bounds(),
                    n == cands.len(),
                    marked@.len() == n,
                    all_idx@.len() == n,
                    forall|t: int| 0 <= t < n ==> (#[trigger] all_idx@[t]) as int == t,
                    region.min.z <= z <= region.max.z,
                    region.min.y <= y <= region.max.y + 1,
                    naive_state_ok(
                        cands,
                        dim,
                        region,
                        marked@,
                        new_portal,
                        z as int,
                        y as int,
                        region.min.x as int,
                    ),
                decreases region.max.y + 1 - y,
            {
                let mut x = region.min.x;
                while x <= region.max.x
                    invariant
                        candidates_ok(cands),
                        cands == candidates@,
                        region.valid(),
                        region.in_bounds(),
                        n == cands.len(),
                        marked@.len() == n,
                        all_idx@.len() == n,
                        forall|t: int| 0 <= t < n ==> (#[trigger] all_idx@[t]) as int == t,
                        region.min.z <= z <= region.max.z,
                        region.min.y <= y <= region.max.y,
                        region.min.x <= x <= region.max.x + 1,
                        naive_state_ok(
                            cands,
                            dim,
                            region,
                            marked@,
                            new_portal,
                            z as int,
                            y as int,
                            x as int,
                        ),
                    decreases region.max.x + 1 - x,
                {
                    let p0 = BlockPos { x, y, z };
                    proof {
                        assert(region.contains_point(p0));
                        assert(pos_in_bounds(p0));
                    }
                    let keys = candidate_keys(candidates, &all_idx, p0, dim);
                    let ws = minima_by_opt_key(&all_idx, &keys);
                    proof {
                        assert forall|i: int| #[trigger] wins_at(cands, dim, p0, i) implies contains_idx(
                            all_idx@,
                            i,
                        ) by {
                            assert((all_idx@[i]) as int == i);
                        }
                        lemma_winners_characterization(cands, dim, p0, all_idx@, keys@, ws@);
                    }
                    let ghost marked_before = marked@;
                    let ghost np_before = new_portal;
                    if ws.len() == 0 {
                        new_portal = true;
                    } else {
                        let mut wi: usize = 0;
                        while wi < ws.len()
                            invariant
                                marked@.len() == n,
                                n == cands.len(),
                                0 <= wi <= ws@.len(),
                                forall|k: int|
                                    0 <= k < ws@.len() ==> (#[trigger] ws@[k]) < cands.len(),
                                forall|i: int|
                                    0 <= i < n ==> ((#[trigger] marked@[i]) <==> (marked_before[i]
                                        || exists|t: int|
                                        0 <= t < wi && (#[trigger] ws@[t]) as int == i)),
                            decreases ws@.len() - wi,
                        {
                            let widx = ws[wi];
                            let ghost old_m = marked@;
                            marked.set(widx, true);
                            proof {
                                assert(marked@ == old_m.update(widx as int, true));
                                assert forall|i: int| 0 <= i < n implies ((#[trigger] marked@[i])
                                    <==> (marked_before[i] || exists|t: int|
                                    0 <= t < wi + 1 && (#[trigger] ws@[t]) as int == i)) by {
                                    if i == widx as int {
                                        assert((ws@[wi as int]) as int == i);
                                    }
                                }
                            }
                            wi += 1;
                        }
                    }
                    proof {
                        lemma_scan_step(region, p0);
                        // Winners of the new point are exactly the
                        // selected indices; fold the point into the
                        // state.
                        assert forall|i: int| 0 <= i < cands.len() implies ((#[trigger] marked@[i])
                            <==> exists|p: BlockPos|
                            #[trigger] point_processed(
                                region,
                                p,
                                z as int,
                                y as int,
                                x + 1,
                            ) && wins_at(cands, dim, p, i)) by {
                            if marked@[i] {
                                if marked_before[i] {
                                    let p = choose|p: BlockPos|
                                        #[trigger] point_processed(
                                            region,
                                            p,
                                            z as int,
                                            y as int,
                                            x as int,
                                        ) && wins_at(cands, dim, p, i);
                                    assert(point_processed(region, p, z as int, y as int, x + 1));
                                } else {
                                    assert(contains_idx(ws@, i));
                                    assert(wins_at(cands, dim, p0, i));
                                    assert(point_processed(region, p0, z as int, y as int, x + 1));
                                }
                            } else {
                                assert(!marked_before[i]);
                                assert(!contains_idx(ws@, i));
                                if exists|p: BlockPos|
                                    #[trigger] point_processed(
                                        region,
                                        p,
                                        z as int,
                                        y as int,
                                        x + 1,
                                    ) && wins_at(cands, dim, p, i) {
                                    let p = choose|p: BlockPos|
                                        #[trigger] point_processed(
                                            region,
                                            p,
                                            z as int,
                                            y as int,
                                            x + 1,
                                        ) && wins_at(cands, dim, p, i);
                                    if p == p0 {
                                        assert(contains_idx(ws@, i));
                                        assert(false);
                                    } else {
                                        assert(point_processed(region, p, z as int, y as int, x as int));
                                        assert(false);
                                    }
                                }
                            }
                        }
                        if new_portal {
                            if np_before {
                                let p = choose|p: BlockPos|
                                    #[trigger] point_processed(
                                        region,
                                        p,
                                        z as int,
                                        y as int,
                                        x as int,
                                    ) && (forall|j: int|
                                        0 <= j < cands.len() ==> !(#[trigger] cands[j]).spec_in_range_of_point(
                                            p,
                                            dim,
                                        ));
                                assert(point_processed(region, p, z as int, y as int, x + 1));
                            } else {
                                assert(point_processed(region, p0, z as int, y as int, x + 1));
                            }
                        } else {
                            if exists|p: BlockPos|
                                #[trigger] point_processed(
                                    region,
                                    p,
                                    z as int,
                                    y as int,
                                    x + 1,
                                ) && (forall|j: int|
                                    0 <= j < cands.len() ==> !(#[trigger] cands[j]).spec_in_range_of_point(
                                        p,
                                        dim,
                                    )) {
                                let p = choose|p: BlockPos|
                                    #[trigger] point_processed(
                                        region,
                                        p,
                                        z as int,
                                        y as int,
                                        x + 1,
                                    ) && (forall|j: int|
                                        0 <= j < cands.len() ==> !(#[trigger] cands[j]).spec_in_range_of_point(
                                            p,
                                            dim,
                                        ));
                                if p == p0 {
                                    assert(ws@.len() != 0);
                                    let x0 = ws@[0];
                                    assert(contains_idx(ws@, x0 as int)) by {
                                        assert((ws@[0]) as int == x0 as int);
                                    }
                                    assert(wins_at(cands, dim, p0, x0 as int));
                                    assert(false);
                                } else {
                                    assert(point_processed(region, p, z as int, y as int, x as int));
                                    assert(false);
                                }
                            }
                        }
                        assert(naive_state_ok(
                            cands,
                            dim,
                            region,
                            marked@,
                            new_portal,
                            z as int,
                            y as int,
                            x + 1,
                        ));
                    }
                    x += 1;
                }
                proof {
                    assert forall|q: BlockPos|
                        #[trigger] point_processed(region, q, z as int, y as int, region.max.x + 1)
                            <==> point_processed(
                            region,
                            q,
                            z as int,
                            y + 1,
                            region.min.x as int,
                        ) by {}
                    lemma_state_transfer(
                        cands,
                        dim,
                        region,
                        marked@,
                        new_portal,
                        z as int,
                        y as int,
                        region.max.x + 1,
                        z as int,
                        y + 1,
                        region.min.x as int,
                    );
                }
                y += 1;
            }
            proof {
                assert forall|q: BlockPos|
                    #[trigger] point_processed(region, q, z as int, region.max.y + 1, region.min.x as int)
                        <==> point_processed(
                        region,
                        q,
                        z + 1,
                        region.min.y as int,
                        region.min.x as int,
                    ) by {}
                lemma_state_transfer(
                    cands,
                    dim,
                    region,
                    marked@,
                    new_portal,
                    z as int,
                    region.max.y + 1,
                    region.min.x as int,
                    z + 1,
                    region.min.y as int,
                    region.min.x as int,
                );
            }
            z += 1;
        }
        let existing_portals = collect_marked(&marked);
        proof {
            assert forall|q: BlockPos|
                #[trigger] point_processed(region, q, region.max.z + 1, region.min.y as int, region.min.x as int)
                    <==> region.contains_point(q) by {}
            assert forall|i: int| #[trigger] contains_idx(existing_portals@, i) <==> reachable_from(
                cands,
                dim,
                region,
                i,
            ) by {
                if contains_idx(existing_portals@, i) {
                    assert(marked@[i]);
                    let p = choose|p: BlockPos|
                        #[trigger] point_processed(
                            region,
                            p,
                            region.max.z + 1,
                            region.min.y as int,
                            region.min.x as int,
                        ) && wins_at(cands, dim, p, i);
                    assert(region.contains_point(p) && wins_at(cands, dim, p, i));
                } else {
                    if reachable_from(cands, dim, region, i) {
                        let p = choose|p: BlockPos|
                            #[trigger] region.contains_point(p) && wins_at(cands, dim, p, i);
                        assert(point_processed(
                            region,
                            p,
                            region.max.z + 1,
                            region.min.y as int,
                            region.min.x as int,
                        ));
                        assert(marked@[i]);
                        assert(false);
                    }
                }
            }
            if new_portal {
                let p = choose|p: BlockPos|
                    #[trigger] point_processed(
                        region,
                        p,
                        region.max.z + 1,
                        region.min.y as int,
                        region.min.x as int,
                    ) && (forall|j: int|
                        0 <= j < cands.len() ==> !(#[trigger] cands[j]).spec_in_range_of_point(
                            p,
                            dim,
                        ));
                assert(region.contains_point(p));
                assert(new_portal_possible(cands, dim, region));
            } else {
                if new_portal_possible(cands, dim, region) {
                    let p = choose|p: BlockPos|
                        #[trigger] region.contains_point(p) && (forall|j: int|
                            0 <= j < cands.len() ==> !(#[trigger] cands[j]).spec_in_range_of_point(
                                p,
                                dim,
                            ));
                    assert(point_processed(
                        region,
                        p,
                        region.max.z + 1,
                        region.min.y as int,
                        region.min.x as int,
                    ));
                    assert(false);
                }
            }
        }
        PortalDestinations { existing_portals, new_portal }
    }
}

/// What a complete resolution of a query states: exactly the winners,
/// exactly the new-portal truth, indices strictly increasing. Both
/// resolvers carry this contract, so their answers always coincide.
pub open spec fn resolution_of(
    cands: Seq<Portal>,
    dim: Dimension,
    region: BlockRegion,
    r: PortalDestinations,
) -> bool {
    &&& forall|i: int|
        #[trigger] contains_idx(r.existing_portals@, i) <==> reachable_from(cands, dim, region, i)
    &&& r.new_portal == new_portal_possible(cands, dim, region)
    &&& forall|a: int, b: int|
        0 <= a < b < r.existing_portals@.len() ==> r.existing_portals@[a] < r.existing_portals@[b]
}

/// A query has exactly one complete answer. Two runs over identical
/// inputs therefore agree, and the subdivision resolver and the naive
/// per-point resolver — which both promise a complete answer — always
/// return the same result.
pub proof fn lemma_resolution_unique(
    cands: Seq<Portal>,
    dim: Dimension,
    region: BlockRegion,
    r1: PortalDestinations,
    r2: PortalDestinations,
)
    requires
        resolution_of(cands, dim, region, r1),
        resolution_of(cands, dim, region, r2),
    ensures
        r1.existing_portals@ == r2.existing_portals@,
        r1.new_portal == r2.new_portal,
{
    assert forall|i: int| #[trigger] contains_idx(r1.existing_portals@, i) <==> contains_idx(
        r2.existing_portals@,
        i,
    ) by {}
    lemma_sorted_unique_equal(r1.existing_portals@, r2.existing_portals@);
}

/// Two strictly increasing index sequences with the same members are
/// equal.
proof fn lemma_sorted_unique_equal(s1: Seq<usize>, s2: Seq<usize>)
    requires
        forall|a: int, b: int| 0 <= a < b < s1.len() ==> s1[a] < s1[b],
        forall|a: int, b: int| 0 <= a < b < s2.len() ==> s2[a] < s2[b],
        forall|i: int| #[trigger] contains_idx(s1, i) <==> contains_idx(s2, i),
    ensures
        s1 == s2,
    decreases s1.len(),
{
    if s1.len() == 0 {
        if s2.len() > 0 {
            assert(contains_idx(s2, s2[0] as int)) by {
                assert((s2[0]) as int == s2[0] as int);
            }
            assert(contains_idx(s1, s2[0] as int));
            assert(false);
        }
        assert(s1 =~= s2);
    } else {
        assert(contains_idx(s1, s1[0] as int)) by {
            assert((s1[0]) as int == s1[0] as int);
        }
        assert(contains_idx(s2, s1[0] as int));
        let k2 = choose|k: int| 0 <= k < s2.len() && (#[trigger] s2[k]) as int == s1[0] as int;
        assert(s2[0] <= s2[k2]);
        assert(contains_idx(s2, s2[0] as int)) by {
            assert((s2[0]) as int == s2[0] as int);
        }
        assert(contains_idx(s1, s2[0] as int));
        let k1 = choose|k: int| 0 <= k < s1.len() && (#[trigger] s1[k]) as int == s2[0] as int;
        assert(s1[0] <= s1[k1]);
        assert(s1[0] == s2[0]);
        let t1 = s1.subrange(1, s1.len() as int);
        let t2 = s2.subrange(1, s2.len() as int);
        assert forall|i: int| #[trigger] contains_idx(t1, i) <==> contains_idx(t2, i) by {
            lemma_tail_membership(s1, i);
            lemma_tail_membership(s2, i);
        }
        lemma_sorted_unique_equal(t1, t2);
        assert(s1 =~= s2) by {
            assert(forall|t: int| 1 <= t < s1.len() ==> s1[t] == t1[t - 1] && s2[t] == t2[t - 1]);
        }
    }
}

/// A member of a strictly increasing sequence is in its tail exactly
/// when it is not the head.
proof fn lemma_tail_membership(s: Seq<usize>, i: int)
    requires
        s.len() > 0,
        forall|a: int, b: int| 0 <= a < b < s.len() ==> s[a] < s[b],
    ensures
        contains_idx(s.subrange(1, s.len() as int), i) <==> (contains_idx(s, i) && i != s[0] as int),
{
    let t = s.subrange(1, s.len() as int);
    if contains_idx(t, i) {
        let k = choose|k: int| 0 <= k < t.len() && (#[trigger] t[k]) as int == i;
        assert(s[k + 1] as int == i);
        assert(s[0] < s[k + 1]);
        assert(contains_idx(s, i)) by {
            assert((s[k + 1]) as int == i);
        }
    }
    if contains_idx(s, i) && i != s[0] as int {
        let k = choose|k: int| 0 <= k < s.len() && (#[trigger] s[k]) as int == i;
        assert(k != 0);
        assert((t[k - 1]) as int == i);
        assert(contains_idx(t, i));
    }
}

/// Removing a candidate that is never a winner at any point of the
/// region changes nothing for the others: the remaining candidates keep
/// exactly their reachability, and the new-portal truth is unchanged.
/// Indices above the removed one shift down by one.
pub proof fn lemma_nonwinner_removal(
    cands: Seq<Portal>,
    dim: Dimension,
    region: BlockRegion,
    j: int,
)
    requires
        0 <= j < cands.len(),
        forall|p: BlockPos| #[trigger] region.contains_point(p) ==> !wins_at(cands, dim, p, j),
    ensures
        forall|i: int|
            0 <= i < j ==> (reachable_from(cands.remove(j), dim, region, i) <==> #[trigger]
            reachable_from(cands, dim, region, i)),
        forall|i: int|
            j <= i < cands.len() - 1 ==> (#[trigger] reachable_from(cands.remove(j), dim, region, i)
                <==> reachable_from(cands, dim, region, i + 1)),
        new_portal_possible(cands.remove(j), dim, region) == new_portal_possible(
            cands,
            dim,
            region,
        ),
{
    let rest = cands.remove(j);
    assert forall|p: BlockPos, i: int|
        region.contains_point(p) && 0 <= i < rest.len() implies (#[trigger] wins_at(
        rest,
        dim,
        p,
        i,
    ) <==> wins_at(cands, dim, p, if i < j { i } else { i + 1 })) by {
        lemma_pointwise_removal(cands, dim, region, j, p, i);
    }
    assert forall|i: int| 0 <= i < j implies (reachable_from(rest, dim, region, i) <==> #[trigger]
    reachable_from(cands, dim, region, i)) by {
        if reachable_from(rest, dim, region, i) {
            let p = choose|p: BlockPos| #[trigger] region.contains_point(p) && wins_at(rest, dim, p, i);
            assert(wins_at(cands, dim, p, i));
        }
        if reachable_from(cands, dim, region, i) {
            let p = choose|p: BlockPos|
                #[trigger] region.contains_point(p) && wins_at(cands, dim, p, i);
            assert(wins_at(rest, dim, p, i));
        }
    }
    assert forall|i: int| j <= i < cands.len() - 1 implies (#[trigger] reachable_from(
        rest,
        dim,
        region,
        i,
    ) <==> reachable_from(cands, dim, region, i + 1)) by {
        if reachable_from(rest, dim, region, i) {
            let p = choose|p: BlockPos| #[trigger] region.contains_point(p) && wins_at(rest, dim, p, i);
            assert(wins_at(cands, dim, p, i + 1));
        }
        if reachable_from(cands, dim, region, i + 1) {
            let p = choose|p: BlockPos|
                #[trigger] region.contains_point(p) && wins_at(cands, dim, p, i + 1);
            assert(wins_at(rest, dim, p, i));
        }
    }
    if new_portal_possible(cands, dim, region) {
        let p = choose|p: BlockPos|
            #[trigger] region.contains_point(p) && (forall|k: int|
                0 <= k < cands.len() ==> !(#[trigger] cands[k]).spec_in_range_of_point(p, dim));
        assert forall|k: int| 0 <= k < rest.len() implies !(#[trigger] rest[k]).spec_in_range_of_point(
            p,
            dim,
        ) by {
            if k < j {
                assert(rest[k] == cands[k]);
            } else {
                assert(rest[k] == cands[k + 1]);
            }
        }
        assert(new_portal_possible(rest, dim, region));
    }
    if new_portal_possible(rest, dim, region) {
        let p = choose|p: BlockPos|
            #[trigger] region.contains_point(p) && (forall|k: int|
                0 <= k < rest.len() ==> !(#[trigger] rest[k]).spec_in_range_of_point(p, dim));
        assert forall|k: int| 0 <= k < cands.len() implies !(#[trigger] cands[k]).spec_in_range_of_point(
            p,
            dim,
        ) by {
            if k < j {
                assert(rest[k] == cands[k]);
            } else if k > j {
                assert(rest[k - 1] == cands[k]);
            } else {
                // Were the removed candidate in range here, it would be
                // the only one and hence a winner at this point.
                if cands[j].spec_in_range_of_point(p, dim) {
                    lemma_winner_exists(cands, dim, p, j);
                    let w = choose|w: int| #[trigger] wins_at(cands, dim, p, w);
                    if w == j {
                        assert(false);
                    } else {
                        let w2: int = if w < j { w } else { w - 1 };
                        assert(rest[w2] == cands[w]);
                        assert(rest[w2].spec_in_range_of_point(p, dim));
                        assert(false);
                    }
                }
            }
        }
        assert(new_portal_possible(cands, dim, region));
    }
}

/// Pointwise step of `lemma_nonwinner_removal`: winning at one point is
/// unaffected by dropping a candidate that does not win there.
proof fn lemma_pointwise_removal(
    cands: Seq<Portal>,
    dim: Dimension,
    region: BlockRegion,
    j: int,
    p: BlockPos,
    i: int,
)
    requires
        0 <= j < cands.len(),
        region.contains_point(p),
        !wins_at(cands, dim, p, j),
        0 <= i < cands.len() - 1,
    ensures
        wins_at(cands.remove(j), dim, p, i) <==> wins_at(
            cands,
            dim,
            p,
            if i < j { i } else { i + 1 },
        ),
{
    let rest = cands.remove(j);
    let i2: int = if i < j { i } else { i + 1 };
    assert(rest[i] == cands[i2]);
    if wins_at(cands, dim, p, i2) {
        assert forall|k: int|
            0 <= k < rest.len() && (#[trigger] rest[k]).spec_in_range_of_point(p, dim) implies rest[
        i].region.spec_distance_sq_to_point(p) <= rest[k].region.spec_distance_sq_to_point(p) by {
            let k2: int = if k < j { k } else { k + 1 };
            assert(rest[k] == cands[k2]);
        }
        assert(wins_at(rest, dim, p, i));
    }
    if wins_at(rest, dim, p, i) {
        assert forall|k: int|
            0 <= k < cands.len() && (#[trigger] cands[k]).spec_in_range_of_point(p, dim) implies cands[
        i2].region.spec_distance_sq_to_point(p) <= cands[k].region.spec_distance_sq_to_point(
            p,
        ) by {
            if k != j {
                let kr: int = if k < j { k } else { k - 1 };
                assert(rest[kr] == cands[k]);
            } else {
                // The removed candidate is in range here but does not
                // win, so some candidate beats it; that candidate
                // remains, and the winner among the rest is at least as
                // close.
                lemma_winner_exists(cands, dim, p, j);
                let w = choose|w: int| #[trigger] wins_at(cands, dim, p, w);
                assert(w != j);
                let wr: int = if w < j { w } else { w - 1 };
                assert(rest[wr] == cands[w]);
                assert(rest[i].region.spec_distance_sq_to_point(p)
                    <= rest[wr].region.spec_distance_sq_to_point(p));
                assert(cands[w].region.spec_distance_sq_to_point(p)
                    <= cands[j].region.spec_distance_sq_to_point(p));
            }
        }
        assert(wins_at(cands, dim, p, i2));
    }
}

/// With exactly one candidate, in range of every point of the region,
/// the resolvers' answer is forced completely: that candidate is the
/// one and only destination, and no new portal can appear.
pub proof fn lemma_single_candidate_answer(
    cands: Seq<Portal>,
    dim: Dimension,
    region: BlockRegion,
    r: PortalDestinations,
)
    requires
        region.valid(),
        cands.len() == 1,
        cands[0].spec_always_in_range_of_region(region, dim),
        resolution_of(cands, dim, region, r),
    ensures
        r.existing_portals@ == seq![0usize],
        !r.new_portal,
{
    lemma_single_always_in_range(cands, dim, region);
    assert(contains_idx(r.existing_portals@, 0));
    let k = choose|k: int|
        0 <= k < r.existing_portals@.len() && (#[trigger] r.existing_portals@[k]) as int == 0;
    assert forall|t: int| 0 <= t < r.existing_portals@.len() implies (#[trigger] r.existing_portals@[
    t]) == 0usize by {
        assert(contains_idx(r.existing_portals@, r.existing_portals@[t] as int)) by {
            assert((r.existing_portals@[t]) as int == r.existing_portals@[t] as int);
        }
        assert(reachable_from(cands, dim, region, r.existing_portals@[t] as int));
    }
    if r.existing_portals@.len() > 1 {
        assert(r.existing_portals@[0] < r.existing_portals@[1]);
        assert(false);
    }
    assert(r.existing_portals@ =~= seq![0usize]);
    if r.new_portal {
        assert(new_portal_possible(cands, dim, region));
    }
}

/// A lone candidate within search range of the whole region is reachable
/// from it, is the only reachable candidate, and rules out a new portal.
pub proof fn lemma_single_always_in_range(cands: Seq<Portal>, dim: Dimension, region: BlockRegion)
    requires
        region.valid(),
        cands.len() == 1,
        cands[0].spec_always_in_range_of_region(region, dim),
    ensures
        reachable_from(cands, dim, region, 0),
        forall|i: int| #[trigger] reachable_from(cands, dim, region, i) ==> i == 0,
        !new_portal_possible(cands, dim, region),
{
    let p = region.min;
    assert(region.contains_point(p));
    assert(wins_at(cands, dim, p, 0));
    if new_portal_possible(cands, dim, region) {
        let q = choose|q: BlockPos|
            #[trigger] region.contains_point(q) && (forall|k: int|
                0 <= k < cands.len() ==> !(#[trigger] cands[k]).spec_in_range_of_point(q, dim));
        assert(cands[0].spec_in_range_of_point(q, dim));
        assert(false);
    }
}

} // verus!
