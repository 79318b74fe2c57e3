//! What holds of the gas field over time: the gas never grows, and without
//! flow a single tile empties in the number of ticks that its amount takes
//! to decay.

use crate::grid::Pos;
use crate::resources::flow::{
    amount_at, ascending, decayed, enterable, flow_over, is_least, pour, pruned, ticked, PassableChecker,
};
use crate::resources::path::{neighbors_spec, Tile};
use vstd::prelude::*;

verus! {

/// The sum of all stored amounts.
pub open spec fn total(m: Map<Pos, int>) -> int
    decreases m.dom().len(),
    when m.dom().finite()
{
    if m.dom().len() == 0 {
        0
    } else {
        let p = m.dom().choose();
        m[p] + total(m.remove(p))
    }
}

/// No stored amount is negative, and the stored amounts are finitely many.
pub open spec fn settled(m: Map<Pos, int>) -> bool {
    &&& m.dom().finite()
    &&& forall|p: Pos| m.contains_key(p) ==> #[trigger] m[p] >= 0
}

/// The field after `k` ticks.
pub open spec fn ticks<P: PassableChecker>(
    checker: P,
    tiles: Map<Pos, Tile>,
    default: Tile,
    fluidity: int,
    decay: int,
    m: Map<Pos, int>,
    k: nat,
) -> Map<Pos, int>
    decreases k,
{
    if k == 0 {
        m
    } else {
        ticked(checker, tiles, default, fluidity, decay, ticks(checker, tiles, default, fluidity, decay, m, (k - 1) as nat))
    }
}

/// The field that holds `amount` on the tile `p` and nothing elsewhere.
pub open spec fn single(p: Pos, amount: int) -> Map<Pos, int> {
    if amount > 0 {
        Map::<Pos, int>::empty().insert(p, amount)
    } else {
        Map::<Pos, int>::empty()
    }
}

/// The total is the amount on any one tile and the total of the rest.
pub proof fn lemma_total_split(m: Map<Pos, int>, p: Pos)
    requires
        m.dom().finite(),
        m.contains_key(p),
    ensures
        total(m) == m[p] + total(m.remove(p)),
    decreases m.dom().len(),
{
    let c = m.dom().choose();
    if c != p {
        lemma_total_split(m.remove(c), p);
        lemma_total_split(m.remove(p), c);
        assert(m.remove(c).remove(p) =~= m.remove(p).remove(c));
    }
}

/// Writing an amount changes the total by the difference to what was there.
pub proof fn lemma_total_insert(m: Map<Pos, int>, p: Pos, v: int)
    requires
        m.dom().finite(),
    ensures
        total(m.insert(p, v)) == total(m) - amount_at(m, p) + v,
{
    lemma_total_split(m.insert(p, v), p);
    assert(m.insert(p, v).remove(p) =~= m.remove(p));
    if m.contains_key(p) {
        lemma_total_split(m, p);
    } else {
        assert(m.remove(p) =~= m);
    }
}

/// Pruning keeps the total.
pub proof fn lemma_total_pruned(m: Map<Pos, int>)
    requires
        m.dom().finite(),
    ensures
        pruned(m).dom().finite(),
        total(pruned(m)) == total(m),
    decreases m.dom().len(),
{
    assert(pruned(m).dom().subset_of(m.dom()));
    vstd::set_lib::lemma_len_subset(pruned(m).dom(), m.dom());
    if m.dom().len() == 0 {
        assert(pruned(m) =~= m);
    } else {
        let p = m.dom().choose();
        lemma_total_pruned(m.remove(p));
        if m[p] == 0 {
            assert(pruned(m) =~= pruned(m.remove(p)));
        } else {
            assert(pruned(m).remove(p) =~= pruned(m.remove(p)));
            lemma_total_split(pruned(m), p);
        }
    }
}

/// Decay by a non-negative amount does not raise the total.
pub proof fn lemma_total_decayed(m: Map<Pos, int>, decay: int)
    requires
        settled(m),
        decay >= 0,
    ensures
        settled(decayed(m, decay)),
        total(decayed(m, decay)) <= total(m),
    decreases m.dom().len(),
{
    assert(decayed(m, decay).dom() =~= m.dom());
    if m.dom().len() != 0 {
        let p = m.dom().choose();
        lemma_total_decayed(m.remove(p), decay);
        assert(decayed(m, decay).remove(p) =~= decayed(m.remove(p), decay));
        lemma_total_split(decayed(m, decay), p);
        assert(m[p] >= 0);
    } else {
        assert(decayed(m, decay) =~= m);
    }
}

/// The flow out of one tile keeps the total, and keeps the field settled.
pub proof fn lemma_total_pour(m: Map<Pos, int>, p: Pos, cands: Seq<Pos>, budget: int)
    requires
        settled(m),
    ensures
        settled(pour(m, p, cands, budget)),
        total(pour(m, p, cands, budget)) == total(m),
    decreases
            (if budget > 0 {
                budget
            } else {
                0
            }),
            cands.len(),
{
    let s = amount_at(m, p);
    if !(budget <= 0 || cands.len() == 0 || s <= 1) {
        let j = choose|j: int| is_least(m, cands, j);
        if 0 <= j < cands.len() {
            let q = cands[j];
            if amount_at(m, q) + 1 < s {
                let m1 = m.insert(p, s - 1);
                let m2 = m1.insert(q, amount_at(m, q) + 1);
                lemma_total_insert(m, p, s - 1);
                lemma_total_insert(m1, q, amount_at(m, q) + 1);
                assert(q != p);
                assert(amount_at(m1, q) == amount_at(m, q));
                assert(settled(m2)) by {
                    assert forall|x: Pos| m2.contains_key(x) implies #[trigger] m2[x] >= 0 by {
                        if x != q && x != p {
                            assert(m[x] >= 0);
                        }
                        if m.contains_key(q) {
                            assert(m[q] >= 0);
                        }
                    }
                }
                lemma_total_pour(m2, p, cands, budget - 1);
            } else {
                lemma_total_pour(m, p, cands.remove(j), budget);
            }
        }
    }
}

/// The flow out of every tile of an order keeps the total, and keeps the
/// field settled.
pub proof fn lemma_total_flow<P: PassableChecker>(
    checker: P,
    tiles: Map<Pos, Tile>,
    default: Tile,
    fluidity: int,
    m: Map<Pos, int>,
    order: Seq<Pos>,
)
    requires
        settled(m),
    ensures
        settled(flow_over(checker, tiles, default, fluidity, m, order)),
        total(flow_over(checker, tiles, default, fluidity, m, order)) == total(m),
    decreases order.len(),
{
    if order.len() > 0 {
        let p = order[0];
        let cands = enterable(checker, tiles, default, neighbors_spec(p));
        lemma_total_pour(m, p, cands, fluidity);
        lemma_total_flow(checker, tiles, default, fluidity, pour(m, p, cands, fluidity), order.drop_first());
    }
}

/// Gas conservation bound, one tick. With a decay that is not negative, and
/// nothing added, a tick does not raise the total amount of gas; the field
/// stays settled.
pub proof fn lemma_tick_never_grows<P: PassableChecker>(
    checker: P,
    tiles: Map<Pos, Tile>,
    default: Tile,
    fluidity: int,
    decay: int,
    m: Map<Pos, int>,
)
    requires
        settled(m),
        decay >= 0,
    ensures
        settled(ticked(checker, tiles, default, fluidity, decay, m)),
        total(ticked(checker, tiles, default, fluidity, decay, m)) <= total(m),
{
    lemma_total_decayed(m, decay);
    let thinned = pruned(decayed(m, decay));
    lemma_total_pruned(decayed(m, decay));
    assert(settled(thinned));
    let order = ascending(tiles.dom().union(thinned.dom()));
    lemma_total_flow(checker, tiles, default, fluidity, thinned, order);
    let flowed = flow_over(checker, tiles, default, fluidity, thinned, order);
    lemma_total_pruned(flowed);
    assert(settled(pruned(flowed)));
}

/// Gas conservation bound, any number of ticks. With a decay that is not
/// negative, and nothing added, the total amount of gas after one more tick
/// is never above what it was: the total does not increase from tick to
/// tick.
pub proof fn lemma_gas_never_grows<P: PassableChecker>(
    checker: P,
    tiles: Map<Pos, Tile>,
    default: Tile,
    fluidity: int,
    decay: int,
    m: Map<Pos, int>,
    k: nat,
)
    requires
        settled(m),
        decay >= 0,
    ensures
        settled(ticks(checker, tiles, default, fluidity, decay, m, k)),
        total(ticks(checker, tiles, default, fluidity, decay, m, k + 1)) <= total(
            ticks(checker, tiles, default, fluidity, decay, m, k),
        ),
        total(ticks(checker, tiles, default, fluidity, decay, m, k)) <= total(m),
    decreases k,
{
    if k > 0 {
        lemma_gas_never_grows(checker, tiles, default, fluidity, decay, m, (k - 1) as nat);
        lemma_tick_never_grows(
            checker,
            tiles,
            default,
            fluidity,
            decay,
            ticks(checker, tiles, default, fluidity, decay, m, (k - 1) as nat),
        );
    }
    lemma_tick_never_grows(checker, tiles, default, fluidity, decay, ticks(checker, tiles, default, fluidity, decay, m, k));
}

/// Without budget nothing flows.
proof fn lemma_no_flow<P: PassableChecker>(
    checker: P,
    tiles: Map<Pos, Tile>,
    default: Tile,
    fluidity: int,
    m: Map<Pos, int>,
    order: Seq<Pos>,
)
    requires
        fluidity <= 0,
    ensures
        flow_over(checker, tiles, default, fluidity, m, order) == m,
    decreases order.len(),
{
    if order.len() > 0 {
        lemma_no_flow(checker, tiles, default, fluidity, m, order.drop_first());
    }
}

/// Gas conservation bound, without flow. With flow disabled and a positive
/// decay `d`, a field that holds `a` on one tile and nothing elsewhere
/// holds `a - k * d` there after `k` ticks while that is positive, and
/// nothing at all from then on: the total is exactly zero once `k * d`
/// reaches `a`, that is, within `a / d` ticks, rounded up.
pub proof fn lemma_single_tile_decays<P: PassableChecker>(
    checker: P,
    tiles: Map<Pos, Tile>,
    default: Tile,
    fluidity: int,
    decay: int,
    p: Pos,
    a: int,
    k: nat,
)
    requires
        fluidity <= 0,
        decay > 0,
        0 <= a <= i32::MAX,
    ensures
        ticks(checker, tiles, default, fluidity, decay, single(p, a), k) == single(p, a - k * decay),
        k * decay >= a ==> total(ticks(checker, tiles, default, fluidity, decay, single(p, a), k)) == 0,
        k * decay < a ==> total(ticks(checker, tiles, default, fluidity, decay, single(p, a), k)) == a - k * decay,
    decreases k,
{
    if k > 0 {
        let j = (k - 1) as nat;
        lemma_single_tile_decays(checker, tiles, default, fluidity, decay, p, a, j);
        let before = single(p, a - j * decay);
        assert(k * decay == j * decay + decay) by (nonlinear_arith)
            requires
                k == j + 1,
        ;
        assert(j * decay >= 0) by (nonlinear_arith)
            requires
                j >= 0,
                decay > 0,
        ;
        let thinned = pruned(decayed(before, decay));
        assert(thinned =~= single(p, a - k * decay));
        let order = ascending(tiles.dom().union(thinned.dom()));
        lemma_no_flow(checker, tiles, default, fluidity, thinned, order);
        assert(pruned(thinned) =~= thinned);
    } else {
        assert(k * decay == 0) by (nonlinear_arith)
            requires
                k == 0,
        ;
    }
    let left = a - k * decay;
    if left > 0 {
        lemma_total_insert(Map::<Pos, int>::empty(), p, left);
    }
    assert(total(Map::<Pos, int>::empty()) == 0);
}

} // verus!
