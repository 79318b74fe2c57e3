//! A per-tile amount of gas that decays and spreads, one step per tick.

use crate::grid::{is_ascending_listing, Grid, Pos};
use crate::resources::path::{adjacent, lemma_neighbors, neighbors, neighbors_spec, Tile};
use vstd::prelude::*;

verus! {

/// Decides which tiles a flowing substance can enter.
pub trait PassableChecker {
    /// Whether the substance can enter `tile`.
    spec fn passable(&self, tile: Tile) -> bool;

    /// Whether the substance can enter `tile`.
    fn is_passable(&self, tile: Tile) -> (r: bool)
        ensures
            r == self.passable(tile),
    ;
}

/// The rule for poison gas: it enters open tiles only.
#[derive(Copy, Clone, Debug, PartialEq, Eq, Structural)]
pub struct GasFlow;

impl PassableChecker for GasFlow {
    open spec fn passable(&self, tile: Tile) -> bool {
        tile == Tile::Open
    }

    fn is_passable(&self, tile: Tile) -> (r: bool) {
        match tile {
            Tile::Open => true,
            Tile::Wall => false,
            Tile::Spawn => false,
            Tile::Core => false,
        }
    }
}

/// The tile at `p`: what is stored there, and `default` where nothing is.
pub open spec fn tile_or(tiles: Map<Pos, Tile>, p: Pos, default: Tile) -> Tile {
    if tiles.contains_key(p) {
        tiles[p]
    } else {
        default
    }
}

/// The amount at `p`: what is stored there, and zero where nothing is.
pub open spec fn amount_at(m: Map<Pos, int>, p: Pos) -> int {
    if m.contains_key(p) {
        m[p]
    } else {
        0
    }
}

/// `a + b`, held between zero and the largest amount a tile can hold.
pub open spec fn clamped(v: int) -> int {
    if v < 0 {
        0
    } else if v > i32::MAX {
        i32::MAX as int
    } else {
        v
    }
}

/// The map without its zero entries.
pub open spec fn pruned(m: Map<Pos, int>) -> Map<Pos, int> {
    Map::new(|p: Pos| m.contains_key(p) && m[p] != 0, |p: Pos| m[p])
}

/// Every stored amount lowered by `decay`, and never below zero.
pub open spec fn decayed(m: Map<Pos, int>, decay: int) -> Map<Pos, int> {
    Map::new(|p: Pos| m.contains_key(p), |p: Pos| clamped(m[p] - decay))
}

/// The members of `list` that the substance can enter, in the order of `list`.
pub open spec fn enterable<P: PassableChecker>(
    checker: P,
    tiles: Map<Pos, Tile>,
    default: Tile,
    list: Seq<Pos>,
) -> Seq<Pos>
    decreases list.len(),
{
    if list.len() == 0 {
        Seq::empty()
    } else {
        let rest = enterable(checker, tiles, default, list.drop_last());
        if checker.passable(tile_or(tiles, list.last(), default)) {
            rest.push(list.last())
        } else {
            rest
        }
    }
}

/// `j` is the first position in `cands` of a candidate that holds the least amount.
pub open spec fn is_least(m: Map<Pos, int>, cands: Seq<Pos>, j: int) -> bool {
    &&& 0 <= j < cands.len()
    &&& forall|k: int| 0 <= k < cands.len() ==> amount_at(m, cands[j]) <= amount_at(m, #[trigger] cands[k])
    &&& forall|k: int| 0 <= k < j ==> amount_at(m, cands[j]) < amount_at(m, #[trigger] cands[k])
}

/// The flow out of the tile `p`. While `p` holds more than one unit, budget is
/// left and a candidate is left, the least-filled candidate (the first of
/// them in `cands`) is chosen. If it would, with one unit more, still hold
/// less than `p` holds now, one unit moves to it and the budget drops by
/// one; otherwise it leaves the candidates.
pub open spec fn pour(m: Map<Pos, int>, p: Pos, cands: Seq<Pos>, budget: int) -> Map<Pos, int>
    decreases (if budget > 0 { budget } else { 0 }), cands.len(),
{
    let s = amount_at(m, p);
    if budget <= 0 || cands.len() == 0 || s <= 1 {
        m
    } else {
        let j = choose|j: int| is_least(m, cands, j);
        if 0 <= j < cands.len() {
            let q = cands[j];
            if amount_at(m, q) + 1 < s {
                pour(m.insert(p, s - 1).insert(q, amount_at(m, q) + 1), p, cands, budget - 1)
            } else {
                pour(m, p, cands.remove(j), budget)
            }
        } else {
            m
        }
    }
}

/// The flow out of every tile of `order`, one after the other.
pub open spec fn flow_over<P: PassableChecker>(
    checker: P,
    tiles: Map<Pos, Tile>,
    default: Tile,
    fluidity: int,
    m: Map<Pos, int>,
    order: Seq<Pos>,
) -> Map<Pos, int>
    decreases order.len(),
{
    if order.len() == 0 {
        m
    } else {
        let p = order[0];
        let after = pour(m, p, enterable(checker, tiles, default, neighbors_spec(p)), fluidity);
        flow_over(checker, tiles, default, fluidity, after, order.drop_first())
    }
}

/// The ascending listing of a finite set of coordinates.
pub open spec fn ascending(s: Set<Pos>) -> Seq<Pos> {
    choose|l: Seq<Pos>| is_ascending_listing(l, s)
}

/// One step of the gas simulation: decay and pruning, then the flow out of
/// every tile of the map and every tile that holds gas, in ascending order
/// of coordinates, then pruning again.
pub open spec fn ticked<P: PassableChecker>(
    checker: P,
    tiles: Map<Pos, Tile>,
    default: Tile,
    fluidity: int,
    decay: int,
    m: Map<Pos, int>,
) -> Map<Pos, int> {
    let thinned = pruned(decayed(m, decay));
    let order = ascending(tiles.dom().union(thinned.dom()));
    pruned(flow_over(checker, tiles, default, fluidity, thinned, order))
}

/// The gas field: an amount per tile, and the two per-tick parameters.
pub struct FlowMap<P: PassableChecker> {
    amounts: Grid<i32>,
    tile_checker: P,
    fluidity: i32,
    dispersal: i32,
}

impl<P: PassableChecker> View for FlowMap<P> {
    type V = Map<Pos, int>;

    closed spec fn view(&self) -> Map<Pos, int> {
        Map::new(|p: Pos| self.amounts@.contains_key(p), |p: Pos| self.amounts@[p] as int)
    }
}

impl<P: PassableChecker> FlowMap<P> {
    /// No stored amount is negative.
    pub closed spec fn wf(&self) -> bool {
        forall|p: Pos| self.amounts@.contains_key(p) ==> #[trigger] self.amounts@[p] >= 0
    }

    /// What decides which tiles the substance can enter.
    pub closed spec fn checker(&self) -> P {
        self.tile_checker
    }

    /// How many units can leave one tile in one tick.
    pub closed spec fn spec_fluidity(&self) -> int {
        self.fluidity as int
    }

    /// How much every tile loses in one tick, before the flow.
    pub closed spec fn spec_dispersal(&self) -> int {
        self.dispersal as int
    }

    /// What `wf` means for the view.
    pub proof fn lemma_wf(&self)
        requires
            self.wf(),
        ensures
            self@.dom().finite(),
            forall|p: Pos| self@.contains_key(p) ==> 0 <= #[trigger] self@[p] <= i32::MAX,
            forall|p: Pos| 0 <= #[trigger] amount_at(self@, p) <= i32::MAX,
    {
        self.amounts.lemma_finite();
        assert(self@.dom() =~= self.amounts@.dom());
        assert forall|p: Pos| self@.contains_key(p) implies 0 <= #[trigger] self@[p] <= i32::MAX by {
            assert(self.amounts@[p] >= 0);
        }
    }

    /// An empty field with the given parameters.
    pub fn new(tile_checker: P, fluidity: i32, dispersal: i32) -> (f: FlowMap<P>)
        ensures
            f.wf(),
            f@ == Map::<Pos, int>::empty(),
            f.checker() == tile_checker,
            f.spec_fluidity() == fluidity,
            f.spec_dispersal() == dispersal,
    {
        let f = FlowMap { amounts: Grid::new(), tile_checker, fluidity, dispersal };
        assert(f@ =~= Map::<Pos, int>::empty());
        f
    }

    /// The number of stored amounts, zero entries included.
    pub fn len(&self) -> (n: usize)
        ensures
            n == self@.dom().len(),
    {
        assert(self@.dom() =~= self.amounts@.dom());
        self.amounts.len()
    }

    /// The amount at `(x, y)`, zero where nothing is stored.
    pub fn get_amount(&self, x: i32, y: i32) -> (a: i32)
        requires
            self.wf(),
        ensures
            a == amount_at(self@, (x, y)),
            a >= 0,
    {
        match self.amounts.get(x, y) {
            Some(a) => {
                assert(self.amounts@[(x, y)] >= 0);
                *a
            },
            None => 0,
        }
    }

    /// Adds `to_add` to the amount at `(x, y)`; the result stays between zero
    /// and the largest amount a tile can hold.
    pub fn add_amount(&mut self, x: i32, y: i32, to_add: i32)
        requires
            old(self).wf(),
        ensures
            final(self).wf(),
            final(self)@ == old(self)@.insert((x, y), clamped(amount_at(old(self)@, (x, y)) + to_add)),
            final(self).checker() == old(self).checker(),
            final(self).spec_fluidity() == old(self).spec_fluidity(),
            final(self).spec_dispersal() == old(self).spec_dispersal(),
    {
        let held = self.get_amount(x, y);
        let sum: i64 = held as i64 + to_add as i64;
        let amount: i32 = if sum < 0 {
            0
        } else if sum > i32::MAX as i64 {
            i32::MAX
        } else {
            sum as i32
        };
        self.amounts.insert(x, y, amount);
        assert(self@ =~= old(self)@.insert((x, y), clamped(amount_at(old(self)@, (x, y)) + to_add)));
    }

    /// Removes the zero entries.
    pub fn cleanup(&mut self)
        requires
            old(self).wf(),
        ensures
            final(self).wf(),
            final(self)@ == pruned(old(self)@),
            final(self).checker() == old(self).checker(),
            final(self).spec_fluidity() == old(self).spec_fluidity(),
            final(self).spec_dispersal() == old(self).spec_dispersal(),
    {
        let all = self.amounts.positions();
        let mut i: usize = 0;
        while i < all.len()
            invariant
                i <= all.len(),
                self.wf(),
                is_ascending_listing(all@, old(self)@.dom()),
                self.tile_checker == old(self).tile_checker,
                self.fluidity == old(self).fluidity,
                self.dispersal == old(self).dispersal,
                forall|p: Pos| #[trigger]
                    self@.contains_key(p) ==> old(self)@.contains_key(p) && self@[p] == old(self)@[p],
                forall|p: Pos| #[trigger]
                    old(self)@.contains_key(p) && old(self)@[p] != 0 ==> self@.contains_key(p),
                forall|k: int| 0 <= k < i && self@.contains_key(#[trigger] all@[k]) ==> self@[all@[k]] != 0,
            decreases all.len() - i,
        {
            let p = all[i];
            assert(all@.contains(p));
            if self.get_amount(p.0, p.1) == 0 {
                let ghost before = self@;
                self.amounts.remove(p.0, p.1);
                assert(self@ =~= before.remove(p));
            }
            i += 1;
        }
        proof {
            assert forall|p: Pos| self@.contains_key(p) <==> pruned(old(self)@).contains_key(p) by {
                if self@.contains_key(p) {
                    assert(all@.contains(p));
                    let k = choose|k: int| 0 <= k < all@.len() && all@[k] == p;
                    assert(self@.contains_key(all@[k]));
                }
            }
            assert(self@ =~= pruned(old(self)@));
        }
    }

    /// Lowers every amount by the dispersal, never below zero, and prunes.
    pub fn disperse(&mut self)
        requires
            old(self).wf(),
        ensures
            final(self).wf(),
            final(self)@ == pruned(decayed(old(self)@, old(self).spec_dispersal())),
            final(self).checker() == old(self).checker(),
            final(self).spec_fluidity() == old(self).spec_fluidity(),
            final(self).spec_dispersal() == old(self).spec_dispersal(),
    {
        let all = self.amounts.positions();
        let mut i: usize = 0;
        while i < all.len()
            invariant
                i <= all.len(),
                self.wf(),
                is_ascending_listing(all@, old(self)@.dom()),
                self.tile_checker == old(self).tile_checker,
                self.fluidity == old(self).fluidity,
                self.dispersal == old(self).dispersal,
                forall|p: Pos| self@.contains_key(p) <==> old(self)@.contains_key(p),
                forall|k: int|
                    0 <= k < all@.len() ==> self@[#[trigger] all@[k]] == if k < i {
                        clamped(old(self)@[all@[k]] - self.dispersal)
                    } else {
                        old(self)@[all@[k]]
                    },
            decreases all.len() - i,
        {
            let p = all[i];
            assert(all@.contains(p));
            let held = self.get_amount(p.0, p.1);
            let left: i64 = held as i64 - self.dispersal as i64;
            let amount: i32 = if left < 0 {
                0
            } else if left > i32::MAX as i64 {
                i32::MAX
            } else {
                left as i32
            };
            let ghost before = self@;
            self.amounts.insert(p.0, p.1, amount);
            proof {
                assert(self@ =~= before.insert(p, amount as int));
                assert forall|k: int| 0 <= k < all@.len() implies self@[#[trigger] all@[k]] == if k < i + 1 {
                    clamped(old(self)@[all@[k]] - self.dispersal)
                } else {
                    old(self)@[all@[k]]
                } by {
                    if k != i {
                        assert(all@[k] != all@[i as int]) by {
                            if k < i {
                                assert(crate::grid::pos_lt(all@[k], all@[i as int]));
                            } else {
                                assert(crate::grid::pos_lt(all@[i as int], all@[k]));
                            }
                        }
                    }
                }
            }
            i += 1;
        }
        proof {
            assert(self@ =~= decayed(old(self)@, old(self).spec_dispersal())) by {
                assert forall|p: Pos| self@.contains_key(p) implies self@[p] == decayed(
                    old(self)@,
                    old(self).spec_dispersal(),
                )[p] by {
                    assert(all@.contains(p));
                    let k = choose|k: int| 0 <= k < all@.len() && all@[k] == p;
                    assert(self@[all@[k]] == clamped(old(self)@[all@[k]] - self.dispersal));
                }
            }
        }
        self.cleanup();
    }

    /// The first position in `cands` of a candidate with the least amount.
    fn least_filled(&self, cands: &Vec<Pos>) -> (j: usize)
        requires
            self.wf(),
            cands@.len() > 0,
        ensures
            is_least(self@, cands@, j as int),
    {
        let mut best: usize = 0;
        let mut least = self.get_amount(cands[0].0, cands[0].1);
        let mut k: usize = 1;
        while k < cands.len()
            invariant
                self.wf(),
                0 <= best < k <= cands.len(),
                least == amount_at(self@, cands@[best as int]),
                forall|i: int| 0 <= i < k ==> least <= amount_at(self@, #[trigger] cands@[i]),
                forall|i: int| 0 <= i < best ==> least < amount_at(self@, #[trigger] cands@[i]),
            decreases cands.len() - k,
        {
            let a = self.get_amount(cands[k].0, cands[k].1);
            if a < least {
                best = k;
                least = a;
            }
            k += 1;
        }
        best
    }

    /// The neighbours of `(x, y)` that the substance can enter.
    fn candidates(&self, tiles: &Grid<Tile>, default_tile: Tile, x: i32, y: i32) -> (cands: Vec<Pos>)
        ensures
            cands@ == enterable(self.checker(), tiles@, default_tile, neighbors_spec((x, y))),
            forall|k: int| 0 <= k < cands@.len() ==> #[trigger] cands@[k] != (x, y),
    {
        let around = neighbors(x, y);
        let mut cands: Vec<Pos> = Vec::new();
        let mut i: usize = 0;
        proof {
            lemma_neighbors((x, y));
            assert(around@.subrange(0, 0) =~= Seq::<Pos>::empty());
        }
        while i < around.len()
            invariant
                i <= around.len(),
                around@ == neighbors_spec((x, y)),
                forall|q: Pos| neighbors_spec((x, y)).contains(q) <==> adjacent((x, y), q),
                cands@ == enterable(self.tile_checker, tiles@, default_tile, around@.subrange(0, i as int)),
                forall|k: int| 0 <= k < cands@.len() ==> #[trigger] cands@[k] != (x, y),
            decreases around.len() - i,
        {
            let q = around[i];
            assert(around@.contains(q));
            let tile = match tiles.get(q.0, q.1) {
                Some(t) => *t,
                None => default_tile,
            };
            proof {
                let upto = around@.subrange(0, i + 1);
                assert(upto.drop_last() =~= around@.subrange(0, i as int));
                assert(upto.last() == q);
            }
            if self.tile_checker.is_passable(tile) {
                cands.push(q);
            }
            i += 1;
        }
        assert(around@.subrange(0, i as int) =~= around@);
        cands
    }

    /// The flow out of the tile `(x, y)`.
    pub fn pour_from(&mut self, tiles: &Grid<Tile>, default_tile: Tile, x: i32, y: i32)
        requires
            old(self).wf(),
        ensures
            final(self).wf(),
            final(self)@ == pour(
                old(self)@,
                (x, y),
                enterable(old(self).checker(), tiles@, default_tile, neighbors_spec((x, y))),
                old(self).spec_fluidity(),
            ),
            final(self).checker() == old(self).checker(),
            final(self).spec_fluidity() == old(self).spec_fluidity(),
            final(self).spec_dispersal() == old(self).spec_dispersal(),
    {
        let mut cands = self.candidates(tiles, default_tile, x, y);
        let mut budget = self.fluidity;
        let mut held = self.get_amount(x, y);
        let ghost goal = pour(old(self)@, (x, y), cands@, old(self).spec_fluidity());
        while budget > 0 && cands.len() > 0 && held > 1
            invariant
                self.wf(),
                self.tile_checker == old(self).tile_checker,
                self.fluidity == old(self).fluidity,
                self.dispersal == old(self).dispersal,
                held == amount_at(self@, (x, y)),
                forall|k: int| 0 <= k < cands@.len() ==> #[trigger] cands@[k] != (x, y),
                pour(self@, (x, y), cands@, budget as int) == goal,
            decreases budget, cands.len(),
        {
            let j = self.least_filled(&cands);
            let q = cands[j];
            let at_q = self.get_amount(q.0, q.1);
            proof {
                let chosen = choose|c: int| is_least(self@, cands@, c);
                lemma_least_unique(self@, cands@, j as int, chosen);
            }
            if at_q < held - 1 {
                let ghost before = self@;
                self.amounts.insert(x, y, held - 1);
                self.amounts.insert(q.0, q.1, at_q + 1);
                assert(self@ =~= before.insert((x, y), held - 1).insert(q, at_q + 1));
                held = held - 1;
                budget = budget - 1;
            } else {
                cands.remove(j);
            }
        }
    }

    /// The flow out of every tile of the map and every tile that holds gas,
    /// in ascending order of coordinates.
    pub fn flow(&mut self, tiles: &Grid<Tile>, default_tile: Tile)
        requires
            old(self).wf(),
        ensures
            final(self).wf(),
            final(self)@ == flow_over(
                old(self).checker(),
                tiles@,
                default_tile,
                old(self).spec_fluidity(),
                old(self)@,
                ascending(tiles@.dom().union(old(self)@.dom())),
            ),
            final(self).checker() == old(self).checker(),
            final(self).spec_fluidity() == old(self).spec_fluidity(),
            final(self).spec_dispersal() == old(self).spec_dispersal(),
    {
        let ghost both = tiles@.dom().union(old(self)@.dom());
        let mut marks: Grid<bool> = Grid::new();
        let mapped = tiles.positions();
        let mut i: usize = 0;
        while i < mapped.len()
            invariant
                i <= mapped.len(),
                is_ascending_listing(mapped@, tiles@.dom()),
                forall|p: Pos| #[trigger]
                    marks@.contains_key(p) <==> exists|k: int| 0 <= k < i && mapped@[k] == p,
            decreases mapped.len() - i,
        {
            let p = mapped[i];
            let ghost before = marks@;
            marks.insert(p.0, p.1, true);
            proof {
                assert forall|r: Pos| #[trigger]
                    marks@.contains_key(r) <==> exists|k: int| 0 <= k < i + 1 && mapped@[k] == r by {
                    if before.contains_key(r) {
                        let k = choose|k: int| 0 <= k < i && mapped@[k] == r;
                        assert(0 <= k < i + 1 && mapped@[k] == r);
                    }
                    if r == p {
                        assert(mapped@[i as int] == r);
                    }
                }
            }
            i += 1;
        }
        let filled = self.amounts.positions();
        let mut i: usize = 0;
        while i < filled.len()
            invariant
                i <= filled.len(),
                is_ascending_listing(filled@, self.amounts@.dom()),
                forall|p: Pos| #[trigger]
                    marks@.contains_key(p) <==> (tiles@.contains_key(p) || exists|k: int|
                        0 <= k < i && filled@[k] == p),
            decreases filled.len() - i,
        {
            let p = filled[i];
            let ghost before = marks@;
            marks.insert(p.0, p.1, true);
            proof {
                assert forall|r: Pos| #[trigger]
                    marks@.contains_key(r) <==> (tiles@.contains_key(r) || exists|k: int|
                        0 <= k < i + 1 && filled@[k] == r) by {
                    if before.contains_key(r) && !tiles@.contains_key(r) {
                        let k = choose|k: int| 0 <= k < i && filled@[k] == r;
                        assert(0 <= k < i + 1 && filled@[k] == r);
                    }
                    if r == p {
                        assert(filled@[i as int] == r);
                    }
                }
            }
            i += 1;
        }
        let order = marks.positions();
        proof {
            assert(self@.dom() =~= self.amounts@.dom());
            assert(marks@.dom() =~= both) by {
                assert forall|p: Pos| marks@.dom().contains(p) <==> both.contains(p) by {
                    if self@.contains_key(p) {
                        assert(filled@.contains(p));
                        let k = choose|k: int| 0 <= k < filled@.len() && filled@[k] == p;
                        assert(0 <= k < i && filled@[k] == p);
                    }
                    if marks@.contains_key(p) && !tiles@.contains_key(p) {
                        let k = choose|k: int| 0 <= k < i && filled@[k] == p;
                        assert(filled@.contains(p));
                    }
                }
            }
            crate::grid::lemma_listing_unique(order@, ascending(both), both);
            assert(order@.skip(0) =~= order@);
        }
        let mut i: usize = 0;
        while i < order.len()
            invariant
                i <= order.len(),
                self.wf(),
                self.tile_checker == old(self).tile_checker,
                self.fluidity == old(self).fluidity,
                self.dispersal == old(self).dispersal,
                flow_over(
                    self.tile_checker,
                    tiles@,
                    default_tile,
                    self.fluidity as int,
                    self@,
                    order@.skip(i as int),
                ) == flow_over(
                    old(self).tile_checker,
                    tiles@,
                    default_tile,
                    old(self).fluidity as int,
                    old(self)@,
                    order@,
                ),
            decreases order.len() - i,
        {
            let p = order[i];
            proof {
                assert(order@.skip(i as int)[0] == p);
                assert(order@.skip(i as int).drop_first() =~= order@.skip(i + 1));
            }
            self.pour_from(tiles, default_tile, p.0, p.1);
            i += 1;
        }
        assert(order@.skip(i as int) =~= Seq::<Pos>::empty());
    }

    /// Advances the simulation by one step: decay, flow, pruning.
    pub fn tick(&mut self, tiles: &Grid<Tile>, default_tile: Tile)
        requires
            old(self).wf(),
        ensures
            final(self).wf(),
            final(self)@ == ticked(
                old(self).checker(),
                tiles@,
                default_tile,
                old(self).spec_fluidity(),
                old(self).spec_dispersal(),
                old(self)@,
            ),
            final(self).checker() == old(self).checker(),
            final(self).spec_fluidity() == old(self).spec_fluidity(),
            final(self).spec_dispersal() == old(self).spec_dispersal(),
    {
        self.disperse();
        self.flow(tiles, default_tile);
        self.cleanup();
    }
}

/// A candidate list has at most one first least-filled position.
proof fn lemma_least_unique(m: Map<Pos, int>, cands: Seq<Pos>, a: int, b: int)
    requires
        is_least(m, cands, a),
        exists|c: int| is_least(m, cands, c),
        b == choose|c: int| is_least(m, cands, c),
    ensures
        a == b,
{
    assert(is_least(m, cands, b));
    if a < b {
        assert(amount_at(m, cands[b]) < amount_at(m, cands[a]));
        assert(amount_at(m, cands[a]) <= amount_at(m, cands[b]));
    }
    if b < a {
        assert(amount_at(m, cands[a]) < amount_at(m, cands[b]));
        assert(amount_at(m, cands[b]) <= amount_at(m, cands[a]));
    }
}

} // verus!
