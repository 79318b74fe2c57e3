//! The tile map: tiles, the lazily recomputed path field, and the gas field.

use crate::grid::{is_ascending_listing, Grid, Pos};
use crate::resources::flow::{amount_at, clamped, ticked, FlowMap, GasFlow};
use crate::resources::path::{
    greedy_from, greedy_step, improves, neighbors, neighbors_spec, path_field, spawn_set, spawns_connected,
    tile_at, tile_of, DijkstraMap, Tile,
};
use crate::tile_helpers::{addressable, is_addressable};
use vstd::prelude::*;

verus! {

/// How many units of gas can leave one tile in one tick.
pub const GAS_FLUIDITY: i32 = 6;

/// How much gas every tile loses in one tick.
pub const GAS_DISPERSAL: i32 = 1;

/// The tiles of the game, with the path field to the core tiles and the
/// poison gas that lies on them.
pub struct TileMap {
    map: Grid<Tile>,
    dijkstra_maps_dirty: bool,
    core_paths: DijkstraMap,
    poison_gas_map: FlowMap<GasFlow>,
}

impl TileMap {
    /// The tiles that have been set, by coordinate.
    pub closed spec fn tiles(&self) -> Map<Pos, Tile> {
        self.map@
    }

    /// The amounts of gas that are stored, by coordinate.
    pub closed spec fn gas(&self) -> Map<Pos, int> {
        self.poison_gas_map@
    }

    /// The cached path field is that of the tiles unless it is marked dirty,
    /// every tile that has been set is addressable, and the gas field is
    /// well formed and has the game's two parameters.
    pub closed spec fn wf(&self) -> bool {
        &&& self.poison_gas_map.wf()
        &&& self.poison_gas_map.checker() == GasFlow
        &&& self.poison_gas_map.spec_fluidity() == GAS_FLUIDITY
        &&& self.poison_gas_map.spec_dispersal() == GAS_DISPERSAL
        &&& !self.dijkstra_maps_dirty ==> self.core_paths@ == path_field(self.map@)
        &&& forall|p: Pos| self.map@.contains_key(p) ==> addressable(p)
    }

    /// What `wf` says of the two views.
    pub proof fn lemma_wf(&self)
        requires
            self.wf(),
        ensures
            forall|p: Pos| self.tiles().contains_key(p) ==> addressable(p),
            forall|p: Pos| 0 <= #[trigger] amount_at(self.gas(), p) <= i32::MAX,
            self.tiles().dom().finite(),
            self.gas().dom().finite(),
    {
        self.poison_gas_map.lemma_wf();
        self.map.lemma_finite();
    }

    /// A map without tiles and without gas.
    pub fn new() -> (m: Self)
        ensures
            m.wf(),
            m.tiles() == Map::<Pos, Tile>::empty(),
            m.gas() == Map::<Pos, int>::empty(),
    {
        TileMap {
            map: Grid::new(),
            dijkstra_maps_dirty: true,
            core_paths: DijkstraMap::new(),
            poison_gas_map: FlowMap::new(GasFlow, GAS_FLUIDITY, GAS_DISPERSAL),
        }
    }

    /// Advances the gas field by one step.
    pub fn tick_gas_map(&mut self)
        requires
            old(self).wf(),
        ensures
            final(self).wf(),
            final(self).tiles() == old(self).tiles(),
            final(self).gas() == ticked(
                GasFlow,
                old(self).tiles(),
                Tile::Wall,
                GAS_FLUIDITY as int,
                GAS_DISPERSAL as int,
                old(self).gas(),
            ),
    {
        self.poison_gas_map.tick(&self.map, Tile::Wall);
    }

    /// Adds `amount` to the gas on the tile `(tile_x, tile_y)`; the result
    /// stays between zero and the largest amount a tile can hold.
    pub fn add_gas_to_tile(&mut self, tile_x: i32, tile_y: i32, amount: i32)
        requires
            old(self).wf(),
        ensures
            final(self).wf(),
            final(self).tiles() == old(self).tiles(),
            final(self).gas() == old(self).gas().insert(
                (tile_x, tile_y),
                clamped(amount_at(old(self).gas(), (tile_x, tile_y)) + amount),
            ),
    {
        self.poison_gas_map.add_amount(tile_x, tile_y, amount)
    }

    /// The amount of gas on the tile `(tile_x, tile_y)`.
    pub fn get_gas_amount(&self, tile_x: i32, tile_y: i32) -> (a: i32)
        requires
            self.wf(),
        ensures
            a == amount_at(self.gas(), (tile_x, tile_y)),
            a >= 0,
    {
        self.poison_gas_map.get_amount(tile_x, tile_y)
    }

    /// The tile at `(x, y)`; `Wall` where none has been set.
    pub fn get_tile(&self, x: i32, y: i32) -> (t: Tile)
        ensures
            t == tile_at(self.tiles(), (x, y)),
    {
        tile_of(&self.map, x, y)
    }

    /// Sets the tile at `(x, y)`. The path field is recomputed when it is next read.
    pub fn set_tile(&mut self, x: i32, y: i32, tile: Tile)
        requires
            old(self).wf(),
            addressable((x, y)),
        ensures
            final(self).wf(),
            final(self).tiles() == old(self).tiles().insert((x, y), tile),
            final(self).gas() == old(self).gas(),
    {
        self.dijkstra_maps_dirty = true;
        self.map.insert(x, y, tile);
    }

    /// Whether, with the tile at `(x, y)` set to `tile`, every spawn tile
    /// could still be reached from some core tile. The map itself is not
    /// changed. A coordinate that is not addressable cannot be set.
    pub fn can_set_tile(&self, x: i32, y: i32, tile: Tile) -> (r: bool)
        ensures
            r == (addressable((x, y)) && spawns_connected(self.tiles().insert((x, y), tile))),
    {
        if !is_addressable(x, y) {
            return false;
        }
        let mut test = self.map.clone();
        test.insert(x, y, tile);
        let mut field = DijkstraMap::new();
        field.recompute(&test);
        let all = test.positions();
        let mut i: usize = 0;
        while i < all.len()
            invariant
                i <= all.len(),
                is_ascending_listing(all@, test@.dom()),
                test@ == self.tiles().insert((x, y), tile),
                addressable((x, y)),
                field@ == path_field(test@),
                forall|k: int|
                    0 <= k < i && test@[#[trigger] all@[k]] == Tile::Spawn ==> path_field(test@).contains_key(
                        all@[k],
                    ),
            decreases all.len() - i,
        {
            let p = all[i];
            assert(all@.contains(p));
            if tile_of(&test, p.0, p.1) == Tile::Spawn && field.cost(p.0, p.1).is_none() {
                assert(test@.contains_key(p) && test@[p] == Tile::Spawn && !path_field(test@).contains_key(p));
                return false;
            }
            i += 1;
        }
        proof {
            assert forall|p: Pos| test@.contains_key(p) && test@[p] == Tile::Spawn implies #[trigger] path_field(
                test@,
            ).contains_key(p) by {
                assert(all@.contains(p));
                let k = choose|k: int| 0 <= k < all@.len() && all@[k] == p;
                assert(test@[all@[k]] == Tile::Spawn);
            }
        }
        true
    }

    /// Recomputes the path field if a tile has been set since it was last computed.
    fn recompute_dijkstra_maps(&mut self)
        requires
            old(self).wf(),
        ensures
            final(self).wf(),
            final(self).tiles() == old(self).tiles(),
            final(self).gas() == old(self).gas(),
            final(self).core_paths@ == path_field(final(self).tiles()),
    {
        if !self.dijkstra_maps_dirty {
            return ;
        }
        self.core_paths.recompute(&self.map);
        self.dijkstra_maps_dirty = false;
    }

    /// The least number of steps from a core tile to `(x, y)`, if there is a path.
    pub fn path_cost(&mut self, x: i32, y: i32) -> (r: Option<usize>)
        requires
            old(self).wf(),
        ensures
            final(self).wf(),
            final(self).tiles() == old(self).tiles(),
            final(self).gas() == old(self).gas(),
            match r {
                Some(c) => path_field(old(self).tiles()).contains_key((x, y)) && path_field(old(self).tiles())[(
                    x,
                    y,
                )] == c,
                None => !path_field(old(self).tiles()).contains_key((x, y)),
            },
    {
        self.recompute_dijkstra_maps();
        self.core_paths.cost(x, y)
    }

    /// The tile to which a mob on the tile `(start_x, start_y)` steps: the
    /// passable neighbour with the smallest cost in the path field, if that
    /// is smaller than the cost of its own tile; otherwise its own tile.
    pub fn move_toward_spawn(&mut self, start_x: i32, start_y: i32) -> (r: (i32, i32))
        requires
            old(self).wf(),
        ensures
            final(self).wf(),
            final(self).tiles() == old(self).tiles(),
            final(self).gas() == old(self).gas(),
            r == greedy_step(old(self).tiles(), (start_x, start_y)),
    {
        self.recompute_dijkstra_maps();
        let mut least = self.core_paths.cost(start_x, start_y);
        let mut winning_coords = (start_x, start_y);
        let around = neighbors(start_x, start_y);
        let ghost tiles = self.map@;
        let ghost field = path_field(tiles);
        let mut i: usize = 0;
        assert(around@.skip(0) =~= around@);
        while i < around.len()
            invariant
                i <= around.len(),
                tiles == self.map@,
                field == path_field(tiles),
                self.core_paths@ == field,
                around@ == neighbors_spec((start_x, start_y)),
                match least {
                    Some(c) => field.contains_key(winning_coords) && field[winning_coords] == c,
                    None => !field.contains_key(winning_coords),
                },
                greedy_from(tiles, field, around@.skip(i as int), winning_coords) == greedy_from(
                    tiles,
                    field,
                    around@,
                    (start_x, start_y),
                ),
            decreases around.len() - i,
        {
            let q = around[i];
            proof {
                assert(around@.skip(i as int)[0] == q);
                assert(around@.skip(i as int).drop_first() =~= around@.skip(i + 1));
            }
            if tile_of(&self.map, q.0, q.1).is_passable() {
                match self.core_paths.cost(q.0, q.1) {
                    Some(cost) => {
                        let wins = match least {
                            Some(l) => cost < l,
                            None => true,
                        };
                        assert(wins == improves(tiles, field, q, winning_coords));
                        if wins {
                            least = Some(cost);
                            winning_coords = q;
                        }
                    },
                    None => {},
                }
            }
            i += 1;
        }
        winning_coords
    }

    /// The coordinates of the spawn tiles, in ascending order.
    pub fn all_spawns(&self) -> (r: Vec<(i32, i32)>)
        ensures
            is_ascending_listing(r@, spawn_set(self.tiles())),
    {
        let all = self.map.positions();
        let mut r: Vec<(i32, i32)> = Vec::new();
        let mut i: usize = 0;
        while i < all.len()
            invariant
                i <= all.len(),
                is_ascending_listing(all@, self.map@.dom()),
                forall|a: int, b: int| 0 <= a < b < r@.len() ==> crate::grid::pos_lt(#[trigger] r@[a], #[trigger] r@[b]),
                forall|a: int| 0 <= a < r@.len() ==> exists|k: int| 0 <= k < i && all@[k] == #[trigger] r@[a],
                forall|a: int| 0 <= a < r@.len() ==> self.map@[#[trigger] r@[a]] == Tile::Spawn,
                forall|k: int| 0 <= k < i && self.map@[#[trigger] all@[k]] == Tile::Spawn ==> r@.contains(all@[k]),
            decreases all.len() - i,
        {
            let p = all[i];
            assert(all@.contains(p));
            if tile_of(&self.map, p.0, p.1) == Tile::Spawn {
                let ghost before = r@;
                r.push(p);
                proof {
                    assert forall|a: int, b: int| 0 <= a < b < r@.len() implies crate::grid::pos_lt(
                        #[trigger] r@[a],
                        #[trigger] r@[b],
                    ) by {
                        if b == before.len() {
                            let k = choose|k: int| 0 <= k < i && all@[k] == before[a];
                            assert(crate::grid::pos_lt(all@[k], all@[i as int]));
                        }
                    }
                    assert forall|a: int| 0 <= a < r@.len() implies exists|k: int|
                        0 <= k < i + 1 && all@[k] == #[trigger] r@[a] by {
                        if a < before.len() {
                            let k = choose|k: int| 0 <= k < i && all@[k] == before[a];
                            assert(0 <= k < i + 1 && all@[k] == r@[a]);
                        } else {
                            assert(all@[i as int] == r@[a]);
                        }
                    }
                    assert forall|k: int|
                        0 <= k < i + 1 && self.map@[#[trigger] all@[k]] == Tile::Spawn implies r@.contains(
                        all@[k],
                    ) by {
                        if k < i {
                            assert(before.contains(all@[k]));
                            let a = choose|a: int| 0 <= a < before.len() && before[a] == all@[k];
                            assert(r@[a] == all@[k]);
                        } else {
                            assert(r@[before.len() as int] == all@[k]);
                        }
                    }
                }
            } else {
                proof {
                    assert forall|a: int| 0 <= a < r@.len() implies exists|k: int|
                        0 <= k < i + 1 && all@[k] == #[trigger] r@[a] by {
                        let k = choose|k: int| 0 <= k < i && all@[k] == r@[a];
                        assert(0 <= k < i + 1 && all@[k] == r@[a]);
                    }
                }
            }
            i += 1;
        }
        proof {
            let spawns = spawn_set(self.tiles());
            assert forall|p: Pos| r@.contains(p) <==> spawns.contains(p) by {
                if r@.contains(p) {
                    let a = choose|a: int| 0 <= a < r@.len() && r@[a] == p;
                    let k = choose|k: int| 0 <= k < i && all@[k] == r@[a];
                    assert(all@.contains(p));
                    assert(self.map@[r@[a]] == Tile::Spawn);
                }
                if spawns.contains(p) {
                    assert(all@.contains(p));
                    let k = choose|k: int| 0 <= k < all@.len() && all@[k] == p;
                    assert(self.map@[all@[k]] == Tile::Spawn);
                }
            }
        }
        r
    }
}

} // verus!
