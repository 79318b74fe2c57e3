//! What holds of the path field on a straight corridor.

use crate::grid::Pos;
use crate::resources::path::{adjacent, lemma_path_field_at, path_field, reaches, tile_at, Tile};
use vstd::prelude::*;

verus! {

/// An offset of `i` steps along an axis whose direction is `d`: `1`, `-1`,
/// or `0` for the other axis.
pub open spec fn offset(d: int, i: int) -> int {
    if d == 1 {
        i
    } else if d == -1 {
        -i
    } else {
        0
    }
}

/// The coordinate `i` steps from `p` in the direction `(dx, dy)`.
pub open spec fn along(p: Pos, dx: int, dy: int, i: int) -> Pos {
    ((p.0 + offset(dx, i)) as i32, (p.1 + offset(dy, i)) as i32)
}

/// The number of steps between two coordinates when every step goes along one axis.
pub open spec fn manhattan(p: Pos, q: Pos) -> int {
    (if p.0 >= q.0 {
        p.0 - q.0
    } else {
        q.0 - p.0
    }) + (if p.1 >= q.1 {
        p.1 - q.1
    } else {
        q.1 - p.1
    })
}

/// `(dx, dy)` is one step along one axis.
pub open spec fn is_direction(dx: int, dy: int) -> bool {
    ((dx == 1 || dx == -1) && dy == 0) || (dx == 0 && (dy == 1 || dy == -1))
}

/// With a single core tile, nothing is reached in fewer steps than lie
/// between it and the core.
pub proof fn lemma_cost_at_least_distance(tiles: Map<Pos, Tile>, core: Pos, p: Pos, c: nat)
    requires
        forall|q: Pos| tile_at(tiles, q) == Tile::Core ==> q == core,
        reaches(tiles, p, c),
    ensures
        manhattan(core, p) <= c,
    decreases c,
{
    if tile_at(tiles, p) != Tile::Core {
        let q = choose|q: Pos|
            #[trigger] adjacent(q, p) && tile_at(tiles, q).passable() && reaches(tiles, q, (c - 1) as nat);
        lemma_cost_at_least_distance(tiles, core, q, (c - 1) as nat);
    }
}

/// Along a corridor of passable tiles that starts at a core tile, the tile
/// `i` steps away is reached in `i` steps.
proof fn lemma_corridor_reached(tiles: Map<Pos, Tile>, core: Pos, dx: int, dy: int, n: nat, i: nat)
    requires
        is_direction(dx, dy),
        i32::MIN <= core.0 + offset(dx, n as int) <= i32::MAX,
        i32::MIN <= core.1 + offset(dy, n as int) <= i32::MAX,
        tile_at(tiles, core) == Tile::Core,
        forall|j: int| 0 < j < n ==> tile_at(tiles, #[trigger] along(core, dx, dy, j)).passable(),
        i <= n,
    ensures
        reaches(tiles, along(core, dx, dy, i as int), i),
    decreases i,
{
    if i > 0 {
        let j = (i - 1) as nat;
        lemma_corridor_reached(tiles, core, dx, dy, n, j);
        let q = along(core, dx, dy, j as int);
        let p = along(core, dx, dy, i as int);
        assert(adjacent(q, p));
        if j == 0 {
            assert(q == core);
        } else {
            assert(tile_at(tiles, along(core, dx, dy, j as int)).passable());
        }
    } else {
        assert(along(core, dx, dy, 0) == core);
    }
}

/// Path field correctness on a corridor. In a map with exactly one core
/// tile, from which a straight corridor of `n - 1` open tiles leads to a
/// spawn tile `n` steps away, the path field gives the spawn tile the cost
/// `n` and the core tile the cost zero, whatever else the map holds.
pub proof fn lemma_corridor_cost(tiles: Map<Pos, Tile>, core: Pos, dx: int, dy: int, n: nat)
    requires
        is_direction(dx, dy),
        i32::MIN <= core.0 + offset(dx, n as int) <= i32::MAX,
        i32::MIN <= core.1 + offset(dy, n as int) <= i32::MAX,
        tile_at(tiles, core) == Tile::Core,
        forall|q: Pos| tile_at(tiles, q) == Tile::Core ==> q == core,
        forall|j: int| 0 < j < n ==> tile_at(tiles, #[trigger] along(core, dx, dy, j)) == Tile::Open,
        n > 0,
        tile_at(tiles, along(core, dx, dy, n as int)) == Tile::Spawn,
    ensures
        path_field(tiles).contains_key(along(core, dx, dy, n as int)),
        path_field(tiles)[along(core, dx, dy, n as int)] == n,
        path_field(tiles).contains_key(core),
        path_field(tiles)[core] == 0,
{
    let spawn = along(core, dx, dy, n as int);
    lemma_corridor_reached(tiles, core, dx, dy, n, n);
    lemma_path_field_at(tiles, spawn, n);
    let c = path_field(tiles)[spawn];
    lemma_cost_at_least_distance(tiles, core, spawn, c);
    assert(manhattan(core, spawn) == n);
    assert(reaches(tiles, core, 0));
    lemma_path_field_at(tiles, core, 0);
}

} // verus!
