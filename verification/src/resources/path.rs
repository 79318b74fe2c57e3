//! Tiles and the shortest-path field from the core tiles.

use crate::grid::{Grid, Pos};
use vstd::prelude::*;

verus! {

/// The classification of one grid cell.
#[derive(Copy, Clone, Debug, PartialEq, Eq, Hash, Structural)]
pub enum Tile {
    Open,
    Wall,
    Spawn,
    Core,
}

impl Tile {
    /// Whether a mob can stand on and walk through this tile.
    pub open spec fn passable(self) -> bool {
        self != Tile::Wall
    }

    /// Whether a mob can stand on and walk through this tile.
    pub fn is_passable(self) -> (r: bool)
        ensures
            r == self.passable(),
    {
        match self {
            Tile::Open => true,
            Tile::Wall => false,
            Tile::Spawn => true,
            Tile::Core => true,
        }
    }
}

/// The tile that `name` stands for in written game data.
pub open spec fn tile_named(name: Seq<char>) -> Option<Tile> {
    if name == "Wall"@ {
        Some(Tile::Wall)
    } else if name == "Open"@ {
        Some(Tile::Open)
    } else if name == "Spawn"@ {
        Some(Tile::Spawn)
    } else if name == "Core"@ {
        Some(Tile::Core)
    } else {
        None
    }
}

/// Reads a tile from its name; any other text names no tile.
pub fn parse_tile(name: &str) -> (r: Option<Tile>)
    ensures
        r == tile_named(name@),
{
    let owned = name.to_owned();
    if owned == "Wall".to_owned() {
        Some(Tile::Wall)
    } else if owned == "Open".to_owned() {
        Some(Tile::Open)
    } else if owned == "Spawn".to_owned() {
        Some(Tile::Spawn)
    } else if owned == "Core".to_owned() {
        Some(Tile::Core)
    } else {
        None
    }
}

/// The tile at `p`: what is stored there, and `Wall` where nothing is.
pub open spec fn tile_at(tiles: Map<Pos, Tile>, p: Pos) -> Tile {
    if tiles.contains_key(p) {
        tiles[p]
    } else {
        Tile::Wall
    }
}

/// Two coordinates are adjacent when they differ by one step along one axis.
pub open spec fn adjacent(p: Pos, q: Pos) -> bool {
    ||| (p.0 == q.0 && (p.1 - q.1 == 1 || q.1 - p.1 == 1))
    ||| (p.1 == q.1 && (p.0 - q.0 == 1 || q.0 - p.0 == 1))
}

/// The neighbours of `p` inside the grid, in the order west, east, south, north.
pub open spec fn neighbors_spec(p: Pos) -> Seq<Pos> {
    let w = if p.0 > i32::MIN { seq![((p.0 - 1) as i32, p.1)] } else { Seq::empty() };
    let e = if p.0 < i32::MAX { seq![((p.0 + 1) as i32, p.1)] } else { Seq::empty() };
    let s = if p.1 > i32::MIN { seq![(p.0, (p.1 - 1) as i32)] } else { Seq::empty() };
    let n = if p.1 < i32::MAX { seq![(p.0, (p.1 + 1) as i32)] } else { Seq::empty() };
    w + e + s + n
}

/// The neighbour list holds exactly the adjacent coordinates, each once.
pub proof fn lemma_neighbors(p: Pos)
    ensures
        forall|q: Pos| neighbors_spec(p).contains(q) <==> adjacent(p, q),
        neighbors_spec(p).no_duplicates(),
        neighbors_spec(p).len() <= 4,
{
    let l = neighbors_spec(p);
    assert forall|q: Pos| adjacent(p, q) implies l.contains(q) by {
        if p.1 == q.1 && p.0 - q.0 == 1 {
            assert(l[0] == q);
        } else if p.1 == q.1 && q.0 - p.0 == 1 {
            let i = if p.0 > i32::MIN { 1int } else { 0int };
            assert(l[i] == q);
        } else if p.0 == q.0 && p.1 - q.1 == 1 {
            let i = (if p.0 > i32::MIN { 1int } else { 0int }) + (if p.0 < i32::MAX { 1int } else { 0int });
            assert(l[i] == q);
        } else {
            let i = (if p.0 > i32::MIN { 1int } else { 0int }) + (if p.0 < i32::MAX { 1int } else { 0int })
                + (if p.1 > i32::MIN { 1int } else { 0int });
            assert(l[i] == q);
        }
    }
}

/// The neighbours of `(x, y)` inside the grid, in the order west, east, south, north.
pub fn neighbors(x: i32, y: i32) -> (r: Vec<Pos>)
    ensures
        r@ == neighbors_spec((x, y)),
{
    let mut r: Vec<Pos> = Vec::new();
    if x > i32::MIN {
        r.push((x - 1, y));
    }
    if x < i32::MAX {
        r.push((x + 1, y));
    }
    if y > i32::MIN {
        r.push((x, y - 1));
    }
    if y < i32::MAX {
        r.push((x, y + 1));
    }
    assert(r@ =~= neighbors_spec((x, y)));
    r
}

/// `p` can be reached from some core tile in at most `c` steps, each step
/// leaving a passable tile for an adjacent coordinate.
pub open spec fn reaches(tiles: Map<Pos, Tile>, p: Pos, c: nat) -> bool
    decreases c,
{
    ||| tile_at(tiles, p) == Tile::Core
    ||| (c > 0 && exists|q: Pos|
        #[trigger] adjacent(q, p) && tile_at(tiles, q).passable() && reaches(tiles, q, (c - 1) as nat))
}

/// `c` is the least number of steps in which `p` can be reached from a core tile.
pub open spec fn is_cost(tiles: Map<Pos, Tile>, p: Pos, c: nat) -> bool {
    reaches(tiles, p, c) && (c == 0 || !reaches(tiles, p, (c - 1) as nat))
}

/// The path field of a tile map: for every coordinate that can be reached
/// from a core tile, the least number of steps.
pub open spec fn path_field(tiles: Map<Pos, Tile>) -> Map<Pos, nat> {
    Map::new(
        |p: Pos| exists|c: nat| reaches(tiles, p, c),
        |p: Pos| choose|c: nat| is_cost(tiles, p, c),
    )
}

/// More steps reach at least as far.
pub proof fn lemma_reaches_monotonic(tiles: Map<Pos, Tile>, p: Pos, c: nat, d: nat)
    requires
        reaches(tiles, p, c),
        c <= d,
    ensures
        reaches(tiles, p, d),
    decreases c,
{
    if tile_at(tiles, p) != Tile::Core {
        let q = choose|q: Pos|
            #[trigger] adjacent(q, p) && tile_at(tiles, q).passable() && reaches(tiles, q, (c - 1) as nat);
        lemma_reaches_monotonic(tiles, q, (c - 1) as nat, (d - 1) as nat);
    }
}

/// A coordinate has at most one least step count.
pub proof fn lemma_cost_unique(tiles: Map<Pos, Tile>, p: Pos, c: nat, d: nat)
    requires
        is_cost(tiles, p, c),
        is_cost(tiles, p, d),
    ensures
        c == d,
{
    if c < d {
        lemma_reaches_monotonic(tiles, p, c, (d - 1) as nat);
    }
    if d < c {
        lemma_reaches_monotonic(tiles, p, d, (c - 1) as nat);
    }
}

/// A coordinate that can be reached at all has a least step count.
pub proof fn lemma_cost_exists(tiles: Map<Pos, Tile>, p: Pos, c: nat) -> (m: nat)
    requires
        reaches(tiles, p, c),
    ensures
        is_cost(tiles, p, m),
        m <= c,
    decreases c,
{
    if c > 0 && reaches(tiles, p, (c - 1) as nat) {
        lemma_cost_exists(tiles, p, (c - 1) as nat)
    } else {
        c
    }
}

/// What the path field says of a coordinate that can be reached.
pub proof fn lemma_path_field_at(tiles: Map<Pos, Tile>, p: Pos, c: nat)
    requires
        reaches(tiles, p, c),
    ensures
        path_field(tiles).contains_key(p),
        is_cost(tiles, p, path_field(tiles)[p]),
        path_field(tiles)[p] <= c,
{
    let m = lemma_cost_exists(tiles, p, c);
    let f = path_field(tiles)[p];
    assert(is_cost(tiles, p, f));
    lemma_cost_unique(tiles, p, m, f);
}

/// The path field holds the least step count of every coordinate it holds.
pub proof fn lemma_field_cost(tiles: Map<Pos, Tile>, p: Pos)
    requires
        path_field(tiles).contains_key(p),
    ensures
        is_cost(tiles, p, path_field(tiles)[p]),
{
    let c = choose|c: nat| reaches(tiles, p, c);
    lemma_path_field_at(tiles, p, c);
}

/// If no coordinate needs exactly `k + 1` steps, none needs more.
proof fn lemma_stable(tiles: Map<Pos, Tile>, k: nat, p: Pos, c: nat)
    requires
        forall|q: Pos| reaches(tiles, q, k + 1) ==> reaches(tiles, q, k),
        reaches(tiles, p, c),
    ensures
        reaches(tiles, p, k),
    decreases c,
{
    if c <= k {
        lemma_reaches_monotonic(tiles, p, c, k);
    } else if tile_at(tiles, p) != Tile::Core {
        let q = choose|q: Pos|
            #[trigger] adjacent(q, p) && tile_at(tiles, q).passable() && reaches(tiles, q, (c - 1) as nat);
        lemma_stable(tiles, k, q, (c - 1) as nat);
        assert(reaches(tiles, p, k + 1));
    }
}

/// Without a core tile nothing can be reached.
proof fn lemma_no_core(tiles: Map<Pos, Tile>, p: Pos, c: nat)
    requires
        forall|q: Pos| tile_at(tiles, q) != Tile::Core,
    ensures
        !reaches(tiles, p, c),
    decreases c,
{
    if reaches(tiles, p, c) {
        let q = choose|q: Pos|
            #[trigger] adjacent(q, p) && tile_at(tiles, q).passable() && reaches(tiles, q, (c - 1) as nat);
        lemma_no_core(tiles, q, (c - 1) as nat);
    }
}

/// The tile at `(x, y)`: what is stored there, and `Wall` where nothing is.
pub fn tile_of(tiles: &Grid<Tile>, x: i32, y: i32) -> (t: Tile)
    ensures
        t == tile_at(tiles@, (x, y)),
{
    match tiles.get(x, y) {
        Some(t) => *t,
        None => Tile::Wall,
    }
}

/// The cached shortest-path field from the core tiles.
pub struct DijkstraMap {
    costs: Grid<usize>,
}

impl View for DijkstraMap {
    type V = Map<Pos, nat>;

    closed spec fn view(&self) -> Map<Pos, nat> {
        Map::new(|p: Pos| self.costs@.contains_key(p), |p: Pos| self.costs@[p] as nat)
    }
}

/// The state of the search between two levels: `costs` holds exactly what
/// can be reached in `level` steps, each with its least step count, and
/// `frontier` lists what needs exactly `level` steps.
spec fn level_inv(tiles: Map<Pos, Tile>, costs: Map<Pos, usize>, frontier: Seq<Pos>, level: nat) -> bool {
    &&& costs.dom().finite()
    &&& forall|p: Pos| costs.contains_key(p) <==> reaches(tiles, p, level)
    &&& forall|p: Pos| costs.contains_key(p) ==> is_cost(tiles, p, #[trigger] costs[p] as nat) && costs[p] <= level
    &&& forall|p: Pos| frontier.contains(p) <==> (costs.contains_key(p) && costs[p] == level)
    &&& frontier.no_duplicates()
    &&& level + frontier.len() <= costs.dom().len()
}

/// The state of the search inside a level, when the first `done` members of
/// the frontier have been expanded.
spec fn spreading(
    tiles: Map<Pos, Tile>,
    costs: Map<Pos, usize>,
    frontier: Seq<Pos>,
    next: Seq<Pos>,
    level: nat,
    base: nat,
    done: int,
) -> bool {
    &&& costs.dom().finite()
    &&& forall|p: Pos| reaches(tiles, p, level) ==> costs.contains_key(p) && costs[p] <= level
    &&& forall|p: Pos|
        costs.contains_key(p) ==> is_cost(tiles, p, #[trigger] costs[p] as nat) && costs[p] <= level + 1
    &&& forall|p: Pos| frontier.contains(p) <==> (costs.contains_key(p) && costs[p] == level)
    &&& forall|p: Pos| next.contains(p) <==> (costs.contains_key(p) && costs[p] == level + 1)
    &&& next.no_duplicates()
    &&& costs.dom().len() == base + next.len()
    &&& 0 <= done <= frontier.len()
    &&& forall|k: int, q: Pos|
        0 <= k < done && tile_at(tiles, frontier[k]).passable() && #[trigger] adjacent(frontier[k], q)
            ==> costs.contains_key(q)
}

/// Gives `q`, a neighbour of the frontier member `p`, its cost if it has none yet.
fn visit(
    tiles: &Grid<Tile>,
    costs: &mut Grid<usize>,
    next: &mut Vec<Pos>,
    level: usize,
    p: Pos,
    q: Pos,
    Ghost(frontier): Ghost<Seq<Pos>>,
    Ghost(base): Ghost<nat>,
    Ghost(done): Ghost<int>,
)
    requires
        spreading(tiles@, old(costs)@, frontier, old(next)@, level as nat, base, done),
        level < usize::MAX,
        frontier.contains(p),
        tile_at(tiles@, p).passable(),
        adjacent(p, q),
    ensures
        spreading(tiles@, final(costs)@, frontier, final(next)@, level as nat, base, done),
        final(costs)@.contains_key(q),
        forall|r: Pos| old(costs)@.contains_key(r) ==> final(costs)@.contains_key(r),
{
    if !costs.contains(q.0, q.1) {
        proof {
            assert(is_cost(tiles@, p, costs@[p] as nat));
            assert(reaches(tiles@, p, level as nat));
            assert(reaches(tiles@, q, (level + 1) as nat));
            assert(!reaches(tiles@, q, level as nat));
        }
        costs.insert(q.0, q.1, level + 1);
        next.push(q);
        proof {
            let ghost before = old(next)@;
            assert forall|r: Pos| next@.contains(r) <==> (costs@.contains_key(r) && costs@[r] == level + 1) by {
                if next@.contains(r) {
                    let i = choose|i: int| 0 <= i < next@.len() && next@[i] == r;
                    if i < before.len() {
                        assert(before[i] == r);
                        assert(before.contains(r));
                    }
                }
                if costs@.contains_key(r) && costs@[r] == level + 1 {
                    if r == q {
                        assert(next@[before.len() as int] == q);
                    } else {
                        assert(before.contains(r));
                        let i = choose|i: int| 0 <= i < before.len() && before[i] == r;
                        assert(next@[i] == r);
                    }
                }
            }
            assert(next@.no_duplicates()) by {
                assert(!before.contains(q));
                assert forall|i: int, j: int| 0 <= i < next@.len() && 0 <= j < next@.len() && i != j implies next@[i]
                    != next@[j] by {
                    if i < before.len() {
                        assert(before.contains(before[i]));
                    }
                    if j < before.len() {
                        assert(before.contains(before[j]));
                    }
                }
            }
            assert(costs@.dom() =~= old(costs)@.dom().insert(q));
        }
    }
}

/// Expands every member of the frontier of one level and returns the next frontier.
fn expand_level(tiles: &Grid<Tile>, costs: &mut Grid<usize>, frontier: &Vec<Pos>, level: usize) -> (next: Vec<Pos>)
    requires
        level_inv(tiles@, old(costs)@, frontier@, level as nat),
        frontier@.len() > 0,
    ensures
        level < usize::MAX,
        level_inv(tiles@, final(costs)@, next@, (level + 1) as nat),
{
    let size = costs.len();
    let ghost base = costs@.dom().len();
    let mut next: Vec<Pos> = Vec::new();
    let mut i: usize = 0;
    while i < frontier.len()
        invariant
            level < usize::MAX,
            spreading(tiles@, costs@, frontier@, next@, level as nat, base, i as int),
        decreases frontier.len() - i,
    {
        let p = frontier[i];
        assert(frontier@.contains(p));
        if tile_of(tiles, p.0, p.1).is_passable() {
            let around = neighbors(p.0, p.1);
            proof {
                lemma_neighbors(p);
            }
            let mut j: usize = 0;
            while j < around.len()
                invariant
                    level < usize::MAX,
                    i < frontier.len(),
                    p == frontier@[i as int],
                    frontier@.contains(p),
                    tile_at(tiles@, p).passable(),
                    around@ == neighbors_spec(p),
                    forall|q: Pos| neighbors_spec(p).contains(q) <==> adjacent(p, q),
                    spreading(tiles@, costs@, frontier@, next@, level as nat, base, i as int),
                    forall|k: int| 0 <= k < j ==> costs@.contains_key(#[trigger] around@[k]),
                decreases around.len() - j,
            {
                let q = around[j];
                assert(around@.contains(q));
                visit(tiles, costs, &mut next, level, p, q, Ghost(frontier@), Ghost(base), Ghost(i as int));
                j += 1;
            }
            proof {
                assert forall|q: Pos| adjacent(p, q) implies costs@.contains_key(q) by {
                    assert(around@.contains(q));
                    let k = choose|k: int| 0 <= k < around@.len() && around@[k] == q;
                    assert(costs@.contains_key(around@[k]));
                }
            }
        }
        i += 1;
    }
    proof {
        let l = level as nat;
        let t = tiles@;
        let c = costs@;
        assert forall|p: Pos| c.contains_key(p) <==> reaches(t, p, l + 1) by {
            if c.contains_key(p) {
                lemma_reaches_monotonic(t, p, c[p] as nat, l + 1);
            }
            if reaches(t, p, l + 1) && tile_at(t, p) != Tile::Core {
                let q = choose|q: Pos|
                    #[trigger] adjacent(q, p) && tile_at(t, q).passable() && reaches(t, q, ((l + 1) - 1) as nat);
                assert(reaches(t, q, l));
                assert(c.contains_key(q));
                if c[q] == l {
                    assert(frontier@.contains(q));
                    let k = choose|k: int| 0 <= k < frontier@.len() && frontier@[k] == q;
                    assert(adjacent(frontier@[k], p));
                } else {
                    assert(is_cost(t, q, c[q] as nat));
                    lemma_reaches_monotonic(t, q, c[q] as nat, (l - 1) as nat);
                    assert(reaches(t, p, l));
                }
            }
            if tile_at(t, p) == Tile::Core {
                lemma_reaches_monotonic(t, p, 0, l);
            }
        }
    }
    next
}

impl DijkstraMap {
    /// A field with no cost for any coordinate.
    pub fn new() -> (d: Self)
        ensures
            d@ == Map::<Pos, nat>::empty(),
    {
        let d = DijkstraMap { costs: Grid::new() };
        assert(d@ =~= Map::<Pos, nat>::empty());
        d
    }

    /// The cost stored for `(x, y)`, if any.
    pub fn cost(&self, x: i32, y: i32) -> (r: Option<usize>)
        ensures
            match r {
                Some(c) => self@.contains_key((x, y)) && self@[(x, y)] == c,
                None => !self@.contains_key((x, y)),
            },
    {
        match self.costs.get(x, y) {
            Some(c) => Some(*c),
            None => None,
        }
    }

    /// Recomputes the field for `tiles` by a breadth-first search that starts
    /// at every core tile at once and expands through passable tiles only.
    pub fn recompute(&mut self, tiles: &Grid<Tile>)
        ensures
            final(self)@ == path_field(tiles@),
    {
        let mut costs: Grid<usize> = Grid::new();
        let mut frontier: Vec<Pos> = Vec::new();
        let all = tiles.positions();
        let mut i: usize = 0;
        proof {
            costs.lemma_finite();
        }
        while i < all.len()
            invariant
                i <= all.len(),
                crate::grid::is_ascending_listing(all@, tiles@.dom()),
                costs@.dom().finite(),
                forall|p: Pos|
                    costs@.contains_key(p) <==> (tile_at(tiles@, p) == Tile::Core && exists|k: int|
                        0 <= k < i && all@[k] == p),
                forall|p: Pos| costs@.contains_key(p) ==> #[trigger] costs@[p] == 0,
                forall|p: Pos| frontier@.contains(p) <==> costs@.contains_key(p),
                frontier@.no_duplicates(),
                frontier@.len() == costs@.dom().len(),
            decreases all.len() - i,
        {
            let p = all[i];
            assert(all@.contains(p));
            if tile_of(tiles, p.0, p.1) == Tile::Core {
                let ghost before = frontier@;
                let ghost old_costs = costs@;
                assert(!costs@.contains_key(p)) by {
                    if costs@.contains_key(p) {
                        let k = choose|k: int| 0 <= k < i && all@[k] == p;
                        assert(crate::grid::pos_lt(all@[k], all@[i as int]));
                    }
                }
                costs.insert(p.0, p.1, 0);
                frontier.push(p);
                proof {
                    assert(costs@.dom() =~= old_costs.dom().insert(p));
                    assert forall|r: Pos| frontier@.contains(r) <==> costs@.contains_key(r) by {
                        if frontier@.contains(r) {
                            let j = choose|j: int| 0 <= j < frontier@.len() && frontier@[j] == r;
                            if j < before.len() {
                                assert(before[j] == r);
                                assert(before.contains(r));
                            }
                        }
                        if costs@.contains_key(r) {
                            if r == p {
                                assert(frontier@[before.len() as int] == p);
                            } else {
                                assert(before.contains(r));
                                let j = choose|j: int| 0 <= j < before.len() && before[j] == r;
                                assert(frontier@[j] == r);
                            }
                        }
                    }
                    assert(frontier@.no_duplicates()) by {
                        assert(!before.contains(p));
                        assert forall|a: int, b: int|
                            0 <= a < frontier@.len() && 0 <= b < frontier@.len() && a != b implies frontier@[a]
                            != frontier@[b] by {
                            if a < before.len() {
                                assert(before.contains(before[a]));
                            }
                            if b < before.len() {
                                assert(before.contains(before[b]));
                            }
                        }
                    }
                    assert forall|r: Pos|
                        costs@.contains_key(r) <==> (tile_at(tiles@, r) == Tile::Core && exists|k: int|
                            0 <= k < i + 1 && all@[k] == r) by {
                        if r == p {
                            assert(all@[i as int] == r);
                        }
                        if old_costs.contains_key(r) {
                            let k = choose|k: int| 0 <= k < i && all@[k] == r;
                            assert(0 <= k < i + 1 && all@[k] == r);
                        }
                    }
                }
            }
            i += 1;
        }
        proof {
            assert forall|p: Pos| costs@.contains_key(p) <==> reaches(tiles@, p, 0) by {
                if tile_at(tiles@, p) == Tile::Core {
                    assert(all@.contains(p));
                    let k = choose|k: int| 0 <= k < all@.len() && all@[k] == p;
                    assert(0 <= k < i && all@[k] == p);
                }
            }
            assert forall|p: Pos| frontier@.contains(p) <==> (costs@.contains_key(p) && costs@[p] == 0) by {}
        }
        let mut level: usize = 0;
        while frontier.len() > 0
            invariant
                level_inv(tiles@, costs@, frontier@, level as nat),
            decreases usize::MAX - level,
        {
            let next = expand_level(tiles, &mut costs, &frontier, level);
            frontier = next;
            level = level + 1;
        }
        self.costs = costs;
        proof {
            let t = tiles@;
            let l = level as nat;
            assert forall|p: Pos, c: nat| reaches(t, p, c) implies reaches(t, p, l) by {
                if l == 0 {
                    assert forall|q: Pos| tile_at(t, q) != Tile::Core by {
                        if tile_at(t, q) == Tile::Core {
                            assert(reaches(t, q, 0));
                            assert(frontier@.contains(q));
                        }
                    }
                    lemma_no_core(t, p, c);
                } else {
                    let k = (l - 1) as nat;
                    assert forall|q: Pos| reaches(t, q, k + 1) implies reaches(t, q, k) by {
                        assert(self.costs@.contains_key(q));
                        assert(is_cost(t, q, self.costs@[q] as nat));
                        assert(!frontier@.contains(q));
                        lemma_reaches_monotonic(t, q, self.costs@[q] as nat, k);
                    }
                    lemma_stable(t, k, p, c);
                    lemma_reaches_monotonic(t, p, k, l);
                }
            }
            assert(self@ =~= path_field(t)) by {
                assert forall|p: Pos| self@.contains_key(p) <==> path_field(t).contains_key(p) by {
                    if self@.contains_key(p) {
                        assert(reaches(t, p, l));
                    }
                }
                assert forall|p: Pos| self@.contains_key(p) implies self@[p] == path_field(t)[p] by {
                    lemma_path_field_at(t, p, l);
                    lemma_cost_unique(t, p, self@[p], path_field(t)[p]);
                }
            }
        }
    }
}

/// Whether a mob at `best` does better to step to `q`: `q` is passable and
/// has a cost, and `best` has none or a greater one.
pub open spec fn improves(tiles: Map<Pos, Tile>, field: Map<Pos, nat>, q: Pos, best: Pos) -> bool {
    &&& tile_at(tiles, q).passable()
    &&& field.contains_key(q)
    &&& (!field.contains_key(best) || field[q] < field[best])
}

/// The best of `best` and the members of `cands`, taken in order; a later
/// one wins only with a strictly smaller cost.
pub open spec fn greedy_from(tiles: Map<Pos, Tile>, field: Map<Pos, nat>, cands: Seq<Pos>, best: Pos) -> Pos
    decreases cands.len(),
{
    if cands.len() == 0 {
        best
    } else {
        let q = cands[0];
        let better = if improves(tiles, field, q, best) {
            q
        } else {
            best
        };
        greedy_from(tiles, field, cands.drop_first(), better)
    }
}

/// The step of a mob at `p`: to the passable neighbour with the smallest
/// cost in the path field, if that is smaller than the cost of `p`; else it
/// stays at `p`.
pub open spec fn greedy_step(tiles: Map<Pos, Tile>, p: Pos) -> Pos {
    greedy_from(tiles, path_field(tiles), neighbors_spec(p), p)
}

/// Every spawn tile of the map can be reached from some core tile.
pub open spec fn spawns_connected(tiles: Map<Pos, Tile>) -> bool {
    forall|p: Pos| tiles.contains_key(p) && tiles[p] == Tile::Spawn ==> #[trigger] path_field(tiles).contains_key(p)
}

/// The coordinates of the spawn tiles of the map.
pub open spec fn spawn_set(tiles: Map<Pos, Tile>) -> Set<Pos> {
    Set::new(|p: Pos| tiles.contains_key(p) && tiles[p] == Tile::Spawn)
}

/// What the greedy choice among `cands` yields when every candidate is
/// adjacent to `p`, whose cost is `c`: the result is `best` or a candidate,
/// its cost is at most that of `best`, at least `c - 1`, and exactly
/// `c - 1` once a passable candidate of that cost has been seen.
proof fn lemma_greedy_from(tiles: Map<Pos, Tile>, p: Pos, c: nat, cands: Seq<Pos>, best: Pos)
    requires
        is_cost(tiles, p, c),
        c > 0,
        forall|k: int| 0 <= k < cands.len() ==> adjacent(p, #[trigger] cands[k]),
        path_field(tiles).contains_key(best),
        c - 1 <= path_field(tiles)[best] <= c,
    ensures
        path_field(tiles).contains_key(greedy_from(tiles, path_field(tiles), cands, best)),
        c - 1 <= path_field(tiles)[greedy_from(tiles, path_field(tiles), cands, best)] <= path_field(tiles)[best],
        (exists|k: int|
            0 <= k < cands.len() && tile_at(tiles, #[trigger] cands[k]).passable() && reaches(
                tiles,
                cands[k],
                (c - 1) as nat,
            )) ==> path_field(tiles)[greedy_from(tiles, path_field(tiles), cands, best)] == c - 1,
    decreases cands.len(),
{
    let field = path_field(tiles);
    if cands.len() > 0 {
        let q = cands[0];
        let better = if improves(tiles, field, q, best) {
            q
        } else {
            best
        };
        assert(adjacent(p, cands[0]));
        if improves(tiles, field, q, best) {
            // a passable neighbour cannot be more than one step closer
            lemma_field_cost(tiles, q);
            if field[q] + 1 < c {
                assert(is_cost(tiles, q, field[q]));
                assert(adjacent(q, p));
                assert(reaches(tiles, p, field[q] + 1));
                lemma_reaches_monotonic(tiles, p, field[q] + 1, (c - 1) as nat);
            }
        }
        let rest = cands.drop_first();
        assert forall|k: int| 0 <= k < rest.len() implies adjacent(p, #[trigger] rest[k]) by {
            assert(rest[k] == cands[k + 1]);
        }
        lemma_greedy_from(tiles, p, c, rest, better);
        if exists|k: int|
            0 <= k < cands.len() && tile_at(tiles, #[trigger] cands[k]).passable() && reaches(
                tiles,
                cands[k],
                (c - 1) as nat,
            ) {
            let k = choose|k: int|
                0 <= k < cands.len() && tile_at(tiles, #[trigger] cands[k]).passable() && reaches(
                    tiles,
                    cands[k],
                    (c - 1) as nat,
                );
            if k == 0 {
                lemma_path_field_at(tiles, q, (c - 1) as nat);
                if field[q] + 1 < c {
                    assert(is_cost(tiles, q, field[q]));
                    assert(adjacent(q, p));
                    assert(reaches(tiles, p, field[q] + 1));
                    lemma_reaches_monotonic(tiles, p, field[q] + 1, (c - 1) as nat);
                }
                assert(field[better] == c - 1);
            } else {
                assert(rest[k - 1] == cands[k]);
            }
        }
    }
}

/// Greedy descent: from a coordinate with a cost greater than zero, the
/// step leads to a coordinate whose cost is smaller by exactly one; from a
/// coordinate of cost zero, and from one without a cost, the step stays
/// where it is.
pub proof fn lemma_greedy_descends(tiles: Map<Pos, Tile>, p: Pos)
    ensures
        path_field(tiles).contains_key(p) && path_field(tiles)[p] > 0 ==> {
            &&& path_field(tiles).contains_key(greedy_step(tiles, p))
            &&& path_field(tiles)[greedy_step(tiles, p)] == path_field(tiles)[p] - 1
        },
        path_field(tiles).contains_key(p) && path_field(tiles)[p] == 0 ==> greedy_step(tiles, p) == p,
        !path_field(tiles).contains_key(p) ==> greedy_step(tiles, p) == p,
{
    let field = path_field(tiles);
    let around = neighbors_spec(p);
    lemma_neighbors(p);
    assert forall|k: int| 0 <= k < around.len() implies adjacent(p, #[trigger] around[k]) by {
        assert(around.contains(around[k]));
    }
    if field.contains_key(p) {
        lemma_field_cost(tiles, p);
        let c = field[p];
        if c > 0 {
            assert(reaches(tiles, p, c));
            let q = choose|q: Pos|
                #[trigger] adjacent(q, p) && tile_at(tiles, q).passable() && reaches(tiles, q, (c - 1) as nat);
            assert(adjacent(p, q));
            assert(around.contains(q));
            let k = choose|k: int| 0 <= k < around.len() && around[k] == q;
            assert(tile_at(tiles, around[k]).passable() && reaches(tiles, around[k], (c - 1) as nat));
            lemma_greedy_from(tiles, p, c, around, p);
        } else {
            lemma_greedy_stays(tiles, field, around, p);
        }
    } else {
        assert forall|k: int| 0 <= k < around.len() implies !improves(tiles, field, #[trigger] around[k], p) by {
            let q = around[k];
            if tile_at(tiles, q).passable() && field.contains_key(q) {
                let d = choose|d: nat| reaches(tiles, q, d);
                assert(adjacent(q, p));
                assert(reaches(tiles, p, d + 1));
            }
        }
        lemma_greedy_keeps(tiles, field, around, p);
    }
}

/// Where no candidate improves on `best`, the greedy choice is `best`.
proof fn lemma_greedy_keeps(tiles: Map<Pos, Tile>, field: Map<Pos, nat>, cands: Seq<Pos>, best: Pos)
    requires
        forall|k: int| 0 <= k < cands.len() ==> !improves(tiles, field, #[trigger] cands[k], best),
    ensures
        greedy_from(tiles, field, cands, best) == best,
    decreases cands.len(),
{
    if cands.len() > 0 {
        assert(!improves(tiles, field, cands[0], best));
        let rest = cands.drop_first();
        assert forall|k: int| 0 <= k < rest.len() implies !improves(tiles, field, #[trigger] rest[k], best) by {
            assert(rest[k] == cands[k + 1]);
        }
        lemma_greedy_keeps(tiles, field, rest, best);
    }
}

/// From a coordinate of cost zero the greedy choice stays.
proof fn lemma_greedy_stays(tiles: Map<Pos, Tile>, field: Map<Pos, nat>, cands: Seq<Pos>, best: Pos)
    requires
        field.contains_key(best),
        field[best] == 0,
    ensures
        greedy_from(tiles, field, cands, best) == best,
{
    lemma_greedy_keeps(tiles, field, cands, best);
}

/// The greedy choice is `best` or a passable candidate.
pub proof fn lemma_greedy_member(tiles: Map<Pos, Tile>, field: Map<Pos, nat>, cands: Seq<Pos>, best: Pos)
    ensures
        greedy_from(tiles, field, cands, best) == best || (cands.contains(greedy_from(tiles, field, cands, best))
            && tile_at(tiles, greedy_from(tiles, field, cands, best)).passable()),
    decreases cands.len(),
{
    if cands.len() > 0 {
        let q = cands[0];
        let better = if improves(tiles, field, q, best) {
            q
        } else {
            best
        };
        let rest = cands.drop_first();
        lemma_greedy_member(tiles, field, rest, better);
        let r = greedy_from(tiles, field, rest, better);
        if rest.contains(r) {
            let k = choose|k: int| 0 <= k < rest.len() && rest[k] == r;
            assert(cands[k + 1] == r);
        }
        if r == q {
            assert(cands[0] == r);
        }
    }
}

/// The greedy step from `p` leads to `p` itself or to a tile that has been set.
pub proof fn lemma_greedy_step_set(tiles: Map<Pos, Tile>, p: Pos)
    ensures
        greedy_step(tiles, p) == p || tiles.contains_key(greedy_step(tiles, p)),
{
    lemma_greedy_member(tiles, path_field(tiles), neighbors_spec(p), p);
}

/// `route` leads from a core tile through passable tiles, one step at a time.
pub open spec fn is_route(tiles: Map<Pos, Tile>, route: Seq<Pos>) -> bool {
    &&& route.len() > 0
    &&& tile_at(tiles, route[0]) == Tile::Core
    &&& forall|i: int| 0 <= i < route.len() - 1 ==> tile_at(tiles, #[trigger] route[i]).passable()
    &&& forall|i: int| 0 <= i < route.len() - 1 ==> adjacent(#[trigger] route[i], route[i + 1])
}

/// The end of a route is reached in as many steps as the route has.
pub proof fn lemma_route_reaches(tiles: Map<Pos, Tile>, route: Seq<Pos>)
    requires
        is_route(tiles, route),
    ensures
        reaches(tiles, route.last(), (route.len() - 1) as nat),
        path_field(tiles).contains_key(route.last()),
    decreases route.len(),
{
    if route.len() > 1 {
        let shorter = route.drop_last();
        assert(is_route(tiles, shorter)) by {
            assert forall|i: int| 0 <= i < shorter.len() - 1 implies tile_at(tiles, #[trigger] shorter[i]).passable() by {
                assert(shorter[i] == route[i]);
            }
            assert forall|i: int| 0 <= i < shorter.len() - 1 implies adjacent(#[trigger] shorter[i], shorter[i + 1]) by {
                assert(shorter[i] == route[i]);
                assert(shorter[i + 1] == route[i + 1]);
            }
        }
        lemma_route_reaches(tiles, shorter);
        let q = route[route.len() - 2];
        assert(q == shorter.last());
        assert(adjacent(q, route.last()));
        assert(tile_at(tiles, q).passable());
    }
    lemma_path_field_at(tiles, route.last(), (route.len() - 1) as nat);
}

} // verus!
