//! Stage: the mobs in play move one step toward the core.

use crate::components::{Position, TdMob, WaitState, WaveState};
use crate::ecs::{
    component, entities, home_id, issued, lists, queued, replay_safe, rows, store, submit, world_id, Action, Carried,
    Components, Queued,
};
use crate::grid::Pos;
use crate::resources::map::TileMap;
use crate::resources::path::{greedy_step, lemma_greedy_step_set, tile_at, Tile};
use crate::systems::{lemma_issued_marks, marks_within};
use crate::tile_helpers::{addressable, tile_center, tile_to_pixel_coords};
use legion::systems::CommandBuffer;
use legion::{Entity, World};
use vstd::prelude::*;

verus! {

/// How many pixels a mob moves per tick along one axis.
pub const MOVE_SPEED: i32 = 2;

/// How many pixels a mob moves per tick along each axis when it moves along both.
pub const DIAG_MOVE_SPEED: i32 = 1;

/// The direction from `start` to `end` along one axis: `1`, `-1` or `0`.
pub open spec fn unit_step(start: int, end: int) -> int {
    if start < end {
        1
    } else if start > end {
        -1
    } else {
        0
    }
}

/// The position of a mob after one step: it moves toward the centre of the
/// tile that the path field sends it to, by two pixels along one axis, or
/// by one pixel along each of the two.
pub open spec fn mob_stepped(tiles: Map<Pos, Tile>, pos: Position) -> Position {
    let goal = tile_center(greedy_step(tiles, pos.tile()));
    let dx = unit_step(pos.x as int, goal.0);
    let dy = unit_step(pos.y as int, goal.1);
    if dx != 0 && dy != 0 {
        Position { x: (pos.x + dx) as i32, y: (pos.y + dy) as i32 }
    } else {
        Position { x: (pos.x + 2 * dx) as i32, y: (pos.y + 2 * dy) as i32 }
    }
}

/// Whether the entity is a mob in play that has a position.
pub open spec fn marching(c: Components) -> bool {
    &&& c.mob is Some
    &&& c.position is Some
    &&& c.wave is Some
    &&& c.wave->0.wait_state is Active
}

/// What the entity carries after the stage.
pub open spec fn moved(tiles: Map<Pos, Tile>, c: Components) -> Components {
    if marching(c) {
        Components { position: Some(mob_stepped(tiles, c.position->0)), ..c }
    } else {
        c
    }
}

/// The world after the stage: every mob in play has made its step.
pub open spec fn mobs_moved(tiles: Map<Pos, Tile>, w: Map<Entity, Components>) -> Map<Entity, Components> {
    Map::new(|e: Entity| w.contains_key(e), |e: Entity| moved(tiles, w[e]))
}

/// Whether `e` is the entity of one of the first `n` rows.
pub open spec fn among<T>(rows: Seq<(Entity, T)>, n: int, e: Entity) -> bool {
    exists|k: int| 0 <= k < n && k < rows.len() && (#[trigger] rows[k]).0 == e
}

/// The world when the first `n` rows have been handled.
pub open spec fn moved_upto(tiles: Map<Pos, Tile>, w: Map<Entity, Components>, mobs: Seq<(Entity, TdMob)>, n: int) -> Map<
    Entity,
    Components,
> {
    Map::new(
        |e: Entity| w.contains_key(e),
        |e: Entity|
            if among(mobs, n, e) {
                moved(tiles, w[e])
            } else {
                w[e]
            },
    )
}

/// One `TouchCore` for every mob in play whose step ends on a core tile, in
/// the order of the rows.
pub open spec fn core_touches(tiles: Map<Pos, Tile>, w: Map<Entity, Components>, mobs: Seq<(Entity, TdMob)>) -> Seq<
    Action,
>
    decreases mobs.len(),
{
    if mobs.len() == 0 {
        Seq::empty()
    } else {
        let rest = core_touches(tiles, w, mobs.drop_last());
        let e = mobs.last().0;
        if w.contains_key(e) && marching(w[e]) && tile_at(tiles, mob_stepped(tiles, w[e].position->0).tile())
            == Tile::Core {
            rest.push(Action::TouchCore(e))
        } else {
            rest
        }
    }
}

/// The direction from `start` to `end` along one axis: `1`, `-1` or `0`.
pub fn unit_diff(start: i32, end: i32) -> (d: i32)
    ensures
        d == unit_step(start as int, end as int),
{
    if start < end {
        1
    } else if start > end {
        -1
    } else {
        0
    }
}

/// The position of a mob at `pos` after one step.
pub fn step_mob(map: &mut TileMap, pos: Position) -> (r: Position)
    requires
        old(map).wf(),
    ensures
        final(map).wf(),
        final(map).tiles() == old(map).tiles(),
        final(map).gas() == old(map).gas(),
        r == mob_stepped(old(map).tiles(), pos),
{
    let (tile_x, tile_y) = pos.to_tile_coords();
    let (next_x, next_y) = map.move_toward_spawn(tile_x, tile_y);
    proof {
        map.lemma_wf();
        lemma_greedy_step_set(map.tiles(), (tile_x, tile_y));
        assert(addressable((next_x, next_y)));
    }
    let (goal_x, goal_y) = tile_to_pixel_coords(next_x, next_y);
    let dx = unit_diff(pos.x, goal_x);
    let dy = unit_diff(pos.y, goal_y);
    if dx != 0 && dy != 0 {
        Position { x: pos.x + dx * DIAG_MOVE_SPEED, y: pos.y + dy * DIAG_MOVE_SPEED }
    } else {
        Position { x: pos.x + dx * MOVE_SPEED, y: pos.y + dy * MOVE_SPEED }
    }
}

/// What the stage queues: `TouchedCore` for every mob in play whose step
/// ends on a core tile.
pub open spec fn touches_queued(
    tiles: Map<Pos, Tile>,
    w0: Map<Entity, Components>,
    q0: Seq<Queued>,
    q1: Seq<Queued>,
) -> bool {
    exists|mobs: Seq<(Entity, TdMob)>|
        lists(mobs, w0) && issued(
            q0,
            q1,
            core_touches(tiles, w0, mobs),
        )
}

/// The stage: every mob in play steps toward the tile that the path field
/// sends it to, and is given `TouchedCore` if the step ends on a core tile.
pub fn move_mobs(map: &mut TileMap, cmd: &mut CommandBuffer, world: &mut World)
    requires
        old(map).wf(),
    ensures
        final(map).wf(),
        final(map).tiles() == old(map).tiles(),
        final(map).gas() == old(map).gas(),
        entities(*final(world)) == mobs_moved(old(map).tiles(), entities(*old(world))),
        world_id(*final(world)) == world_id(*old(world)),
        touches_queued(old(map).tiles(), entities(*old(world)), queued(*old(cmd)), queued(*final(cmd))),
        home_id(*final(cmd)) == home_id(*old(cmd)),
        queued(*old(cmd)).len() == 0 ==> replay_safe(entities(*final(world)), queued(*final(cmd))),
{
    let mobs = rows::<TdMob>(world);
    let ghost w0 = entities(*world);
    let ghost tiles = map.tiles();
    let mut actions: Vec<Action> = Vec::new();
    let mut i: usize = 0;
    proof {
        assert(mobs@.subrange(0, 0) =~= Seq::<(Entity, TdMob)>::empty());
        assert(entities(*world) =~= moved_upto(tiles, w0, mobs@, 0));
    }
    while i < mobs.len()
        invariant
            i <= mobs.len(),
            map.wf(),
            map.tiles() == tiles,
            map.gas() == old(map).gas(),
            lists(mobs@, w0),
            entities(*world) == moved_upto(tiles, w0, mobs@, i as int),
            world_id(*world) == world_id(*old(world)),
            marks_within(actions@, w0),
            actions@ == core_touches(tiles, w0, mobs@.subrange(0, i as int)),
        decreases mobs.len() - i,
    {
        proof {
            assert(mobs@.subrange(0, i + 1).drop_last() =~= mobs@.subrange(0, i as int));
        }
        let e = mobs[i].0;
        proof {
            assert(w0.contains_key(mobs@[i as int].0));
            assert(!among(mobs@, i as int, e)) by {
                if among(mobs@, i as int, e) {
                    let k = choose|k: int| 0 <= k < i && k < mobs@.len() && (#[trigger] mobs@[k]).0 == e;
                    assert(mobs@[k].0 != mobs@[i as int].0);
                }
            }
            assert(entities(*world)[e] == w0[e]);
        }
        let ghost before = entities(*world);
        let pos = component::<Position>(world, e);
        let wave = component::<WaveState>(world, e);
        match (pos, wave) {
            (Some(pos), Some(wave)) => {
                let active = match wave.wait_state {
                    WaitState::Active => true,
                    WaitState::Waiting { .. } => false,
                };
                if active {
                    let next = step_mob(map, pos);
                    store(world, e, next);
                    let (tile_x, tile_y) = next.to_tile_coords();
                    match map.get_tile(tile_x, tile_y) {
                        Tile::Core => {
                            actions.push(Action::TouchCore(e));
                        },
                        _ => {},
                    }
                }
            },
            _ => {},
        }
        proof {
            assert(entities(*world) =~= moved_upto(tiles, w0, mobs@, i + 1)) by {
                assert forall|x: Entity| w0.contains_key(x) implies entities(*world)[x] == moved_upto(
                    tiles,
                    w0,
                    mobs@,
                    i + 1,
                )[x] by {
                    if x == e {
                        assert(among(mobs@, i + 1, x)) by {
                            assert(mobs@[i as int].0 == x);
                        }
                    } else {
                        assert(entities(*world)[x] == before[x]);
                        if among(mobs@, i + 1, x) {
                            let k = choose|k: int| 0 <= k < i + 1 && k < mobs@.len() && (#[trigger] mobs@[k]).0 == x;
                            assert(k < i);
                            assert(among(mobs@, i as int, x));
                        }
                        if among(mobs@, i as int, x) {
                            let k = choose|k: int| 0 <= k < i && k < mobs@.len() && (#[trigger] mobs@[k]).0 == x;
                            assert(among(mobs@, i + 1, x));
                        }
                    }
                }
            }
        }
        i += 1;
    }
    let ghost asked = actions@;
    submit(cmd, actions);
    proof {
        assert(mobs@.subrange(0, i as int) =~= mobs@);
        assert(entities(*world) =~= mobs_moved(tiles, w0)) by {
            assert forall|x: Entity| w0.contains_key(x) implies entities(*world)[x] == mobs_moved(tiles, w0)[x] by {
                if marching(w0[x]) {
                    assert(TdMob::held(w0[x]) is Some);
                    let k = choose|k: int| 0 <= k < mobs@.len() && (#[trigger] mobs@[k]).0 == x;
                    assert(among(mobs@, i as int, x));
                }
            }
        }
        assert(marks_within(asked, entities(*world)));
        lemma_issued_marks(entities(*world), queued(*old(cmd)), queued(*cmd), asked);
    }
}

} // verus!
