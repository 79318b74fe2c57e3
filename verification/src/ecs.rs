//! The entity store and its command buffer, as far as the stages use them.
//!
//! The store is `legion`'s. Verus sees nothing inside a world or a command
//! buffer, so this module names what they hold and states, of each call
//! that the stages make, what it does to those contents. These statements
//! are taken on trust; everything else in the crate is proved from them.

use crate::components::user_input::{
    ToggleAutoLaunchWave, TryBuildStructure, TryChangeTileType, TryLaunchWave, TrySellStructure, UserClickTile,
    UserKeyEvent, UserUnselectTile,
};
use crate::components::{
    Breathes, DeathEvent, Died, Hidden, MobHealth, OnDeath, PoisonGasTrap, Position, Renderable, SellValue, Structure,
    TakeDamage, TdMob, TouchedCore, WaveState,
};
use legion::systems::CommandBuffer;
use legion::{Entity, EntityStore, IntoQuery, World};
use vstd::prelude::*;

verus! {

/// `legion::Entity`, the handle of an entity. Nothing inside it is read.
#[verifier::external_type_specification]
#[verifier::external_body]
pub struct ExEntity(legion::Entity);

/// `legion::World`, the store of the entities. What it holds is named by
/// `entities` and `world_id`.
#[verifier::external_type_specification]
#[verifier::external_body]
pub struct ExWorld(legion::World);

/// `legion::systems::CommandBuffer`, the log of deferred changes. What it
/// holds is named by `queued` and `home_id`.
#[verifier::external_type_specification]
#[verifier::external_body]
pub struct ExCommandBuffer(legion::systems::CommandBuffer);

/// What one entity carries, of the components that the stages know.
pub struct Components {
    pub position: Option<Position>,
    pub mob: Option<TdMob>,
    pub health: Option<MobHealth>,
    pub wave: Option<WaveState>,
    pub structure: Option<Structure>,
    pub sell_value: Option<SellValue>,
    pub gas_trap: Option<PoisonGasTrap>,
    pub breathes: Option<Breathes>,
    pub touched_core: Option<TouchedCore>,
    pub died: Option<Died>,
    pub on_death: Option<Seq<DeathEvent>>,
    pub take_damage: Option<TakeDamage>,
    pub hidden: Option<Hidden>,
    pub renderable: Option<Renderable>,
    pub try_change_tile: Option<TryChangeTileType>,
    pub try_build: Option<TryBuildStructure>,
    pub try_sell: Option<TrySellStructure>,
    pub try_launch: Option<TryLaunchWave>,
    pub toggle_auto_launch: Option<ToggleAutoLaunchWave>,
    pub click: Option<UserClickTile>,
    pub unselect: Option<UserUnselectTile>,
    pub key_event: Option<UserKeyEvent>,
}

/// A world without entities.
pub open spec fn no_entities() -> Map<Entity, Components> {
    Map::empty()
}

/// An entity that carries nothing.
pub open spec fn blank() -> Components {
    Components {
        position: None,
        mob: None,
        health: None,
        wave: None,
        structure: None,
        sell_value: None,
        gas_trap: None,
        breathes: None,
        touched_core: None,
        died: None,
        on_death: None,
        take_damage: None,
        hidden: None,
        renderable: None,
        try_change_tile: None,
        try_build: None,
        try_sell: None,
        try_launch: None,
        toggle_auto_launch: None,
        click: None,
        unselect: None,
        key_event: None,
    }
}

/// A component type that the stages know.
pub trait Carried: Sized {
    /// What a component of this type holds, as a mathematical value.
    type Model;

    /// What this component holds.
    spec fn model(self) -> Self::Model;

    /// What the component of this type among `c` holds, if there is one.
    spec fn held(c: Components) -> Option<Self::Model>;
}

/// A component type that the stages write in place.
pub trait Stored: Carried {
    /// `c` with `v` as its component of this type.
    spec fn put(c: Components, v: Self) -> Components;
}

impl Carried for Position {
    type Model = Position;

    open spec fn model(self) -> Position {
        self
    }

    open spec fn held(c: Components) -> Option<Position> {
        c.position
    }
}

impl Stored for Position {
    open spec fn put(c: Components, v: Self) -> Components {
        Components { position: Some(v), ..c }
    }
}

impl Carried for TdMob {
    type Model = TdMob;

    open spec fn model(self) -> TdMob {
        self
    }

    open spec fn held(c: Components) -> Option<TdMob> {
        c.mob
    }
}

impl Carried for MobHealth {
    type Model = MobHealth;

    open spec fn model(self) -> MobHealth {
        self
    }

    open spec fn held(c: Components) -> Option<MobHealth> {
        c.health
    }
}

impl Stored for MobHealth {
    open spec fn put(c: Components, v: Self) -> Components {
        Components { health: Some(v), ..c }
    }
}

impl Carried for WaveState {
    type Model = WaveState;

    open spec fn model(self) -> WaveState {
        self
    }

    open spec fn held(c: Components) -> Option<WaveState> {
        c.wave
    }
}

impl Stored for WaveState {
    open spec fn put(c: Components, v: Self) -> Components {
        Components { wave: Some(v), ..c }
    }
}

impl Carried for Structure {
    type Model = Structure;

    open spec fn model(self) -> Structure {
        self
    }

    open spec fn held(c: Components) -> Option<Structure> {
        c.structure
    }
}

impl Carried for SellValue {
    type Model = SellValue;

    open spec fn model(self) -> SellValue {
        self
    }

    open spec fn held(c: Components) -> Option<SellValue> {
        c.sell_value
    }
}

impl Carried for PoisonGasTrap {
    type Model = PoisonGasTrap;

    open spec fn model(self) -> PoisonGasTrap {
        self
    }

    open spec fn held(c: Components) -> Option<PoisonGasTrap> {
        c.gas_trap
    }
}

impl Carried for Breathes {
    type Model = Breathes;

    open spec fn model(self) -> Breathes {
        self
    }

    open spec fn held(c: Components) -> Option<Breathes> {
        c.breathes
    }
}

impl Carried for TouchedCore {
    type Model = TouchedCore;

    open spec fn model(self) -> TouchedCore {
        self
    }

    open spec fn held(c: Components) -> Option<TouchedCore> {
        c.touched_core
    }
}

impl Carried for Died {
    type Model = Died;

    open spec fn model(self) -> Died {
        self
    }

    open spec fn held(c: Components) -> Option<Died> {
        c.died
    }
}

impl Carried for OnDeath {
    type Model = Seq<DeathEvent>;

    open spec fn model(self) -> Seq<DeathEvent> {
        self.events@
    }

    open spec fn held(c: Components) -> Option<Seq<DeathEvent>> {
        c.on_death
    }
}

impl Carried for TakeDamage {
    type Model = TakeDamage;

    open spec fn model(self) -> TakeDamage {
        self
    }

    open spec fn held(c: Components) -> Option<TakeDamage> {
        c.take_damage
    }
}

impl Carried for Hidden {
    type Model = Hidden;

    open spec fn model(self) -> Hidden {
        self
    }

    open spec fn held(c: Components) -> Option<Hidden> {
        c.hidden
    }
}

impl Carried for Renderable {
    type Model = Renderable;

    open spec fn model(self) -> Renderable {
        self
    }

    open spec fn held(c: Components) -> Option<Renderable> {
        c.renderable
    }
}

impl Carried for TryChangeTileType {
    type Model = TryChangeTileType;

    open spec fn model(self) -> TryChangeTileType {
        self
    }

    open spec fn held(c: Components) -> Option<TryChangeTileType> {
        c.try_change_tile
    }
}

impl Carried for TryBuildStructure {
    type Model = TryBuildStructure;

    open spec fn model(self) -> TryBuildStructure {
        self
    }

    open spec fn held(c: Components) -> Option<TryBuildStructure> {
        c.try_build
    }
}

impl Carried for TrySellStructure {
    type Model = TrySellStructure;

    open spec fn model(self) -> TrySellStructure {
        self
    }

    open spec fn held(c: Components) -> Option<TrySellStructure> {
        c.try_sell
    }
}

impl Carried for TryLaunchWave {
    type Model = TryLaunchWave;

    open spec fn model(self) -> TryLaunchWave {
        self
    }

    open spec fn held(c: Components) -> Option<TryLaunchWave> {
        c.try_launch
    }
}

impl Carried for ToggleAutoLaunchWave {
    type Model = ToggleAutoLaunchWave;

    open spec fn model(self) -> ToggleAutoLaunchWave {
        self
    }

    open spec fn held(c: Components) -> Option<ToggleAutoLaunchWave> {
        c.toggle_auto_launch
    }
}

impl Carried for UserClickTile {
    type Model = UserClickTile;

    open spec fn model(self) -> UserClickTile {
        self
    }

    open spec fn held(c: Components) -> Option<UserClickTile> {
        c.click
    }
}

impl Carried for UserUnselectTile {
    type Model = UserUnselectTile;

    open spec fn model(self) -> UserUnselectTile {
        self
    }

    open spec fn held(c: Components) -> Option<UserUnselectTile> {
        c.unselect
    }
}

impl Carried for UserKeyEvent {
    type Model = UserKeyEvent;

    open spec fn model(self) -> UserKeyEvent {
        self
    }

    open spec fn held(c: Components) -> Option<UserKeyEvent> {
        c.key_event
    }
}

/// The entities of a world, each with what it carries.
pub uninterp spec fn entities(w: World) -> Map<Entity, Components>;

/// The number by which a world tells itself from other worlds.
pub uninterp spec fn world_id(w: World) -> int;

/// The commands that a buffer holds, the one queued first at the front.
pub uninterp spec fn queued(cmd: CommandBuffer) -> Seq<Queued>;

/// The number of the world that a buffer was made for.
pub uninterp spec fn home_id(cmd: CommandBuffer) -> int;

/// What a new entity is made of.
pub enum Blueprint {
    /// A mob of a wave.
    Mob { position: Position, wave: WaveState, renderable: Renderable, health: MobHealth, on_death: OnDeath },
    /// A gas trap.
    GasTrap {
        position: Position,
        structure: Structure,
        gas_trap: PoisonGasTrap,
        renderable: Renderable,
        sell_value: SellValue,
    },
    /// A damage event.
    Damage(TakeDamage),
    /// A request to launch the next wave.
    LaunchIntent,
}

/// One deferred change of the world.
pub enum Action {
    /// Destroy the entity.
    Remove(Entity),
    /// Take `Hidden` from the entity.
    Unhide(Entity),
    /// Give the entity `TouchedCore`.
    TouchCore(Entity),
    /// Give the entity `Died`.
    Die(Entity),
    /// Create an entity.
    Spawn(Blueprint),
}

/// A command in a buffer: the change, and the entity it is about. For
/// `Spawn` that is the handle allotted to the new entity when the command
/// was queued; for the others it is the entity named in the action.
pub struct Queued {
    pub action: Action,
    pub subject: Entity,
}

/// What an entity made from `b` carries.
pub open spec fn made(b: Blueprint) -> Components {
    match b {
        Blueprint::Mob { position, wave, renderable, health, on_death } => Components {
            position: Some(position),
            mob: Some(TdMob),
            wave: Some(wave),
            renderable: Some(renderable),
            health: Some(health),
            breathes: Some(Breathes),
            on_death: Some(on_death.events@),
            hidden: Some(Hidden),
            ..blank()
        },
        Blueprint::GasTrap { position, structure, gas_trap, renderable, sell_value } => Components {
            position: Some(position),
            structure: Some(structure),
            gas_trap: Some(gas_trap),
            renderable: Some(renderable),
            sell_value: Some(sell_value),
            ..blank()
        },
        Blueprint::Damage(damage) => Components { take_damage: Some(damage), ..blank() },
        Blueprint::LaunchIntent => Components { try_launch: Some(TryLaunchWave), ..blank() },
    }
}

/// Whether the store carries out the command on the entities `w` without
/// failing: a component can be given to or taken from an entity only while
/// it exists.
pub open spec fn step_safe(w: Map<Entity, Components>, q: Queued) -> bool {
    match q.action {
        Action::Remove(e) => true,
        Action::Spawn(b) => true,
        Action::Unhide(e) => w.contains_key(e),
        Action::TouchCore(e) => w.contains_key(e),
        Action::Die(e) => w.contains_key(e),
    }
}

/// The entities after the command has been carried out on the entities `w`.
pub open spec fn replay_step(w: Map<Entity, Components>, q: Queued) -> Map<Entity, Components> {
    match q.action {
        Action::Remove(e) => w.remove(e),
        Action::Spawn(b) => w.insert(q.subject, made(b)),
        Action::Unhide(e) => w.insert(e, Components { hidden: None, ..w[e] }),
        Action::TouchCore(e) => w.insert(e, Components { touched_core: Some(TouchedCore), ..w[e] }),
        Action::Die(e) => w.insert(e, Components { died: Some(Died), ..w[e] }),
    }
}

/// Whether the store carries out the commands, in order, without failing.
pub open spec fn replay_safe(w: Map<Entity, Components>, cmds: Seq<Queued>) -> bool
    decreases cmds.len(),
{
    cmds.len() == 0 || (step_safe(w, cmds[0]) && replay_safe(replay_step(w, cmds[0]), cmds.drop_first()))
}

/// The entities after the commands have been carried out, in order.
pub open spec fn replayed(w: Map<Entity, Components>, cmds: Seq<Queued>) -> Map<Entity, Components>
    decreases cmds.len(),
{
    if cmds.len() == 0 {
        w
    } else {
        replayed(replay_step(w, cmds[0]), cmds.drop_first())
    }
}

/// Walks a query for the entities that carry a `T`: `Query::iter` of
/// `legion`, on the view of the entity handle and a shared reference to the
/// component. The store yields every entity that carries the component
/// once, with the component; each is handed out as a copy made by `clone`,
/// which for the component types of this crate is the derived one. The
/// order is the store's own and nothing is claimed of it.
#[verifier::external_body]
pub(crate) fn rows<T: Carried + Clone + Send + Sync + 'static>(world: &World) -> (r: Vec<(Entity, T)>)
    ensures
        forall|i: int, j: int| 0 <= i < j < r@.len() ==> (#[trigger] r@[i]).0 != (#[trigger] r@[j]).0,
        forall|i: int|
            0 <= i < r@.len() ==> entities(*world).contains_key((#[trigger] r@[i]).0) && T::held(
                entities(*world)[r@[i].0],
            ) == Some(r@[i].1.model()),
        forall|e: Entity|
            entities(*world).contains_key(e) && (#[trigger] T::held(entities(*world)[e])) is Some ==> exists|i: int|
                0 <= i < r@.len() && (#[trigger] r@[i]).0 == e,
{
    <(Entity, &T)>::query().iter(world).map(|(e, c)| (*e, c.clone())).collect()
}

/// Whether the world holds the entity: `World::contains` of `legion`.
#[verifier::external_body]
pub(crate) fn exists_in(world: &World, e: Entity) -> (r: bool)
    ensures
        r == entities(*world).contains_key(e),
{
    world.contains(e)
}

/// Looks up the `T` of one entity: `EntityStore::entry_ref` of `legion` on
/// the world, then `EntryRef::get_component`. The first fails where the
/// world holds no such entity, the second where the entity carries no `T`;
/// either way the result is `None`.
#[verifier::external_body]
pub(crate) fn component<T: Carried + Clone + Send + Sync + 'static>(world: &World, e: Entity) -> (r: Option<T>)
    ensures
        match r {
            Some(c) => entities(*world).contains_key(e) && T::held(entities(*world)[e]) == Some(c.model()),
            None => !entities(*world).contains_key(e) || T::held(entities(*world)[e]) is None,
        },
{
    match world.entry_ref(e) {
        Ok(entry) => match entry.get_component::<T>() {
            Ok(c) => Some(c.clone()),
            Err(_) => None,
        },
        Err(_) => None,
    }
}

/// Overwrites the `T` of one entity: `World::entry` of `legion`, then
/// `Entry::get_component_mut`, and an assignment through the reference it
/// gives. Where the world holds no such entity, or the entity carries no
/// `T`, nothing changes.
#[verifier::external_body]
pub(crate) fn store<T: Stored + Send + Sync + 'static>(world: &mut World, e: Entity, value: T)
    ensures
        entities(*final(world)) == if entities(*old(world)).contains_key(e) && T::held(entities(*old(world))[e])
            is Some {
            entities(*old(world)).insert(e, T::put(entities(*old(world))[e], value))
        } else {
            entities(*old(world))
        },
        world_id(*final(world)) == world_id(*old(world)),
{
    if let Some(mut entry) = world.entry(e) {
        if let Ok(c) = entry.get_component_mut::<T>() {
            *c = value;
        }
    }
}

/// Removes every entity from a world: `World::clear` of `legion`.
#[verifier::external_body]
pub(crate) fn clear_world(world: &mut World)
    ensures
        entities(*final(world)) == no_entities(),
        world_id(*final(world)) == world_id(*old(world)),
{
    world.clear()
}

/// Adds an entity that gives off gas and has no other part in the game:
/// `World::push` of `legion`, on the tuple of the three components given.
/// The world allots the new entity's handle and returns it; an entity that
/// had the handle before is replaced.
#[verifier::external_body]
pub(crate) fn push_emitter(world: &mut World, gas_trap: PoisonGasTrap, renderable: Renderable, position: Position) -> (e:
    Entity)
    ensures
        entities(*final(world)) == entities(*old(world)).insert(
            e,
            Components {
                gas_trap: Some(gas_trap),
                renderable: Some(renderable),
                position: Some(position),
                ..blank()
            },
        ),
        world_id(*final(world)) == world_id(*old(world)),
{
    world.push((gas_trap, renderable, position))
}

/// Makes an empty buffer for a world: `CommandBuffer::new` of `legion`.
#[verifier::external_body]
pub(crate) fn new_buffer(world: &World) -> (cmd: CommandBuffer)
    ensures
        queued(cmd) == Seq::<Queued>::empty(),
        home_id(cmd) == world_id(*world),
{
    CommandBuffer::new(world)
}

/// Queues the destruction of an entity: `CommandBuffer::remove` of `legion`.
#[verifier::external_body]
pub(crate) fn queue_remove(cmd: &mut CommandBuffer, e: Entity)
    ensures
        queued(*final(cmd)) == queued(*old(cmd)).push(Queued { action: Action::Remove(e), subject: e }),
        home_id(*final(cmd)) == home_id(*old(cmd)),
{
    cmd.remove(e)
}

/// Queues the removal of `Hidden` from an entity:
/// `CommandBuffer::remove_component` of `legion`.
#[verifier::external_body]
pub(crate) fn queue_unhide(cmd: &mut CommandBuffer, e: Entity)
    ensures
        queued(*final(cmd)) == queued(*old(cmd)).push(Queued { action: Action::Unhide(e), subject: e }),
        home_id(*final(cmd)) == home_id(*old(cmd)),
{
    cmd.remove_component::<Hidden>(e)
}

/// Queues the addition of `TouchedCore` to an entity:
/// `CommandBuffer::add_component` of `legion`.
#[verifier::external_body]
pub(crate) fn queue_touch_core(cmd: &mut CommandBuffer, e: Entity)
    ensures
        queued(*final(cmd)) == queued(*old(cmd)).push(Queued { action: Action::TouchCore(e), subject: e }),
        home_id(*final(cmd)) == home_id(*old(cmd)),
{
    cmd.add_component(e, TouchedCore)
}

/// Queues the addition of `Died` to an entity: `CommandBuffer::add_component`
/// of `legion`.
#[verifier::external_body]
pub(crate) fn queue_die(cmd: &mut CommandBuffer, e: Entity)
    ensures
        queued(*final(cmd)) == queued(*old(cmd)).push(Queued { action: Action::Die(e), subject: e }),
        home_id(*final(cmd)) == home_id(*old(cmd)),
{
    cmd.add_component(e, Died)
}

/// Queues the creation of a mob: `CommandBuffer::push` of `legion`, on the
/// tuple of the five components given and the three tags `TdMob`,
/// `Breathes` and `Hidden`. The buffer allots the new entity's handle at
/// once and returns it.
#[verifier::external_body]
pub(crate) fn queue_mob(
    cmd: &mut CommandBuffer,
    position: Position,
    wave: WaveState,
    renderable: Renderable,
    health: MobHealth,
    on_death: OnDeath,
) -> (e: Entity)
    ensures
        queued(*final(cmd)) == queued(*old(cmd)).push(
            Queued {
                action: Action::Spawn(Blueprint::Mob { position, wave, renderable, health, on_death }),
                subject: e,
            },
        ),
        home_id(*final(cmd)) == home_id(*old(cmd)),
{
    cmd.push((position, TdMob, wave, renderable, health, Breathes, on_death, Hidden))
}

/// Queues the creation of a gas trap: `CommandBuffer::push` of `legion`, on
/// the tuple of the five components given. The buffer allots the new
/// entity's handle at once and returns it.
#[verifier::external_body]
pub(crate) fn queue_gas_trap(
    cmd: &mut CommandBuffer,
    position: Position,
    structure: Structure,
    gas_trap: PoisonGasTrap,
    renderable: Renderable,
    sell_value: SellValue,
) -> (e: Entity)
    ensures
        queued(*final(cmd)) == queued(*old(cmd)).push(
            Queued {
                action: Action::Spawn(Blueprint::GasTrap { position, structure, gas_trap, renderable, sell_value }),
                subject: e,
            },
        ),
        home_id(*final(cmd)) == home_id(*old(cmd)),
{
    cmd.push((position, structure, gas_trap, renderable, sell_value))
}

/// Queues the creation of a damage event: `CommandBuffer::push` of `legion`,
/// on the one component given. The buffer allots the new entity's handle at
/// once and returns it.
#[verifier::external_body]
pub(crate) fn queue_damage(cmd: &mut CommandBuffer, damage: TakeDamage) -> (e: Entity)
    ensures
        queued(*final(cmd)) == queued(*old(cmd)).push(
            Queued { action: Action::Spawn(Blueprint::Damage(damage)), subject: e },
        ),
        home_id(*final(cmd)) == home_id(*old(cmd)),
{
    cmd.push((damage,))
}

/// Queues the creation of a request to launch the next wave:
/// `CommandBuffer::push` of `legion`, on the tag `TryLaunchWave`. The buffer
/// allots the new entity's handle at once and returns it.
#[verifier::external_body]
pub(crate) fn queue_launch_intent(cmd: &mut CommandBuffer) -> (e: Entity)
    ensures
        queued(*final(cmd)) == queued(*old(cmd)).push(
            Queued { action: Action::Spawn(Blueprint::LaunchIntent), subject: e },
        ),
        home_id(*final(cmd)) == home_id(*old(cmd)),
{
    cmd.push((TryLaunchWave,))
}

/// Carries out the commands of a buffer on its world and empties it:
/// `CommandBuffer::flush` of `legion`, with an empty resource store, which
/// none of these commands reads. The store carries the commands out in the
/// order in which they were queued. It stops the program where the buffer
/// was made for another world, and where a component is given to or taken
/// from an entity that is gone; `requires` leaves both out.
#[verifier::external_body]
pub(crate) fn flush(cmd: &mut CommandBuffer, world: &mut World)
    requires
        home_id(*old(cmd)) == world_id(*old(world)),
        replay_safe(entities(*old(world)), queued(*old(cmd))),
    ensures
        entities(*final(world)) == replayed(entities(*old(world)), queued(*old(cmd))),
        world_id(*final(world)) == world_id(*old(world)),
        queued(*final(cmd)) == Seq::<Queued>::empty(),
        home_id(*final(cmd)) == home_id(*old(cmd)),
{
    cmd.flush(world, &mut legion::Resources::default())
}

/// The rows list exactly the entities of `w` that carry a `T`, each once,
/// with its `T`.
pub open spec fn lists<T: Carried>(rows: Seq<(Entity, T)>, w: Map<Entity, Components>) -> bool {
    &&& forall|i: int, j: int| 0 <= i < j < rows.len() ==> (#[trigger] rows[i]).0 != (#[trigger] rows[j]).0
    &&& forall|i: int|
        0 <= i < rows.len() ==> w.contains_key((#[trigger] rows[i]).0) && T::held(w[rows[i].0]) == Some(
            rows[i].1.model(),
        )
    &&& forall|e: Entity|
        w.contains_key(e) && (#[trigger] T::held(w[e])) is Some ==> exists|i: int|
            0 <= i < rows.len() && (#[trigger] rows[i]).0 == e
}

/// The entity that an action names, if it names one.
pub open spec fn target(a: Action) -> Option<Entity> {
    match a {
        Action::Remove(e) => Some(e),
        Action::Unhide(e) => Some(e),
        Action::TouchCore(e) => Some(e),
        Action::Die(e) => Some(e),
        Action::Spawn(b) => None,
    }
}

/// `after` is `before` with the actions queued behind it, in order.
pub open spec fn issued(before: Seq<Queued>, after: Seq<Queued>, actions: Seq<Action>) -> bool {
    &&& after.len() == before.len() + actions.len()
    &&& forall|i: int| 0 <= i < before.len() ==> after[i] == before[i]
    &&& forall|i: int|
        0 <= i < actions.len() ==> (#[trigger] after[before.len() + i]).action == actions[i] && (target(
            actions[i],
        ) matches Some(e) ==> after[before.len() + i].subject == e)
}

/// Queues one action.
pub fn issue(cmd: &mut CommandBuffer, action: Action)
    ensures
        issued(queued(*old(cmd)), queued(*final(cmd)), seq![action]),
        home_id(*final(cmd)) == home_id(*old(cmd)),
{
    match action {
        Action::Remove(e) => {
            queue_remove(cmd, e);
        },
        Action::Unhide(e) => {
            queue_unhide(cmd, e);
        },
        Action::TouchCore(e) => {
            queue_touch_core(cmd, e);
        },
        Action::Die(e) => {
            queue_die(cmd, e);
        },
        Action::Spawn(Blueprint::Mob { position, wave, renderable, health, on_death }) => {
            let _ = queue_mob(cmd, position, wave, renderable, health, on_death);
        },
        Action::Spawn(Blueprint::GasTrap { position, structure, gas_trap, renderable, sell_value }) => {
            let _ = queue_gas_trap(cmd, position, structure, gas_trap, renderable, sell_value);
        },
        Action::Spawn(Blueprint::Damage(damage)) => {
            let _ = queue_damage(cmd, damage);
        },
        Action::Spawn(Blueprint::LaunchIntent) => {
            let _ = queue_launch_intent(cmd);
        },
    }
}

/// Queues the actions, in order.
pub fn submit(cmd: &mut CommandBuffer, actions: Vec<Action>)
    ensures
        issued(queued(*old(cmd)), queued(*final(cmd)), actions@),
        home_id(*final(cmd)) == home_id(*old(cmd)),
{
    let ghost all = actions@;
    let mut rest = actions;
    let ghost mut done: int = 0;
    while rest.len() > 0
        invariant
            done + rest@.len() == all.len(),
            forall|i: int| 0 <= i < rest@.len() ==> rest@[i] == all[done + i],
            0 <= done,
            issued(queued(*old(cmd)), queued(*cmd), all.subrange(0, done)),
            home_id(*cmd) == home_id(*old(cmd)),
        decreases rest@.len(),
    {
        let ghost before = queued(*cmd);
        let action = rest.remove(0);
        issue(cmd, action);
        proof {
            let base = queued(*old(cmd));
            let upto = all.subrange(0, done + 1);
            assert forall|i: int| 0 <= i < upto.len() implies (#[trigger] queued(*cmd)[base.len() + i]).action
                == upto[i] && (target(upto[i]) matches Some(e) ==> queued(*cmd)[base.len() + i].subject == e) by {
                if i < done {
                    assert(queued(*cmd)[base.len() + i] == before[base.len() + i]);
                    assert(all.subrange(0, done)[i] == upto[i]);
                } else {
                    assert(before.len() == base.len() + done);
                    assert(queued(*cmd)[before.len() + 0int] == queued(*cmd)[base.len() + i]);
                }
            }
        }
        proof {
            done = done + 1;
        }
    }
    assert(all.subrange(0, done) =~= all);
}

} // verus!
