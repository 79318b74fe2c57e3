//! The singleton values that the stages of a tick read and write.

pub mod flow;
pub mod flow_laws;
pub mod ledger;
pub mod map;
pub mod path;
pub mod path_laws;
pub mod tables;

use crate::resources::ledger::OwnedResources;
use legion::Entity;
use vstd::prelude::*;

verus! {

/// Which of the four direction keys are held down.
#[derive(Copy, Clone, Debug, PartialEq, Eq, Structural)]
pub struct KeysPressed {
    pub down: bool,
    pub up: bool,
    pub left: bool,
    pub right: bool,
}

impl Default for KeysPressed {
    /// No key is held down.
    fn default() -> (k: Self)
        ensures
            k == (KeysPressed { down: false, up: false, left: false, right: false }),
    {
        KeysPressed { down: false, up: false, left: false, right: false }
    }
}

/// The menu sections that are collapsed, by name.
#[derive(Clone, Debug)]
pub struct MenuCollapseStates {
    collapsed: Vec<String>,
}

impl View for MenuCollapseStates {
    type V = Set<Seq<char>>;

    closed spec fn view(&self) -> Set<Seq<char>> {
        Set::new(|name: Seq<char>| exists|i: int| 0 <= i < self.collapsed@.len() && self.collapsed@[i]@ == name)
    }
}

impl Default for MenuCollapseStates {
    /// No section is collapsed.
    fn default() -> (m: Self)
        ensures
            m@ == Set::<Seq<char>>::empty(),
    {
        let m = MenuCollapseStates { collapsed: Vec::new() };
        assert(m@ =~= Set::<Seq<char>>::empty());
        m
    }
}

impl MenuCollapseStates {
    /// Where `key` stands in the list, if it does.
    fn find(&self, key: &String) -> (r: Option<usize>)
        ensures
            match r {
                Some(i) => i < self.collapsed@.len() && self.collapsed@[i as int]@ == key@,
                None => !self@.contains(key@),
            },
    {
        let mut i: usize = 0;
        while i < self.collapsed.len()
            invariant
                i <= self.collapsed.len(),
                forall|j: int| 0 <= j < i ==> self.collapsed@[j]@ != key@,
            decreases self.collapsed.len() - i,
        {
            if self.collapsed[i] == *key {
                return Some(i);
            }
            i += 1;
        }
        None
    }

    /// Whether the section `key` is collapsed.
    pub fn is_collapsed(&self, key: &str) -> (r: bool)
        ensures
            r == self@.contains(key@),
    {
        let owned = key.to_owned();
        self.find(&owned).is_some()
    }

    /// Collapses the section `key`, or expands it.
    pub fn set_collapsed(&mut self, key: &str, new_state: bool)
        ensures
            final(self)@ == if new_state {
                old(self)@.insert(key@)
            } else {
                old(self)@.remove(key@)
            },
    {
        let owned = key.to_owned();
        if new_state {
            if self.find(&owned).is_none() {
                self.collapsed.push(owned);
                proof {
                    let before = old(self).collapsed@;
                    assert forall|name: Seq<char>| self@.contains(name) <==> old(self)@.insert(key@).contains(
                        name,
                    ) by {
                        if self@.contains(name) {
                            let i = choose|i: int| 0 <= i < self.collapsed@.len() && self.collapsed@[i]@ == name;
                            if i < before.len() {
                                assert(before[i]@ == name);
                            }
                        }
                        if old(self)@.contains(name) {
                            let i = choose|i: int| 0 <= i < before.len() && before[i]@ == name;
                            assert(self.collapsed@[i]@ == name);
                        }
                        if name == key@ {
                            assert(self.collapsed@[before.len() as int]@ == name);
                        }
                    }
                    assert(self@ =~= old(self)@.insert(key@));
                }
            } else {
                assert(old(self)@.insert(key@) =~= old(self)@);
            }
        } else {
            let mut kept: Vec<String> = Vec::new();
            let mut i: usize = 0;
            while i < self.collapsed.len()
                invariant
                    i <= self.collapsed.len(),
                    self.collapsed == old(self).collapsed,
                    owned@ == key@,
                    forall|j: int| 0 <= j < kept@.len() ==> (#[trigger] kept@[j])@ != key@,
                    forall|j: int|
                        0 <= j < kept@.len() ==> exists|k: int|
                            0 <= k < i && self.collapsed@[k]@ == (#[trigger] kept@[j])@,
                    forall|k: int|
                        0 <= k < i && (#[trigger] self.collapsed@[k])@ != key@ ==> exists|j: int|
                            0 <= j < kept@.len() && kept@[j]@ == self.collapsed@[k]@,
                decreases self.collapsed.len() - i,
            {
                if !(self.collapsed[i] == owned) {
                    let ghost before = kept@;
                    kept.push(self.collapsed[i].clone());
                    proof {
                        assert(kept@[before.len() as int]@ == self.collapsed@[i as int]@);
                        assert forall|j: int| 0 <= j < kept@.len() implies exists|k: int|
                            0 <= k < i + 1 && self.collapsed@[k]@ == (#[trigger] kept@[j])@ by {
                            if j < before.len() {
                                let k = choose|k: int| 0 <= k < i && self.collapsed@[k]@ == before[j]@;
                                assert(0 <= k < i + 1 && self.collapsed@[k]@ == kept@[j]@);
                            } else {
                                assert(self.collapsed@[i as int]@ == kept@[j]@);
                            }
                        }
                        assert forall|k: int|
                            0 <= k < i + 1 && (#[trigger] self.collapsed@[k])@ != key@ implies exists|j: int|
                            0 <= j < kept@.len() && kept@[j]@ == self.collapsed@[k]@ by {
                            if k < i {
                                let j = choose|j: int| 0 <= j < before.len() && before[j]@ == self.collapsed@[k]@;
                                assert(kept@[j]@ == self.collapsed@[k]@);
                            } else {
                                assert(kept@[before.len() as int]@ == self.collapsed@[k]@);
                            }
                        }
                    }
                } else {
                    proof {
                        assert forall|j: int| 0 <= j < kept@.len() implies exists|k: int|
                            0 <= k < i + 1 && self.collapsed@[k]@ == (#[trigger] kept@[j])@ by {
                            let k = choose|k: int| 0 <= k < i && self.collapsed@[k]@ == kept@[j]@;
                            assert(0 <= k < i + 1 && self.collapsed@[k]@ == kept@[j]@);
                        }
                    }
                }
                i += 1;
            }
            self.collapsed = kept;
            proof {
                let before = old(self).collapsed@;
                assert forall|name: Seq<char>| self@.contains(name) <==> old(self)@.remove(key@).contains(name) by {
                    if self@.contains(name) {
                        let j = choose|j: int| 0 <= j < self.collapsed@.len() && self.collapsed@[j]@ == name;
                        let k = choose|k: int| 0 <= k < before.len() && before[k]@ == (self.collapsed@[j])@;
                        assert(before[k]@ == name);
                    }
                    if old(self)@.remove(key@).contains(name) {
                        let k = choose|k: int| 0 <= k < before.len() && before[k]@ == name;
                        assert((before[k])@ != key@);
                        let j = choose|j: int| 0 <= j < self.collapsed@.len() && self.collapsed@[j]@ == before[k]@;
                        assert(self.collapsed@[j]@ == name);
                    }
                }
                assert(self@ =~= old(self)@.remove(key@));
            }
        }
    }
}

/// The kinds of structure that can stand on a tile.
#[derive(Copy, Clone, Debug, PartialEq, Eq, Hash, PartialOrd, Ord, Structural)]
pub enum StructureKind {
    GasTrap,
}

/// One structure on the selected tile.
#[derive(Copy, Clone, Debug)]
pub struct SelectedStructure {
    pub entity: Entity,
    pub kind: StructureKind,
    pub sell_value: Option<OwnedResources>,
}

/// The tile that the player has selected, if any, with the structures on it.
#[derive(Clone, Debug)]
pub enum TdTileSelect {
    Nothing,
    Selected { x: i32, y: i32, structures: Vec<SelectedStructure> },
}

impl View for TdTileSelect {
    type V = Option<((i32, i32), Seq<SelectedStructure>)>;

    open spec fn view(&self) -> Option<((i32, i32), Seq<SelectedStructure>)> {
        match *self {
            TdTileSelect::Nothing => None,
            TdTileSelect::Selected { x, y, structures } => Some(((x, y), structures@)),
        }
    }
}

impl TdTileSelect {
    /// Whether a tile is selected.
    pub fn is_selected(&self) -> (r: bool)
        ensures
            r == (self is Selected),
    {
        match self {
            TdTileSelect::Nothing => false,
            TdTileSelect::Selected { .. } => true,
        }
    }
}

impl Default for TdTileSelect {
    /// No tile is selected.
    fn default() -> (s: Self)
        ensures
            s is Nothing,
    {
        TdTileSelect::Nothing
    }
}

/// When the next wave can be launched, and which one it is.
#[derive(Copy, Clone, Debug, PartialEq, Eq, Structural)]
pub struct NextWaveState {
    /// If true, the wave is launched as soon as it is available.
    pub auto_launch: bool,
    /// The number of the next wave to be launched.
    pub next_wave: usize,
    /// The ticks that remain until a new wave can be launched.
    pub delay_ticks: usize,
}

impl Default for NextWaveState {
    /// Wave one, no delay, no automatic launch.
    fn default() -> (s: Self)
        ensures
            s == (NextWaveState { auto_launch: false, next_wave: 1, delay_ticks: 0 }),
    {
        NextWaveState { auto_launch: false, next_wave: 1, delay_ticks: 0 }
    }
}

/// The player's health.
#[derive(Copy, Clone, Debug, PartialEq, Eq, Structural)]
pub struct PlayerHealth {
    pub health: i32,
    pub max: i32,
}

impl Default for PlayerHealth {
    /// Full health: twenty of twenty.
    fn default() -> (h: Self)
        ensures
            h == (PlayerHealth { health: 20, max: 20 }),
    {
        PlayerHealth { health: 20, max: 20 }
    }
}

/// The world pixel at the top left corner of what the camera shows.
#[derive(Copy, Clone, Debug, PartialEq, Eq, Structural)]
pub struct TdCamera {
    /// The topmost pixel on camera.
    pub top: i32,
    /// The leftmost pixel on camera.
    pub left: i32,
}

impl Default for TdCamera {
    /// The camera at the origin.
    fn default() -> (c: Self)
        ensures
            c == (TdCamera { top: 0, left: 0 }),
    {
        TdCamera { top: 0, left: 0 }
    }
}

/// The phase that the whole game is in.
#[derive(Copy, Clone, Debug, PartialEq, Eq, Structural)]
pub enum GameState {
    Opening,
    MainGame,
    Died,
}

} // verus!
