//! The static tables of what a tile can turn into, and what can be built on
//! it, each with its cost.

use crate::resources::ledger::OwnedResources;
use crate::resources::path::Tile;
use crate::resources::StructureKind;
use vstd::prelude::*;

verus! {

/// One possible change of a tile, with its cost.
#[derive(Copy, Clone, Debug, PartialEq, Eq, Structural)]
pub struct TileTransformDesc {
    pub source: Tile,
    pub target: Tile,
    pub cost: OwnedResources,
}

/// For each tile, the tiles it can turn into, each with its cost.
#[derive(Clone, Debug)]
pub struct TileTransforms {
    entries: Vec<TileTransformDesc>,
}

impl View for TileTransforms {
    type V = Map<(Tile, Tile), OwnedResources>;

    closed spec fn view(&self) -> Map<(Tile, Tile), OwnedResources> {
        Map::new(
            |k: (Tile, Tile)|
                exists|i: int|
                    0 <= i < self.entries@.len() && (#[trigger] self.entries@[i]).source == k.0 && self.entries@[i].target
                        == k.1,
            |k: (Tile, Tile)|
                self.entries@[choose|i: int|
                    0 <= i < self.entries@.len() && (#[trigger] self.entries@[i]).source == k.0 && self.entries@[i].target
                        == k.1].cost,
        )
    }
}

impl Default for TileTransforms {
    /// A table without entries.
    fn default() -> (t: Self)
        ensures
            t.wf(),
            t@ == Map::<(Tile, Tile), OwnedResources>::empty(),
    {
        TileTransforms::new()
    }
}

impl TileTransforms {
    /// No pair of source and target is entered twice.
    pub closed spec fn wf(&self) -> bool {
        forall|i: int, j: int|
            0 <= i < j < self.entries@.len() ==> !((#[trigger] self.entries@[i]).source == (
            #[trigger] self.entries@[j]).source && self.entries@[i].target == self.entries@[j].target)
    }

    /// What the entry at `i` says of the view.
    proof fn lemma_entry(&self, i: int)
        requires
            self.wf(),
            0 <= i < self.entries@.len(),
        ensures
            self@.contains_key((self.entries@[i].source, self.entries@[i].target)),
            self@[(self.entries@[i].source, self.entries@[i].target)] == self.entries@[i].cost,
    {
        let k = (self.entries@[i].source, self.entries@[i].target);
        let c = choose|c: int|
            0 <= c < self.entries@.len() && (#[trigger] self.entries@[c]).source == k.0 && self.entries@[c].target
                == k.1;
        if c < i {
            assert(!(self.entries@[c].source == self.entries@[i].source && self.entries@[c].target
                == self.entries@[i].target));
        }
        if i < c {
            assert(!(self.entries@[i].source == self.entries@[c].source && self.entries@[i].target
                == self.entries@[c].target));
        }
    }

    /// A table without entries.
    pub fn new() -> (t: Self)
        ensures
            t.wf(),
            t@ == Map::<(Tile, Tile), OwnedResources>::empty(),
    {
        let t = TileTransforms { entries: Vec::new() };
        assert(t@ =~= Map::<(Tile, Tile), OwnedResources>::empty());
        t
    }

    /// Where the change from `source` to `target` is entered, if it is.
    fn position(&self, source: Tile, target: Tile) -> (r: Option<usize>)
        ensures
            match r {
                Some(i) => i < self.entries@.len() && self.entries@[i as int].source == source
                    && self.entries@[i as int].target == target,
                None => forall|j: int|
                    0 <= j < self.entries@.len() ==> !((#[trigger] self.entries@[j]).source == source
                        && self.entries@[j].target == target),
            },
    {
        let mut i: usize = 0;
        while i < self.entries.len()
            invariant
                i <= self.entries.len(),
                forall|j: int|
                    0 <= j < i ==> !((#[trigger] self.entries@[j]).source == source && self.entries@[j].target
                        == target),
            decreases self.entries.len() - i,
        {
            if self.entries[i].source == source && self.entries[i].target == target {
                return Some(i);
            }
            i += 1;
        }
        None
    }

    /// The cost of the change from `source` to `target`, if it is entered.
    pub fn cost_of(&self, source: Tile, target: Tile) -> (r: Option<OwnedResources>)
        requires
            self.wf(),
        ensures
            match r {
                Some(c) => self@.contains_key((source, target)) && self@[(source, target)] == c,
                None => !self@.contains_key((source, target)),
            },
    {
        match self.position(source, target) {
            Some(i) => {
                proof {
                    self.lemma_entry(i as int);
                }
                Some(self.entries[i].cost)
            },
            None => None,
        }
    }

    /// Enters a change, in place of the one with the same source and target
    /// if there is one.
    pub fn add(&mut self, transform: TileTransformDesc)
        requires
            old(self).wf(),
        ensures
            final(self).wf(),
            final(self)@ == old(self)@.insert((transform.source, transform.target), transform.cost),
    {
        let found = self.position(transform.source, transform.target);
        let ghost before = old(self).entries@;
        match found {
            Some(at) => {
                self.entries[at] = transform;
            },
            None => {
                self.entries.push(transform);
            },
        }
        proof {
            let key = (transform.source, transform.target);
            let at = match found {
                Some(at) => at as int,
                None => before.len() as int,
            };
            assert(self.entries@[at] == transform);
            assert(self.wf()) by {
                assert forall|a: int, b: int| 0 <= a < b < self.entries@.len() implies !((
                #[trigger] self.entries@[a]).source == (#[trigger] self.entries@[b]).source && self.entries@[a].target
                    == self.entries@[b].target) by {
                    if a != at && b != at {
                        assert(self.entries@[a] == before[a]);
                        assert(self.entries@[b] == before[b]);
                    } else if a == at {
                        assert(self.entries@[b] == before[b]);
                        if found is Some {
                            assert(!(before[a].source == before[b].source && before[a].target == before[b].target));
                        }
                    } else {
                        assert(self.entries@[a] == before[a]);
                        if found is Some {
                            assert(!(before[a].source == before[b].source && before[a].target == before[b].target));
                        }
                    }
                }
            }
            let goal = old(self)@.insert(key, transform.cost);
            assert forall|k: (Tile, Tile)| self@.dom().contains(k) == goal.dom().contains(k) by {
                if k == key {
                    self.lemma_entry(at);
                } else {
                    if self@.contains_key(k) {
                        let c = choose|c: int|
                            0 <= c < self.entries@.len() && (#[trigger] self.entries@[c]).source == k.0
                                && self.entries@[c].target == k.1;
                        assert(c != at);
                        assert(before[c] == self.entries@[c]);
                        old(self).lemma_entry(c);
                    }
                    if old(self)@.contains_key(k) {
                        let c = choose|c: int|
                            0 <= c < before.len() && (#[trigger] before[c]).source == k.0 && before[c].target == k.1;
                        assert(c != at);
                        assert(before[c] == self.entries@[c]);
                        self.lemma_entry(c);
                    }
                }
            }
            assert forall|k: (Tile, Tile)| self@.dom().contains(k) implies self@[k] == goal[k] by {
                if k == key {
                    self.lemma_entry(at);
                } else {
                    let c = choose|c: int|
                        0 <= c < self.entries@.len() && (#[trigger] self.entries@[c]).source == k.0
                            && self.entries@[c].target == k.1;
                    assert(c != at);
                    assert(before[c] == self.entries@[c]);
                    self.lemma_entry(c);
                    old(self).lemma_entry(c);
                }
            }
            assert(self@ =~= old(self)@.insert(key, transform.cost));
        }
    }

    /// The tiles that `source` can turn into, each once, with its cost.
    pub fn list_all_for(&self, source: Tile) -> (r: Vec<(Tile, OwnedResources)>)
        requires
            self.wf(),
        ensures
            forall|i: int, j: int| 0 <= i < j < r@.len() ==> (#[trigger] r@[i]).0 != (#[trigger] r@[j]).0,
            forall|i: int|
                0 <= i < r@.len() ==> self@.contains_key((source, (#[trigger] r@[i]).0)) && self@[(source, r@[i].0)]
                    == r@[i].1,
            forall|target: Tile| #[trigger]
                self@.contains_key((source, target)) ==> exists|i: int| 0 <= i < r@.len() && r@[i].0 == target,
    {
        let mut r: Vec<(Tile, OwnedResources)> = Vec::new();
        let ghost mut origin: Seq<int> = Seq::empty();
        let mut i: usize = 0;
        while i < self.entries.len()
            invariant
                i <= self.entries.len(),
                self.wf(),
                origin.len() == r@.len(),
                forall|a: int|
                    0 <= a < r@.len() ==> 0 <= #[trigger] origin[a] < i && self.entries@[origin[a]].source == source
                        && self.entries@[origin[a]].target == r@[a].0 && self.entries@[origin[a]].cost == r@[a].1,
                forall|a: int, b: int| 0 <= a < b < r@.len() ==> #[trigger] origin[a] < #[trigger] origin[b],
                forall|c: int|
                    0 <= c < i && (#[trigger] self.entries@[c]).source == source ==> exists|a: int|
                        0 <= a < r@.len() && origin[a] == c,
            decreases self.entries.len() - i,
        {
            if self.entries[i].source == source {
                let ghost before = r@;
                let ghost before_origin = origin;
                r.push((self.entries[i].target, self.entries[i].cost));
                proof {
                    origin = origin.push(i as int);
                    assert forall|c: int|
                        0 <= c < i + 1 && (#[trigger] self.entries@[c]).source == source implies exists|a: int|
                        0 <= a < r@.len() && origin[a] == c by {
                        if c < i {
                            let a = choose|a: int| 0 <= a < before.len() && before_origin[a] == c;
                            assert(origin[a] == c);
                        } else {
                            assert(origin[before.len() as int] == c);
                        }
                    }
                }
            }
            i += 1;
        }
        proof {
            assert forall|a: int, b: int| 0 <= a < b < r@.len() implies (#[trigger] r@[a]).0 != (#[trigger] r@[b]).0 by {
                assert(origin[a] < origin[b]);
                assert(!(self.entries@[origin[a]].source == self.entries@[origin[b]].source
                    && self.entries@[origin[a]].target == self.entries@[origin[b]].target));
            }
            assert forall|a: int| 0 <= a < r@.len() implies self@.contains_key((source, (#[trigger] r@[a]).0))
                && self@[(source, r@[a].0)] == r@[a].1 by {
                self.lemma_entry(origin[a]);
            }
            assert forall|target: Tile| #[trigger] self@.contains_key((source, target)) implies exists|a: int|
                0 <= a < r@.len() && r@[a].0 == target by {
                let c = choose|c: int|
                    0 <= c < self.entries@.len() && (#[trigger] self.entries@[c]).source == source
                        && self.entries@[c].target == target;
                let a = choose|a: int| 0 <= a < r@.len() && origin[a] == c;
                assert(r@[a].0 == target);
            }
        }
        r
    }
}

/// One structure that can be built on a tile, with its cost.
#[derive(Copy, Clone, Debug, PartialEq, Eq, Structural)]
pub struct StructureBuildDesc {
    pub tile: Tile,
    pub kind: StructureKind,
    pub cost: OwnedResources,
}

/// For each tile, the structures that can be built on it, each with its cost.
#[derive(Clone, Debug)]
pub struct StructureBuilds {
    entries: Vec<StructureBuildDesc>,
}

impl View for StructureBuilds {
    type V = Map<(Tile, StructureKind), OwnedResources>;

    closed spec fn view(&self) -> Map<(Tile, StructureKind), OwnedResources> {
        Map::new(
            |k: (Tile, StructureKind)|
                exists|i: int|
                    0 <= i < self.entries@.len() && (#[trigger] self.entries@[i]).tile == k.0 && self.entries@[i].kind
                        == k.1,
            |k: (Tile, StructureKind)|
                self.entries@[choose|i: int|
                    0 <= i < self.entries@.len() && (#[trigger] self.entries@[i]).tile == k.0 && self.entries@[i].kind
                        == k.1].cost,
        )
    }
}

impl Default for StructureBuilds {
    /// A table without entries.
    fn default() -> (t: Self)
        ensures
            t.wf(),
            t@ == Map::<(Tile, StructureKind), OwnedResources>::empty(),
    {
        StructureBuilds::new()
    }
}

impl StructureBuilds {
    /// No pair of tile and structure is entered twice.
    pub closed spec fn wf(&self) -> bool {
        forall|i: int, j: int|
            0 <= i < j < self.entries@.len() ==> !((#[trigger] self.entries@[i]).tile == (
            #[trigger] self.entries@[j]).tile && self.entries@[i].kind == self.entries@[j].kind)
    }

    /// What the entry at `i` says of the view.
    proof fn lemma_entry(&self, i: int)
        requires
            self.wf(),
            0 <= i < self.entries@.len(),
        ensures
            self@.contains_key((self.entries@[i].tile, self.entries@[i].kind)),
            self@[(self.entries@[i].tile, self.entries@[i].kind)] == self.entries@[i].cost,
    {
        let k = (self.entries@[i].tile, self.entries@[i].kind);
        let c = choose|c: int|
            0 <= c < self.entries@.len() && (#[trigger] self.entries@[c]).tile == k.0 && self.entries@[c].kind
                == k.1;
        if c < i {
            assert(!(self.entries@[c].tile == self.entries@[i].tile && self.entries@[c].kind
                == self.entries@[i].kind));
        }
        if i < c {
            assert(!(self.entries@[i].tile == self.entries@[c].tile && self.entries@[i].kind
                == self.entries@[c].kind));
        }
    }

    /// A table without entries.
    pub fn new() -> (t: Self)
        ensures
            t.wf(),
            t@ == Map::<(Tile, StructureKind), OwnedResources>::empty(),
    {
        let t = StructureBuilds { entries: Vec::new() };
        assert(t@ =~= Map::<(Tile, StructureKind), OwnedResources>::empty());
        t
    }

    /// Where the structure `kind` on `tile` is entered, if it is.
    fn position(&self, tile: Tile, kind: StructureKind) -> (r: Option<usize>)
        ensures
            match r {
                Some(i) => i < self.entries@.len() && self.entries@[i as int].tile == tile
                    && self.entries@[i as int].kind == kind,
                None => forall|j: int|
                    0 <= j < self.entries@.len() ==> !((#[trigger] self.entries@[j]).tile == tile
                        && self.entries@[j].kind == kind),
            },
    {
        let mut i: usize = 0;
        while i < self.entries.len()
            invariant
                i <= self.entries.len(),
                forall|j: int|
                    0 <= j < i ==> !((#[trigger] self.entries@[j]).tile == tile && self.entries@[j].kind
                        == kind),
            decreases self.entries.len() - i,
        {
            if self.entries[i].tile == tile && self.entries[i].kind == kind {
                return Some(i);
            }
            i += 1;
        }
        None
    }

    /// The cost of the structure `kind` on `tile`, if it is entered.
    pub fn cost_of(&self, tile: Tile, kind: StructureKind) -> (r: Option<OwnedResources>)
        requires
            self.wf(),
        ensures
            match r {
                Some(c) => self@.contains_key((tile, kind)) && self@[(tile, kind)] == c,
                None => !self@.contains_key((tile, kind)),
            },
    {
        match self.position(tile, kind) {
            Some(i) => {
                proof {
                    self.lemma_entry(i as int);
                }
                Some(self.entries[i].cost)
            },
            None => None,
        }
    }

    /// Enters a structure, in place of the one of the same kind on the same
    /// tile if there is one.
    pub fn add(&mut self, build_desc: StructureBuildDesc)
        requires
            old(self).wf(),
        ensures
            final(self).wf(),
            final(self)@ == old(self)@.insert((build_desc.tile, build_desc.kind), build_desc.cost),
    {
        let found = self.position(build_desc.tile, build_desc.kind);
        let ghost before = old(self).entries@;
        match found {
            Some(at) => {
                self.entries[at] = build_desc;
            },
            None => {
                self.entries.push(build_desc);
            },
        }
        proof {
            let key = (build_desc.tile, build_desc.kind);
            let at = match found {
                Some(at) => at as int,
                None => before.len() as int,
            };
            assert(self.entries@[at] == build_desc);
            assert(self.wf()) by {
                assert forall|a: int, b: int| 0 <= a < b < self.entries@.len() implies !((
                #[trigger] self.entries@[a]).tile == (#[trigger] self.entries@[b]).tile && self.entries@[a].kind
                    == self.entries@[b].kind) by {
                    if a != at && b != at {
                        assert(self.entries@[a] == before[a]);
                        assert(self.entries@[b] == before[b]);
                    } else if a == at {
                        assert(self.entries@[b] == before[b]);
                        if found is Some {
                            assert(!(before[a].tile == before[b].tile && before[a].kind == before[b].kind));
                        }
                    } else {
                        assert(self.entries@[a] == before[a]);
                        if found is Some {
                            assert(!(before[a].tile == before[b].tile && before[a].kind == before[b].kind));
                        }
                    }
                }
            }
            let goal = old(self)@.insert(key, build_desc.cost);
            assert forall|k: (Tile, StructureKind)| self@.dom().contains(k) == goal.dom().contains(k) by {
                if k == key {
                    self.lemma_entry(at);
                } else {
                    if self@.contains_key(k) {
                        let c = choose|c: int|
                            0 <= c < self.entries@.len() && (#[trigger] self.entries@[c]).tile == k.0
                                && self.entries@[c].kind == k.1;
                        assert(c != at);
                        assert(before[c] == self.entries@[c]);
                        old(self).lemma_entry(c);
                    }
                    if old(self)@.contains_key(k) {
                        let c = choose|c: int|
                            0 <= c < before.len() && (#[trigger] before[c]).tile == k.0 && before[c].kind == k.1;
                        assert(c != at);
                        assert(before[c] == self.entries@[c]);
                        self.lemma_entry(c);
                    }
                }
            }
            assert forall|k: (Tile, StructureKind)| self@.dom().contains(k) implies self@[k] == goal[k] by {
                if k == key {
                    self.lemma_entry(at);
                } else {
                    let c = choose|c: int|
                        0 <= c < self.entries@.len() && (#[trigger] self.entries@[c]).tile == k.0
                            && self.entries@[c].kind == k.1;
                    assert(c != at);
                    assert(before[c] == self.entries@[c]);
                    self.lemma_entry(c);
                    old(self).lemma_entry(c);
                }
            }
            assert(self@ =~= old(self)@.insert(key, build_desc.cost));
        }
    }

    /// The structures that can be built on `tile`, each once, with its cost.
    pub fn list_all_for(&self, tile: Tile) -> (r: Vec<(StructureKind, OwnedResources)>)
        requires
            self.wf(),
        ensures
            forall|i: int, j: int| 0 <= i < j < r@.len() ==> (#[trigger] r@[i]).0 != (#[trigger] r@[j]).0,
            forall|i: int|
                0 <= i < r@.len() ==> self@.contains_key((tile, (#[trigger] r@[i]).0)) && self@[(tile, r@[i].0)]
                    == r@[i].1,
            forall|kind: StructureKind| #[trigger]
                self@.contains_key((tile, kind)) ==> exists|i: int| 0 <= i < r@.len() && r@[i].0 == kind,
    {
        let mut r: Vec<(StructureKind, OwnedResources)> = Vec::new();
        let ghost mut origin: Seq<int> = Seq::empty();
        let mut i: usize = 0;
        while i < self.entries.len()
            invariant
                i <= self.entries.len(),
                self.wf(),
                origin.len() == r@.len(),
                forall|a: int|
                    0 <= a < r@.len() ==> 0 <= #[trigger] origin[a] < i && self.entries@[origin[a]].tile == tile
                        && self.entries@[origin[a]].kind == r@[a].0 && self.entries@[origin[a]].cost == r@[a].1,
                forall|a: int, b: int| 0 <= a < b < r@.len() ==> #[trigger] origin[a] < #[trigger] origin[b],
                forall|c: int|
                    0 <= c < i && (#[trigger] self.entries@[c]).tile == tile ==> exists|a: int|
                        0 <= a < r@.len() && origin[a] == c,
            decreases self.entries.len() - i,
        {
            if self.entries[i].tile == tile {
                let ghost before = r@;
                let ghost before_origin = origin;
                r.push((self.entries[i].kind, self.entries[i].cost));
                proof {
                    origin = origin.push(i as int);
                    assert forall|c: int|
                        0 <= c < i + 1 && (#[trigger] self.entries@[c]).tile == tile implies exists|a: int|
                        0 <= a < r@.len() && origin[a] == c by {
                        if c < i {
                            let a = choose|a: int| 0 <= a < before.len() && before_origin[a] == c;
                            assert(origin[a] == c);
                        } else {
                            assert(origin[before.len() as int] == c);
                        }
                    }
                }
            }
            i += 1;
        }
        proof {
            assert forall|a: int, b: int| 0 <= a < b < r@.len() implies (#[trigger] r@[a]).0 != (#[trigger] r@[b]).0 by {
                assert(origin[a] < origin[b]);
                assert(!(self.entries@[origin[a]].tile == self.entries@[origin[b]].tile
                    && self.entries@[origin[a]].kind == self.entries@[origin[b]].kind));
            }
            assert forall|a: int| 0 <= a < r@.len() implies self@.contains_key((tile, (#[trigger] r@[a]).0))
                && self@[(tile, r@[a].0)] == r@[a].1 by {
                self.lemma_entry(origin[a]);
            }
            assert forall|kind: StructureKind| #[trigger] self@.contains_key((tile, kind)) implies exists|a: int|
                0 <= a < r@.len() && r@[a].0 == kind by {
                let c = choose|c: int|
                    0 <= c < self.entries@.len() && (#[trigger] self.entries@[c]).tile == tile
                        && self.entries@[c].kind == kind;
                let a = choose|a: int| 0 <= a < r@.len() && origin[a] == c;
                assert(r@[a].0 == kind);
            }
        }
        r
    }
}


} // verus!
