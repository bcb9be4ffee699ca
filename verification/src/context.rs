//! The explicit simulation state: an arena of entities with their
//! components, the fixed terrain tables, the Grid Index, the history
//! timestamp and the log of undoable despawns.
use vstd::prelude::*;

verus! {

use crate::Momentum;
use crate::Pos;
use crate::SokobanBlock;
use crate::collision::CollisionMap;
use crate::history::History;

/// One entity of the arena with all of its components. Slots are never
/// reused: a despawned entity keeps its index and is marked dead.
#[derive(Clone, Debug)]
pub struct EntityRec {
    /// False once the entity was despawned (void terrain).
    pub alive: bool,
    pub pos: Pos,
    pub block: SokobanBlock,
    /// The distinguished player-controlled entity.
    pub is_player: bool,
    /// A pushable ball, the subject of goal satisfaction.
    pub is_ball: bool,
    pub momentum: Momentum,
    pub history: History,
}

/// A lamp tile: a fixed static cell whose boolean toggles when pushed
/// against.
#[derive(Clone, Copy, Debug, PartialEq, Eq, Structural)]
pub struct Lamp {
    pub pos: Pos,
    pub on: bool,
}

/// Everything needed to undo a void despawn: the slot index (which keeps
/// the dead entity's components) and the position it stood on, stamped with
/// the timestamp of the despawn.
#[derive(Clone, Copy, Debug, PartialEq, Eq, Structural)]
pub struct DespawnRecord {
    pub time: usize,
    pub id: usize,
    pub pos: Pos,
}

/// The whole simulation state, passed by reference to each phase function;
/// there is no ambient global state.
#[derive(Debug)]
pub struct SimulationContext {
    pub width: u32,
    pub height: u32,
    /// The authoritative entity set (players, balls, walls, rubber, lamps).
    pub entities: Vec<EntityRec>,
    /// Cells holding rubber tiles (also static occupants in `entities`).
    pub rubber: Vec<Pos>,
    /// Cells holding sand tiles (walkable).
    pub sand: Vec<Pos>,
    /// Cells holding void tiles (walkable, destroy what lands on them).
    pub voids: Vec<Pos>,
    /// Cells that must be covered by balls for the goal win predicate.
    pub goals: Vec<Pos>,
    /// Lamp tiles; all must be lit for the lamp win predicate.
    pub lamps: Vec<Lamp>,
    /// The Grid Index, rebuilt once per step from `entities`.
    pub collision: CollisionMap,
    /// The current history timestamp.
    pub time: usize,
    /// Undoable despawns, in the order they happened.
    pub command_log: Vec<DespawnRecord>,
    /// Set once the win condition has been reported.
    pub solved: bool,
}

/// The occupant the Grid Index reports at `p` after a sync over the first
/// `n` entities: the highest-indexed live entity standing at `p`.
pub open spec fn sync_occ_upto(ents: Seq<EntityRec>, n: int, p: Pos) -> Option<(usize, SokobanBlock)>
    decreases n,
{
    if n <= 0 {
        None
    } else {
        let e = ents[n - 1];
        if e.alive && e.pos == p {
            Some(((n - 1) as usize, e.block))
        } else {
            sync_occ_upto(ents, n - 1, p)
        }
    }
}

/// Law (Grid Index invariant): what a sync enters at a cell is a live
/// entity standing exactly there, and an empty cell means no live entity
/// stands there.
pub proof fn lemma_sync_occ_matches(ents: Seq<EntityRec>, n: int, p: Pos)
    requires
        0 <= n <= ents.len(),
        n <= usize::MAX,
    ensures
        match sync_occ_upto(ents, n, p) {
            Some((id, b)) => id < n && ents[id as int].alive && ents[id as int].pos == p
                && ents[id as int].block == b,
            None => forall|i: int| 0 <= i < n
                ==> !((#[trigger] ents[i]).alive && ents[i].pos == p),
        },
    decreases n,
{
    if n > 0 {
        lemma_sync_occ_matches(ents, n - 1, p);
    }
}

/// No entity of the table is in motion.
pub open spec fn quiescent_in(ents: Seq<EntityRec>) -> bool {
    forall|i: int| 0 <= i < ents.len()
        ==> ((#[trigger] ents[i]).alive ==> ents[i].momentum.0 is None)
}

/// Index `k` holds the one and only live player entity of the table.
pub open spec fn unique_player_in(ents: Seq<EntityRec>, k: int) -> bool {
    &&& 0 <= k < ents.len()
    &&& ents[k].alive
    &&& ents[k].is_player
    &&& forall|j: int| 0 <= j < ents.len() && j != k
        ==> !((#[trigger] ents[j]).alive && ents[j].is_player)
}

impl SimulationContext {
    /// Per-entity histories are strictly increasing, and a live entity's
    /// snapshots all predate the current timestamp.
    pub open spec fn histories_wf(self) -> bool {
        forall|i: int| 0 <= i < self.entities@.len() ==> {
            let e = #[trigger] self.entities@[i];
            e.history.times_increasing() && (e.alive ==> e.history.times_below(self.time))
        }
    }

    /// A logged despawn points at a dead arena slot whose recorded
    /// snapshots all predate the despawn, and no slot is logged twice.
    pub open spec fn log_wf(self) -> bool {
        &&& forall|i: int| 0 <= i < self.command_log@.len() ==> {
            let r = #[trigger] self.command_log@[i];
            r.id < self.entities@.len() && !self.entities@[r.id as int].alive
                && self.entities@[r.id as int].history.times_below(r.time)
        }
        &&& forall|i: int, j: int| 0 <= i < j < self.command_log@.len()
            ==> self.command_log@[i].id != self.command_log@[j].id
    }

    /// Structural well-formedness: the Grid Index covers the level
    /// rectangle, per-entity histories are strictly increasing and below the
    /// current timestamp while the entity lives, and despawn records point
    /// at dead arena slots.
    pub open spec fn wf(self) -> bool {
        &&& self.collision.wf()
        &&& self.collision.width == self.width
        &&& self.collision.height == self.height
        &&& self.histories_wf()
        &&& self.log_wf()
    }

    pub open spec fn in_bounds_spec(self, p: Pos) -> bool {
        p.x < self.width && p.y < self.height
    }

    /// No entity has pending momentum; the Momentum Engine is at rest and
    /// new input may be accepted.
    pub open spec fn quiescent(self) -> bool {
        quiescent_in(self.entities@)
    }

    /// Is there any object still moving?
    pub fn any_momentum_left(&self) -> (r: bool)
        ensures
            r == !self.quiescent(),
    {
        let n = self.entities.len();
        let mut i: usize = 0;
        while i < n
            invariant
                i <= n,
                n == self.entities@.len(),
                forall|j: int| 0 <= j < i
                    ==> ((#[trigger] self.entities@[j]).alive ==> self.entities@[j].momentum.0 is None),
            decreases n - i,
        {
            if self.entities[i].alive && self.entities[i].momentum.0.is_some() {
                return true;
            }
            i = i + 1;
        }
        false
    }

    /// Index `k` holds the one and only live player entity.
    pub open spec fn unique_player(self, k: int) -> bool {
        unique_player_in(self.entities@, k)
    }

    /// The distinguished player entity, or `None` unless there is exactly
    /// one live player (a missing or duplicated player degrades to skipping
    /// the dependent step, never to a crash).
    pub fn find_single_player(&self) -> (r: Option<usize>)
        ensures
            match r {
                Some(k) => self.unique_player(k as int),
                None => forall|k: int| !self.unique_player(k),
            },
    {
        let n = self.entities.len();
        let mut found: Option<usize> = None;
        let mut duplicated: bool = false;
        let mut i: usize = 0;
        #[verifier::loop_isolation(false)]
        while i < n
            invariant
                i <= n,
                match found {
                    Some(k) => k < i && self.entities@[k as int].alive
                        && self.entities@[k as int].is_player
                        && (duplicated || forall|j: int| 0 <= j < i && j != k
                            ==> !((#[trigger] self.entities@[j]).alive && self.entities@[j].is_player)),
                    None => !duplicated && forall|j: int| 0 <= j < i
                        ==> !((#[trigger] self.entities@[j]).alive && self.entities@[j].is_player),
                },
                duplicated ==> found is Some,
                duplicated ==> exists|j1: int, j2: int|
                    0 <= j1 < j2 < i
                    && self.entities@[j1].alive && self.entities@[j1].is_player
                    && self.entities@[j2].alive && self.entities@[j2].is_player,
            decreases n - i,
        {
            if self.entities[i].alive && self.entities[i].is_player {
                if found.is_some() {
                    duplicated = true;
                    proof {
                        let k0 = found->Some_0 as int;
                        assert(0 <= k0 < i as int
                            && self.entities@[k0].alive && self.entities@[k0].is_player
                            && self.entities@[i as int].alive && self.entities@[i as int].is_player);
                    }
                } else {
                    found = Some(i);
                }
            }
            i = i + 1;
        }
        if duplicated {
            proof {
                let (j1, j2) = choose|j1: int, j2: int|
                    0 <= j1 < j2 < n
                    && self.entities@[j1].alive && self.entities@[j1].is_player
                    && self.entities@[j2].alive && self.entities@[j2].is_player;
                assert forall|k: int| !self.unique_player(k) by {
                    if self.unique_player(k) {
                        if j1 != k {
                            assert(!(self.entities@[j1].alive && self.entities@[j1].is_player));
                        } else {
                            assert(!(self.entities@[j2].alive && self.entities@[j2].is_player));
                        }
                    }
                }
            }
            return None;
        }
        found
    }

    /// Rebuild the Grid Index from the authoritative entity set: clear it
    /// and enter every live entity at its current position, later slots
    /// overwriting earlier ones. Out-of-level positions are left out, so the
    /// affected entity simply has no entry (graceful desync degradation).
    pub fn sync_collision_map(&mut self)
        requires
            old(self).wf(),
        ensures
            *final(self) == (SimulationContext { collision: final(self).collision, ..*old(self) }),
            final(self).wf(),
            forall|p: Pos| final(self).collision.occ(p) == (if old(self).in_bounds_spec(p) {
                sync_occ_upto(old(self).entities@, old(self).entities@.len() as int, p)
            } else {
                None::<(usize, SokobanBlock)>
            }),
    {
        // bind the length so the prover sees the rectangle fits in usize
        let _len_bound: usize = self.collision.cells.len();
        let mut map = CollisionMap::new(self.width, self.height);
        let n = self.entities.len();
        let mut i: usize = 0;
        #[verifier::loop_isolation(false)]
        while i < n
            invariant
                i <= n,
                map.wf(),
                map.width == self.width,
                map.height == self.height,
                forall|p: Pos| map.occ(p) == (if self.in_bounds_spec(p) {
                    sync_occ_upto(self.entities@, i as int, p)
                } else {
                    None::<(usize, SokobanBlock)>
                }),
            decreases n - i,
        {
            let e = &self.entities[i];
            if e.alive && e.pos.x < self.width && e.pos.y < self.height {
                map.set(e.pos, Some((i, e.block)));
            }
            i = i + 1;
        }
        self.collision = map;
    }
}

} // verus!
