//! Momentum Engine: per step it hands motion across touching chains
//! (Newton's-cradle style transfer), then moves every entity still in
//! motion by one cell. The player never coasts; other dynamic entities keep
//! their momentum until blocked or terrain-cancelled.
use vstd::prelude::*;

verus! {

use crate::Dir;
use crate::Momentum;
use crate::Pos;
use crate::SokobanEvent;
use crate::collision::CollisionMap;
use crate::collision::CollisionResult;
use crate::collision::PushOutcome;
use crate::context::EntityRec;
use crate::context::SimulationContext;
use crate::tile_behaviour::lamp_events;
use crate::tile_behaviour::lamp_fold;
use crate::tile_behaviour::rubber_one_spec;
use crate::tile_behaviour::sand_one_spec;
use crate::tile_behaviour::void_events;
use crate::tile_behaviour::void_one_spec;
use crate::tile_behaviour::void_records;

/// The same entity with its momentum replaced.
pub open spec fn with_momentum(e: EntityRec, m: Option<Dir>) -> EntityRec {
    EntityRec { momentum: Momentum(m), ..e }
}

/// Snapshot of the entities in motion among the first `n` slots, in slot
/// order: `(index, position, direction)` triples.
pub open spec fn movers_upto(ents: Seq<EntityRec>, n: int) -> Seq<(usize, Pos, Dir)>
    decreases n,
{
    if n <= 0 {
        Seq::empty()
    } else {
        let rest = movers_upto(ents, n - 1);
        let e = ents[n - 1];
        if e.alive && e.momentum.0 is Some {
            rest.push((((n - 1) as usize, e.pos, e.momentum.0->Some_0)))
        } else {
            rest
        }
    }
}

/// The chain position of the entity that receives the handed-off motion:
/// the last entity of `chain` (scanning the first `n` links) that is
/// currently idle. Links that do not name a live arena slot are skipped.
pub open spec fn chain_last_idle(ents: Seq<EntityRec>, chain: Seq<usize>, n: int) -> Option<int>
    decreases n,
{
    if n <= 0 {
        None
    } else {
        let id = chain[n - 1];
        if id < ents.len() && ents[id as int].momentum.0 is None {
            Some(n - 1)
        } else {
            chain_last_idle(ents, chain, n - 1)
        }
    }
}

/// One mover's transfer: resolve a push from its snapshot position and
/// direction. A successful push hands the motion to the last idle entity of
/// the chain (if any); a wall absorbs the motion; an out-of-bounds push is
/// cancelled (and reported as an anomaly by the caller).
pub open spec fn transfer_one_spec(
    ents: Seq<EntityRec>,
    map: CollisionMap,
    id: usize,
    p: Pos,
    d: Dir,
) -> Seq<EntityRec> {
    if id < ents.len() {
        match map.resolve_spec(p, d) {
            PushOutcome::Push(chain) => match chain_last_idle(ents, chain, chain.len() as int) {
                Some(ci) => {
                    let tgt = chain[ci] as int;
                    let s1 = ents.update(tgt, with_momentum(ents[tgt], Some(d)));
                    s1.update(id as int, with_momentum(s1[id as int], None))
                },
                None => ents,
            },
            PushOutcome::Wall => ents.update(id as int, with_momentum(ents[id as int], None)),
            PushOutcome::OutOfBounds => ents.update(
                id as int,
                with_momentum(ents[id as int], None),
            ),
        }
    } else {
        ents
    }
}

/// The transfer phase folded over the mover snapshot from entry `k` onward.
pub open spec fn transfer_fold(
    ents: Seq<EntityRec>,
    map: CollisionMap,
    snap: Seq<(usize, Pos, Dir)>,
    k: int,
) -> Seq<EntityRec>
    decreases snap.len() - k,
{
    if k < 0 || k >= snap.len() {
        ents
    } else {
        transfer_fold(
            transfer_one_spec(ents, map, snap[k].0, snap[k].1, snap[k].2),
            map,
            snap,
            k + 1,
        )
    }
}

/// The entity table after a whole transfer phase.
pub open spec fn transfer_result(ents: Seq<EntityRec>, map: CollisionMap) -> Seq<EntityRec> {
    transfer_fold(ents, map, movers_upto(ents, ents.len() as int), 0)
}

/// The movers (from entry `k` of the snapshot onward) whose push resolves
/// out of bounds: reportable anomalies under correct level data.
pub open spec fn oob_movers_from(
    map: CollisionMap,
    snap: Seq<(usize, Pos, Dir)>,
    k: int,
) -> Seq<usize>
    decreases snap.len() - k,
{
    if k < 0 || k >= snap.len() {
        Seq::empty()
    } else {
        let rest = oob_movers_from(map, snap, k + 1);
        if map.resolve_spec(snap[k].1, snap[k].2) is OutOfBounds {
            seq![snap[k].0] + rest
        } else {
            rest
        }
    }
}

/// Every snapshot entry names a live moving entity in range, carrying its
/// position and direction.
pub open spec fn snapshot_ok(ents: Seq<EntityRec>, snap: Seq<(usize, Pos, Dir)>) -> bool {
    forall|k: int| 0 <= k < snap.len() ==> {
        let (id, p, d) = #[trigger] snap[k];
        id < ents.len() && ents[id as int].alive && ents[id as int].pos == p
            && ents[id as int].momentum.0 == Some(d)
    }
}

pub proof fn lemma_movers_upto_ok(ents: Seq<EntityRec>, n: int)
    requires
        n <= ents.len(),
        n <= usize::MAX,
    ensures
        snapshot_ok(ents, movers_upto(ents, n)),
    decreases n,
{
    if n > 0 {
        lemma_movers_upto_ok(ents, n - 1);
        let prev = movers_upto(ents, n - 1);
        let cur = movers_upto(ents, n);
        assert forall|k: int| 0 <= k < cur.len() implies {
            let (id, p, d) = #[trigger] cur[k];
            id < ents.len() && ents[id as int].alive && ents[id as int].pos == p
                && ents[id as int].momentum.0 == Some(d)
        } by {
            let e = ents[n - 1];
            if e.alive && e.momentum.0 is Some {
                if k < prev.len() {
                    assert(cur[k] == prev[k]);
                } else {
                    assert(cur[k] == (((n - 1) as usize, e.pos, e.momentum.0->Some_0)));
                }
            } else {
                assert(cur[k] == prev[k]);
            }
        }
    }
}

/// Where `chain_last_idle` points, it points at an idle entity inside the
/// arena, inside the scanned prefix of the chain.
pub proof fn lemma_chain_last_idle_bounds(ents: Seq<EntityRec>, chain: Seq<usize>, n: int)
    requires
        n <= chain.len(),
    ensures
        match chain_last_idle(ents, chain, n) {
            Some(ci) => 0 <= ci < n && chain[ci] < ents.len()
                && ents[chain[ci] as int].momentum.0 is None,
            None => true,
        },
    decreases n,
{
    if n > 0 {
        lemma_chain_last_idle_bounds(ents, chain, n - 1);
    }
}

/// A transfer touches only the momentum column: every other component of
/// every entity is left as it was.
pub open spec fn same_but_momentum(a: Seq<EntityRec>, b: Seq<EntityRec>) -> bool {
    &&& a.len() == b.len()
    &&& forall|i: int| 0 <= i < a.len() ==> {
        let (x, y) = (#[trigger] a[i], b[i]);
        x.alive == y.alive && x.pos == y.pos && x.block == y.block
            && x.is_player == y.is_player && x.is_ball == y.is_ball && x.history == y.history
    }
}

pub proof fn lemma_transfer_one_frame(
    ents: Seq<EntityRec>,
    map: CollisionMap,
    id: usize,
    p: Pos,
    d: Dir,
)
    ensures
        same_but_momentum(ents, transfer_one_spec(ents, map, id, p, d)),
{
    if id < ents.len() {
        match map.resolve_spec(p, d) {
            PushOutcome::Push(chain) => {
                lemma_chain_last_idle_bounds(ents, chain, chain.len() as int);
            },
            _ => {},
        }
    }
}

pub proof fn lemma_transfer_fold_frame(
    ents: Seq<EntityRec>,
    map: CollisionMap,
    snap: Seq<(usize, Pos, Dir)>,
    k: int,
)
    ensures
        same_but_momentum(ents, transfer_fold(ents, map, snap, k)),
    decreases snap.len() - k,
{
    if 0 <= k < snap.len() {
        lemma_transfer_one_frame(ents, map, snap[k].0, snap[k].1, snap[k].2);
        lemma_transfer_fold_frame(
            transfer_one_spec(ents, map, snap[k].0, snap[k].1, snap[k].2),
            map,
            snap,
            k + 1,
        );
    }
}

impl SimulationContext {
    /// One mover's transfer against the current Grid Index. Reports whether
    /// the push resolved out of bounds.
    /// The chain position of the last currently idle entity of `chain`, the
    /// receiver of a handed-off motion.
    fn find_last_idle(&self, chain: &Vec<usize>) -> (tgt: Option<usize>)
        ensures
            match tgt {
                Some(ci) => ci < chain@.len() && chain@[ci as int] < self.entities@.len()
                    && chain_last_idle(self.entities@, chain@, chain@.len() as int)
                        == Some(ci as int),
                None => chain_last_idle(self.entities@, chain@, chain@.len() as int) is None,
            },
    {
        let n = self.entities.len();
        let cn = chain.len();
        let mut tgt: Option<usize> = None;
        let mut j: usize = 0;
        #[verifier::loop_isolation(false)]
        while j < cn
            invariant
                j <= cn,
                match tgt {
                    Some(ci) => ci < j && chain@[ci as int] < self.entities@.len()
                        && chain_last_idle(self.entities@, chain@, j as int) == Some(ci as int),
                    None => chain_last_idle(self.entities@, chain@, j as int) is None,
                },
            decreases cn - j,
        {
            let link = chain[j];
            if link < n && self.entities[link].momentum.0.is_none() {
                tgt = Some(j);
            }
            j = j + 1;
        }
        tgt
    }

    #[verifier::rlimit(50)]
    fn transfer_one(&mut self, id: usize, p: Pos, d: Dir) -> (oob: bool)
        requires
            old(self).collision.wf(),
            id < old(self).entities@.len(),
        ensures
            *final(self) == (SimulationContext { entities: final(self).entities, ..*old(self) }),
            final(self).entities@ == transfer_one_spec(
                old(self).entities@,
                old(self).collision,
                id,
                p,
                d,
            ),
            oob == (old(self).collision.resolve_spec(p, d) is OutOfBounds),
    {
        match self.collision.push_collision(p, d) {
            CollisionResult::Push(chain) => {
                let tgt = self.find_last_idle(&chain);
                match tgt {
                    Some(ci) => {
                        let t = chain[ci];
                        self.entities[t].momentum = Momentum(Some(d));
                        self.entities[id].momentum = Momentum(None);
                    },
                    None => {},
                }
                false
            },
            CollisionResult::Wall => {
                self.entities[id].momentum = Momentum(None);
                false
            },
            CollisionResult::OutOfBounds => {
                self.entities[id].momentum = Momentum(None);
                true
            },
        }
    }

    /// Transfer phase: for every entity currently in motion (snapshotted at
    /// entry, in slot order), resolve a push from its position in its
    /// momentum direction and hand the motion forward, absorb it at a wall,
    /// or cancel it at the level border. Returns the slots whose push
    /// resolved out of bounds, for external diagnostics.
    pub fn transfer_momentum(&mut self) -> (anomalies: Vec<usize>)
        requires
            old(self).wf(),
        ensures
            final(self).wf(),
            *final(self) == (SimulationContext { entities: final(self).entities, ..*old(self) }),
            final(self).entities@ == transfer_result(old(self).entities@, old(self).collision),
            final(self).entities@.len() == old(self).entities@.len(),
            anomalies@ == oob_movers_from(
                old(self).collision,
                movers_upto(old(self).entities@, old(self).entities@.len() as int),
                0,
            ),
    {
        let n = self.entities.len();
        let mut snap: Vec<(usize, Pos, Dir)> = Vec::new();
        let mut i: usize = 0;
        #[verifier::loop_isolation(false)]
        while i < n
            invariant
                i <= n,
                snap@ == movers_upto(self.entities@, i as int),
            decreases n - i,
        {
            let e = &self.entities[i];
            if e.alive {
                match e.momentum.0 {
                    Some(d) => {
                        snap.push((i, e.pos, d));
                    },
                    None => {},
                }
            }
            i = i + 1;
        }
        proof {
            lemma_movers_upto_ok(self.entities@, n as int);
        }
        let ghost ents0 = self.entities@;
        let ghost map0 = self.collision;

        let mut anomalies: Vec<usize> = Vec::new();
        let m = snap.len();
        let mut k: usize = 0;
        #[verifier::loop_isolation(false)]
        while k < m
            invariant
                k <= m,
                m == snap@.len(),
                snapshot_ok(ents0, snap@),
                self.collision == map0,
                *self == (SimulationContext { entities: self.entities, ..*old(self) }),
                self.entities@.len() == n,
                same_but_momentum(ents0, self.entities@),
                transfer_fold(ents0, map0, snap@, 0) == transfer_fold(self.entities@, map0, snap@, k as int),
                oob_movers_from(map0, snap@, 0) == anomalies@ + oob_movers_from(map0, snap@, k as int),
            decreases m - k,
        {
            let (id, p, d) = snap[k];
            let ghost ents_before = self.entities@;
            let ghost anomalies_before = anomalies@;
            let oob = self.transfer_one(id, p, d);
            if oob {
                anomalies.push(id);
            }
            proof {
                lemma_transfer_one_frame(ents_before, map0, id, p, d);
                if oob {
                    assert(anomalies_before + oob_movers_from(map0, snap@, k as int)
                        =~= anomalies@ + oob_movers_from(map0, snap@, k as int + 1));
                } else {
                    assert(anomalies_before =~= anomalies@);
                }
            }
            k = k + 1;
        }
        proof {
            assert(anomalies@ + Seq::<usize>::empty() =~= anomalies@);
            assert forall|i: int| 0 <= i < self.entities@.len() implies {
                let e = #[trigger] self.entities@[i];
                e.history.times_increasing() && (e.alive ==> e.history.times_below(self.time))
            } by {
                assert(ents0[i].history == self.entities@[i].history);
                assert(ents0[i].alive == self.entities@[i].alive);
            }
            assert forall|i: int| 0 <= i < self.command_log@.len() implies {
                let r = #[trigger] self.command_log@[i];
                r.id < self.entities@.len() && !self.entities@[r.id as int].alive
                    && self.entities@[r.id as int].history.times_below(r.time)
            } by {
                let r = self.command_log@[i];
                assert(ents0[r.id as int].history == self.entities@[r.id as int].history);
                assert(ents0[r.id as int].alive == self.entities@[r.id as int].alive);
            }
        }
        anomalies
    }

    /// Apply phase: every entity still in motion moves exactly one cell in
    /// its momentum direction; the player additionally drops its momentum
    /// (player motion is one cell per input, never coasting). Emits
    /// `EntityMoved` for each mover and reports which slots moved.
    pub fn apply_momentum(&mut self, events: &mut Vec<SokobanEvent>) -> (moved: Vec<bool>)
        requires
            old(self).wf(),
        ensures
            final(self).wf(),
            *final(self) == (SimulationContext { entities: final(self).entities, ..*old(self) }),
            final(self).entities@.len() == old(self).entities@.len(),
            forall|i: int| 0 <= i < old(self).entities@.len()
                ==> final(self).entities@[i] == apply_one_spec(#[trigger] old(self).entities@[i]),
            moved@.len() == old(self).entities@.len(),
            forall|i: int| 0 <= i < moved@.len()
                ==> moved@[i] == ((#[trigger] old(self).entities@[i]).alive
                    && old(self).entities@[i].momentum.0 is Some),
            final(events)@ == old(events)@ + moved_events(old(self).entities@, old(self).entities@.len() as int),
    {
        let n = self.entities.len();
        let mut moved: Vec<bool> = Vec::new();
        let mut i: usize = 0;
        #[verifier::loop_isolation(false)]
        while i < n
            invariant
                i <= n,
                self.entities@.len() == n,
                self.collision == old(self).collision,
                *self == (SimulationContext { entities: self.entities, ..*old(self) }),
                forall|j: int| i <= j < n ==> self.entities@[j] == old(self).entities@[j],
                forall|j: int| 0 <= j < i
                    ==> self.entities@[j] == apply_one_spec(#[trigger] old(self).entities@[j]),
                moved@.len() == i,
                forall|j: int| 0 <= j < i
                    ==> moved@[j] == ((#[trigger] old(self).entities@[j]).alive
                        && old(self).entities@[j].momentum.0 is Some),
                events@ == old(events)@ + moved_events(old(self).entities@, i as int),
            decreases n - i,
        {
            let e = &self.entities[i];
            if e.alive {
                match e.momentum.0 {
                    Some(d) => {
                        let np = e.pos.dest(d);
                        self.entities[i].pos = np;
                        if self.entities[i].is_player {
                            self.entities[i].momentum = Momentum(None);
                        }
                        events.push(SokobanEvent::EntityMoved(i));
                        moved.push(true);
                    },
                    None => {
                        moved.push(false);
                    },
                }
            } else {
                moved.push(false);
            }
            i = i + 1;
        }
        proof {
            assert forall|j: int| 0 <= j < self.entities@.len() implies {
                let e = #[trigger] self.entities@[j];
                e.history.times_increasing() && (e.alive ==> e.history.times_below(self.time))
            } by {
                assert(self.entities@[j] == apply_one_spec(old(self).entities@[j]));
                assert(old(self).entities@[j].history == self.entities@[j].history);
                assert(old(self).entities@[j].alive == self.entities@[j].alive);
            }
            assert forall|j: int| 0 <= j < self.command_log@.len() implies {
                let r = #[trigger] self.command_log@[j];
                r.id < self.entities@.len() && !self.entities@[r.id as int].alive
                    && self.entities@[r.id as int].history.times_below(r.time)
            } by {
                let r = self.command_log@[j];
                assert(self.entities@[r.id as int]
                    == apply_one_spec(old(self).entities@[r.id as int]));
            }
        }
        moved
    }
}

pub proof fn lemma_movers_upto_empty(ents: Seq<EntityRec>, n: int)
    requires
        n <= ents.len(),
        forall|i: int| 0 <= i < n ==> !((#[trigger] ents[i]).alive && ents[i].momentum.0 is Some),
    ensures
        movers_upto(ents, n) == Seq::<(usize, Pos, Dir)>::empty(),
    decreases n,
{
    if n > 0 {
        lemma_movers_upto_empty(ents, n - 1);
    }
}

/// In a state whose only mover is entity `m`, the transfer snapshot is that
/// one entry.
pub proof fn lemma_movers_upto_single(ents: Seq<EntityRec>, n: int, m: int, p: Pos, d: Dir)
    requires
        0 <= m < n <= ents.len(),
        n <= usize::MAX,
        ents[m].alive,
        ents[m].momentum.0 == Some(d),
        ents[m].pos == p,
        forall|i: int| 0 <= i < n && i != m
            ==> !((#[trigger] ents[i]).alive && ents[i].momentum.0 is Some),
    ensures
        movers_upto(ents, n) == seq![((m as usize, p, d))],
    decreases n,
{
    if n - 1 == m {
        lemma_movers_upto_empty(ents, n - 1);
        assert(Seq::<(usize, Pos, Dir)>::empty().push(((m as usize, p, d))) =~= seq![((m as usize, p, d))]);
    } else {
        lemma_movers_upto_single(ents, n - 1, m, p, d);
    }
}

/// Counting movers across a hand-off: when `b` differs from `a` only in
/// that slot `t` (idle in `a`) moves and slot `m` (moving in `a`) rests,
/// the number of entities in motion is unchanged on any prefix containing
/// both slots.
pub proof fn lemma_movers_count_token_swap(
    a: Seq<EntityRec>,
    b: Seq<EntityRec>,
    t: int,
    m: int,
    n: int,
)
    requires
        a.len() == b.len(),
        0 <= t < a.len(),
        0 <= m < a.len(),
        t != m,
        n <= a.len(),
        a[t].alive && b[t].alive && a[m].alive && b[m].alive,
        a[t].momentum.0 is None,
        b[t].momentum.0 is Some,
        a[m].momentum.0 is Some,
        b[m].momentum.0 is None,
        forall|i: int| 0 <= i < a.len() && i != t && i != m ==> a[i] == b[i],
    ensures
        movers_upto(b, n).len() == movers_upto(a, n).len() + (if t < n {
            1int
        } else {
            0int
        }) - (if m < n {
            1int
        } else {
            0int
        }),
    decreases n,
{
    if n > 0 {
        lemma_movers_count_token_swap(a, b, t, m, n - 1);
    }
}

/// Law (one transfer, in any state): whatever else is in motion, a mover's
/// transfer hands exactly its own token forward. The last idle entity of
/// the resolved chain starts moving in the mover's direction, the mover
/// itself stops, every other entity's momentum is untouched, and the total
/// number of live entities holding momentum is conserved.
pub proof fn lemma_transfer_one_token_conserving(
    ents: Seq<EntityRec>,
    map: CollisionMap,
    m: usize,
    p: Pos,
    d: Dir,
    chain: Seq<usize>,
    ci: int,
)
    requires
        (m as int) < ents.len(),
        ents[m as int].alive,
        ents[m as int].momentum.0 == Some(d),
        map.resolve_spec(p, d) == PushOutcome::Push(chain),
        chain_last_idle(ents, chain, chain.len() as int) == Some(ci),
        ents[chain[ci] as int].alive,
    ensures
        ({
            let after = transfer_one_spec(ents, map, m, p, d);
            let t = chain[ci] as int;
            &&& t != m as int
            &&& after.len() == ents.len()
            &&& after[t] == with_momentum(ents[t], Some(d))
            &&& after[m as int] == with_momentum(ents[m as int], None)
            &&& forall|i: int| 0 <= i < ents.len() && i != t && i != m as int
                ==> after[i] == ents[i]
            &&& movers_upto(after, ents.len() as int).len() == movers_upto(
                ents,
                ents.len() as int,
            ).len()
        }),
{
    lemma_chain_last_idle_bounds(ents, chain, chain.len() as int);
    let t = chain[ci] as int;
    assert(ents[t].momentum.0 is None);
    let after = transfer_one_spec(ents, map, m, p, d);
    let s1 = ents.update(t, with_momentum(ents[t], Some(d)));
    assert(after == s1.update(m as int, with_momentum(s1[m as int], None)));
    assert(s1[m as int] == ents[m as int]);
    lemma_movers_count_token_swap(ents, after, t, m as int, ents.len() as int);
}

/// Law: momentum transfer is token-conserving. In a state where exactly one
/// entity `m` is in motion and its push resolves to a chain holding at least
/// one idle entity, a whole transfer phase leaves exactly one entity in
/// motion: the last idle entity of the chain picks up the mover's direction,
/// the mover's own momentum is cleared, and every other entity is untouched.
pub proof fn lemma_transfer_token_conserving(
    ents: Seq<EntityRec>,
    map: CollisionMap,
    m: int,
    p: Pos,
    d: Dir,
    chain: Seq<usize>,
    ci: int,
)
    requires
        0 <= m < ents.len(),
        ents.len() <= usize::MAX,
        ents[m].alive,
        ents[m].momentum.0 == Some(d),
        ents[m].pos == p,
        forall|i: int| 0 <= i < ents.len() && i != m
            ==> !((#[trigger] ents[i]).alive && ents[i].momentum.0 is Some),
        map.resolve_spec(p, d) == PushOutcome::Push(chain),
        chain_last_idle(ents, chain, chain.len() as int) == Some(ci),
    ensures
        ({
            let after = transfer_result(ents, map);
            let t = chain[ci] as int;
            &&& t != m
            &&& after.len() == ents.len()
            &&& after[t] == with_momentum(ents[t], Some(d))
            &&& after[m] == with_momentum(ents[m], None)
            &&& forall|i: int| 0 <= i < ents.len() && i != t && i != m ==> after[i] == ents[i]
            &&& forall|i: int| 0 <= i < ents.len() && i != t
                ==> !((#[trigger] after[i]).alive && after[i].momentum.0 is Some)
        }),
{
    lemma_chain_last_idle_bounds(ents, chain, chain.len() as int);
    let t = chain[ci] as int;
    assert(ents[t].momentum.0 is None);
    assert(t != m);
    lemma_movers_upto_single(ents, ents.len() as int, m, p, d);
    let snap = movers_upto(ents, ents.len() as int);
    let one = transfer_one_spec(ents, map, m as usize, p, d);
    assert(transfer_result(ents, map) == transfer_fold(one, map, snap, 1));
    assert(transfer_fold(one, map, snap, 1) == one);
    let s1 = ents.update(t, with_momentum(ents[t], Some(d)));
    assert(one == s1.update(m, with_momentum(s1[m], None)));
    assert(s1[m] == ents[m]);
    let after = transfer_result(ents, map);
    assert forall|i: int| 0 <= i < ents.len() && i != t implies !((#[trigger] after[i]).alive
        && after[i].momentum.0 is Some) by {
        if i != m {
            assert(after[i] == ents[i]);
        }
    }
}

impl SimulationContext {
    /// One whole simulation step, in the fixed phase order that puzzle
    /// semantics depend on: sync the Grid Index, rubber (redirect), lamp
    /// toggles, momentum transfer, void destruction, apply, sand, then the
    /// win check. Returns the out-of-bounds anomalies the transfer phase
    /// reported. Steps are driven externally (the cadence is a scheduling
    /// detail) until no entity has pending momentum.
    #[verifier::rlimit(100)]
    pub fn step(&mut self, events: &mut Vec<SokobanEvent>) -> (anomalies: Vec<usize>)
        requires
            old(self).wf(),
        ensures
            final(self).wf(),
            ({
                let e0 = old(self).entities@;
                let n = e0.len() as int;
                let e1 = Seq::new(e0.len(), |i: int| rubber_one_spec(e0[i], old(self).rubber@));
                let e2 = transfer_result(e1, final(self).collision);
                let e3 = Seq::new(e2.len(), |i: int| void_one_spec(e2[i], old(self).voids@));
                let e4 = Seq::new(e3.len(), |i: int| apply_one_spec(e3[i]));
                let e5 = Seq::new(
                    e4.len(),
                    |i: int| sand_one_spec(
                        e4[i],
                        old(self).sand@,
                        e3[i].alive && e3[i].momentum.0 is Some,
                    ),
                );
                let win = !old(self).solved && final(self).quiescent()
                    && final(self).goals_satisfied() && final(self).lamps_lit();
                &&& *final(self) == (SimulationContext {
                    entities: final(self).entities,
                    lamps: final(self).lamps,
                    collision: final(self).collision,
                    command_log: final(self).command_log,
                    solved: final(self).solved,
                    ..*old(self)
                })
                &&& forall|p: Pos| final(self).collision.occ(p) == (if old(self).in_bounds_spec(p) {
                    crate::context::sync_occ_upto(e0, n, p)
                } else {
                    None::<(usize, crate::SokobanBlock)>
                })
                &&& final(self).entities@ == e5
                &&& final(self).lamps@ == lamp_fold(old(self).lamps@, e1, n)
                &&& final(self).command_log@ == old(self).command_log@ + void_records(
                    e2,
                    old(self).voids@,
                    old(self).time,
                    n,
                )
                &&& final(self).solved == (old(self).solved || win)
                &&& final(events)@ == old(events)@ + lamp_events(old(self).lamps@, e1, n)
                    + void_events(e2, old(self).voids@, n) + moved_events(e3, n) + (if win {
                    seq![SokobanEvent::LevelSolved]
                } else {
                    Seq::<SokobanEvent>::empty()
                })
                &&& anomalies@ == oob_movers_from(final(self).collision, movers_upto(e1, n), 0)
            }),
    {
        let ghost e0 = self.entities@;
        let ghost n = self.entities@.len() as int;
        self.sync_collision_map();
        self.handle_rubber();
        proof {
            assert(self.entities@ =~= Seq::new(
                e0.len(),
                |i: int| rubber_one_spec(e0[i], old(self).rubber@),
            ));
        }
        let ghost e1 = self.entities@;
        self.lamp_interaction(events);
        let anomalies = self.transfer_momentum();
        let ghost e2 = self.entities@;
        self.apply_void(events);
        proof {
            assert(self.entities@ =~= Seq::new(
                e2.len(),
                |i: int| void_one_spec(e2[i], old(self).voids@),
            ));
        }
        let ghost e3 = self.entities@;
        let moved = self.apply_momentum(events);
        proof {
            assert(self.entities@ =~= Seq::new(e3.len(), |i: int| apply_one_spec(e3[i])));
        }
        let ghost e4 = self.entities@;
        self.apply_sand(&moved);
        proof {
            assert(self.entities@ =~= Seq::new(
                e4.len(),
                |i: int| sand_one_spec(
                    e4[i],
                    old(self).sand@,
                    e3[i].alive && e3[i].momentum.0 is Some,
                ),
            ));
        }
        let ghost ev_before_win = events@;
        self.check_win(events);
        proof {
            let le = lamp_events(old(self).lamps@, e1, n);
            let ve = void_events(e2, old(self).voids@, n);
            let me = moved_events(e3, n);
            if events@ == ev_before_win {
                assert(events@ =~= old(events)@ + le + ve + me
                    + Seq::<SokobanEvent>::empty());
            } else {
                assert(events@ =~= old(events)@ + le + ve + me + seq![
                    SokobanEvent::LevelSolved,
                ]);
            }
        }
        anomalies
    }
}

/// With no entity in motion, the lamp phase toggles nothing.
pub proof fn lemma_lamp_fold_idle(lamps: Seq<crate::context::Lamp>, ents: Seq<EntityRec>, n: int)
    requires
        n <= ents.len(),
        crate::context::quiescent_in(ents),
    ensures
        lamp_fold(lamps, ents, n) == lamps,
        lamp_events(lamps, ents, n) == Seq::<SokobanEvent>::empty(),
    decreases n,
{
    if n > 0 {
        lemma_lamp_fold_idle(lamps, ents, n - 1);
    }
}

/// With no live entity standing on void, the void phase despawns nothing.
pub proof fn lemma_void_idle(ents: Seq<EntityRec>, voids: Seq<Pos>, now: usize, n: int)
    requires
        n <= ents.len(),
        forall|i: int| 0 <= i < ents.len()
            ==> ((#[trigger] ents[i]).alive ==> !crate::tile_behaviour::contains_pos(
                voids,
                ents[i].pos,
            )),
    ensures
        void_records(ents, voids, now, n) == Seq::<crate::context::DespawnRecord>::empty(),
        void_events(ents, voids, n) == Seq::<SokobanEvent>::empty(),
    decreases n,
{
    if n > 0 {
        lemma_void_idle(ents, voids, now, n - 1);
    }
}

/// With no entity in motion, the apply phase moves nothing.
pub proof fn lemma_moved_events_idle(ents: Seq<EntityRec>, n: int)
    requires
        n <= ents.len(),
        crate::context::quiescent_in(ents),
    ensures
        moved_events(ents, n) == Seq::<SokobanEvent>::empty(),
    decreases n,
{
    if n > 0 {
        lemma_moved_events_idle(ents, n - 1);
    }
}

/// Law: the step cadence is a scheduling detail, not a correctness
/// dependency. Once the engine is quiescent (and nothing is left standing
/// on void), one whole step leaves every entity, every lamp, the despawn
/// log and the event list exactly as they were: extra steps only refresh
/// the Grid Index and re-evaluate the win predicates.
pub proof fn lemma_quiescent_step_is_stutter(
    e0: Seq<EntityRec>,
    rubber: Seq<Pos>,
    sand: Seq<Pos>,
    voids: Seq<Pos>,
    lamps: Seq<crate::context::Lamp>,
    map: CollisionMap,
    now: usize,
)
    requires
        e0.len() <= usize::MAX,
        crate::context::quiescent_in(e0),
        forall|i: int| 0 <= i < e0.len()
            ==> ((#[trigger] e0[i]).alive ==> !crate::tile_behaviour::contains_pos(
                voids,
                e0[i].pos,
            )),
    ensures
        ({
            let n = e0.len() as int;
            let e1 = Seq::new(e0.len(), |i: int| rubber_one_spec(e0[i], rubber));
            let e2 = transfer_result(e1, map);
            let e3 = Seq::new(e2.len(), |i: int| void_one_spec(e2[i], voids));
            let e4 = Seq::new(e3.len(), |i: int| apply_one_spec(e3[i]));
            let e5 = Seq::new(
                e4.len(),
                |i: int| sand_one_spec(e4[i], sand, e3[i].alive && e3[i].momentum.0 is Some),
            );
            &&& e5 == e0
            &&& lamp_fold(lamps, e1, n) == lamps
            &&& lamp_events(lamps, e1, n) == Seq::<SokobanEvent>::empty()
            &&& void_records(e2, voids, now, n) == Seq::<crate::context::DespawnRecord>::empty()
            &&& void_events(e2, voids, n) == Seq::<SokobanEvent>::empty()
            &&& moved_events(e3, n) == Seq::<SokobanEvent>::empty()
            &&& oob_movers_from(map, movers_upto(e1, n), 0) == Seq::<usize>::empty()
        }),
{
    let n = e0.len() as int;
    let e1 = Seq::new(e0.len(), |i: int| rubber_one_spec(e0[i], rubber));
    assert(e1 =~= e0);
    lemma_movers_upto_empty(e1, n);
    let e2 = transfer_result(e1, map);
    assert(e2 == e1);
    let e3 = Seq::new(e2.len(), |i: int| void_one_spec(e2[i], voids));
    assert(e3 =~= e0);
    let e4 = Seq::new(e3.len(), |i: int| apply_one_spec(e3[i]));
    assert(e4 =~= e0);
    let e5 = Seq::new(
        e4.len(),
        |i: int| sand_one_spec(e4[i], sand, e3[i].alive && e3[i].momentum.0 is Some),
    );
    assert(e5 =~= e0);
    lemma_lamp_fold_idle(lamps, e1, n);
    lemma_void_idle(e2, voids, now, n);
    lemma_moved_events_idle(e3, n);
}

/// How one entity comes out of the apply phase.
pub open spec fn apply_one_spec(e: EntityRec) -> EntityRec {
    if e.alive && e.momentum.0 is Some {
        EntityRec {
            pos: e.pos.add_dir_spec(e.momentum.0->Some_0),
            momentum: if e.is_player {
                Momentum(None)
            } else {
                e.momentum
            },
            ..e
        }
    } else {
        e
    }
}

/// The `EntityMoved` events of one apply phase over the first `n` slots.
pub open spec fn moved_events(ents: Seq<EntityRec>, n: int) -> Seq<SokobanEvent>
    decreases n,
{
    if n <= 0 {
        Seq::empty()
    } else {
        let rest = moved_events(ents, n - 1);
        if ents[n - 1].alive && ents[n - 1].momentum.0 is Some {
            rest.push(SokobanEvent::EntityMoved((n - 1) as usize))
        } else {
            rest
        }
    }
}

} // verus!
