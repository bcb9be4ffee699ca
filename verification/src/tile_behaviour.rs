//! Terrain Effect Handlers: rubber reverses a mover about to enter it, sand
//! stops a non-player mover one cell after it entered, void destroys what
//! lands on it (undoably for tracked entities), lamps toggle when pushed
//! against, and the win check combines the goal and lamp predicates.
use vstd::prelude::*;

verus! {

use crate::Dir;
use crate::Momentum;
use crate::Pos;
use crate::SokobanEvent;
use crate::context::DespawnRecord;
use crate::context::EntityRec;
use crate::context::Lamp;
use crate::context::SimulationContext;
use crate::momentum::with_momentum;

/// Whether some cell of `s` is `p`.
pub open spec fn contains_pos(s: Seq<Pos>, p: Pos) -> bool {
    exists|i: int| 0 <= i < s.len() && s[i] == p
}

/// Membership scan used by every terrain table.
pub fn pos_in(v: &Vec<Pos>, p: Pos) -> (r: bool)
    ensures
        r == contains_pos(v@, p),
{
    let n = v.len();
    let mut i: usize = 0;
    #[verifier::loop_isolation(false)]
    while i < n
        invariant
            i <= n,
            forall|j: int| 0 <= j < i ==> v@[j] != p,
        decreases n - i,
    {
        if v[i].x == p.x && v[i].y == p.y {
            return true;
        }
        i = i + 1;
    }
    false
}

/// How one entity comes out of the rubber phase: a mover whose destination
/// cell holds rubber has its direction replaced by the opposite one (bounce)
/// rather than cleared.
pub open spec fn rubber_one_spec(e: EntityRec, rubber: Seq<Pos>) -> EntityRec {
    if e.alive && e.momentum.0 is Some
        && contains_pos(rubber, e.pos.add_dir_spec(e.momentum.0->Some_0)) {
        with_momentum(e, Some(e.momentum.0->Some_0.opposite_spec()))
    } else {
        e
    }
}

/// How one entity comes out of the sand phase: a non-player entity that
/// moved this step and now stands on sand loses its momentum (friction stop
/// exactly one cell after entering).
pub open spec fn sand_one_spec(e: EntityRec, sand: Seq<Pos>, moved: bool) -> EntityRec {
    if e.alive && !e.is_player && moved && contains_pos(sand, e.pos) {
        with_momentum(e, None)
    } else {
        e
    }
}

/// How one entity comes out of the void phase: anything standing on a void
/// cell is despawned; the slot keeps its components but is dead.
pub open spec fn void_one_spec(e: EntityRec, voids: Seq<Pos>) -> EntityRec {
    if e.alive && contains_pos(voids, e.pos) {
        EntityRec { alive: false, momentum: Momentum(None), ..e }
    } else {
        e
    }
}

/// The undo records a void phase appends for the first `n` slots: one per
/// despawned tracked (player or ball) entity, in slot order.
pub open spec fn void_records(ents: Seq<EntityRec>, voids: Seq<Pos>, now: usize, n: int) -> Seq<
    DespawnRecord,
>
    decreases n,
{
    if n <= 0 {
        Seq::empty()
    } else {
        let rest = void_records(ents, voids, now, n - 1);
        let e = ents[n - 1];
        if e.alive && contains_pos(voids, e.pos) && (e.is_player || e.is_ball) {
            rest.push(DespawnRecord { time: now, id: (n - 1) as usize, pos: e.pos })
        } else {
            rest
        }
    }
}

/// The `EntityDespawned` events of one void phase over the first `n` slots.
pub open spec fn void_events(ents: Seq<EntityRec>, voids: Seq<Pos>, n: int) -> Seq<SokobanEvent>
    decreases n,
{
    if n <= 0 {
        Seq::empty()
    } else {
        let rest = void_events(ents, voids, n - 1);
        if ents[n - 1].alive && contains_pos(voids, ents[n - 1].pos) {
            rest.push(SokobanEvent::EntityDespawned((n - 1) as usize))
        } else {
            rest
        }
    }
}

/// The first lamp at cell `p`, scanning from entry `j`.
pub open spec fn lamp_index_from(lamps: Seq<Lamp>, p: Pos, j: int) -> Option<int>
    decreases lamps.len() - j,
{
    if j < 0 || j >= lamps.len() {
        None
    } else if lamps[j].pos == p {
        Some(j)
    } else {
        lamp_index_from(lamps, p, j + 1)
    }
}

/// The lamp table after one toggle aimed at cell `p`: the first lamp there
/// (if any) flips its boolean.
pub open spec fn toggle_lamp_spec(lamps: Seq<Lamp>, p: Pos) -> Seq<Lamp> {
    match lamp_index_from(lamps, p, 0) {
        Some(j) => lamps.update(j, Lamp { on: !lamps[j].on, ..lamps[j] }),
        None => lamps,
    }
}

/// The lamp table after the lamp phase has handled the first `n` slots:
/// every mover toggles the lamp its destination cell holds, whether or not
/// the move later succeeds.
pub open spec fn lamp_fold(lamps: Seq<Lamp>, ents: Seq<EntityRec>, n: int) -> Seq<Lamp>
    decreases n,
{
    if n <= 0 {
        lamps
    } else {
        let prev = lamp_fold(lamps, ents, n - 1);
        let e = ents[n - 1];
        if e.alive && e.momentum.0 is Some {
            toggle_lamp_spec(prev, e.pos.add_dir_spec(e.momentum.0->Some_0))
        } else {
            prev
        }
    }
}

/// The `LampToggled` events of one lamp phase over the first `n` slots.
pub open spec fn lamp_events(lamps: Seq<Lamp>, ents: Seq<EntityRec>, n: int) -> Seq<SokobanEvent>
    decreases n,
{
    if n <= 0 {
        Seq::empty()
    } else {
        let rest = lamp_events(lamps, ents, n - 1);
        let e = ents[n - 1];
        if e.alive && e.momentum.0 is Some
            && lamp_index_from(lamp_fold(lamps, ents, n - 1), e.pos.add_dir_spec(e.momentum.0->Some_0), 0) is Some {
            rest.push(SokobanEvent::LampToggled(e.pos.add_dir_spec(e.momentum.0->Some_0)))
        } else {
            rest
        }
    }
}

impl SimulationContext {
    /// Rubber phase, before transfer and apply: every mover bound for a
    /// rubber cell bounces (its direction is reversed, not cleared).
    pub fn handle_rubber(&mut self)
        requires
            old(self).wf(),
        ensures
            final(self).wf(),
            *final(self) == (SimulationContext { entities: final(self).entities, ..*old(self) }),
            final(self).entities@.len() == old(self).entities@.len(),
            forall|i: int| 0 <= i < old(self).entities@.len()
                ==> final(self).entities@[i] == rubber_one_spec(
                    #[trigger] old(self).entities@[i],
                    old(self).rubber@,
                ),
    {
        let n = self.entities.len();
        let mut i: usize = 0;
        #[verifier::loop_isolation(false)]
        while i < n
            invariant
                i <= n,
                self.entities@.len() == n,
                *self == (SimulationContext { entities: self.entities, ..*old(self) }),
                forall|j: int| i <= j < n ==> self.entities@[j] == old(self).entities@[j],
                forall|j: int| 0 <= j < i ==> self.entities@[j] == rubber_one_spec(
                    #[trigger] old(self).entities@[j],
                    old(self).rubber@,
                ),
            decreases n - i,
        {
            let e = &self.entities[i];
            if e.alive {
                match e.momentum.0 {
                    Some(d) => {
                        let dest = e.pos.dest(d);
                        if pos_in(&self.rubber, dest) {
                            let flipped = d.opposite();
                            self.entities[i].momentum = Momentum(Some(flipped));
                        }
                    },
                    None => {},
                }
            }
            i = i + 1;
        }
        proof {
            assert forall|j: int| 0 <= j < self.entities@.len() implies {
                let e = #[trigger] self.entities@[j];
                e.history.times_increasing() && (e.alive ==> e.history.times_below(self.time))
            } by {
                assert(self.entities@[j] == rubber_one_spec(old(self).entities@[j], old(self).rubber@));
            }
            assert forall|j: int| 0 <= j < self.command_log@.len() implies {
                let r = #[trigger] self.command_log@[j];
                r.id < self.entities@.len() && !self.entities@[r.id as int].alive
                    && self.entities@[r.id as int].history.times_below(r.time)
            } by {
                let r = self.command_log@[j];
                assert(self.entities@[r.id as int]
                    == rubber_one_spec(old(self).entities@[r.id as int], old(self).rubber@));
            }
        }
    }

    /// Sand phase, after apply: every non-player entity that moved onto sand
    /// this step stops (`moved` is the apply phase's report).
    pub fn apply_sand(&mut self, moved: &Vec<bool>)
        requires
            old(self).wf(),
            moved@.len() == old(self).entities@.len(),
        ensures
            final(self).wf(),
            *final(self) == (SimulationContext { entities: final(self).entities, ..*old(self) }),
            final(self).entities@.len() == old(self).entities@.len(),
            forall|i: int| 0 <= i < old(self).entities@.len()
                ==> final(self).entities@[i] == sand_one_spec(
                    #[trigger] old(self).entities@[i],
                    old(self).sand@,
                    moved@[i],
                ),
    {
        let n = self.entities.len();
        let mut i: usize = 0;
        #[verifier::loop_isolation(false)]
        while i < n
            invariant
                i <= n,
                self.entities@.len() == n,
                *self == (SimulationContext { entities: self.entities, ..*old(self) }),
                forall|j: int| i <= j < n ==> self.entities@[j] == old(self).entities@[j],
                forall|j: int| 0 <= j < i ==> self.entities@[j] == sand_one_spec(
                    #[trigger] old(self).entities@[j],
                    old(self).sand@,
                    moved@[j],
                ),
            decreases n - i,
        {
            let e = &self.entities[i];
            if e.alive && !e.is_player && moved[i] {
                if pos_in(&self.sand, e.pos) {
                    self.entities[i].momentum = Momentum(None);
                }
            }
            i = i + 1;
        }
        proof {
            assert forall|j: int| 0 <= j < self.entities@.len() implies {
                let e = #[trigger] self.entities@[j];
                e.history.times_increasing() && (e.alive ==> e.history.times_below(self.time))
            } by {
                assert(self.entities@[j]
                    == sand_one_spec(old(self).entities@[j], old(self).sand@, moved@[j]));
            }
            assert forall|j: int| 0 <= j < self.command_log@.len() implies {
                let r = #[trigger] self.command_log@[j];
                r.id < self.entities@.len() && !self.entities@[r.id as int].alive
                    && self.entities@[r.id as int].history.times_below(r.time)
            } by {
                let r = self.command_log@[j];
                assert(self.entities@[r.id as int] == sand_one_spec(
                    old(self).entities@[r.id as int],
                    old(self).sand@,
                    moved@[r.id as int],
                ));
            }
        }
    }

    /// Void phase, between transfer and apply: every live entity standing
    /// on a void cell is despawned; a tracked (player or ball) entity is
    /// logged so the despawn can be rewound.
    pub fn apply_void(&mut self, events: &mut Vec<SokobanEvent>)
        requires
            old(self).wf(),
        ensures
            final(self).wf(),
            *final(self) == (SimulationContext {
                entities: final(self).entities,
                command_log: final(self).command_log,
                ..*old(self)
            }),
            final(self).entities@.len() == old(self).entities@.len(),
            forall|i: int| 0 <= i < old(self).entities@.len()
                ==> final(self).entities@[i] == void_one_spec(
                    #[trigger] old(self).entities@[i],
                    old(self).voids@,
                ),
            final(self).command_log@ == old(self).command_log@ + void_records(
                old(self).entities@,
                old(self).voids@,
                old(self).time,
                old(self).entities@.len() as int,
            ),
            final(events)@ == old(events)@ + void_events(
                old(self).entities@,
                old(self).voids@,
                old(self).entities@.len() as int,
            ),
    {
        let n = self.entities.len();
        let mut i: usize = 0;
        #[verifier::loop_isolation(false)]
        while i < n
            invariant
                i <= n,
                self.entities@.len() == n,
                *self == (SimulationContext {
                    entities: self.entities,
                    command_log: self.command_log,
                    ..*old(self)
                }),
                forall|j: int| i <= j < n ==> self.entities@[j] == old(self).entities@[j],
                forall|j: int| 0 <= j < i ==> self.entities@[j] == void_one_spec(
                    #[trigger] old(self).entities@[j],
                    old(self).voids@,
                ),
                self.command_log@ == old(self).command_log@ + void_records(
                    old(self).entities@,
                    old(self).voids@,
                    old(self).time,
                    i as int,
                ),
                events@ == old(events)@ + void_events(old(self).entities@, old(self).voids@, i as int),
            decreases n - i,
        {
            let ghost log_prev = self.command_log@;
            let e = &self.entities[i];
            if e.alive && pos_in(&self.voids, e.pos) {
                if e.is_player || e.is_ball {
                    let rec = DespawnRecord { time: self.time, id: i, pos: e.pos };
                    self.command_log.push(rec);
                }
                self.entities[i].alive = false;
                self.entities[i].momentum = Momentum(None);
                events.push(SokobanEvent::EntityDespawned(i));
            }
            proof {
                assert(self.command_log@ == old(self).command_log@ + void_records(
                    old(self).entities@,
                    old(self).voids@,
                    old(self).time,
                    i as int + 1,
                )) by {
                    let vr = void_records(
                        old(self).entities@,
                        old(self).voids@,
                        old(self).time,
                        i as int,
                    );
                    let e0 = old(self).entities@[i as int];
                    if e0.alive && contains_pos(old(self).voids@, e0.pos)
                        && (e0.is_player || e0.is_ball) {
                        assert(old(self).command_log@ + vr.push(
                            DespawnRecord { time: old(self).time, id: i, pos: e0.pos },
                        ) =~= (old(self).command_log@ + vr).push(
                            DespawnRecord { time: old(self).time, id: i, pos: e0.pos },
                        ));
                    }
                }
            }
            i = i + 1;
        }
        proof {
            assert forall|j: int| 0 <= j < self.entities@.len() implies {
                let e = #[trigger] self.entities@[j];
                e.history.times_increasing() && (e.alive ==> e.history.times_below(self.time))
            } by {
                assert(self.entities@[j] == void_one_spec(old(self).entities@[j], old(self).voids@));
            }
            let vr = void_records(
                old(self).entities@,
                old(self).voids@,
                old(self).time,
                n as int,
            );
            lemma_void_records_ok(old(self).entities@, old(self).voids@, old(self).time, n as int);
            assert forall|j: int| 0 <= j < self.command_log@.len() implies {
                let r = #[trigger] self.command_log@[j];
                r.id < self.entities@.len() && !self.entities@[r.id as int].alive
                    && self.entities@[r.id as int].history.times_below(r.time)
            } by {
                let r = self.command_log@[j];
                if j < old(self).command_log@.len() {
                    assert(r == old(self).command_log@[j]);
                    assert(self.entities@[r.id as int]
                        == void_one_spec(old(self).entities@[r.id as int], old(self).voids@));
                } else {
                    assert(r == vr[j - old(self).command_log@.len()]);
                    assert(self.entities@[r.id as int]
                        == void_one_spec(old(self).entities@[r.id as int], old(self).voids@));
                }
            }
            assert forall|x: int, y: int|
                0 <= x < y < self.command_log@.len() implies self.command_log@[x].id
                != self.command_log@[y].id by {
                let oldlen = old(self).command_log@.len() as int;
                if y < oldlen {
                    assert(self.command_log@[x] == old(self).command_log@[x]);
                    assert(self.command_log@[y] == old(self).command_log@[y]);
                } else if x < oldlen {
                    let rx = old(self).command_log@[x];
                    let ry = vr[y - oldlen];
                    assert(self.command_log@[x] == rx);
                    assert(self.command_log@[y] == ry);
                    assert(!old(self).entities@[rx.id as int].alive);
                    assert(old(self).entities@[ry.id as int].alive);
                } else {
                    assert(self.command_log@[x] == vr[x - oldlen]);
                    assert(self.command_log@[y] == vr[y - oldlen]);
                }
            }
        }
    }
}

/// Some live ball of the table stands at cell `p`.
pub open spec fn ball_at_in(ents: Seq<EntityRec>, p: Pos) -> bool {
    exists|i: int| 0 <= i < ents.len() && (#[trigger] ents[i]).alive && ents[i].is_ball
        && ents[i].pos == p
}

/// Every goal cell is covered by a live ball of the table.
pub open spec fn goals_satisfied_in(ents: Seq<EntityRec>, goals: Seq<Pos>) -> bool {
    forall|g: int| 0 <= g < goals.len() ==> ball_at_in(ents, #[trigger] goals[g])
}

/// Every lamp of the table is lit.
pub open spec fn lamps_lit_in(lamps: Seq<Lamp>) -> bool {
    forall|l: int| 0 <= l < lamps.len() ==> (#[trigger] lamps[l]).on
}

impl SimulationContext {
    /// The first lamp standing at cell `p`, if any.
    fn find_lamp(&self, p: Pos) -> (r: Option<usize>)
        ensures
            match r {
                Some(j) => j < self.lamps@.len() && lamp_index_from(self.lamps@, p, 0)
                    == Some(j as int),
                None => lamp_index_from(self.lamps@, p, 0) is None,
            },
    {
        let n = self.lamps.len();
        let mut j: usize = 0;
        #[verifier::loop_isolation(false)]
        while j < n
            invariant
                j <= n,
                lamp_index_from(self.lamps@, p, 0) == lamp_index_from(self.lamps@, p, j as int),
            decreases n - j,
        {
            if self.lamps[j].pos.x == p.x && self.lamps[j].pos.y == p.y {
                return Some(j);
            }
            j = j + 1;
        }
        None
    }

    /// Lamp phase, before transfer: every mover whose destination cell
    /// holds a lamp toggles that lamp's boolean, whether or not the move
    /// later succeeds.
    pub fn lamp_interaction(&mut self, events: &mut Vec<SokobanEvent>)
        requires
            old(self).wf(),
        ensures
            final(self).wf(),
            *final(self) == (SimulationContext { lamps: final(self).lamps, ..*old(self) }),
            final(self).lamps@ == lamp_fold(
                old(self).lamps@,
                old(self).entities@,
                old(self).entities@.len() as int,
            ),
            final(events)@ == old(events)@ + lamp_events(
                old(self).lamps@,
                old(self).entities@,
                old(self).entities@.len() as int,
            ),
    {
        let n = self.entities.len();
        let mut i: usize = 0;
        #[verifier::loop_isolation(false)]
        while i < n
            invariant
                i <= n,
                *self == (SimulationContext { lamps: self.lamps, ..*old(self) }),
                self.lamps@ == lamp_fold(old(self).lamps@, old(self).entities@, i as int),
                events@ == old(events)@ + lamp_events(old(self).lamps@, old(self).entities@, i as int),
            decreases n - i,
        {
            let e = &self.entities[i];
            if e.alive {
                match e.momentum.0 {
                    Some(d) => {
                        let dest = e.pos.dest(d);
                        match self.find_lamp(dest) {
                            Some(j) => {
                                let lit = self.lamps[j].on;
                                self.lamps[j].on = !lit;
                                events.push(SokobanEvent::LampToggled(dest));
                            },
                            None => {},
                        }
                    },
                    None => {},
                }
            }
            i = i + 1;
        }
    }

    /// Every goal cell is covered by a live ball.
    pub open spec fn goals_satisfied(self) -> bool {
        goals_satisfied_in(self.entities@, self.goals@)
    }

    /// Some live ball stands at cell `p`.
    pub open spec fn ball_at_spec(self, p: Pos) -> bool {
        ball_at_in(self.entities@, p)
    }

    /// Every lamp is lit.
    pub open spec fn lamps_lit(self) -> bool {
        lamps_lit_in(self.lamps@)
    }

    fn ball_at(&self, p: Pos) -> (r: bool)
        ensures
            r == self.ball_at_spec(p),
    {
        let n = self.entities.len();
        let mut i: usize = 0;
        #[verifier::loop_isolation(false)]
        while i < n
            invariant
                i <= n,
                forall|j: int| 0 <= j < i ==> !((#[trigger] self.entities@[j]).alive
                    && self.entities@[j].is_ball && self.entities@[j].pos == p),
            decreases n - i,
        {
            let e = &self.entities[i];
            if e.alive && e.is_ball && e.pos.x == p.x && e.pos.y == p.y {
                return true;
            }
            i = i + 1;
        }
        false
    }

    /// Goal predicate of the win condition.
    pub fn check_goals(&self) -> (r: bool)
        ensures
            r == self.goals_satisfied(),
    {
        let n = self.goals.len();
        let mut g: usize = 0;
        #[verifier::loop_isolation(false)]
        while g < n
            invariant
                g <= n,
                forall|j: int| 0 <= j < g ==> self.ball_at_spec(#[trigger] self.goals@[j]),
            decreases n - g,
        {
            if !self.ball_at(self.goals[g]) {
                return false;
            }
            g = g + 1;
        }
        true
    }

    /// Lamp predicate of the win condition.
    pub fn check_lamps(&self) -> (r: bool)
        ensures
            r == self.lamps_lit(),
    {
        let n = self.lamps.len();
        let mut l: usize = 0;
        #[verifier::loop_isolation(false)]
        while l < n
            invariant
                l <= n,
                forall|j: int| 0 <= j < l ==> (#[trigger] self.lamps@[j]).on,
            decreases n - l,
        {
            if !self.lamps[l].on {
                return false;
            }
            l = l + 1;
        }
        true
    }

    /// Goal Evaluator: runs only when no entity has pending momentum; the
    /// level is solved when every goal cell is covered by a ball and every
    /// lamp is lit (each predicate vacuous for levels without that
    /// feature). Emits `LevelSolved` exactly once per level instance.
    pub fn check_win(&mut self, events: &mut Vec<SokobanEvent>)
        requires
            old(self).wf(),
        ensures
            final(self).wf(),
            ({
                let win = !old(self).solved && old(self).quiescent()
                    && old(self).goals_satisfied() && old(self).lamps_lit();
                &&& *final(self) == (SimulationContext {
                    solved: old(self).solved || win,
                    ..*old(self)
                })
                &&& final(events)@ == (if win {
                    old(events)@.push(SokobanEvent::LevelSolved)
                } else {
                    old(events)@
                })
            }),
    {
        if self.solved {
            return;
        }
        if self.any_momentum_left() {
            return;
        }
        if self.check_goals() && self.check_lamps() {
            self.solved = true;
            events.push(SokobanEvent::LevelSolved);
        }
    }
}

/// Law: a mover bound for a rubber cell comes out of the rubber phase with
/// the opposite direction, still in motion (a bounce, not a stop), and
/// nothing else about it changes.
pub proof fn lemma_rubber_reverses_instead_of_stopping(e: EntityRec, rubber: Seq<Pos>, d: Dir)
    requires
        e.alive,
        e.momentum.0 == Some(d),
        contains_pos(rubber, e.pos.add_dir_spec(d)),
    ensures
        rubber_one_spec(e, rubber) == (EntityRec {
            momentum: Momentum(Some(d.opposite_spec())),
            ..e
        }),
{
}

/// Law: a non-player entity that just moved onto sand comes out of the sand
/// phase motionless; everything else about it, its new position included,
/// is kept (it moved exactly one cell past the sand's edge, then stopped).
pub proof fn lemma_sand_stops_after_one_cell(e: EntityRec, sand: Seq<Pos>)
    requires
        e.alive,
        !e.is_player,
        contains_pos(sand, e.pos),
    ensures
        sand_one_spec(e, sand, true) == (EntityRec { momentum: Momentum(None), ..e }),
{
}

/// Law: a despawned entity is gone from all tracked state: the slot is
/// dead, a synced Grid Index never reports it, and a `Record` leaves it
/// untouched.
pub proof fn lemma_despawned_entity_untracked(
    ents: Seq<EntityRec>,
    i: int,
    p: Pos,
    now: usize,
    b: EntityRec,
)
    requires
        0 <= i < ents.len(),
        ents.len() <= usize::MAX,
        !ents[i].alive,
    ensures
        (match crate::context::sync_occ_upto(ents, ents.len() as int, p) {
            Some((id, bl)) => id != i,
            None => true,
        }),
        crate::history::entity_recorded(ents[i], b, now) ==> b == (EntityRec {
            history: b.history,
            ..ents[i]
        }) && b.history.entries@ == ents[i].history.entries@,
{
    crate::context::lemma_sync_occ_matches(ents, ents.len() as int, p);
}

/// Every record a void phase produces names a slot it just despawned:
/// in range, previously alive and standing on void, stamped with `now`.
pub proof fn lemma_void_records_ok(ents: Seq<EntityRec>, voids: Seq<Pos>, now: usize, n: int)
    requires
        n <= ents.len(),
        n <= usize::MAX,
    ensures
        forall|j: int| 0 <= j < void_records(ents, voids, now, n).len() ==> {
            let r = #[trigger] void_records(ents, voids, now, n)[j];
            &&& r.time == now
            &&& r.id < n
            &&& ents[r.id as int].alive
            &&& contains_pos(voids, ents[r.id as int].pos)
            &&& ents[r.id as int].pos == r.pos
        },
        forall|j1: int, j2: int|
            0 <= j1 < j2 < void_records(ents, voids, now, n).len()
                ==> void_records(ents, voids, now, n)[j1].id
                < void_records(ents, voids, now, n)[j2].id,
    decreases n,
{
    if n > 0 {
        lemma_void_records_ok(ents, voids, now, n - 1);
        let cur = void_records(ents, voids, now, n);
        let prev = void_records(ents, voids, now, n - 1);
        assert forall|j: int| 0 <= j < cur.len() implies {
            let r = #[trigger] cur[j];
            &&& r.time == now
            &&& r.id < n
            &&& ents[r.id as int].alive
            &&& contains_pos(voids, ents[r.id as int].pos)
            &&& ents[r.id as int].pos == r.pos
        } by {
            if j < prev.len() {
                assert(cur[j] == prev[j]);
            }
        }
        assert forall|j1: int, j2: int| 0 <= j1 < j2 < cur.len() implies cur[j1].id
            < cur[j2].id by {
            assert(cur[j1] == prev[j1]);
            if j2 < prev.len() {
                assert(cur[j2] == prev[j2]);
            } else {
                assert(prev[j1].id < n - 1);
                assert(cur[j2].id == (n - 1) as usize);
            }
        }
    }
}

} // verus!
