//! History Recorder: an append-only, timestamped log of positions per
//! tracked entity, driven by a global monotonically adjusted counter, with
//! record, rewind-one-step and reset-to-first operations.
use vstd::prelude::*;

verus! {

use crate::Pos;

/// One recorded snapshot: the value a tracked entity's position had when the
/// global timestamp was `time`.
#[derive(Clone, Copy, Debug, PartialEq, Eq, Structural)]
pub struct HistoryEntry {
    pub time: usize,
    pub pos: Pos,
}

/// Append-only per-entity log of position snapshots, in strictly increasing
/// timestamp order.
#[derive(Clone, Debug)]
pub struct History {
    pub entries: Vec<HistoryEntry>,
}

/// The discrete history intents the core accepts at step boundaries.
#[derive(Clone, Copy, Debug, PartialEq, Eq, Structural)]
pub enum HistoryEvent {
    Record,
    Rewind,
    Reset,
}

impl History {
    /// Entries are stored in strictly increasing timestamp order.
    pub open spec fn times_increasing(self) -> bool {
        forall|i: int, j: int|
            0 <= i < j < self.entries@.len() ==> self.entries@[i].time < self.entries@[j].time
    }

    /// Every entry was recorded before the timestamp `now`.
    pub open spec fn times_below(self, now: usize) -> bool {
        forall|i: int| 0 <= i < self.entries@.len() ==> (#[trigger] self.entries@[i]).time < now
    }

    pub open spec fn last_spec(self) -> HistoryEntry
        recommends
            self.entries@.len() > 0,
    {
        self.entries@[self.entries@.len() - 1]
    }

    pub fn new() -> (h: History)
        ensures
            h.entries@ =~= Seq::<HistoryEntry>::empty(),
    {
        History { entries: Vec::new() }
    }

    pub fn len(&self) -> (n: usize)
        ensures
            n == self.entries@.len(),
    {
        self.entries.len()
    }

    pub fn last(&self) -> (r: Option<HistoryEntry>)
        ensures
            match r {
                Some(e) => self.entries@.len() > 0 && e == self.last_spec(),
                None => self.entries@.len() == 0,
            },
    {
        let n = self.entries.len();
        if n == 0 {
            None
        } else {
            Some(self.entries[n - 1])
        }
    }

    pub fn first(&self) -> (r: Option<HistoryEntry>)
        ensures
            match r {
                Some(e) => self.entries@.len() > 0 && e == self.entries@[0],
                None => self.entries@.len() == 0,
            },
    {
        if self.entries.len() == 0 {
            None
        } else {
            Some(self.entries[0])
        }
    }

}

impl Default for History {
    fn default() -> (h: History)
        ensures
            h.entries@ =~= Seq::<HistoryEntry>::empty(),
    {
        History::new()
    }
}

use crate::context::EntityRec;
use crate::context::SimulationContext;
use crate::entity::lemma_rewind_commands_frame;
use crate::entity::rewind_commands_spec;

/// Position history is kept for the tracked entities: the player and the
/// balls.
pub open spec fn is_tracked(e: EntityRec) -> bool {
    e.is_player || e.is_ball
}

/// The entries after a record at timestamp `now`: the current position is
/// appended only when it differs from the last recorded value (or nothing
/// was recorded yet), avoiding redundant entries.
pub open spec fn recorded_entries(h: Seq<HistoryEntry>, active: bool, pos: Pos, now: usize) -> Seq<
    HistoryEntry,
> {
    if active && (h.len() == 0 || h[h.len() - 1].pos != pos) {
        h.push(HistoryEntry { time: now, pos })
    } else {
        h
    }
}

/// How one entity comes out of a `Record` at timestamp `now`.
pub open spec fn entity_recorded(a: EntityRec, b: EntityRec, now: usize) -> bool {
    &&& b == (EntityRec { history: b.history, ..a })
    &&& b.history.entries@ == recorded_entries(
        a.history.entries@,
        a.alive && is_tracked(a),
        a.pos,
        now,
    )
}

/// How one entity comes out of a `Rewind` at timestamp `now`: an entry is
/// popped, and the position restored from it, only when it was recorded at
/// exactly `now - 1`; entities with no matching entry are left unchanged
/// (partial rewinds are expected and correct).
pub open spec fn entity_rewound(a: EntityRec, b: EntityRec, now: usize) -> bool {
    if a.alive && a.history.entries@.len() > 0
        && a.history.entries@[a.history.entries@.len() - 1].time + 1 == now {
        &&& b == (EntityRec {
            history: b.history,
            pos: a.history.entries@[a.history.entries@.len() - 1].pos,
            ..a
        })
        &&& b.history.entries@ == a.history.entries@.drop_last()
    } else {
        b == a
    }
}

/// How one entity comes out of a `Reset` at timestamp `now`: the position
/// returns to the first-ever recorded value and the just-overwritten
/// current value is appended, so the reset itself is undoable.
pub open spec fn entity_reset(a: EntityRec, b: EntityRec, now: usize) -> bool {
    if a.alive && a.history.entries@.len() > 0 {
        &&& b == (EntityRec { history: b.history, pos: a.history.entries@[0].pos, ..a })
        &&& b.history.entries@ == a.history.entries@.push(HistoryEntry { time: now, pos: a.pos })
    } else {
        b == a
    }
}

/// What `Record` does to the whole simulation state.
pub open spec fn record_rel(a: SimulationContext, b: SimulationContext) -> bool {
    &&& b == (SimulationContext { entities: b.entities, time: b.time, ..a })
    &&& b.time == a.time + 1
    &&& b.entities@.len() == a.entities@.len()
    &&& forall|i: int| 0 <= i < a.entities@.len()
        ==> entity_recorded(#[trigger] a.entities@[i], b.entities@[i], a.time)
}

/// What `Rewind` does to the whole simulation state: despawns stamped with
/// the current timestamp are rolled back first, then every entity whose
/// last snapshot was taken at `time - 1` is restored, then the timestamp
/// steps back (saturating: a rewind with no recorded history is a no-op).
pub open spec fn rewind_rel(a: SimulationContext, b: SimulationContext) -> bool {
    let (ents1, log1) = rewind_commands_spec(a.entities@, a.command_log@, a.time);
    &&& b == (SimulationContext {
        entities: b.entities,
        command_log: b.command_log,
        time: b.time,
        ..a
    })
    &&& b.command_log@ == log1
    &&& b.entities@.len() == ents1.len()
    &&& forall|i: int| 0 <= i < ents1.len()
        ==> entity_rewound(#[trigger] ents1[i], b.entities@[i], a.time)
    &&& b.time == (if a.time == 0 { 0usize } else { (a.time - 1) as usize })
}

/// What `Reset` does to the whole simulation state.
pub open spec fn reset_rel(a: SimulationContext, b: SimulationContext) -> bool {
    &&& b == (SimulationContext { entities: b.entities, time: b.time, ..a })
    &&& b.time == a.time + 1
    &&& b.entities@.len() == a.entities@.len()
    &&& forall|i: int| 0 <= i < a.entities@.len()
        ==> entity_reset(#[trigger] a.entities@[i], b.entities@[i], a.time)
}

impl SimulationContext {
    /// `Record`: append the current position of every tracked entity whose
    /// position changed since its last snapshot, then advance the
    /// timestamp.
    pub fn record(&mut self)
        requires
            old(self).wf(),
            old(self).time < usize::MAX,
        ensures
            final(self).wf(),
            record_rel(*old(self), *final(self)),
    {
        let n = self.entities.len();
        let now = self.time;
        let mut i: usize = 0;
        #[verifier::loop_isolation(false)]
        while i < n
            invariant
                i <= n,
                now == old(self).time,
                self.entities@.len() == n,
                *self == (SimulationContext { entities: self.entities, ..*old(self) }),
                forall|j: int| i <= j < n ==> self.entities@[j] == old(self).entities@[j],
                forall|j: int| 0 <= j < i
                    ==> entity_recorded(#[trigger] old(self).entities@[j], self.entities@[j], now),
            decreases n - i,
        {
            let e = &self.entities[i];
            if e.alive && (e.is_player || e.is_ball) {
                let append = match e.history.last() {
                    Some(last) => last.pos.x != e.pos.x || last.pos.y != e.pos.y,
                    None => true,
                };
                if append {
                    let entry = HistoryEntry { time: now, pos: e.pos };
                    self.entities[i].history.entries.push(entry);
                }
            }
            i = i + 1;
        }
        self.time = now + 1;
        proof {
            assert forall|j: int| 0 <= j < self.entities@.len() implies {
                let e = #[trigger] self.entities@[j];
                e.history.times_increasing() && (e.alive ==> e.history.times_below(self.time))
            } by {
                assert(entity_recorded(old(self).entities@[j], self.entities@[j], now));
                let a = old(self).entities@[j];
                let b = self.entities@[j];
                if a.alive && is_tracked(a) && (a.history.entries@.len() == 0
                    || a.history.entries@[a.history.entries@.len() - 1].pos != a.pos) {
                    assert(b.history.entries@ == a.history.entries@.push(
                        HistoryEntry { time: now, pos: a.pos },
                    ));
                    assert forall|x: int, y: int|
                        0 <= x < y < b.history.entries@.len() implies b.history.entries@[x].time
                        < b.history.entries@[y].time by {
                        if y < b.history.entries@.len() - 1 {
                            assert(b.history.entries@[x] == a.history.entries@[x]);
                            assert(b.history.entries@[y] == a.history.entries@[y]);
                        } else {
                            assert(b.history.entries@[x] == a.history.entries@[x]);
                        }
                    }
                }
            }
            assert forall|j: int| 0 <= j < self.command_log@.len() implies {
                let r = #[trigger] self.command_log@[j];
                r.id < self.entities@.len() && !self.entities@[r.id as int].alive
                    && self.entities@[r.id as int].history.times_below(r.time)
            } by {
                let r = self.command_log@[j];
                assert(entity_recorded(
                    old(self).entities@[r.id as int],
                    self.entities@[r.id as int],
                    now,
                ));
            }
            assert forall|x: int, y: int|
                0 <= x < y < self.command_log@.len() implies self.command_log@[x].id
                != self.command_log@[y].id by {
                assert(self.command_log@[x] == old(self).command_log@[x]);
                assert(self.command_log@[y] == old(self).command_log@[y]);
            }
        }
    }

    /// `Rewind`: roll back despawns stamped with the current timestamp,
    /// restore every entity whose last snapshot was taken one tick ago, and
    /// step the timestamp back. With no matching history this is a no-op,
    /// not an error.
    pub fn rewind(&mut self)
        requires
            old(self).wf(),
        ensures
            final(self).wf(),
            rewind_rel(*old(self), *final(self)),
    {
        self.rewind_commands();
        let ghost mid = *self;
        let now = self.time;
        let n = self.entities.len();
        let mut i: usize = 0;
        #[verifier::loop_isolation(false)]
        while i < n
            invariant
                i <= n,
                now == self.time,
                self.entities@.len() == n,
                *self == (SimulationContext { entities: self.entities, ..mid }),
                forall|j: int| i <= j < n ==> self.entities@[j] == mid.entities@[j],
                forall|j: int| 0 <= j < i
                    ==> entity_rewound(#[trigger] mid.entities@[j], self.entities@[j], now),
            decreases n - i,
        {
            let e = &self.entities[i];
            if e.alive && now > 0 {
                match e.history.last() {
                    Some(last) => {
                        if last.time == now - 1 {
                            let popped = self.entities[i].history.entries.pop().unwrap();
                            self.entities[i].pos = popped.pos;
                        }
                    },
                    None => {},
                }
            }
            i = i + 1;
        }
        self.time = if now == 0 { 0 } else { now - 1 };
        proof {
            assert forall|j: int| 0 <= j < self.entities@.len() implies {
                let e = #[trigger] self.entities@[j];
                e.history.times_increasing() && (e.alive ==> e.history.times_below(self.time))
            } by {
                assert(entity_rewound(mid.entities@[j], self.entities@[j], now));
                let a = mid.entities@[j];
                let b = self.entities@[j];
                let alen = a.history.entries@.len() as int;
                if a.alive && alen > 0 && a.history.entries@[alen - 1].time + 1 == now {
                    assert(b.history.entries@ == a.history.entries@.drop_last());
                    assert forall|x: int, y: int|
                        0 <= x < y < b.history.entries@.len() implies b.history.entries@[x].time
                        < b.history.entries@[y].time by {
                        assert(b.history.entries@[x] == a.history.entries@[x]);
                        assert(b.history.entries@[y] == a.history.entries@[y]);
                    }
                    assert forall|x: int| 0 <= x < b.history.entries@.len() implies (
                        #[trigger] b.history.entries@[x]).time < self.time by {
                        assert(b.history.entries@[x] == a.history.entries@[x]);
                        assert(a.history.entries@[x].time < a.history.entries@[alen - 1].time);
                    }
                } else {
                    assert(b == a);
                    if b.alive && now > 0 {
                        assert forall|x: int| 0 <= x < b.history.entries@.len() implies (
                            #[trigger] b.history.entries@[x]).time < self.time by {
                            if alen > 0 {
                                if x < alen - 1 {
                                    assert(a.history.entries@[x].time
                                        < a.history.entries@[alen - 1].time);
                                }
                                assert(a.history.entries@[alen - 1].time != now - 1);
                                assert(a.history.entries@[alen - 1].time < now);
                            }
                        }
                    }
                }
            }
            assert forall|j: int| 0 <= j < self.command_log@.len() implies {
                let r = #[trigger] self.command_log@[j];
                r.id < self.entities@.len() && !self.entities@[r.id as int].alive
                    && self.entities@[r.id as int].history.times_below(r.time)
            } by {
                assert(mid.command_log@[j] == self.command_log@[j]);
                let r = self.command_log@[j];
                assert(entity_rewound(mid.entities@[r.id as int], self.entities@[r.id as int], now));
                assert(!mid.entities@[r.id as int].alive);
            }
            assert forall|x: int, y: int|
                0 <= x < y < self.command_log@.len() implies self.command_log@[x].id
                != self.command_log@[y].id by {
                assert(self.command_log@[x] == mid.command_log@[x]);
                assert(self.command_log@[y] == mid.command_log@[y]);
            }
        }
    }

    /// `Reset`: restore every entity to its first-ever recorded position,
    /// appending the just-overwritten value so the reset is itself
    /// undoable; advance the timestamp.
    pub fn reset(&mut self)
        requires
            old(self).wf(),
            old(self).time < usize::MAX,
        ensures
            final(self).wf(),
            reset_rel(*old(self), *final(self)),
    {
        let now = self.time;
        let n = self.entities.len();
        let mut i: usize = 0;
        #[verifier::loop_isolation(false)]
        while i < n
            invariant
                i <= n,
                now == self.time,
                self.entities@.len() == n,
                *self == (SimulationContext { entities: self.entities, ..*old(self) }),
                forall|j: int| i <= j < n ==> self.entities@[j] == old(self).entities@[j],
                forall|j: int| 0 <= j < i
                    ==> entity_reset(#[trigger] old(self).entities@[j], self.entities@[j], now),
            decreases n - i,
        {
            let e = &self.entities[i];
            if e.alive && e.history.entries.len() > 0 {
                let first = e.history.entries[0];
                let entry = HistoryEntry { time: now, pos: e.pos };
                self.entities[i].history.entries.push(entry);
                self.entities[i].pos = first.pos;
            }
            i = i + 1;
        }
        self.time = now + 1;
        proof {
            assert forall|j: int| 0 <= j < self.entities@.len() implies {
                let e = #[trigger] self.entities@[j];
                e.history.times_increasing() && (e.alive ==> e.history.times_below(self.time))
            } by {
                assert(entity_reset(old(self).entities@[j], self.entities@[j], now));
                let a = old(self).entities@[j];
                let b = self.entities@[j];
                if a.alive && a.history.entries@.len() > 0 {
                    assert(b.history.entries@ == a.history.entries@.push(
                        HistoryEntry { time: now, pos: a.pos },
                    ));
                    assert forall|x: int, y: int|
                        0 <= x < y < b.history.entries@.len() implies b.history.entries@[x].time
                        < b.history.entries@[y].time by {
                        assert(b.history.entries@[x] == a.history.entries@[x]);
                        if y < b.history.entries@.len() - 1 {
                            assert(b.history.entries@[y] == a.history.entries@[y]);
                        }
                    }
                }
            }
            assert forall|j: int| 0 <= j < self.command_log@.len() implies {
                let r = #[trigger] self.command_log@[j];
                r.id < self.entities@.len() && !self.entities@[r.id as int].alive
                    && self.entities@[r.id as int].history.times_below(r.time)
            } by {
                let r = self.command_log@[j];
                assert(entity_reset(old(self).entities@[r.id as int], self.entities@[r.id as int], now));
            }
            assert forall|x: int, y: int|
                0 <= x < y < self.command_log@.len() implies self.command_log@[x].id
                != self.command_log@[y].id by {
                assert(self.command_log@[x] == old(self).command_log@[x]);
                assert(self.command_log@[y] == old(self).command_log@[y]);
            }
        }
    }

    /// Dispatch one history intent.
    pub fn handle_history(&mut self, ev: HistoryEvent)
        requires
            old(self).wf(),
            old(self).time < usize::MAX,
        ensures
            final(self).wf(),
            match ev {
                HistoryEvent::Record => record_rel(*old(self), *final(self)),
                HistoryEvent::Rewind => rewind_rel(*old(self), *final(self)),
                HistoryEvent::Reset => reset_rel(*old(self), *final(self)),
            },
    {
        match ev {
            HistoryEvent::Record => self.record(),
            HistoryEvent::Rewind => self.rewind(),
            HistoryEvent::Reset => self.reset(),
        }
    }

    /// The undo input intent: accepted only while the Momentum Engine is at
    /// rest, deferred (a no-op here) otherwise.
    pub fn undo(&mut self)
        requires
            old(self).wf(),
        ensures
            final(self).wf(),
            if old(self).quiescent() {
                rewind_rel(*old(self), *final(self))
            } else {
                *final(self) == *old(self)
            },
    {
        if self.any_momentum_left() {
            return;
        }
        self.rewind();
    }

    /// The reset input intent: accepted only while the Momentum Engine is
    /// at rest, deferred (a no-op here) otherwise.
    pub fn reset_level(&mut self)
        requires
            old(self).wf(),
            old(self).time < usize::MAX,
        ensures
            final(self).wf(),
            if old(self).quiescent() {
                reset_rel(*old(self), *final(self))
            } else {
                *final(self) == *old(self)
            },
    {
        if self.any_momentum_left() {
            return;
        }
        self.reset();
    }
}

/// Law (per entity): a `Record` followed directly by a `Rewind` restores a
/// live entity's position and history to the pre-`Record` values, whether
/// or not the record deduplicated its entry.
pub proof fn lemma_entity_record_then_rewind(a: EntityRec, b: EntityRec, c: EntityRec, t: usize)
    requires
        t < usize::MAX,
        a.alive,
        a.history.times_increasing(),
        a.history.times_below(t),
        entity_recorded(a, b, t),
        entity_rewound(b, c, (t + 1) as usize),
    ensures
        c == (EntityRec { history: c.history, ..a }),
        c.history.entries@ == a.history.entries@,
{
    let h = a.history.entries@;
    if a.alive && is_tracked(a) && (h.len() == 0 || h[h.len() - 1].pos != a.pos) {
        assert(b.history.entries@ == h.push(HistoryEntry { time: t, pos: a.pos }));
        assert(b.history.entries@[b.history.entries@.len() - 1]
            == HistoryEntry { time: t, pos: a.pos });
        assert(c.history.entries@ == b.history.entries@.drop_last());
        assert(c.history.entries@ =~= h);
    } else {
        assert(b == (EntityRec { history: b.history, ..a }) && b.history.entries@ == h);
        if h.len() > 0 {
            assert(h[h.len() - 1].time < t);
        }
        assert(c == b);
    }
}

/// Law: `Record` then `Rewind` restores every live entity's position and
/// history to the pre-`Record` values exactly once, and the timestamp to
/// its pre-`Record` value (rolled-back despawns can only revive entities
/// that were dead before the record).
pub proof fn lemma_record_then_rewind_restores(
    c0: SimulationContext,
    c1: SimulationContext,
    c2: SimulationContext,
)
    requires
        c0.wf(),
        c1.wf(),
        c0.time < usize::MAX,
        record_rel(c0, c1),
        rewind_rel(c1, c2),
    ensures
        c2.time == c0.time,
        c2.entities@.len() == c0.entities@.len(),
        forall|i: int| 0 <= i < c0.entities@.len() && (#[trigger] c0.entities@[i]).alive ==> {
            &&& c2.entities@[i].alive
            &&& c2.entities@[i].pos == c0.entities@[i].pos
            &&& c2.entities@[i].history.entries@ == c0.entities@[i].history.entries@
            &&& c2.entities@[i].momentum == c0.entities@[i].momentum
        },
{
    lemma_rewind_commands_frame(c1.entities@, c1.command_log@, c1.time);
    let (ents1, log1) = rewind_commands_spec(c1.entities@, c1.command_log@, c1.time);
    assert forall|i: int| 0 <= i < c0.entities@.len() && (#[trigger] c0.entities@[i]).alive
        implies {
        &&& c2.entities@[i].alive
        &&& c2.entities@[i].pos == c0.entities@[i].pos
        &&& c2.entities@[i].history.entries@ == c0.entities@[i].history.entries@
        &&& c2.entities@[i].momentum == c0.entities@[i].momentum
    } by {
        let a = c0.entities@[i];
        assert(entity_recorded(a, c1.entities@[i], c0.time));
        let b = c1.entities@[i];
        assert(b.alive);
        assert(ents1[i] == b);
        assert(entity_rewound(ents1[i], c2.entities@[i], c1.time));
        assert(a.history.times_increasing() && a.history.times_below(c0.time));
        lemma_entity_record_then_rewind(a, b, c2.entities@[i], c0.time);
    }
}

/// Law: the restoration happens exactly once. After `Record` then `Rewind`,
/// a second `Rewind` without an intervening `Record` leaves every live
/// entity's position and history untouched — provided no live entity's last
/// snapshot from before the record was itself taken exactly one tick
/// earlier (in that case the second rewind legitimately pops that next
/// older snapshot, one recorded step per rewind).
pub proof fn lemma_rewind_restores_exactly_once(
    c0: SimulationContext,
    c1: SimulationContext,
    c2: SimulationContext,
    c3: SimulationContext,
)
    requires
        c0.wf(),
        c1.wf(),
        c2.wf(),
        c0.time < usize::MAX,
        record_rel(c0, c1),
        rewind_rel(c1, c2),
        rewind_rel(c2, c3),
        forall|i: int| 0 <= i < c0.entities@.len() && (#[trigger] c0.entities@[i]).alive
            && c0.entities@[i].history.entries@.len() > 0
            ==> c0.entities@[i].history.entries@[c0.entities@[i].history.entries@.len() - 1].time
                + 1 < c0.time,
    ensures
        c2.time == c0.time,
        forall|i: int| 0 <= i < c0.entities@.len() && (#[trigger] c0.entities@[i]).alive ==> {
            &&& c3.entities@[i].alive
            &&& c3.entities@[i].pos == c0.entities@[i].pos
            &&& c3.entities@[i].history.entries@ == c0.entities@[i].history.entries@
            &&& c3.entities@[i].momentum == c0.entities@[i].momentum
        },
{
    lemma_record_then_rewind_restores(c0, c1, c2);
    lemma_rewind_commands_frame(c2.entities@, c2.command_log@, c2.time);
    let (ents1, log1) = rewind_commands_spec(c2.entities@, c2.command_log@, c2.time);
    assert forall|i: int| 0 <= i < c0.entities@.len() && (#[trigger] c0.entities@[i]).alive
        implies {
        &&& c3.entities@[i].alive
        &&& c3.entities@[i].pos == c0.entities@[i].pos
        &&& c3.entities@[i].history.entries@ == c0.entities@[i].history.entries@
        &&& c3.entities@[i].momentum == c0.entities@[i].momentum
    } by {
        let b = c2.entities@[i];
        assert(b.alive);
        assert(ents1[i] == b);
        assert(entity_rewound(ents1[i], c3.entities@[i], c2.time));
        let blen = b.history.entries@.len() as int;
        if blen > 0 {
            assert(b.history.entries@ == c0.entities@[i].history.entries@);
            assert(b.history.entries@[blen - 1].time + 1 < c0.time);
        }
        assert(c3.entities@[i] == b);
    }
}

} // verus!
