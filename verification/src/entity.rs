//! Rollback of void despawns: the newest logged despawns carrying the
//! current timestamp are popped and their entities revived, before the
//! per-component history rewind runs.
use vstd::prelude::*;

verus! {

use crate::Momentum;
use crate::context::DespawnRecord;
use crate::context::EntityRec;
use crate::context::SimulationContext;

/// The slot as revived by rolling a despawn back: alive again at the
/// logged position, motionless, with the components the slot kept.
pub open spec fn revived(e: EntityRec, r: DespawnRecord) -> EntityRec {
    EntityRec { alive: true, pos: r.pos, momentum: Momentum(None), ..e }
}

/// Roll back every logged despawn stamped with the current timestamp,
/// newest first: the resulting entity table and the remaining log.
pub open spec fn rewind_commands_spec(
    ents: Seq<EntityRec>,
    log: Seq<DespawnRecord>,
    now: usize,
) -> (Seq<EntityRec>, Seq<DespawnRecord>)
    decreases log.len(),
{
    if log.len() == 0 || log[log.len() - 1].time != now {
        (ents, log)
    } else {
        let r = log[log.len() - 1];
        let ents2 = if r.id < ents.len() {
            ents.update(r.id as int, revived(ents[r.id as int], r))
        } else {
            ents
        };
        rewind_commands_spec(ents2, log.drop_last(), now)
    }
}

/// Rolling despawns back touches only slots that were dead: every live
/// entity comes through unchanged.
pub proof fn lemma_rewind_commands_frame(
    ents: Seq<EntityRec>,
    log: Seq<DespawnRecord>,
    now: usize,
)
    requires
        forall|i: int| 0 <= i < log.len() ==> (#[trigger] log[i]).id < ents.len()
            && !ents[log[i].id as int].alive,
        forall|i: int, j: int| 0 <= i < j < log.len() ==> log[i].id != log[j].id,
    ensures
        rewind_commands_spec(ents, log, now).0.len() == ents.len(),
        forall|i: int| 0 <= i < ents.len() && (#[trigger] ents[i]).alive
            ==> rewind_commands_spec(ents, log, now).0[i] == ents[i],
    decreases log.len(),
{
    if !(log.len() == 0 || log[log.len() - 1].time != now) {
        let r = log[log.len() - 1];
        let ents2 = ents.update(r.id as int, revived(ents[r.id as int], r));
        let rest = log.drop_last();
        assert forall|i: int| 0 <= i < rest.len() implies (#[trigger] rest[i]).id < ents2.len()
            && !ents2[rest[i].id as int].alive by {
            assert(rest[i] == log[i]);
            assert(log[i].id != r.id);
        }
        assert forall|i: int, j: int| 0 <= i < j < rest.len() implies rest[i].id
            != rest[j].id by {
            assert(rest[i] == log[i]);
            assert(rest[j] == log[j]);
        }
        lemma_rewind_commands_frame(ents2, rest, now);
        assert forall|i: int| 0 <= i < ents.len() && (#[trigger] ents[i]).alive
            implies rewind_commands_spec(ents, log, now).0[i] == ents[i] by {
            assert(!ents[r.id as int].alive);
            assert(i != r.id as int);
            assert(ents2[i] == ents[i]);
            assert(rewind_commands_spec(ents, log, now).0 == rewind_commands_spec(ents2, rest, now).0);
        }
    }
}

impl SimulationContext {
    /// Rollback stage of a rewind: while the newest logged despawn carries
    /// the current timestamp, pop it and revive the entity it names.
    pub fn rewind_commands(&mut self)
        requires
            old(self).wf(),
        ensures
            final(self).wf(),
            *final(self) == (SimulationContext {
                entities: final(self).entities,
                command_log: final(self).command_log,
                ..*old(self)
            }),
            final(self).entities@ == rewind_commands_spec(
                old(self).entities@,
                old(self).command_log@,
                old(self).time,
            ).0,
            final(self).command_log@ == rewind_commands_spec(
                old(self).entities@,
                old(self).command_log@,
                old(self).time,
            ).1,
    {
        let now = self.time;
        #[verifier::loop_isolation(false)]
        loop
            invariant
                self.wf(),
                now == self.time,
                *self == (SimulationContext {
                    entities: self.entities,
                    command_log: self.command_log,
                    ..*old(self)
                }),
                rewind_commands_spec(old(self).entities@, old(self).command_log@, now)
                    == rewind_commands_spec(self.entities@, self.command_log@, now),
            decreases self.command_log@.len(),
        {
            let len = self.command_log.len();
            if len == 0 {
                return;
            }
            let r = self.command_log[len - 1];
            if r.time != now {
                return;
            }
            let ghost ents_before = self.entities@;
            let ghost log_before = self.command_log@;
            let _popped: Option<DespawnRecord> = self.command_log.pop();
            self.entities[r.id].alive = true;
            self.entities[r.id].pos = r.pos;
            self.entities[r.id].momentum = Momentum(None);
            proof {
                assert(self.entities@ == ents_before.update(
                    r.id as int,
                    revived(ents_before[r.id as int], r),
                ));
                assert forall|j: int| 0 <= j < self.command_log@.len() implies {
                    let r2 = #[trigger] self.command_log@[j];
                    r2.id < self.entities@.len() && !self.entities@[r2.id as int].alive
                        && self.entities@[r2.id as int].history.times_below(r2.time)
                } by {
                    assert(self.command_log@[j] == log_before[j]);
                    assert(log_before[j].id != r.id);
                }
                assert forall|x: int, y: int|
                    0 <= x < y < self.command_log@.len() implies self.command_log@[x].id
                    != self.command_log@[y].id by {
                    assert(self.command_log@[x] == log_before[x]);
                    assert(self.command_log@[y] == log_before[y]);
                }
                assert forall|j: int| 0 <= j < self.entities@.len() implies {
                    let e = #[trigger] self.entities@[j];
                    e.history.times_increasing() && (e.alive ==> e.history.times_below(self.time))
                } by {
                    if j != r.id as int {
                        assert(self.entities@[j] == ents_before[j]);
                    } else {
                        assert(ents_before[j].history.times_below(r.time));
                    }
                }
            }
        }
    }
}

} // verus!
