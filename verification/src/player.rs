//! The player's directional input: accepted only while the Momentum Engine
//! is at rest, it resolves one push from the player's cell, records history,
//! and sets the whole resolved chain in motion.
use vstd::prelude::*;

verus! {

use crate::Dir;
use crate::Momentum;
use crate::SokobanEvent;
use crate::collision::CollisionResult;
use crate::collision::PushOutcome;
use crate::context::EntityRec;
use crate::context::SimulationContext;
use crate::context::lemma_sync_occ_matches;
use crate::context::unique_player_in;
use crate::context::sync_occ_upto;
use crate::history::recorded_entries;
use crate::momentum::with_momentum;

/// Whether the chain names slot `i`.
pub open spec fn in_chain(chain: Seq<usize>, i: int) -> bool {
    exists|k: int| 0 <= k < chain.len() && chain[k] as int == i
}

/// What an accepted `Move(direction)` does, given the player slot `k`: on a
/// successful push the pre-move positions are recorded (the timestamp
/// advances) and the whole chain is set in motion; a wall or out-of-bounds
/// block changes nothing.
pub open spec fn player_move_outcome(
    a: SimulationContext,
    b: SimulationContext,
    ev0: Seq<SokobanEvent>,
    ev1: Seq<SokobanEvent>,
    k: int,
    direction: Dir,
) -> bool {
    match b.collision.resolve_spec(a.entities@[k].pos, direction) {
        PushOutcome::Push(chain) => {
            &&& b.time == a.time + 1
            &&& forall|i: int| 0 <= i < a.entities@.len() ==> {
                let x = #[trigger] a.entities@[i];
                let y = b.entities@[i];
                &&& y == (EntityRec { history: y.history, momentum: y.momentum, ..x })
                &&& y.history.entries@ == recorded_entries(
                    x.history.entries@,
                    x.alive && crate::history::is_tracked(x),
                    x.pos,
                    a.time,
                )
                &&& y.momentum == (if in_chain(chain, i) {
                    Momentum(Some(direction))
                } else {
                    x.momentum
                })
            }
            &&& ev1 == ev0 + (if chain.len() == 1 {
                seq![SokobanEvent::PlayerMoved, SokobanEvent::PlayerPush]
            } else {
                seq![SokobanEvent::PlayerPush]
            })
        },
        _ => b.entities@ == a.entities@ && b.time == a.time && ev1 == ev0,
    }
}

/// Law: a blocked push moves nothing. Under the move-intent contract, when
/// the resolver reports a wall or an out-of-bounds block for the player's
/// cell, no momentum is written, nothing is recorded (the timestamp is
/// unchanged), no event is sent, and no entity's position changes.
pub proof fn lemma_blocked_push_changes_nothing(
    a: SimulationContext,
    b: SimulationContext,
    ev0: Seq<SokobanEvent>,
    ev1: Seq<SokobanEvent>,
    k: int,
    direction: Dir,
)
    requires
        player_move_outcome(a, b, ev0, ev1, k, direction),
        !(b.collision.resolve_spec(a.entities@[k].pos, direction) is Push),
    ensures
        b.entities@ == a.entities@,
        b.time == a.time,
        ev1 == ev0,
{
}

impl SimulationContext {
    /// Set every entity named by the resolved chain in motion in
    /// `direction`.
    fn set_chain_momentum(&mut self, chain: &Vec<usize>, direction: Dir)
        requires
            forall|j: int| 0 <= j < chain@.len() ==> chain@[j] < old(self).entities@.len(),
        ensures
            *final(self) == (SimulationContext { entities: final(self).entities, ..*old(self) }),
            final(self).entities@.len() == old(self).entities@.len(),
            forall|i: int| 0 <= i < old(self).entities@.len()
                ==> final(self).entities@[i] == (if in_chain(chain@, i) {
                    with_momentum(#[trigger] old(self).entities@[i], Some(direction))
                } else {
                    old(self).entities@[i]
                }),
    {
        let n = self.entities.len();
        let cn = chain.len();
        let mut k: usize = 0;
        #[verifier::loop_isolation(false)]
        while k < cn
            invariant
                k <= cn,
                self.entities@.len() == n,
                *self == (SimulationContext { entities: self.entities, ..*old(self) }),
                forall|i: int| 0 <= i < n ==> self.entities@[i] == (if exists|j: int|
                    0 <= j < k && chain@[j] as int == i {
                    with_momentum(#[trigger] old(self).entities@[i], Some(direction))
                } else {
                    old(self).entities@[i]
                }),
            decreases cn - k,
        {
            let t = chain[k];
            self.entities[t].momentum = Momentum(Some(direction));
            proof {
                assert forall|i: int| 0 <= i < n implies self.entities@[i] == (if exists|j: int|
                    0 <= j < k + 1 && chain@[j] as int == i {
                    with_momentum(#[trigger] old(self).entities@[i], Some(direction))
                } else {
                    old(self).entities@[i]
                }) by {
                    if i == t as int {
                        assert(0 <= k < k + 1 && chain@[k as int] as int == i);
                    } else {
                        if exists|j: int| 0 <= j < k + 1 && chain@[j] as int == i {
                            let j = choose|j: int| 0 <= j < k + 1 && chain@[j] as int == i;
                            assert(j != k);
                            assert(0 <= j < k && chain@[j] as int == i);
                        }
                    }
                }
            }
            k = k + 1;
        }
    }

    /// An accepted push: record the pre-move positions, then set every
    /// entity of the resolved chain in motion and report the push.
    #[verifier::rlimit(100)]
    fn push_accepted(&mut self, chain: &Vec<usize>, direction: Dir, events: &mut Vec<SokobanEvent>)
        requires
            old(self).wf(),
            old(self).time < usize::MAX,
            forall|j: int| 0 <= j < chain@.len() ==> chain@[j] < old(self).entities@.len(),
        ensures
            final(self).wf(),
            *final(self) == (SimulationContext {
                entities: final(self).entities,
                time: final(self).time,
                ..*old(self)
            }),
            final(self).time == old(self).time + 1,
            final(self).entities@.len() == old(self).entities@.len(),
            forall|i: int| 0 <= i < old(self).entities@.len() ==> {
                let x = #[trigger] old(self).entities@[i];
                let y = final(self).entities@[i];
                &&& y == (EntityRec { history: y.history, momentum: y.momentum, ..x })
                &&& y.history.entries@ == recorded_entries(
                    x.history.entries@,
                    x.alive && crate::history::is_tracked(x),
                    x.pos,
                    old(self).time,
                )
                &&& y.momentum == (if in_chain(chain@, i) {
                    Momentum(Some(direction))
                } else {
                    x.momentum
                })
            },
            final(events)@ == old(events)@ + (if chain@.len() == 1 {
                seq![SokobanEvent::PlayerMoved, SokobanEvent::PlayerPush]
            } else {
                seq![SokobanEvent::PlayerPush]
            }),
    {
        self.record();
        let ghost mid = *self;
        self.set_chain_momentum(chain, direction);
        if chain.len() == 1 {
            events.push(SokobanEvent::PlayerMoved);
        }
        events.push(SokobanEvent::PlayerPush);
        proof {
            if chain@.len() == 1 {
                assert(old(events)@ + seq![
                    SokobanEvent::PlayerMoved,
                    SokobanEvent::PlayerPush,
                ] =~= old(events)@.push(SokobanEvent::PlayerMoved).push(SokobanEvent::PlayerPush));
            } else {
                assert(old(events)@ + seq![SokobanEvent::PlayerPush] =~= old(events)@.push(
                    SokobanEvent::PlayerPush,
                ));
            }
            assert forall|j: int| 0 <= j < self.entities@.len() implies {
                let e = #[trigger] self.entities@[j];
                e.history.times_increasing() && (e.alive ==> e.history.times_below(self.time))
            } by {
                assert(self.entities@[j] == (if in_chain(chain@, j) {
                    with_momentum(mid.entities@[j], Some(direction))
                } else {
                    mid.entities@[j]
                }));
            }
            assert forall|j: int| 0 <= j < self.command_log@.len() implies {
                let r = #[trigger] self.command_log@[j];
                r.id < self.entities@.len() && !self.entities@[r.id as int].alive
                    && self.entities@[r.id as int].history.times_below(r.time)
            } by {
                assert(self.command_log@[j] == mid.command_log@[j]);
                let r = self.command_log@[j];
                assert(self.entities@[r.id as int] == (if in_chain(chain@, r.id as int) {
                    with_momentum(mid.entities@[r.id as int], Some(direction))
                } else {
                    mid.entities@[r.id as int]
                }));
            }
        }
    }

    /// One `Move(direction)` intent. Rejected (deferred) while any entity
    /// still has momentum; skipped, after the Grid Index sync, unless
    /// exactly one live player exists. Otherwise the push is resolved from
    /// the player's cell: on success the pre-move positions are recorded,
    /// every entity of the chain is set in motion, and the push is
    /// reported; a wall or out-of-bounds block changes nothing.
    #[verifier::rlimit(100)]
    pub fn player_movement(&mut self, direction: Dir, events: &mut Vec<SokobanEvent>)
        requires
            old(self).wf(),
            old(self).time < usize::MAX,
        ensures
            final(self).wf(),
            !old(self).quiescent() ==> *final(self) == *old(self) && final(events)@ == old(
                events,
            )@,
            old(self).quiescent() ==> {
                &&& *final(self) == (SimulationContext {
                    collision: final(self).collision,
                    entities: final(self).entities,
                    time: final(self).time,
                    ..*old(self)
                })
                &&& forall|p: crate::Pos| final(self).collision.occ(p) == (if old(
                    self,
                ).in_bounds_spec(p) {
                    sync_occ_upto(old(self).entities@, old(self).entities@.len() as int, p)
                } else {
                    None::<(usize, crate::SokobanBlock)>
                })
                &&& final(self).entities@.len() == old(self).entities@.len()
                &&& ((forall|k: int| !old(self).unique_player(k)) ==> final(self).entities@ == old(
                    self,
                ).entities@ && final(self).time == old(self).time && final(events)@ == old(
                    events,
                )@)
                &&& forall|k: int| old(self).unique_player(k) ==> player_move_outcome(
                    *old(self),
                    *final(self),
                    old(events)@,
                    final(events)@,
                    k,
                    direction,
                )
            },
    {
        if self.any_momentum_left() {
            return;
        }
        self.sync_collision_map();
        let n = self.entities.len();
        proof {
            assert forall|p: crate::Pos|
                ((#[trigger] self.collision.occ(p)) matches Some((id, b)) ==> id < n as int) by {
                lemma_sync_occ_matches(old(self).entities@, n as int, p);
            }
            assert(self.collision.ids_below(n as int));
        }
        let player: usize;
        match self.find_single_player() {
            None => {
                proof {
                    assert forall|k: int| !old(self).unique_player(k) by {
                        assert(!self.unique_player(k));
                        assert(self.entities@ == old(self).entities@);
                    }
                }
                return;
            },
            Some(k) => {
                player = k;
            },
        }
        proof {
            assert(self.entities@ == old(self).entities@);
            assert(old(self).unique_player(player as int)) by {
                assert(self.unique_player(player as int));
            }
            assert forall|k: int| old(self).unique_player(k) implies k == player as int by {
                if k != player as int {
                    assert(unique_player_in(old(self).entities@, k));
                    assert(!(old(self).entities@[player as int].alive
                        && old(self).entities@[player as int].is_player));
                }
            }
        }
        let ppos = self.entities[player].pos;
        match self.collision.push_collision(ppos, direction) {
            CollisionResult::Push(chain) => {
                proof {
                    self.collision.lemma_resolve_ids_below(ppos, direction, n as int);
                    assert(self.collision.resolve_spec(ppos, direction)
                        == PushOutcome::Push(chain@));
                    assert forall|j: int| 0 <= j < chain@.len() implies chain@[j] < n by {
                        match self.collision.resolve_spec(ppos, direction) {
                            PushOutcome::Push(c) => {
                                assert(c == chain@);
                                assert(c[j] < n as int);
                            },
                            _ => {},
                        }
                    }
                }
                self.push_accepted(&chain, direction, events);
                proof {
                    assert(player_move_outcome(
                        *old(self),
                        *self,
                        old(events)@,
                        events@,
                        player as int,
                        direction,
                    ));
                }
            },
            CollisionResult::Wall => {},
            CollisionResult::OutOfBounds => {},
        }
    }

}

} // verus!
