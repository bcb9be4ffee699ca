//! Grid Index and Push Resolver: a bounded 2D lookup from coordinates to an
//! optional occupant, and the walk that turns a push request into a wall
//! block, an out-of-bounds block, or an ordered chain of entities to move.
use vstd::prelude::*;

verus! {

use crate::Dir;
use crate::Pos;
use crate::SokobanBlock;

/// Bounded 2D lookup from a coordinate to the occupant of that cell, if any.
/// Rebuilt from the authoritative entity set once per simulation step.
#[derive(Debug)]
pub struct CollisionMap {
    pub width: u32,
    pub height: u32,
    pub cells: Vec<Option<(usize, SokobanBlock)>>,
}

/// Outcome of resolving a push request.
pub enum CollisionResult {
    /// The ordered chain of entities that each move one cell, from the
    /// entity at the origin outward.
    Push(Vec<usize>),
    /// The chain runs into a static occupant; nothing moves.
    Wall,
    /// The origin is empty or out of bounds, or the chain runs into the
    /// level border; nothing moves.
    OutOfBounds,
}

/// Mathematical form of a resolved push.
pub enum PushOutcome {
    Push(Seq<usize>),
    Wall,
    OutOfBounds,
}

impl View for CollisionResult {
    type V = PushOutcome;

    open spec fn view(&self) -> PushOutcome {
        match self {
            CollisionResult::Push(v) => PushOutcome::Push(v@),
            CollisionResult::Wall => PushOutcome::Wall,
            CollisionResult::OutOfBounds => PushOutcome::OutOfBounds,
        }
    }
}

pub proof fn lemma_row_major_in_range(x: int, y: int, w: int, h: int)
    requires
        0 <= x < w,
        0 <= y < h,
    ensures
        0 <= y * w + x < w * h,
{
    assert(0 <= y * w + x < w * h) by (nonlinear_arith)
        requires
            0 <= x < w,
            0 <= y < h,
    ;
}

pub proof fn lemma_row_major_injective(x1: int, y1: int, x2: int, y2: int, w: int)
    requires
        0 <= x1 < w,
        0 <= x2 < w,
        0 <= y1,
        0 <= y2,
        y1 * w + x1 == y2 * w + x2,
    ensures
        x1 == x2 && y1 == y2,
{
    assert(x1 == x2 && y1 == y2) by (nonlinear_arith)
        requires
            0 <= x1 < w,
            0 <= x2 < w,
            0 <= y1,
            0 <= y2,
            y1 * w + x1 == y2 * w + x2,
    ;
}

impl CollisionMap {
    /// The backing row-major vector covers exactly the level rectangle.
    pub open spec fn wf(self) -> bool {
        self.cells@.len() == self.width * self.height
    }

    pub open spec fn in_bounds_spec(self, p: Pos) -> bool {
        p.x < self.width && p.y < self.height
    }

    pub open spec fn idx(self, p: Pos) -> int {
        p.y * self.width + p.x
    }

    /// The occupant of cell `p`: out-of-bounds coordinates always read as
    /// "no entry".
    pub open spec fn occ(self, p: Pos) -> Option<(usize, SokobanBlock)> {
        if self.in_bounds_spec(p) {
            self.cells@[self.idx(p)]
        } else {
            None
        }
    }

    pub fn new(width: u32, height: u32) -> (m: CollisionMap)
        requires
            width * height <= usize::MAX,
        ensures
            m.wf(),
            m.width == width,
            m.height == height,
            forall|p: Pos| m.occ(p) is None,
    {
        let len: usize = (width as usize) * (height as usize);
        let mut cells: Vec<Option<(usize, SokobanBlock)>> = Vec::new();
        let mut i: usize = 0;
        while i < len
            invariant
                i <= len,
                cells@.len() == i,
                forall|k: int| 0 <= k < i ==> cells@[k] is None,
            decreases len - i,
        {
            cells.push(None);
            i = i + 1;
        }
        let m = CollisionMap { width, height, cells };
        proof {
            assert forall|p: Pos| #[trigger] m.occ(p) is None by {
                if m.in_bounds_spec(p) {
                    lemma_row_major_in_range(p.x as int, p.y as int, width as int, height as int);
                }
            }
        }
        m
    }

    /// An empty index over a 0 by 0 grid.
    pub fn empty() -> (m: CollisionMap)
        ensures
            m.wf(),
            m.width == 0,
            m.height == 0,
            forall|p: Pos| m.occ(p) is None,
    {
        CollisionMap::new(0, 0)
    }

    pub fn in_bounds(&self, p: Pos) -> (r: bool)
        ensures
            r == self.in_bounds_spec(p),
    {
        p.x < self.width && p.y < self.height
    }

    /// The only occupancy query the Push Resolver uses.
    pub fn get(&self, p: Pos) -> (r: Option<(usize, SokobanBlock)>)
        requires
            self.wf(),
        ensures
            r == self.occ(p),
    {
        if p.x < self.width && p.y < self.height {
            // bind the length so the prover sees it fits in usize
            let _len_bound: usize = self.cells.len();
            proof {
                lemma_row_major_in_range(p.x as int, p.y as int, self.width as int, self.height as int);
            }
            self.cells[(p.y as usize) * (self.width as usize) + (p.x as usize)]
        } else {
            None
        }
    }

    pub fn set(&mut self, p: Pos, v: Option<(usize, SokobanBlock)>)
        requires
            old(self).wf(),
            old(self).in_bounds_spec(p),
        ensures
            final(self).wf(),
            final(self).width == old(self).width,
            final(self).height == old(self).height,
            final(self).cells@ == old(self).cells@.update(old(self).idx(p), v),
            forall|q: Pos| #[trigger] final(self).occ(q) == (if q == p { v } else { old(self).occ(q) }),
    {
        // bind the length so the prover sees it fits in usize
        let _len_bound: usize = self.cells.len();
        proof {
            lemma_row_major_in_range(p.x as int, p.y as int, self.width as int, self.height as int);
        }
        let i: usize = (p.y as usize) * (self.width as usize) + (p.x as usize);
        self.cells[i] = v;
        proof {
            assert forall|q: Pos| #[trigger] self.occ(q) == (if q == p { v } else { old(self).occ(q) }) by {
                if self.in_bounds_spec(q) {
                    lemma_row_major_in_range(
                        q.x as int, q.y as int, self.width as int, self.height as int,
                    );
                    if q != p && q.y * self.width + q.x == p.y * self.width + p.x {
                        lemma_row_major_injective(
                            q.x as int, q.y as int, p.x as int, p.y as int, self.width as int,
                        );
                    }
                }
            }
        }
    }

    /// Cells left before a walk starting at `p` reaches the level border.
    pub open spec fn remaining(self, p: Pos, dir: Dir) -> int {
        match dir {
            Dir::Right => self.width - p.x,
            Dir::Left => p.x as int,
            Dir::Up => self.height - p.y,
            Dir::Down => p.y as int,
        }
    }

    /// Whether one more step from `p` in `dir` stays inside the level.
    pub open spec fn step_ok(self, p: Pos, dir: Dir) -> bool {
        self.in_bounds_spec(p) && match dir {
            Dir::Up => p.y + 1 < self.height,
            Dir::Down => p.y >= 1,
            Dir::Right => p.x + 1 < self.width,
            Dir::Left => p.x >= 1,
        }
    }

    pub fn can_step(&self, p: Pos, dir: Dir) -> (r: bool)
        ensures
            r == self.step_ok(p, dir),
    {
        if p.x < self.width && p.y < self.height {
            match dir {
                Dir::Up => p.y + 1 < self.height,
                Dir::Down => p.y >= 1,
                Dir::Right => p.x + 1 < self.width,
                Dir::Left => p.x >= 1,
            }
        } else {
            false
        }
    }

    /// The walk of the Push Resolver, from the cell of the current pusher
    /// `cur` (occupied by entity `pusher`) onward: an empty next cell ends
    /// the chain, a static occupant blocks it, a dynamic occupant extends
    /// it, and the level border blocks it.
    pub open spec fn walk(self, pusher: usize, cur: Pos, dir: Dir) -> PushOutcome
        decreases self.remaining(cur, dir),
    {
        if !self.step_ok(cur, dir) {
            PushOutcome::OutOfBounds
        } else {
            let dest = cur.add_dir_spec(dir);
            match self.occ(dest) {
                None => PushOutcome::Push(seq![pusher]),
                Some((id, SokobanBlock::Static)) => PushOutcome::Wall,
                Some((id, SokobanBlock::Dynamic)) => match self.walk(id, dest, dir) {
                    PushOutcome::Push(rest) => PushOutcome::Push(seq![pusher] + rest),
                    o => o,
                },
            }
        }
    }

    /// What a push request from `origin` in `dir` resolves to. An empty or
    /// out-of-bounds origin resolves to `OutOfBounds`.
    pub open spec fn resolve_spec(self, origin: Pos, dir: Dir) -> PushOutcome {
        match self.occ(origin) {
            None => PushOutcome::OutOfBounds,
            Some((id, b)) => self.walk(id, origin, dir),
        }
    }

    /// The cell `k` steps from `p` in `dir` (each step saturating at the
    /// coordinate type's borders, as `add_dir_spec` is).
    pub open spec fn ahead(p: Pos, dir: Dir, k: nat) -> Pos
        decreases k,
    {
        if k == 0 {
            p
        } else {
            CollisionMap::ahead(p, dir, (k - 1) as nat).add_dir_spec(dir)
        }
    }

    /// Resolve a push request: walk occupied cells from `pusher_pos` in
    /// `direction` and report either the ordered chain of entities to move
    /// (ending with the entity next to the empty cell), a wall block, or an
    /// out-of-bounds block. Nothing is moved here.
    #[verifier::loop_isolation(false)]
    pub fn push_collision(&self, pusher_pos: Pos, direction: Dir) -> (r: CollisionResult)
        requires
            self.wf(),
        ensures
            r@ == self.resolve_spec(pusher_pos, direction),
    {
        let mut pusher: usize;
        match self.get(pusher_pos) {
            None => {
                return CollisionResult::OutOfBounds;
            },
            Some((id, b)) => {
                pusher = id;
            },
        }
        let mut moving_entities: Vec<usize> = Vec::new();
        let mut current_pos = pusher_pos;
        proof {
            match self.walk(pusher, current_pos, direction) {
                PushOutcome::Push(rest) => {
                    assert(moving_entities@ + rest =~= rest);
                },
                _ => {},
            }
        }
        loop
            invariant
                self.wf(),
                (match self.walk(pusher, current_pos, direction) {
                    PushOutcome::Push(rest) => self.resolve_spec(pusher_pos, direction)
                        == PushOutcome::Push(moving_entities@ + rest),
                    PushOutcome::Wall => self.resolve_spec(pusher_pos, direction)
                        == PushOutcome::Wall,
                    PushOutcome::OutOfBounds => self.resolve_spec(pusher_pos, direction)
                        == PushOutcome::OutOfBounds,
                }),
            decreases self.remaining(current_pos, direction),
        {
            if !self.can_step(current_pos, direction) {
                return CollisionResult::OutOfBounds;
            }
            let dest = current_pos.dest(direction);
            match self.get(dest) {
                None => {
                    let ghost prev = moving_entities@;
                    moving_entities.push(pusher);
                    proof {
                        assert(moving_entities@ == prev.push(pusher));
                        assert((prev + seq![pusher]).len() == prev.push(pusher).len());
                        assert(prev + seq![pusher] =~= moving_entities@);
                    }
                    return CollisionResult::Push(moving_entities);
                },
                Some((pushed, SokobanBlock::Static)) => {
                    return CollisionResult::Wall;
                },
                Some((pushed, SokobanBlock::Dynamic)) => {
                    let ghost prev = moving_entities@;
                    moving_entities.push(pusher);
                    proof {
                        assert(prev + seq![pusher] =~= moving_entities@);
                        match self.walk(pushed, dest, direction) {
                            PushOutcome::Push(rest) => {
                                assert((prev + seq![pusher]) + rest =~= prev + (seq![pusher] + rest));
                            },
                            _ => {},
                        }
                    }
                    pusher = pushed;
                    current_pos = dest;
                },
            }
        }
    }

    /// Every occupant entry of the index names an arena slot below `n`.
    pub open spec fn ids_below(self, n: int) -> bool {
        forall|p: Pos| (#[trigger] self.occ(p)) matches Some((id, b)) ==> id < n
    }

    pub proof fn lemma_walk_ids_below(self, pusher: usize, cur: Pos, dir: Dir, n: int)
        requires
            self.ids_below(n),
            pusher < n,
        ensures
            (match self.walk(pusher, cur, dir) {
                PushOutcome::Push(chain) => forall|k: int| 0 <= k < chain.len()
                    ==> (#[trigger] chain[k]) < n,
                _ => true,
            }),
        decreases self.remaining(cur, dir),
    {
        if self.step_ok(cur, dir) {
            let dest = cur.add_dir_spec(dir);
            match self.occ(dest) {
                None => {
                    assert(self.walk(pusher, cur, dir) == PushOutcome::Push(seq![pusher]));
                    assert(seq![pusher][0] == pusher);
                },
                Some((id, SokobanBlock::Static)) => {},
                Some((id, SokobanBlock::Dynamic)) => {
                    assert(id < n);
                    self.lemma_walk_ids_below(id, dest, dir, n);
                    match self.walk(id, dest, dir) {
                        PushOutcome::Push(rest) => {
                            let chain = seq![pusher] + rest;
                            assert forall|k: int| 0 <= k < chain.len() implies chain[k] < n by {
                                if k == 0 {
                                    assert(chain[0] == pusher);
                                } else {
                                    assert(chain[k] == rest[k - 1]);
                                }
                            }
                        },
                        _ => {},
                    }
                },
            }
        }
    }

    /// A resolved chain only names arena slots the index knows about.
    pub proof fn lemma_resolve_ids_below(self, origin: Pos, dir: Dir, n: int)
        requires
            self.ids_below(n),
        ensures
            (match self.resolve_spec(origin, dir) {
                PushOutcome::Push(chain) => forall|k: int| 0 <= k < chain.len()
                    ==> (#[trigger] chain[k]) < n,
                _ => true,
            }),
    {
        match self.occ(origin) {
            None => {},
            Some((id, b)) => {
                assert(id < n);
                self.lemma_walk_ids_below(id, origin, dir, n);
            },
        }
    }

    /// Law: when the destination chain from `origin` consists of the dynamic
    /// occupants `ids` (origin entity first) up to an empty in-bounds cell,
    /// the Push Resolver returns `Push` of exactly that ordered chain.
    pub proof fn lemma_push_resolves_chain(self, origin: Pos, dir: Dir, ids: Seq<usize>)
        requires
            self.wf(),
            ids.len() >= 1,
            forall|k: nat| k < ids.len() ==> self.occ(#[trigger] CollisionMap::ahead(origin, dir, k))
                == Some((ids[k as int], SokobanBlock::Dynamic)),
            forall|k: nat| k < ids.len() ==> self.step_ok(#[trigger] CollisionMap::ahead(origin, dir, k), dir),
            self.occ(CollisionMap::ahead(origin, dir, ids.len())) is None,
        ensures
            self.resolve_spec(origin, dir) == PushOutcome::Push(ids),
        decreases ids.len(),
    {
        assert(CollisionMap::ahead(origin, dir, 0) == origin);
        assert(self.occ(origin) == Some((ids[0], SokobanBlock::Dynamic)));
        assert(self.step_ok(origin, dir));
        let p1 = origin.add_dir_spec(dir);
        assert(CollisionMap::ahead(origin, dir, 1) == p1);
        if ids.len() == 1 {
            assert(self.occ(p1) is None);
            assert(self.walk(ids[0], origin, dir) == PushOutcome::Push(seq![ids[0]]));
            assert(seq![ids[0]] =~= ids);
        } else {
            let rest = ids.skip(1);
            assert(self.occ(p1) == Some((ids[1], SokobanBlock::Dynamic)));
            assert forall|k: nat| k < rest.len() implies self.occ(
                #[trigger] CollisionMap::ahead(p1, dir, k),
            ) == Some((rest[k as int], SokobanBlock::Dynamic)) by {
                lemma_ahead_shift(origin, dir, k);
                assert(self.occ(CollisionMap::ahead(origin, dir, (k + 1) as nat))
                    == Some((ids[k as int + 1], SokobanBlock::Dynamic)));
            }
            assert forall|k: nat| k < rest.len() implies self.step_ok(
                #[trigger] CollisionMap::ahead(p1, dir, k), dir,
            ) by {
                lemma_ahead_shift(origin, dir, k);
                assert(self.step_ok(CollisionMap::ahead(origin, dir, (k + 1) as nat), dir));
            }
            lemma_ahead_shift(origin, dir, rest.len());
            assert(self.occ(CollisionMap::ahead(p1, dir, rest.len())) is None);
            self.lemma_push_resolves_chain(p1, dir, rest);
            assert(self.resolve_spec(p1, dir) == PushOutcome::Push(rest));
            assert(self.walk(ids[1], p1, dir) == PushOutcome::Push(rest));
            assert(self.walk(ids[0], origin, dir) == PushOutcome::Push(seq![ids[0]] + rest));
            assert(seq![ids[0]] + rest =~= ids);
        }
    }

    /// Law: a push whose first destination cell holds a static occupant
    /// resolves to `Wall`; the Momentum Engine then moves nothing.
    pub proof fn lemma_push_into_static_is_wall(self, origin: Pos, dir: Dir)
        requires
            self.wf(),
            self.occ(origin) is Some,
            self.step_ok(origin, dir),
            self.occ(origin.add_dir_spec(dir)) matches Some((id, SokobanBlock::Static)),
        ensures
            self.resolve_spec(origin, dir) == PushOutcome::Wall,
    {
    }
}

impl Default for CollisionMap {
    /// An empty index over a 0 by 0 grid, as before a level is loaded.
    fn default() -> (m: CollisionMap)
        ensures
            m.wf(),
            m.width == 0,
            m.height == 0,
            forall|p: Pos| m.occ(p) is None,
    {
        CollisionMap::empty()
    }
}

/// `ahead` commutes with taking one step first.
pub proof fn lemma_ahead_shift(p: Pos, dir: Dir, k: nat)
    ensures
        CollisionMap::ahead(p.add_dir_spec(dir), dir, k) == CollisionMap::ahead(p, dir, (k + 1) as nat),
    decreases k,
{
    if k == 0 {
        assert(CollisionMap::ahead(p, dir, 1) == CollisionMap::ahead(p, dir, 0).add_dir_spec(dir));
    } else {
        lemma_ahead_shift(p, dir, (k - 1) as nat);
        assert(CollisionMap::ahead(p.add_dir_spec(dir), dir, k)
            == CollisionMap::ahead(p.add_dir_spec(dir), dir, (k - 1) as nat).add_dir_spec(dir));
        assert(CollisionMap::ahead(p, dir, (k + 1) as nat)
            == CollisionMap::ahead(p, dir, k).add_dir_spec(dir));
    }
}

} // verus!
