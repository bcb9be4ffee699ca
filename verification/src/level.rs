//! Level geometry: the rectangular grid of tile kinds an external loader
//! provides, and the seeding of the simulation state from it (positions,
//! block kinds and terrain tags).
use vstd::prelude::*;

verus! {

use crate::Momentum;
use crate::Pos;
use crate::SokobanBlock;
use crate::collision::CollisionMap;
use crate::context::EntityRec;
use crate::context::Lamp;
use crate::context::SimulationContext;
use crate::history::History;

/// One cell of level geometry.
#[derive(Clone, Copy, Debug, PartialEq, Eq, Structural)]
pub enum TileKind {
    Wall,
    Floor,
    Void,
    Ball,
    Rubber,
    Sand,
    Player,
    Goal,
    /// A ball standing on a goal cell.
    BallGoal,
    LampOff,
    LampOn,
}

impl TileKind {
    /// Whether this tile blocks movement unconditionally.
    pub open spec fn is_static_spec(self) -> bool {
        match self {
            TileKind::Wall | TileKind::Rubber | TileKind::LampOff | TileKind::LampOn => true,
            _ => false,
        }
    }

    pub fn is_static(&self) -> (r: bool)
        ensures
            r == self.is_static_spec(),
    {
        match self {
            TileKind::Wall | TileKind::Rubber | TileKind::LampOff | TileKind::LampOn => true,
            _ => false,
        }
    }

    /// The tile a level-text byte stands for; anything unknown reads as a
    /// wall.
    pub open spec fn from_byte_spec(b: u8) -> TileKind {
        if b == 35 {
            TileKind::Wall
        } else if b == 95 || b == 46 {
            TileKind::Floor
        } else if b == 112 {
            TileKind::Player
        } else if b == 98 {
            TileKind::Ball
        } else if b == 64 {
            TileKind::Void
        } else if b == 124 {
            TileKind::Rubber
        } else if b == 126 {
            TileKind::Sand
        } else if b == 103 {
            TileKind::Goal
        } else if b == 66 {
            TileKind::BallGoal
        } else if b == 108 {
            TileKind::LampOff
        } else if b == 76 {
            TileKind::LampOn
        } else {
            TileKind::Wall
        }
    }

    pub fn from_byte(b: u8) -> (t: TileKind)
        ensures
            t == TileKind::from_byte_spec(b),
    {
        if b == 35 {
            TileKind::Wall
        } else if b == 95 || b == 46 {
            TileKind::Floor
        } else if b == 112 {
            TileKind::Player
        } else if b == 98 {
            TileKind::Ball
        } else if b == 64 {
            TileKind::Void
        } else if b == 124 {
            TileKind::Rubber
        } else if b == 126 {
            TileKind::Sand
        } else if b == 103 {
            TileKind::Goal
        } else if b == 66 {
            TileKind::BallGoal
        } else if b == 108 {
            TileKind::LampOff
        } else if b == 76 {
            TileKind::LampOn
        } else {
            TileKind::Wall
        }
    }
}

/// A rectangular level: `tiles` is row-major, rows bottom to top.
#[derive(Clone, Debug)]
pub struct Level {
    pub width: u32,
    pub height: u32,
    pub tiles: Vec<TileKind>,
}

impl Level {
    pub open spec fn wf(self) -> bool {
        &&& self.tiles@.len() == self.width * self.height
        &&& self.width * self.height <= usize::MAX
    }
}

/// What one spawned entity looks like, besides its (empty) history.
#[derive(Clone, Copy, Debug, PartialEq, Eq, Structural)]
pub struct EntitySeed {
    pub pos: Pos,
    pub block: SokobanBlock,
    pub is_player: bool,
    pub is_ball: bool,
}

/// The cell the tile at `idx` stands on.
pub open spec fn cell_pos(w: u32, idx: int) -> Pos {
    Pos { x: (idx % (w as int)) as u32, y: (idx / (w as int)) as u32 }
}

/// The entity a tile seeds, if any: walls, rubber and lamps block
/// statically; balls and the player are dynamic.
pub open spec fn tile_seed(t: TileKind, p: Pos) -> Option<EntitySeed> {
    match t {
        TileKind::Wall | TileKind::Rubber | TileKind::LampOff | TileKind::LampOn => Some(
            EntitySeed { pos: p, block: SokobanBlock::Static, is_player: false, is_ball: false },
        ),
        TileKind::Ball | TileKind::BallGoal => Some(
            EntitySeed { pos: p, block: SokobanBlock::Dynamic, is_player: false, is_ball: true },
        ),
        TileKind::Player => Some(
            EntitySeed { pos: p, block: SokobanBlock::Dynamic, is_player: true, is_ball: false },
        ),
        _ => None,
    }
}

/// The entities seeded by the first `n` tiles, in cell order.
pub open spec fn seeds_upto(tiles: Seq<TileKind>, w: u32, n: int) -> Seq<EntitySeed>
    decreases n,
{
    if n <= 0 {
        Seq::empty()
    } else {
        let rest = seeds_upto(tiles, w, n - 1);
        match tile_seed(tiles[n - 1], cell_pos(w, n - 1)) {
            Some(s) => rest.push(s),
            None => rest,
        }
    }
}

/// The cells of the first `n` tiles that satisfy the tile predicate encoded
/// by `want`, in cell order: the terrain tables.
pub open spec fn cells_with(tiles: Seq<TileKind>, w: u32, n: int, want: spec_fn(TileKind) -> bool) -> Seq<Pos>
    decreases n,
{
    if n <= 0 {
        Seq::empty()
    } else {
        let rest = cells_with(tiles, w, n - 1, want);
        if want(tiles[n - 1]) {
            rest.push(cell_pos(w, n - 1))
        } else {
            rest
        }
    }
}

/// The lamps of the first `n` tiles, in cell order, off or on as spawned.
pub open spec fn lamps_upto(tiles: Seq<TileKind>, w: u32, n: int) -> Seq<Lamp>
    decreases n,
{
    if n <= 0 {
        Seq::empty()
    } else {
        let rest = lamps_upto(tiles, w, n - 1);
        match tiles[n - 1] {
            TileKind::LampOff => rest.push(Lamp { pos: cell_pos(w, n - 1), on: false }),
            TileKind::LampOn => rest.push(Lamp { pos: cell_pos(w, n - 1), on: true }),
            _ => rest,
        }
    }
}

pub open spec fn is_goal_tile(t: TileKind) -> bool {
    t == TileKind::Goal || t == TileKind::BallGoal
}

pub open spec fn is_sand_tile(t: TileKind) -> bool {
    t == TileKind::Sand
}

pub open spec fn is_void_tile(t: TileKind) -> bool {
    t == TileKind::Void
}

pub open spec fn is_rubber_tile(t: TileKind) -> bool {
    t == TileKind::Rubber
}

proof fn lemma_cell_pos_in_bounds(w: int, h: int, idx: int)
    requires
        0 < w,
        0 <= idx < w * h,
    ensures
        0 <= idx % w < w,
        0 <= idx / w < h,
{
    assert(0 <= idx % w < w && 0 <= idx / w < h) by (nonlinear_arith)
        requires
            0 < w,
            0 <= idx < w * h,
    ;
}

/// Build a fresh simulation state from level geometry: one pass over the
/// tiles seeds every entity (walls, rubber, lamps, balls, the player) with
/// an empty history and no momentum, and fills the terrain tables. The Grid
/// Index starts empty; every phase that reads it syncs it first.
pub fn spawn_level(level: &Level) -> (ctx: SimulationContext)
    requires
        level.wf(),
    ensures
        ctx.wf(),
        ctx.width == level.width,
        ctx.height == level.height,
        ctx.time == 0,
        !ctx.solved,
        ctx.command_log@ == Seq::<crate::context::DespawnRecord>::empty(),
        ctx.quiescent(),
        ctx.entities@.len() == seeds_upto(level.tiles@, level.width, level.tiles@.len() as int).len(),
        forall|i: int| 0 <= i < ctx.entities@.len() ==> {
            let s = seeds_upto(level.tiles@, level.width, level.tiles@.len() as int)[i];
            let e = #[trigger] ctx.entities@[i];
            &&& e.alive
            &&& e.pos == s.pos
            &&& e.block == s.block
            &&& e.is_player == s.is_player
            &&& e.is_ball == s.is_ball
            &&& e.momentum.0 is None
            &&& e.history.entries@ == Seq::<crate::history::HistoryEntry>::empty()
        },
        ctx.goals@ == cells_with(level.tiles@, level.width, level.tiles@.len() as int, |t: TileKind| is_goal_tile(t)),
        ctx.sand@ == cells_with(level.tiles@, level.width, level.tiles@.len() as int, |t: TileKind| is_sand_tile(t)),
        ctx.voids@ == cells_with(level.tiles@, level.width, level.tiles@.len() as int, |t: TileKind| is_void_tile(t)),
        ctx.rubber@ == cells_with(level.tiles@, level.width, level.tiles@.len() as int, |t: TileKind| is_rubber_tile(t)),
        ctx.lamps@ == lamps_upto(level.tiles@, level.width, level.tiles@.len() as int),
{
    let n = level.tiles.len();
    let mut entities: Vec<EntityRec> = Vec::new();
    let mut rubber: Vec<Pos> = Vec::new();
    let mut sand: Vec<Pos> = Vec::new();
    let mut voids: Vec<Pos> = Vec::new();
    let mut goals: Vec<Pos> = Vec::new();
    let mut lamps: Vec<Lamp> = Vec::new();
    let mut idx: usize = 0;
    #[verifier::loop_isolation(false)]
    while idx < n
        invariant
            idx <= n,
            n == level.tiles@.len(),
            level.wf(),
            entities@.len() == seeds_upto(level.tiles@, level.width, idx as int).len(),
            forall|i: int| 0 <= i < entities@.len() ==> {
                let s = seeds_upto(level.tiles@, level.width, idx as int)[i];
                let e = #[trigger] entities@[i];
                &&& e.alive
                &&& e.pos == s.pos
                &&& e.block == s.block
                &&& e.is_player == s.is_player
                &&& e.is_ball == s.is_ball
                &&& e.momentum.0 is None
                &&& e.history.entries@ == Seq::<crate::history::HistoryEntry>::empty()
            },
            goals@ == cells_with(level.tiles@, level.width, idx as int, |t: TileKind| is_goal_tile(t)),
            sand@ == cells_with(level.tiles@, level.width, idx as int, |t: TileKind| is_sand_tile(t)),
            voids@ == cells_with(level.tiles@, level.width, idx as int, |t: TileKind| is_void_tile(t)),
            rubber@ == cells_with(level.tiles@, level.width, idx as int, |t: TileKind| is_rubber_tile(t)),
            lamps@ == lamps_upto(level.tiles@, level.width, idx as int),
        decreases n - idx,
    {
        proof {
            lemma_cell_pos_in_bounds(level.width as int, level.height as int, idx as int);
        }
        let x: u32 = (idx % (level.width as usize)) as u32;
        let y: u32 = (idx / (level.width as usize)) as u32;
        let p = Pos { x, y };
        let ghost prev_seeds = seeds_upto(level.tiles@, level.width, idx as int);
        let tile = level.tiles[idx];
        match tile {
            TileKind::Wall | TileKind::Rubber | TileKind::LampOff | TileKind::LampOn => {
                entities.push(EntityRec {
                    alive: true,
                    pos: p,
                    block: SokobanBlock::Static,
                    is_player: false,
                    is_ball: false,
                    momentum: Momentum(None),
                    history: History::new(),
                });
            },
            TileKind::Ball | TileKind::BallGoal => {
                entities.push(EntityRec {
                    alive: true,
                    pos: p,
                    block: SokobanBlock::Dynamic,
                    is_player: false,
                    is_ball: true,
                    momentum: Momentum(None),
                    history: History::new(),
                });
            },
            TileKind::Player => {
                entities.push(EntityRec {
                    alive: true,
                    pos: p,
                    block: SokobanBlock::Dynamic,
                    is_player: true,
                    is_ball: false,
                    momentum: Momentum(None),
                    history: History::new(),
                });
            },
            _ => {},
        }
        match tile {
            TileKind::Goal | TileKind::BallGoal => {
                goals.push(p);
            },
            TileKind::Sand => {
                sand.push(p);
            },
            TileKind::Void => {
                voids.push(p);
            },
            TileKind::Rubber => {
                rubber.push(p);
            },
            _ => {},
        }
        match tile {
            TileKind::LampOff => {
                lamps.push(Lamp { pos: p, on: false });
            },
            TileKind::LampOn => {
                lamps.push(Lamp { pos: p, on: true });
            },
            _ => {},
        }
        proof {
            let cur_seeds = seeds_upto(level.tiles@, level.width, idx as int + 1);
            assert(cell_pos(level.width, idx as int) == p);
            assert forall|i: int| 0 <= i < entities@.len() implies {
                let s = cur_seeds[i];
                let e = #[trigger] entities@[i];
                &&& e.alive
                &&& e.pos == s.pos
                &&& e.block == s.block
                &&& e.is_player == s.is_player
                &&& e.is_ball == s.is_ball
                &&& e.momentum.0 is None
                &&& e.history.entries@ == Seq::<crate::history::HistoryEntry>::empty()
            } by {
                if i < prev_seeds.len() {
                    assert(cur_seeds[i] == prev_seeds[i]);
                }
            }
        }
        idx = idx + 1;
    }
    let collision = CollisionMap::new(level.width, level.height);
    SimulationContext {
        width: level.width,
        height: level.height,
        entities,
        rubber,
        sand,
        voids,
        goals,
        lamps,
        collision,
        time: 0,
        command_log: Vec::new(),
        solved: false,
    }
}

} // verus!
