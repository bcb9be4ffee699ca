//! Deterministic simulation core of a grid-based block-pushing puzzle game:
//! chained push resolution over a bounded grid, momentum hand-off across
//! touching entities, terrain modifiers (rubber, sand, void, lamps), win
//! detection, and timestamped undo/redo of entity positions.
use vstd::prelude::*;

pub mod collision;
pub mod context;
pub mod entity;
pub mod history;
pub mod level;
pub mod momentum;
pub mod player;
pub mod tile_behaviour;

verus! {

/// One of the four cardinal directions a push or a moving entity can take.
/// `Up` is towards larger `y`, `Right` towards larger `x`.
#[derive(Clone, Copy, Debug, PartialEq, Eq, Structural)]
pub enum Dir {
    Up,
    Right,
    Down,
    Left,
}

impl Dir {
    /// The direction a bounce off rubber turns this direction into.
    pub open spec fn opposite_spec(self) -> Dir {
        match self {
            Dir::Up => Dir::Down,
            Dir::Down => Dir::Up,
            Dir::Left => Dir::Right,
            Dir::Right => Dir::Left,
        }
    }

    pub fn opposite(&self) -> (r: Dir)
        ensures
            r == self.opposite_spec(),
    {
        match self {
            Dir::Up => Dir::Down,
            Dir::Down => Dir::Up,
            Dir::Left => Dir::Right,
            Dir::Right => Dir::Left,
        }
    }

    /// Horizontal displacement of one step in this direction.
    pub open spec fn dx(self) -> int {
        match self {
            Dir::Right => 1,
            Dir::Left => -1,
            _ => 0,
        }
    }

    /// Vertical displacement of one step in this direction.
    pub open spec fn dy(self) -> int {
        match self {
            Dir::Up => 1,
            Dir::Down => -1,
            _ => 0,
        }
    }
}

/// Integer 2D grid coordinate of an entity.
#[derive(Clone, Copy, Debug, PartialEq, Eq, Structural)]
pub struct Pos {
    pub x: u32,
    pub y: u32,
}

impl Pos {
    pub fn new(x: u32, y: u32) -> (p: Pos)
        ensures
            p == (Pos { x, y }),
    {
        Pos { x, y }
    }

    /// One cell of movement in `dir`, saturating at the borders of the
    /// coordinate type (not of the level).
    pub open spec fn add_dir_spec(self, dir: Dir) -> Pos {
        match dir {
            Dir::Up => Pos { x: self.x, y: if self.y == u32::MAX { u32::MAX } else { (self.y + 1) as u32 } },
            Dir::Down => Pos { x: self.x, y: if self.y == 0 { 0 } else { (self.y - 1) as u32 } },
            Dir::Right => Pos { x: if self.x == u32::MAX { u32::MAX } else { (self.x + 1) as u32 }, y: self.y },
            Dir::Left => Pos { x: if self.x == 0 { 0 } else { (self.x - 1) as u32 }, y: self.y },
        }
    }

    pub fn add_dir(&mut self, dir: Dir)
        ensures
            *final(self) == old(self).add_dir_spec(dir),
    {
        match dir {
            Dir::Up => {
                if self.y < u32::MAX {
                    self.y = self.y + 1;
                }
            },
            Dir::Down => {
                if self.y > 0 {
                    self.y = self.y - 1;
                }
            },
            Dir::Right => {
                if self.x < u32::MAX {
                    self.x = self.x + 1;
                }
            },
            Dir::Left => {
                if self.x > 0 {
                    self.x = self.x - 1;
                }
            },
        }
    }

    /// The cell one step from `self` in `dir`, without saturation.
    pub fn dest(&self, dir: Dir) -> (r: Pos)
        ensures
            r == self.add_dir_spec(dir),
    {
        let mut p = *self;
        p.add_dir(dir);
        p
    }
}

/// Collision class of an entity: `Static` always blocks, `Dynamic` can be
/// pushed and chained.
#[derive(Clone, Copy, Debug, PartialEq, Eq, Structural)]
pub enum SokobanBlock {
    Static,
    Dynamic,
}

/// Pending motion of a dynamic entity: `Some(d)` means the entity attempts to
/// move one cell in `d` on the next resolution pass.
#[derive(Clone, Copy, Debug)]
pub struct Momentum(pub Option<Dir>);

/// Events produced by the core for external presentation and level
/// transition collaborators.
#[derive(Clone, Copy, Debug, PartialEq, Eq, Structural)]
pub enum SokobanEvent {
    /// The single player entity moved by exactly one cell.
    PlayerMoved,
    /// A player push succeeded (possibly moving a chain).
    PlayerPush,
    /// The entity with this index moved one cell during the apply phase.
    EntityMoved(usize),
    /// The entity with this index was destroyed by void terrain.
    EntityDespawned(usize),
    /// The lamp at this cell flipped its boolean.
    LampToggled(Pos),
    /// The win condition holds; emitted exactly once per level instance.
    LevelSolved,
}

} // verus!
