//! Simulation core of a grid-based snake game: the snake's body and steering,
//! enemies that decide, walk and attack on their own timers, the projectiles
//! they fire, the difficulty governor and the game-over coordinator.
//!
//! Time is counted in whole microseconds and projectile space in nanocells
//! (a billionth of a grid cell), so every rule is stated over integers.
use vstd::prelude::*;

pub mod attack;
pub mod enemy;
pub mod game;
pub mod level;
pub mod random;
pub mod score;
pub mod snake;
pub mod timer;

pub use level::{LEVEL_SIZE_X, LEVEL_SIZE_Y};
pub use timer::DestroyAfter;

verus! {

/// The states of the whole game.
#[derive(Clone, Copy, PartialEq, Eq, Structural, Debug, Hash)]
pub enum GameState {
    AssetsLoading,
    Menu,
    Playing,
    GameOver,
}

/// A cell of the grid.
#[derive(Clone, Copy, PartialEq, Eq, Structural, Debug, Hash)]
pub struct Position {
    pub x: i32,
    pub y: i32,
}

/// `p` lies in the rectangle `[-hx, hx] x [-hy, hy]`, borders included.
pub open spec fn within_spec(p: Position, hx: int, hy: int) -> bool {
    -hx <= p.x <= hx && -hy <= p.y <= hy
}

/// `p` lies in the playing field.
pub open spec fn in_world_spec(p: Position) -> bool {
    within_spec(p, LEVEL_SIZE_X as int, LEVEL_SIZE_Y as int)
}

impl Position {
    pub fn as_tuple(&self) -> (r: (i32, i32))
        ensures
            r == (self.x, self.y),
    {
        (self.x, self.y)
    }

    /// Whether the cell lies in the rectangle of half-extents `hx`, `hy`
    /// centred on the origin, borders included.
    pub fn within(&self, hx: i32, hy: i32) -> (r: bool)
        ensures
            r == within_spec(*self, hx as int, hy as int),
    {
        -(hx as i64) <= self.x as i64 && self.x as i64 <= hx as i64 && -(hy as i64) <= self.y as i64
            && self.y as i64 <= hy as i64
    }

    pub fn in_world(&self) -> (r: bool)
        ensures
            r == in_world_spec(*self),
    {
        self.within(LEVEL_SIZE_X, LEVEL_SIZE_Y)
    }
}

} // verus!
