use vstd::arithmetic::div_mod::lemma_fundamental_div_mod_converse;
use vstd::prelude::*;

use crate::{in_world_spec, Position};

verus! {

/// Nanocells in a cell: the unit of projectile space.
pub const CELL: i64 = 1_000_000_000;

/// Length of a projectile's direction vector: a direction is a unit vector
/// scaled by this.
pub const UNIT: i64 = 1000;

/// Speed of a projectile, in cells per second.
pub const ENEMY_ATTACK_SPEED: i64 = 5;

/// A projectile hits a segment whose centre is closer than this, in nanocells.
pub const HIT_RADIUS: i64 = 500_000_000;

/// Bound on a projectile coordinate for `advance`: far beyond the field,
/// and far below the limits of `i64`.
pub const REACH: i64 = 0x2_0000_0000_0000;

/// Bound on a projectile coordinate for `cell`.
pub const FAR: i64 = 0x4_0000_0000_0000;

/// `r` is the integer square root of `n`.
pub open spec fn is_isqrt(n: int, r: int) -> bool {
    r >= 0 && r * r <= n < (r + 1) * (r + 1)
}

/// The integer square root of `n`, for `n >= 0`.
pub open spec fn root(n: int) -> int {
    choose|r: int| is_isqrt(n, r)
}

/// A projectile at the centre of cell `from`, headed for the centre of cell
/// `to`: its direction is the offset scaled to length `UNIT`, each component
/// rounded toward zero; from a cell to itself it does not move.
pub open spec fn aimed(from: Position, to: Position) -> EnemyAttack {
    let ox = to.x - from.x;
    let oy = to.y - from.y;
    let len = root((ox * ox + oy * oy) * (UNIT * UNIT));
    EnemyAttack {
        x: (from.x * CELL) as i64,
        y: (from.y * CELL) as i64,
        dx: if len == 0 { 0 } else { scaled(ox, len) as i64 },
        dy: if len == 0 { 0 } else { scaled(oy, len) as i64 },
    }
}

/// One component of a direction: `c * UNIT^2 / len`, rounded toward zero.
pub open spec fn scaled(c: int, len: int) -> int {
    if c >= 0 {
        c * (UNIT * UNIT) / len
    } else {
        -((-c) * (UNIT * UNIT) / len)
    }
}

/// The cell that holds a projectile coordinate: its floor in cells.
pub open spec fn cell_of(c: int) -> int {
    c / (CELL as int)
}

/// The squared distance between a projectile at `(x, y)` and the centre of
/// cell `p`, in squared nanocells.
pub open spec fn dist2(x: int, y: int, p: Position) -> int {
    (x - p.x * CELL) * (x - p.x * CELL) + (y - p.y * CELL) * (y - p.y * CELL)
}

/// A projectile fired by a wizard. It flies in a straight line in
/// continuous space, independent of the grid.
#[derive(Clone, Copy, PartialEq, Eq, Structural, Debug)]
pub struct EnemyAttack {
    /// Position, in nanocells.
    pub x: i64,
    pub y: i64,
    /// Direction, a unit vector scaled by `UNIT`.
    pub dx: i64,
    pub dy: i64,
}

/// The integer square root of `n`.
pub fn isqrt(n: u128) -> (r: u128)
    requires
        n < 0x1_0000_0000_0000_0000_0000_0000,
    ensures
        is_isqrt(n as int, r as int),
{
    let mut lo: u128 = 0;
    let mut hi: u128 = 0x1_0000_0000_0000;
    assert(hi * hi == 0x1_0000_0000_0000_0000_0000_0000);
    while hi - lo > 1
        invariant
            lo < hi <= 0x1_0000_0000_0000,
            lo * lo <= n < hi * hi,
        decreases hi - lo,
    {
        let mid = lo + (hi - lo) / 2;
        assert(mid * mid <= 0x1_0000_0000_0000 * 0x1_0000_0000_0000) by (nonlinear_arith)
            requires
                mid <= 0x1_0000_0000_0000,
        ;
        if mid * mid <= n {
            lo = mid;
        } else {
            hi = mid;
        }
    }
    lo
}

impl EnemyAttack {
    /// Direction no longer than a unit.
    pub open spec fn wf(&self) -> bool {
        -UNIT <= self.dx <= UNIT && -UNIT <= self.dy <= UNIT
    }

    /// The cell that holds the projectile.
    pub open spec fn cell_spec(&self) -> Position {
        Position { x: cell_of(self.x as int) as i32, y: cell_of(self.y as int) as i32 }
    }

    /// The projectile is above the field.
    pub open spec fn in_world_spec(&self) -> bool {
        in_world_spec(self.cell_spec())
    }

    /// A projectile at the centre of cell `from`, headed for the centre of
    /// cell `to`.
    pub fn aim(from: Position, to: Position) -> (r: EnemyAttack)
        ensures
            r.x == from.x * CELL,
            r.y == from.y * CELL,
            r == aimed(from, to),
            r.wf(),
    {
        let ox: i64 = to.x as i64 - from.x as i64;
        let oy: i64 = to.y as i64 - from.y as i64;
        let ax: u128 = if ox >= 0 { ox as u128 } else { (-ox) as u128 };
        let ay: u128 = if oy >= 0 { oy as u128 } else { (-oy) as u128 };
        proof {
            assert(ax * ax <= 0x1_0000_0000 * 0x1_0000_0000) by (nonlinear_arith)
                requires
                    ax <= 0x1_0000_0000,
            ;
            assert(ay * ay <= 0x1_0000_0000 * 0x1_0000_0000) by (nonlinear_arith)
                requires
                    ay <= 0x1_0000_0000,
            ;
            assert(ax * ax == ox * ox) by (nonlinear_arith)
                requires
                    ax == ox || ax == -ox,
            ;
            assert(ay * ay == oy * oy) by (nonlinear_arith)
                requires
                    ay == oy || ay == -oy,
            ;
        }
        let n: u128 = (ax * ax + ay * ay) * 1_000_000;
        let len = isqrt(n);
        proof {
            assert(n == (ox * ox + oy * oy) * (UNIT * UNIT));
            lemma_isqrt_unique(n as int, len as int);
        }
        let x = from.x as i64 * CELL;
        let y = from.y as i64 * CELL;
        if len == 0 {
            return EnemyAttack { x, y, dx: 0, dy: 0 };
        }
        proof {
            lemma_component_bound(ax as int, (ax * ax + ay * ay) as int, len as int);
            lemma_component_bound(ay as int, (ax * ax + ay * ay) as int, len as int);
        }
        let qx: u128 = ax * 1_000_000 / len;
        let qy: u128 = ay * 1_000_000 / len;
        let dx: i64 = if ox >= 0 { qx as i64 } else { -(qx as i64) };
        let dy: i64 = if oy >= 0 { qy as i64 } else { -(qy as i64) };
        EnemyAttack { x, y, dx, dy }
    }

    /// Flies for `delta` microseconds at `ENEMY_ATTACK_SPEED`.
    pub fn advance(&mut self, delta: u32)
        requires
            old(self).wf(),
            -REACH <= old(self).x <= REACH,
            -REACH <= old(self).y <= REACH,
        ensures
            final(self).x == old(self).x + old(self).dx * ENEMY_ATTACK_SPEED * delta,
            final(self).y == old(self).y + old(self).dy * ENEMY_ATTACK_SPEED * delta,
            final(self).dx == old(self).dx,
            final(self).dy == old(self).dy,
            -FAR <= final(self).x <= FAR,
            -FAR <= final(self).y <= FAR,
    {
        proof {
            lemma_displacement_bound(self.dx as int, delta as int);
            lemma_displacement_bound(self.dy as int, delta as int);
        }
        self.x = self.x + self.dx * ENEMY_ATTACK_SPEED * delta as i64;
        self.y = self.y + self.dy * ENEMY_ATTACK_SPEED * delta as i64;
    }

    /// The cell that holds the projectile.
    pub fn cell(&self) -> (r: Position)
        requires
            -FAR <= self.x <= FAR,
            -FAR <= self.y <= FAR,
        ensures
            r == self.cell_spec(),
    {
        Position { x: floor_cell(self.x), y: floor_cell(self.y) }
    }

    /// The projectile is above the field.
    pub fn in_world(&self) -> (r: bool)
        requires
            -FAR <= self.x <= FAR,
            -FAR <= self.y <= FAR,
        ensures
            r == self.in_world_spec(),
    {
        self.cell().in_world()
    }

    /// The projectile is closer than `HIT_RADIUS` to the centre of cell `p`.
    pub fn hits(&self, p: Position) -> (r: bool)
        ensures
            r == (dist2(self.x as int, self.y as int, p) < HIT_RADIUS * HIT_RADIUS),
    {
        let ex: i128 = self.x as i128 - p.x as i128 * CELL as i128;
        let ey: i128 = self.y as i128 - p.y as i128 * CELL as i128;
        let rad: i128 = HIT_RADIUS as i128;
        proof {
            assert(ex == self.x - p.x * CELL && ey == self.y - p.y * CELL);
            assert(ex * ex >= 0 && ey * ey >= 0) by (nonlinear_arith);
        }
        if ex <= -rad || ex >= rad || ey <= -rad || ey >= rad {
            proof {
                assert(ex * ex >= rad * rad || ey * ey >= rad * rad) by (nonlinear_arith)
                    requires
                        ex <= -rad || ex >= rad || ey <= -rad || ey >= rad,
                        rad > 0,
                ;
            }
            return false;
        }
        proof {
            assert(ex * ex < rad * rad && ey * ey < rad * rad) by (nonlinear_arith)
                requires
                    -rad < ex < rad,
                    -rad < ey < rad,
                    rad > 0,
            ;
        }
        ex * ex + ey * ey < rad * rad
    }
}

/// The floor of `c / CELL`.
fn floor_cell(c: i64) -> (r: i32)
    requires
        -FAR <= c <= FAR,
    ensures
        r == cell_of(c as int),
{
    if c >= 0 {
        (c / CELL) as i32
    } else {
        let m = -c;
        let q = m / CELL;
        let rem = m % CELL;
        proof {
            lemma_fundamental_div_mod_converse(m as int, CELL as int, q as int, rem as int);
        }
        if rem == 0 {
            proof {
                lemma_fundamental_div_mod_converse(c as int, CELL as int, -q, 0);
            }
            -(q as i32)
        } else {
            proof {
                lemma_fundamental_div_mod_converse(c as int, CELL as int, -q - 1, CELL - rem);
            }
            -(q as i32) - 1
        }
    }
}

/// A number has one integer square root at most.
pub proof fn lemma_isqrt_unique(n: int, r: int)
    requires
        is_isqrt(n, r),
    ensures
        root(n) == r,
{
    assert(is_isqrt(n, root(n)));
    let s = root(n);
    if s < r {
        assert((s + 1) * (s + 1) <= r * r) by (nonlinear_arith)
            requires
                0 <= s < r,
        ;
    } else if r < s {
        assert((r + 1) * (r + 1) <= s * s) by (nonlinear_arith)
            requires
                0 <= r < s,
        ;
    }
}

/// A direction component is at most a unit long: `len` is at least
/// `UNIT * a` when `a` is one of the offsets under the root.
proof fn lemma_component_bound(a: int, n: int, len: int)
    requires
        a >= 0,
        a * a <= n,
        is_isqrt(n * (UNIT * UNIT), len),
        len > 0,
    ensures
        a * (UNIT * UNIT) / len <= UNIT,
        a * (UNIT * UNIT) / len >= 0,
{
    let u = UNIT as int;
    assert(u * a * (u * a) <= n * (u * u)) by (nonlinear_arith)
        requires
            a * a <= n,
            u > 0,
    ;
    assert(u * a <= len) by (nonlinear_arith)
        requires
            u * a * (u * a) <= n * (u * u),
            n * (u * u) < (len + 1) * (len + 1),
            u * a >= 0,
            len >= 0,
    ;
    assert(a * (u * u) / len <= u) by (nonlinear_arith)
        requires
            u * a <= len,
            len > 0,
            a >= 0,
            u > 0,
    ;
    assert(a * (u * u) / len >= 0) by (nonlinear_arith)
        requires
            len > 0,
            a >= 0,
            u > 0,
    ;
}

/// One frame of flight moves a coordinate by less than `FAR - REACH`.
proof fn lemma_displacement_bound(d: int, delta: int)
    requires
        -UNIT <= d <= UNIT,
        0 <= delta <= u32::MAX,
    ensures
        -(FAR - REACH) <= d * ENEMY_ATTACK_SPEED * delta <= FAR - REACH,
{
    assert(-(UNIT * ENEMY_ATTACK_SPEED * u32::MAX) <= d * ENEMY_ATTACK_SPEED * delta
        <= UNIT * ENEMY_ATTACK_SPEED * u32::MAX) by (nonlinear_arith)
        requires
            -UNIT <= d <= UNIT,
            0 <= delta <= u32::MAX,
    ;
}

} // verus!
