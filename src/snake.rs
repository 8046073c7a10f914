use std::collections::VecDeque;

use vstd::prelude::*;

use crate::{in_world_spec, Position};

verus! {

/// One of the four ways the snake can head.
#[derive(Clone, Copy, PartialEq, Eq, Structural, Debug, Hash)]
pub enum Direction {
    Up,
    Down,
    Left,
    Right,
}

pub open spec fn opposite_spec(d: Direction) -> Direction {
    match d {
        Direction::Up => Direction::Down,
        Direction::Down => Direction::Up,
        Direction::Left => Direction::Right,
        Direction::Right => Direction::Left,
    }
}

/// Column offset of one step in direction `d`.
pub open spec fn dx_spec(d: Direction) -> int {
    match d {
        Direction::Left => -1,
        Direction::Right => 1,
        _ => 0,
    }
}

/// Row offset of one step in direction `d`.
pub open spec fn dy_spec(d: Direction) -> int {
    match d {
        Direction::Up => 1,
        Direction::Down => -1,
        _ => 0,
    }
}

/// The cell `(p.x + dx, p.y + dy)`.
pub open spec fn offset(p: Position, dx: int, dy: int) -> Position {
    Position { x: (p.x + dx) as i32, y: (p.y + dy) as i32 }
}

/// The cell one step from `p` in direction `d`.
pub open spec fn step_spec(p: Position, d: Direction) -> Position {
    offset(p, dx_spec(d), dy_spec(d))
}

/// `a` and `b` share an edge.
pub open spec fn adjacent(a: Position, b: Position) -> bool {
    ||| (a.x == b.x && (a.y - b.y == 1 || b.y - a.y == 1))
    ||| (a.y == b.y && (a.x - b.x == 1 || b.x - a.x == 1))
}

/// `p` can be moved one cell in any direction without leaving `i32`.
pub open spec fn steppable(p: Position) -> bool {
    i32::MIN < p.x < i32::MAX && i32::MIN < p.y < i32::MAX
}

impl Direction {
    pub fn opposite(&self) -> (r: Direction)
        ensures
            r == opposite_spec(*self),
    {
        match self {
            Direction::Up => Direction::Down,
            Direction::Down => Direction::Up,
            Direction::Left => Direction::Right,
            Direction::Right => Direction::Left,
        }
    }

    /// The unit offset of one step in this direction.
    pub fn to_vec(&self) -> (r: Position)
        ensures
            r.x == dx_spec(*self),
            r.y == dy_spec(*self),
    {
        match self {
            Direction::Up => Position { x: 0, y: 1 },
            Direction::Down => Position { x: 0, y: -1 },
            Direction::Left => Position { x: -1, y: 0 },
            Direction::Right => Position { x: 1, y: 0 },
        }
    }

    /// The direction whose unit offset is `(dx, dy)`, if there is one.
    pub fn from_offset(dx: i64, dy: i64) -> (r: Option<Direction>)
        ensures
            match r {
                Some(d) => dx_spec(d) == dx && dy_spec(d) == dy,
                None => forall|d: Direction| !(dx_spec(d) == dx && dy_spec(d) == dy),
            },
    {
        if dx == 1 && dy == 0 {
            Some(Direction::Right)
        } else if dx == -1 && dy == 0 {
            Some(Direction::Left)
        } else if dx == 0 && dy == 1 {
            Some(Direction::Up)
        } else if dx == 0 && dy == -1 {
            Some(Direction::Down)
        } else {
            None
        }
    }
}

impl Default for Direction {
    fn default() -> (r: Direction)
        ensures
            r == Direction::Right,
    {
        Direction::Right
    }
}

/// `opposite` is an involution, and the opposite direction steps by the
/// negated offset.
pub proof fn lemma_opposite_involution(d: Direction)
    ensures
        opposite_spec(opposite_spec(d)) == d,
        opposite_spec(d) != d,
        dx_spec(opposite_spec(d)) == -dx_spec(d),
        dy_spec(opposite_spec(d)) == -dy_spec(d),
{
}

/// Directions and unit offsets correspond one to one: two directions with
/// the same offset are the same, and every offset is one cell long.
pub proof fn lemma_offset_bijective(d: Direction, e: Direction)
    ensures
        dx_spec(d) == dx_spec(e) && dy_spec(d) == dy_spec(e) ==> d == e,
        dx_spec(d) * dx_spec(d) + dy_spec(d) * dy_spec(d) == 1,
{
}

/// Each segment of `s` shares an edge with the next one.
pub open spec fn connected(s: Seq<Position>) -> bool {
    forall|i: int| 0 <= i < s.len() - 1 ==> adjacent(#[trigger] s[i], s[i + 1])
}

/// `p` is one of the cells of `s`.
pub open spec fn occupies(s: Seq<Position>, p: Position) -> bool {
    exists|i: int| 0 <= i < s.len() && #[trigger] s[i] == p
}

/// The head has run out of the field or into another segment of the body.
pub open spec fn collided(s: Seq<Position>) -> bool {
    !in_world_spec(s[0]) || exists|i: int| 1 <= i < s.len() && #[trigger] s[i] == s[0]
}

/// The body after one move in direction `d`: a new head one step ahead,
/// and the last segment gone.
pub open spec fn stepped(s: Seq<Position>, d: Direction) -> Seq<Position> {
    seq![step_spec(s[0], d)] + s.subrange(0, s.len() - 1)
}

/// The cell behind the tail `s[n - 1]`, in line with the tail and the
/// segment before it.
pub open spec fn extension(s: Seq<Position>) -> Position {
    let t = s[s.len() - 1];
    let p = s[s.len() - 2];
    offset(t, t.x - p.x, t.y - p.y)
}

/// The body after cutting `amount` segments off the tail, down to none.
pub open spec fn damaged(s: Seq<Position>, amount: int) -> Seq<Position> {
    if amount >= s.len() {
        Seq::empty()
    } else {
        s.subrange(0, s.len() - amount)
    }
}

/// The body at the start of a game: three segments in a row, heading
/// right, with the head at the origin.
pub open spec fn start_body() -> Seq<Position> {
    seq![Position { x: 0, y: 0 }, Position { x: -1i32, y: 0 }, Position { x: -2i32, y: 0 }]
}

/// The body of the snake, head first.
pub struct Snake {
    pub segments: VecDeque<Position>,
}

impl Default for Snake {
    /// Three segments in a row, heading right, with the head at the origin.
    fn default() -> (r: Snake)
        ensures
            r.segments@ == start_body(),
    {
        let mut segments: VecDeque<Position> = VecDeque::new();
        segments.push_back(Position { x: 0, y: 0 });
        segments.push_back(Position { x: -1, y: 0 });
        segments.push_back(Position { x: -2, y: 0 });
        proof {
            assert(segments@ =~= start_body());
        }
        Snake { segments }
    }
}

impl Snake {
    pub open spec fn body(&self) -> Seq<Position> {
        self.segments@
    }

    /// Every segment shares an edge with the next.
    pub open spec fn wf(&self) -> bool {
        connected(self.body())
    }

    pub fn len(&self) -> (r: usize)
        ensures
            r == self.body().len(),
    {
        self.segments.len()
    }

    /// The cells of the body, head first.
    pub fn cells(&self) -> (r: Vec<Position>)
        ensures
            r@ == self.body(),
    {
        let n = self.segments.len();
        let mut out: Vec<Position> = Vec::new();
        let mut i: usize = 0;
        while i < n
            invariant
                n == self.body().len(),
                i <= n,
                out@ == self.body().subrange(0, i as int),
            decreases n - i,
        {
            out.push(self.segments[i]);
            proof {
                assert(out@ =~= self.body().subrange(0, i as int + 1));
            }
            i = i + 1;
        }
        proof {
            assert(out@ =~= self.body());
        }
        out
    }

    pub fn head(&self) -> (r: Position)
        requires
            self.body().len() >= 1,
        ensures
            r == self.body()[0],
    {
        self.segments[0]
    }

    pub fn tail(&self) -> (r: Position)
        requires
            self.body().len() >= 1,
        ensures
            r == self.body()[self.body().len() - 1],
    {
        self.segments[self.segments.len() - 1]
    }

    /// The way the head points: from the second segment to the first.
    pub fn direction(&self) -> (r: Direction)
        requires
            self.body().len() >= 2,
            adjacent(self.body()[0], self.body()[1]),
        ensures
            step_spec(self.body()[1], r) == self.body()[0],
            dx_spec(r) == self.body()[0].x - self.body()[1].x,
            dy_spec(r) == self.body()[0].y - self.body()[1].y,
    {
        let head = self.segments[0];
        let second = self.segments[1];
        match Direction::from_offset(head.x as i64 - second.x as i64, head.y as i64 - second.y as i64) {
            Some(d) => d,
            None => {
                proof {
                    let d = if head.x - second.x == 1 {
                        Direction::Right
                    } else if second.x - head.x == 1 {
                        Direction::Left
                    } else if head.y - second.y == 1 {
                        Direction::Up
                    } else {
                        Direction::Down
                    };
                    assert(dx_spec(d) == head.x - second.x && dy_spec(d) == head.y - second.y);
                }
                Direction::Right
            },
        }
    }

    /// Cuts `amount` segments off the tail, stopping when none is left.
    pub fn damage(&mut self, amount: usize)
        ensures
            final(self).body() == damaged(old(self).body(), amount as int),
    {
        let len = self.segments.len();
        if amount >= len {
            self.segments.truncate(0);
            proof {
                assert(self.body() =~= Seq::<Position>::empty());
            }
        } else {
            self.segments.truncate(len - amount);
        }
    }

    /// Three segments or fewer: the snake has no body left to lose.
    pub fn is_dead(&self) -> (r: bool)
        ensures
            r == (self.body().len() <= 3),
    {
        self.segments.len() <= 3
    }

    /// Moves one cell in direction `d`: a new head in front, the tail gone.
    pub fn step(&mut self, d: Direction)
        requires
            old(self).body().len() >= 1,
            steppable(old(self).body()[0]),
        ensures
            final(self).body() == stepped(old(self).body(), d),
    {
        let head = self.segments[0];
        let v = d.to_vec();
        let new_head = Position { x: head.x + v.x, y: head.y + v.y };
        self.segments.push_front(new_head);
        self.segments.pop_back();
        proof {
            assert(self.body() =~= stepped(old(self).body(), d));
        }
    }

    /// Adds a segment behind the tail, continuing the line from the
    /// segment before the tail through the tail.
    pub fn grow(&mut self)
        requires
            old(self).body().len() >= 2,
            adjacent(
                old(self).body()[old(self).body().len() - 2],
                old(self).body()[old(self).body().len() - 1],
            ),
            steppable(old(self).body()[old(self).body().len() - 1]),
        ensures
            final(self).body() == old(self).body().push(extension(old(self).body())),
    {
        let n = self.segments.len();
        let tail = self.segments[n - 1];
        let before = self.segments[n - 2];
        let new_tail = Position { x: tail.x + (tail.x - before.x), y: tail.y + (tail.y - before.y) };
        self.segments.push_back(new_tail);
    }

    /// Whether `p` is one of the snake's cells.
    pub fn contains(&self, p: Position) -> (r: bool)
        ensures
            r == occupies(self.body(), p),
    {
        let n = self.segments.len();
        let mut i: usize = 0;
        while i < n
            invariant
                n == self.body().len(),
                i <= n,
                forall|j: int| 0 <= j < i ==> self.body()[j] != p,
            decreases n - i,
        {
            if self.segments[i] == p {
                return true;
            }
            i = i + 1;
        }
        false
    }

    /// The head has left the field or entered another segment.
    pub fn collision(&self) -> (r: bool)
        requires
            self.body().len() >= 1,
        ensures
            r == collided(self.body()),
    {
        let head = self.segments[0];
        if !head.in_world() {
            return true;
        }
        let n = self.segments.len();
        let mut i: usize = 1;
        while i < n
            invariant
                n == self.body().len(),
                1 <= i <= n,
                head == self.body()[0],
                forall|j: int| 1 <= j < i ==> self.body()[j] != head,
            decreases n - i,
        {
            if self.segments[i] == head {
                return true;
            }
            i = i + 1;
        }
        false
    }
}

/// A move keeps the body connected and of the same length.
pub proof fn lemma_stepped_connected(s: Seq<Position>, d: Direction)
    requires
        connected(s),
        s.len() >= 1,
        steppable(s[0]),
    ensures
        connected(stepped(s, d)),
        stepped(s, d).len() == s.len(),
        stepped(s, d)[0] == step_spec(s[0], d),
{
    let t = stepped(s, d);
    assert forall|i: int| 0 <= i < t.len() - 1 implies adjacent(#[trigger] t[i], t[i + 1]) by {
        if i > 0 {
            assert(t[i] == s[i - 1] && t[i + 1] == s[i]);
        }
    }
}

/// Growing keeps the body connected.
pub proof fn lemma_grown_connected(s: Seq<Position>)
    requires
        connected(s),
        s.len() >= 2,
        steppable(s[s.len() - 1]),
    ensures
        connected(s.push(extension(s))),
{
    let t = s.push(extension(s));
    assert(adjacent(s[s.len() - 2], s[s.len() - 1]));
    assert forall|i: int| 0 <= i < t.len() - 1 implies adjacent(#[trigger] t[i], t[i + 1]) by {
        if i < s.len() - 1 {
            assert(t[i] == s[i] && t[i + 1] == s[i + 1]);
        }
    }
}

/// Cutting the tail keeps the body connected.
pub proof fn lemma_damaged_connected(s: Seq<Position>, amount: int)
    requires
        connected(s),
        amount >= 0,
    ensures
        connected(damaged(s, amount)),
        damaged(s, amount).len() == if amount >= s.len() { 0 } else { s.len() - amount },
{
    let t = damaged(s, amount);
    assert forall|i: int| 0 <= i < t.len() - 1 implies adjacent(#[trigger] t[i], t[i + 1]) by {
        assert(t[i] == s[i] && t[i + 1] == s[i + 1]);
    }
}

} // verus!
