//! The simulation context and the game-over coordinator: one owned value
//! that every phase of a frame borrows in turn.
use vstd::arithmetic::div_mod::lemma_fundamental_div_mod_converse;
use vstd::prelude::*;

use crate::attack::{
    aimed, cell_of, dist2, EnemyAttack, CELL, ENEMY_ATTACK_SPEED, FAR, HIT_RADIUS, REACH,
};
use crate::enemy::{
    animated, attacked, below, decided, prepares, decision_bounds, pause_ok, random_position, random_target, spawned,
    walked, AttackOutcome, Enemy, EnemyState, EnemyType,
};
use crate::random::choose_cell;
use crate::score::{cap_spec, score_for_length, score_spec, MaxEnemies, MAX_ENEMIES};
use crate::snake::{
    collided, connected, damaged, extension, lemma_damaged_connected, lemma_grown_connected,
    lemma_stepped_connected, occupies, opposite_spec, start_body, step_spec, steppable, stepped,
    Direction, Snake,
};
use crate::timer::{tick_spec, Timer, TimerMode};
use crate::{in_world_spec, GameState, Position};

verus! {

/// The snake moves one cell every this many microseconds.
pub const SNAKE_TIMESTEP: u64 = 125_000;

/// A discrete event for the audio collaborator.
#[derive(Clone, Copy, PartialEq, Eq, Structural, Debug, Hash)]
pub enum Cue {
    Eat,
    Hit,
    DeathByBumping,
    WizardPrepare,
    WizardAttack,
    KnightAttack,
}

/// A projectile after `delta` microseconds of flight.
pub open spec fn flown(a: EnemyAttack, delta: u32) -> EnemyAttack {
    EnemyAttack {
        x: (a.x + a.dx * ENEMY_ATTACK_SPEED * delta) as i64,
        y: (a.y + a.dy * ENEMY_ATTACK_SPEED * delta) as i64,
        ..a
    }
}

/// The projectiles of `s` after `delta` microseconds of flight, in order,
/// without those that left the field.
pub open spec fn kept(s: Seq<EnemyAttack>, delta: u32) -> Seq<EnemyAttack>
    decreases s.len(),
{
    if s.len() == 0 {
        Seq::empty()
    } else {
        let rest = kept(s.drop_last(), delta);
        let a = flown(s.last(), delta);
        if a.in_world_spec() {
            rest.push(a)
        } else {
            rest
        }
    }
}

/// Projectile `a` is within reach of a segment of `body`.
pub open spec fn hits_body(a: EnemyAttack, body: Seq<Position>) -> bool {
    exists|j: int|
        0 <= j < body.len() && #[trigger] dist2(a.x as int, a.y as int, body[j])
            < HIT_RADIUS * HIT_RADIUS
}

/// A projectile that stays on the field: a unit direction, and a position
/// above the field.
pub open spec fn attack_ok(a: EnemyAttack) -> bool {
    &&& a.wf()
    &&& -REACH <= a.x <= REACH
    &&& -REACH <= a.y <= REACH
    &&& a.in_world_spec()
}

/// Whether the snake accepts a request to head `d`: any direction but the
/// reverse of its heading, which would lead the head back into its neck.
pub open spec fn steers(g: Game, d: Direction) -> bool {
    step_spec(g.snake.body()[0], d) != g.snake.body()[1]
}

/// How many cells are drawn, at most, in search of a free one for a new
/// enemy before the spawn is skipped for this frame.
pub const SPAWN_ATTEMPTS: usize = 64;

/// The enemies of `s` that do not stand on cell `p`, in order.
pub open spec fn uneaten(s: Seq<Enemy>, p: Position) -> Seq<Enemy>
    decreases s.len(),
{
    if s.len() == 0 {
        Seq::empty()
    } else if s.last().position == p {
        uneaten(s.drop_last(), p)
    } else {
        uneaten(s.drop_last(), p).push(s.last())
    }
}

/// How many enemies of `s` stand on cell `p`.
pub open spec fn eaten(s: Seq<Enemy>, p: Position) -> nat
    decreases s.len(),
{
    if s.len() == 0 {
        0
    } else if s.last().position == p {
        eaten(s.drop_last(), p) + 1
    } else {
        eaten(s.drop_last(), p)
    }
}

/// The body after growing `k` times. A tail at the very edge of the
/// integer range cannot be extended, and stays as it is.
pub open spec fn grown(s: Seq<Position>, k: nat) -> Seq<Position>
    decreases k,
{
    if k == 0 {
        s
    } else {
        let t = grown(s, (k - 1) as nat);
        if steppable(t.last()) {
            t.push(extension(t))
        } else {
            t
        }
    }
}

/// `after` is enemy `before` after its decision of a frame of `delta`
/// microseconds, for some drawn state and some pause in its range;
/// `prepared` tells whether that decision starts a wizard's preparation.
pub open spec fn decides_to(before: Enemy, after: Enemy, delta: u64, prepared: bool) -> bool {
    exists|rolled: EnemyState, decision: u64|
        {
            &&& rolled != EnemyState::Attacking
            &&& pause_ok(decision)
            &&& after == decided(before, delta, rolled, decision)
            &&& prepared == prepares(before, delta, rolled)
        }
}

/// One preparation cue for each flag that is set, in order.
pub open spec fn prepare_cues(flags: Seq<bool>) -> Seq<Cue>
    decreases flags.len(),
{
    if flags.len() == 0 {
        Seq::empty()
    } else if flags.last() {
        prepare_cues(flags.drop_last()).push(Cue::WizardPrepare)
    } else {
        prepare_cues(flags.drop_last())
    }
}

/// `after` is enemy `before` after walking for a frame of `delta`
/// microseconds beside a snake of body `body`, for some drawn target on the
/// field and some pause in its range.
pub open spec fn walks_to(before: Enemy, after: Enemy, delta: u64, body: Seq<Position>) -> bool {
    exists|fresh: Position, decision: u64|
        {
            &&& in_world_spec(fresh)
            &&& pause_ok(decision)
            &&& after == walked(before, delta, body, fresh, decision)
        }
}

/// `after` is enemy `before` after its attack, for some pause in its range.
pub open spec fn attacks_to(before: Enemy, after: Enemy) -> bool {
    exists|decision: u64|
        {
            &&& pause_ok(decision)
            &&& after == attacked(before, decision)
        }
}

/// Projectile `a` was fired by one of `enemies` at a segment of `body`.
pub open spec fn fired_by(a: EnemyAttack, enemies: Seq<Enemy>, body: Seq<Position>) -> bool {
    exists|i: int, j: int|
        0 <= i < enemies.len() && 0 <= j < body.len() && a == aimed(enemies[i].position, body[j])
}

/// What the attacks of a frame have done so far: the body, the projectiles
/// in flight, the game state and the cues.
pub type Volley = (Seq<Position>, Seq<EnemyAttack>, GameState, Seq<Cue>);

/// The attack of enemy `e`, a wizard aiming at cell `aim`, on top of `v`.
/// A wizard fires one projectile; a knight strikes the cell below it, and
/// while the game is on a segment there costs the snake its last segment,
/// ending the game when three or fewer are left.
pub open spec fn strike(v: Volley, e: Enemy, aim: Position) -> Volley {
    if e.state != EnemyState::Attacking {
        v
    } else {
        match e.kind {
            EnemyType::Wizard => (
                v.0,
                v.1.push(aimed(e.position, aim)),
                v.2,
                v.3.push(Cue::WizardAttack),
            ),
            EnemyType::Knight => if v.2 == GameState::Playing && occupies(v.0, below(e.position)) {
                let b = damaged(v.0, 1);
                (
                    b,
                    v.1,
                    if b.len() <= 3 {
                        GameState::GameOver
                    } else {
                        v.2
                    },
                    v.3.push(Cue::KnightAttack).push(Cue::Hit),
                )
            } else {
                (v.0, v.1, v.2, v.3.push(Cue::KnightAttack))
            },
        }
    }
}

/// The draws of an attack phase: enemy `i` of `before` attacked and idles
/// as `after[i]` with pause `decisions[i]`, and an attacking wizard aimed at
/// `aims[i]`, a segment of `body`.
pub open spec fn attack_draws(
    before: Seq<Enemy>,
    after: Seq<Enemy>,
    body: Seq<Position>,
    aims: Seq<Position>,
    decisions: Seq<u64>,
) -> bool {
    &&& aims.len() == before.len()
    &&& decisions.len() == before.len()
    &&& after.len() == before.len()
    &&& forall|i: int|
        0 <= i < before.len() ==> pause_ok(decisions[i]) && #[trigger] after[i] == attacked(
            before[i],
            decisions[i],
        )
    &&& forall|i: int|
        0 <= i < before.len() && before[i].state == EnemyState::Attacking && before[i].kind
            == EnemyType::Wizard ==> occupies(body, #[trigger] aims[i])
}

/// The attacks of `es`, in order, where `aims[i]` is the cell that enemy
/// `i` aims at if it is a wizard, on top of `v`.
pub open spec fn volley(es: Seq<Enemy>, aims: Seq<Position>, v: Volley) -> Volley
    decreases es.len(),
{
    if es.len() == 0 || aims.len() != es.len() {
        v
    } else {
        strike(volley(es.drop_last(), aims.drop_last(), v), es.last(), aims.last())
    }
}

/// One `Eat` cue for each of `k` eaten enemies.
pub open spec fn eat_cues(k: nat) -> Seq<Cue> {
    Seq::new(k, |i: int| Cue::Eat)
}

/// The request phase: the direction becomes `requested` if the snake
/// accepts it; nothing else changes.
pub open spec fn steered(a: Game, b: Game, requested: Option<Direction>) -> bool {
    &&& b.direction == match requested {
        Some(d) => if steers(a, d) {
            d
        } else {
            a.direction
        },
        None => a.direction,
    }
    &&& b.snake == a.snake && b.enemies == a.enemies && b.attacks == a.attacks
    &&& b.max_enemies == a.max_enemies && b.state == a.state && b.clock == a.clock
}

/// The clock of the snake's timestep runs for `delta` microseconds.
pub open spec fn ticked(a: Game, b: Game, delta: u32) -> bool {
    &&& b.clock == tick_spec(a.clock, delta as u64)
    &&& b.snake == a.snake && b.direction == a.direction && b.enemies == a.enemies
    &&& b.attacks == a.attacks && b.max_enemies == a.max_enemies && b.state == a.state
}

/// The snake's move, and the game lost if it collided.
pub open spec fn moved_to(a: Game, b: Game) -> bool {
    &&& b.snake.body() == stepped(a.snake.body(), a.direction)
    &&& b.state == if collided(b.snake.body()) {
        GameState::GameOver
    } else {
        GameState::Playing
    }
    &&& b.direction == a.direction && b.enemies == a.enemies && b.attacks == a.attacks
    &&& b.max_enemies == a.max_enemies && b.clock == a.clock
}

/// The head eats the `k` enemies on its cell, and the snake grows `k` times.
pub open spec fn ate(a: Game, b: Game, k: nat) -> bool {
    &&& k == eaten(a.enemies@, a.snake.body()[0])
    &&& b.enemies@ == uneaten(a.enemies@, a.snake.body()[0])
    &&& b.snake.body() == grown(a.snake.body(), k)
    &&& b.direction == a.direction && b.attacks == a.attacks && b.state == a.state
    &&& b.clock == a.clock && b.max_enemies == a.max_enemies
}

/// No enemy, or one new idle enemy under the cap on a free cell of the
/// field, with a first pause in the range of its type.
pub open spec fn spawned_in(a: Game, b: Game) -> bool {
    &&& b.enemies == a.enemies || (a.enemies@.len() < a.max_enemies.0 && exists|e: Enemy|
        {
            &&& b.enemies@ == a.enemies@.push(e)
            &&& e == spawned(e.kind, e.position, e.decision_timer.duration)
            &&& in_world_spec(e.position)
            &&& !occupies(a.snake.body(), e.position)
            &&& decision_bounds(e.kind).0 <= e.decision_timer.duration < decision_bounds(e.kind).1
        })
    &&& b.snake == a.snake && b.direction == a.direction && b.attacks == a.attacks
    &&& b.state == a.state && b.clock == a.clock && b.max_enemies == a.max_enemies
}

/// Every idle enemy decides; `pc` holds a cue for each wizard that starts
/// to prepare an attack.
pub open spec fn decided_all(a: Game, b: Game, delta: u32, pc: Seq<Cue>) -> bool {
    &&& b.enemies@.len() == a.enemies@.len()
    &&& exists|flags: Seq<bool>|
        {
            &&& flags.len() == a.enemies@.len()
            &&& forall|i: int|
                0 <= i < a.enemies@.len() ==> decides_to(
                    a.enemies@[i],
                    #[trigger] b.enemies@[i],
                    delta as u64,
                    flags[i],
                )
            &&& pc == prepare_cues(flags)
        }
    &&& b.snake == a.snake && b.direction == a.direction && b.attacks == a.attacks
    &&& b.state == a.state && b.clock == a.clock && b.max_enemies == a.max_enemies
}

/// Every walking enemy walks.
pub open spec fn walked_all(a: Game, b: Game, delta: u32) -> bool {
    &&& b.enemies@.len() == a.enemies@.len()
    &&& forall|i: int|
        0 <= i < a.enemies@.len() ==> walks_to(
            a.enemies@[i],
            #[trigger] b.enemies@[i],
            delta as u64,
            a.snake.body(),
        )
    &&& b.snake == a.snake && b.direction == a.direction && b.attacks == a.attacks
    &&& b.state == a.state && b.clock == a.clock && b.max_enemies == a.max_enemies
}

/// Every enemy preparing an attack goes on.
pub open spec fn animated_all(a: Game, b: Game, delta: u32) -> bool {
    &&& b.enemies@.len() == a.enemies@.len()
    &&& forall|i: int|
        0 <= i < a.enemies@.len() ==> #[trigger] b.enemies@[i] == animated(
            a.enemies@[i],
            delta as u64,
            a.snake.body(),
        )
    &&& b.snake == a.snake && b.direction == a.direction && b.attacks == a.attacks
    &&& b.state == a.state && b.clock == a.clock && b.max_enemies == a.max_enemies
}

/// Every attacking enemy attacks, in order; `vc` holds the cues.
pub open spec fn attacked_all(a: Game, b: Game, vc: Seq<Cue>) -> bool {
    &&& exists|aims: Seq<Position>, decisions: Seq<u64>|
        {
            &&& #[trigger] attack_draws(a.enemies@, b.enemies@, a.snake.body(), aims, decisions)
            &&& volley(a.enemies@, aims, (a.snake.body(), a.attacks@, a.state, Seq::empty())) == (
                b.snake.body(),
                b.attacks@,
                b.state,
                vc,
            )
        }
    &&& b.direction == a.direction && b.clock == a.clock && b.max_enemies == a.max_enemies
}

/// The projectiles fly, and those that left the field are gone.
pub open spec fn flew(a: Game, b: Game, delta: u32) -> bool {
    &&& b.attacks@ == kept(a.attacks@, delta)
    &&& b.snake == a.snake && b.direction == a.direction && b.enemies == a.enemies
    &&& b.state == a.state && b.clock == a.clock && b.max_enemies == a.max_enemies
}

/// The first projectile that reaches the snake, if any, is gone and the
/// snake loses its last segment, the game ending at three or fewer.
pub open spec fn resolved(a: Game, b: Game, hit: Option<usize>) -> bool {
    match hit {
        None => {
            &&& forall|k: int|
                0 <= k < a.attacks@.len() ==> !hits_body(#[trigger] a.attacks@[k], a.snake.body())
            &&& b == a
        },
        Some(i) => {
            &&& i < a.attacks@.len()
            &&& hits_body(a.attacks@[i as int], a.snake.body())
            &&& forall|k: int|
                0 <= k < i ==> !hits_body(#[trigger] a.attacks@[k], a.snake.body())
            &&& b.attacks@ == a.attacks@.remove(i as int)
            &&& b.snake.body() == damaged(a.snake.body(), 1)
            &&& b.state == if b.snake.body().len() <= 3 {
                GameState::GameOver
            } else {
                GameState::Playing
            }
            &&& b.direction == a.direction && b.enemies == a.enemies && b.clock == a.clock
            &&& b.max_enemies == a.max_enemies
        },
    }
}

/// The enemy cap follows the score.
pub open spec fn capped(a: Game, b: Game) -> bool {
    &&& b.max_enemies.0 == cap_spec(score_spec(a.snake.body().len()))
    &&& b.snake == a.snake && b.direction == a.direction && b.enemies == a.enemies
    &&& b.attacks == a.attacks && b.state == a.state && b.clock == a.clock
}

/// A frame from `g` to `f` with cues `r`, through the games `m` after each
/// phase: the request, the clock, the move (when the timestep elapsed),
/// eating (`k` enemies), spawning, decisions (cues `pc`), walks,
/// preparations, attacks (cues `vc`), flight, hit resolution (`hit`) and
/// the cap. A move that loses the game ends the frame with its cue; an
/// attack that loses it ends the frame after the attack phase.
pub open spec fn frame_path(
    g: Game,
    f: Game,
    delta: u32,
    requested: Option<Direction>,
    r: Seq<Cue>,
    m: Seq<Game>,
    k: nat,
    pc: Seq<Cue>,
    vc: Seq<Cue>,
    hit: Option<usize>,
) -> bool {
    &&& m.len() == 11
    &&& steered(g, m[0], requested)
    &&& ticked(m[0], m[1], delta)
    &&& if m[1].clock.just_finished {
        moved_to(m[1], m[2])
    } else {
        m[2] == m[1]
    }
    &&& if m[2].state != GameState::Playing {
        f == m[2] && r == seq![Cue::DeathByBumping]
    } else {
        &&& ate(m[2], m[3], k)
        &&& spawned_in(m[3], m[4])
        &&& decided_all(m[4], m[5], delta, pc)
        &&& walked_all(m[5], m[6], delta)
        &&& animated_all(m[6], m[7], delta)
        &&& attacked_all(m[7], m[8], vc)
        &&& if m[8].state != GameState::Playing {
            f == m[8] && r == eat_cues(k) + pc + vc
        } else {
            &&& flew(m[8], m[9], delta)
            &&& resolved(m[9], m[10], hit)
            &&& capped(m[10], f)
            &&& r == eat_cues(k) + pc + vc + if hit is Some {
                seq![Cue::Hit]
            } else {
                Seq::empty()
            }
        }
    }
}

/// The simulation context.
pub struct Game {
    pub snake: Snake,
    /// The direction of the next move.
    pub direction: Direction,
    pub enemies: Vec<Enemy>,
    /// The projectiles in flight.
    pub attacks: Vec<EnemyAttack>,
    pub max_enemies: MaxEnemies,
    pub state: GameState,
    /// Gates the snake's moves to a fixed timestep.
    pub clock: Timer,
}

/// A projectile whose cell is on the field is within `REACH` of the origin.
proof fn lemma_in_world_reach(a: EnemyAttack)
    requires
        a.in_world_spec(),
        -FAR <= a.x <= FAR,
        -FAR <= a.y <= FAR,
    ensures
        -REACH <= a.x <= REACH,
        -REACH <= a.y <= REACH,
{
    let c = CELL as int;
    let qx = a.x as int / c;
    let qy = a.y as int / c;
    assert(-100 <= qx <= 100 && -100 <= qy <= 100) by {
        assert(qx == cell_of(a.x as int));
        assert(qy == cell_of(a.y as int));
    }
    assert(-REACH <= a.x <= REACH) by (nonlinear_arith)
        requires
            qx == a.x as int / c,
            -100 <= qx <= 100,
            c == 1_000_000_000,
    ;
    assert(-REACH <= a.y <= REACH) by (nonlinear_arith)
        requires
            qy == a.y as int / c,
            -100 <= qy <= 100,
            c == 1_000_000_000,
    ;
}

/// Draws cells of the field until one is free of the snake, `SPAWN_ATTEMPTS`
/// times at most.
pub fn free_cell(snake: &Snake) -> (r: Option<Position>)
    ensures
        r matches Some(p) ==> in_world_spec(p) && !occupies(snake.body(), p),
{
    let mut attempt: usize = 0;
    while attempt < SPAWN_ATTEMPTS
        decreases SPAWN_ATTEMPTS - attempt,
    {
        let p = random_position();
        if !snake.contains(p) {
            return Some(p);
        }
        attempt = attempt + 1;
    }
    None
}

/// A projectile fired from a cell of the field starts on the field.
proof fn lemma_fired_ok(a: EnemyAttack, from: Position, to: Position)
    requires
        a == aimed(from, to),
        a.wf(),
        in_world_spec(from),
    ensures
        attack_ok(a),
{
    lemma_fundamental_div_mod_converse(a.x as int, CELL as int, from.x as int, 0);
    lemma_fundamental_div_mod_converse(a.y as int, CELL as int, from.y as int, 0);
}

/// Cutting one more segment off a cut body.
proof fn lemma_damaged_again(s: Seq<Position>, m: nat)
    requires
        m + 1 < s.len(),
    ensures
        damaged(damaged(s, m as int), 1) == damaged(s, m as int + 1),
{
    assert(damaged(damaged(s, m as int), 1) =~= damaged(s, m as int + 1));
}

impl Game {
    /// The invariant of the simulation. The body is connected and never
    /// shorter than two segments; while the game is on it has at least
    /// three, its head is on the field and the next move does not turn it
    /// back into its neck. Enemies and projectiles are well formed and on
    /// the field.
    pub open spec fn wf(&self) -> bool {
        &&& connected(self.snake.body())
        &&& self.snake.body().len() >= 2
        &&& self.state == GameState::Playing ==> {
            &&& self.snake.body().len() >= 3
            &&& in_world_spec(self.snake.body()[0])
            &&& step_spec(self.snake.body()[0], self.direction) != self.snake.body()[1]
        }
        &&& forall|i: int| 0 <= i < self.enemies@.len() ==> (#[trigger] self.enemies@[i]).wf()
        &&& forall|i: int| 0 <= i < self.attacks@.len() ==> attack_ok(#[trigger] self.attacks@[i])
        &&& self.clock.wf()
        &&& self.clock.mode == TimerMode::Repeating
        &&& self.clock.duration == SNAKE_TIMESTEP
    }

    /// A game at its menu, with the snake in its starting place.
    pub fn new() -> (r: Game)
        ensures
            r.wf(),
            r.state == GameState::Menu,
            r.snake.body() == start_body(),
            r.direction == Direction::Right,
            r.enemies@.len() == 0,
            r.attacks@.len() == 0,
            r.max_enemies.0 == MAX_ENEMIES,
    {
        Game {
            snake: Snake::default(),
            direction: Direction::default(),
            enemies: Vec::new(),
            attacks: Vec::new(),
            max_enemies: MaxEnemies::default(),
            state: GameState::Menu,
            clock: Timer::new(SNAKE_TIMESTEP, TimerMode::Repeating),
        }
    }

    /// Starts a game: the snake, its direction, the enemies and the
    /// projectiles are back to their initial values.
    pub fn start(&mut self)
        ensures
            final(self).wf(),
            final(self).state == GameState::Playing,
            final(self).snake.body() == start_body(),
            final(self).direction == Direction::Right,
            final(self).enemies@.len() == 0,
            final(self).attacks@.len() == 0,
            final(self).max_enemies.0 == MAX_ENEMIES,
    {
        *self = Game::new();
        self.state = GameState::Playing;
    }

    /// On the restart request: a lost game starts again; in any other state
    /// nothing happens. Returns whether the game restarted.
    pub fn restart(&mut self) -> (r: bool)
        requires
            old(self).wf(),
        ensures
            r == (old(self).state == GameState::GameOver),
            final(self).wf(),
            r ==> final(self).state == GameState::Playing && final(self).snake.body() == start_body()
                && final(self).direction == Direction::Right && final(self).enemies@.len() == 0
                && final(self).attacks@.len() == 0,
            !r ==> *final(self) == *old(self),
    {
        if self.state == GameState::GameOver {
            self.start();
            true
        } else {
            false
        }
    }

    /// The score: the body's length beyond the starting three.
    pub fn score(&self) -> (r: usize)
        ensures
            r == score_spec(self.snake.body().len()),
    {
        score_for_length(self.snake.len())
    }

    /// A request to head `requested`: taken unless it would turn the snake
    /// back on itself.
    pub fn input(&mut self, requested: Direction)
        requires
            old(self).wf(),
            old(self).state == GameState::Playing,
        ensures
            final(self).wf(),
            final(self).direction == if steers(*old(self), requested) {
                requested
            } else {
                old(self).direction
            },
            final(self).snake == old(self).snake,
            final(self).enemies == old(self).enemies,
            final(self).attacks == old(self).attacks,
            final(self).state == old(self).state,
            final(self).max_enemies == old(self).max_enemies,
            final(self).clock == old(self).clock,
    {
        let head = self.snake.head();
        let neck = self.snake.segments[1];
        let v = requested.to_vec();
        let ahead = Position { x: head.x + v.x, y: head.y + v.y };
        if ahead != neck {
            self.direction = requested;
        }
    }

    /// The fixed-step move: the snake advances one cell, and the game is lost
    /// if its head left the field or entered its body. Returns whether the
    /// game was lost.
    pub fn move_snake(&mut self) -> (r: bool)
        requires
            old(self).wf(),
            old(self).state == GameState::Playing,
        ensures
            final(self).wf(),
            final(self).snake.body() == stepped(old(self).snake.body(), old(self).direction),
            r == collided(final(self).snake.body()),
            final(self).state == if r {
                GameState::GameOver
            } else {
                GameState::Playing
            },
            final(self).direction == old(self).direction,
            final(self).enemies == old(self).enemies,
            final(self).attacks == old(self).attacks,
            final(self).max_enemies == old(self).max_enemies,
            final(self).clock == old(self).clock,
    {
        proof {
            lemma_stepped_connected(self.snake.body(), self.direction);
        }
        let d = self.direction;
        self.snake.step(d);
        let dead = self.snake.collision();
        if dead {
            self.state = GameState::GameOver;
        }
        dead
    }

    /// Recomputes the enemy cap from the score.
    pub fn update_difficulty(&mut self)
        requires
            old(self).wf(),
        ensures
            final(self).wf(),
            final(self).max_enemies.0 == cap_spec(score_spec(old(self).snake.body().len())),
            final(self).snake == old(self).snake,
            final(self).direction == old(self).direction,
            final(self).enemies == old(self).enemies,
            final(self).attacks == old(self).attacks,
            final(self).state == old(self).state,
            final(self).clock == old(self).clock,
    {
        let score = score_for_length(self.snake.len());
        self.max_enemies = MaxEnemies::for_score(score);
    }

    /// Every projectile flies for `delta` microseconds; those whose cell
    /// left the field are removed at once.
    pub fn move_attacks(&mut self, delta: u32)
        requires
            old(self).wf(),
        ensures
            final(self).wf(),
            final(self).attacks@ == kept(old(self).attacks@, delta),
            final(self).snake == old(self).snake,
            final(self).direction == old(self).direction,
            final(self).enemies == old(self).enemies,
            final(self).state == old(self).state,
            final(self).max_enemies == old(self).max_enemies,
            final(self).clock == old(self).clock,
    {
        let n = self.attacks.len();
        let mut out: Vec<EnemyAttack> = Vec::new();
        let mut i: usize = 0;
        while i < n
            invariant
                n == old(self).attacks@.len(),
                self.attacks == old(self).attacks,
                *self == *old(self),
                i <= n,
                out@ == kept(old(self).attacks@.subrange(0, i as int), delta),
                forall|k: int| 0 <= k < out@.len() ==> attack_ok(#[trigger] out@[k]),
                forall|k: int| 0 <= k < n ==> attack_ok(#[trigger] old(self).attacks@[k]),
            decreases n - i,
        {
            let mut a = self.attacks[i];
            a.advance(delta);
            proof {
                let s = old(self).attacks@.subrange(0, i as int + 1);
                assert(s.drop_last() =~= old(self).attacks@.subrange(0, i as int));
                assert(s.last() == old(self).attacks@[i as int]);
            }
            if a.in_world() {
                proof {
                    lemma_in_world_reach(a);
                }
                out.push(a);
            }
            i = i + 1;
        }
        proof {
            assert(old(self).attacks@.subrange(0, n as int) =~= old(self).attacks@);
        }
        self.attacks = out;
    }

    /// The first projectile, in order, that reaches a segment of the snake
    /// is removed and the snake loses its last segment; the game is lost
    /// if the snake is left with three segments or fewer. At most one hit
    /// is resolved per call. Returns the index of that projectile.
    pub fn resolve_hits(&mut self) -> (r: Option<usize>)
        requires
            old(self).wf(),
            old(self).state == GameState::Playing,
        ensures
            final(self).wf(),
            match r {
                None => {
                    &&& forall|k: int|
                        0 <= k < old(self).attacks@.len() ==> !hits_body(
                            #[trigger] old(self).attacks@[k],
                            old(self).snake.body(),
                        )
                    &&& *final(self) == *old(self)
                },
                Some(i) => {
                    &&& i < old(self).attacks@.len()
                    &&& hits_body(old(self).attacks@[i as int], old(self).snake.body())
                    &&& forall|k: int|
                        0 <= k < i ==> !hits_body(
                            #[trigger] old(self).attacks@[k],
                            old(self).snake.body(),
                        )
                    &&& final(self).attacks@ == old(self).attacks@.remove(i as int)
                    &&& final(self).snake.body() == damaged(old(self).snake.body(), 1)
                    &&& final(self).snake.body().len() == old(self).snake.body().len() - 1
                    &&& final(self).state == if final(self).snake.body().len() <= 3 {
                        GameState::GameOver
                    } else {
                        GameState::Playing
                    }
                    &&& final(self).direction == old(self).direction
                    &&& final(self).enemies == old(self).enemies
                    &&& final(self).clock == old(self).clock
                    &&& final(self).max_enemies == old(self).max_enemies
                },
            },
    {
        let n = self.attacks.len();
        let mut i: usize = 0;
        while i < n
            invariant
                n == self.attacks@.len(),
                *self == *old(self),
                old(self).wf(),
                old(self).state == GameState::Playing,
                i <= n,
                forall|k: int| 0 <= k < i ==> !hits_body(#[trigger] self.attacks@[k], self.snake.body()),
            decreases n - i,
        {
            if self.attack_hits_snake(i) {
                proof {
                    lemma_damaged_connected(self.snake.body(), 1);
                }
                self.attacks.remove(i);
                self.snake.damage(1);
                if self.snake.is_dead() {
                    self.state = GameState::GameOver;
                }
                proof {
                    assert forall|k: int| 0 <= k < self.attacks@.len() implies attack_ok(
                        #[trigger] self.attacks@[k],
                    ) by {
                        if k < i {
                            assert(self.attacks@[k] == old(self).attacks@[k]);
                        } else {
                            assert(self.attacks@[k] == old(self).attacks@[k + 1]);
                        }
                    }
                }
                return Some(i);
            }
            i = i + 1;
        }
        None
    }

    /// Whether projectile `i` reaches a segment of the snake.
    fn attack_hits_snake(&self, i: usize) -> (r: bool)
        requires
            i < self.attacks@.len(),
        ensures
            r == hits_body(self.attacks@[i as int], self.snake.body()),
    {
        let a = self.attacks[i];
        let m = self.snake.len();
        let mut j: usize = 0;
        while j < m
            invariant
                m == self.snake.body().len(),
                a == self.attacks@[i as int],
                j <= m,
                forall|k: int|
                    0 <= k < j ==> !(dist2(a.x as int, a.y as int, #[trigger] self.snake.body()[k])
                        < HIT_RADIUS * HIT_RADIUS),
            decreases m - j,
        {
            if a.hits(self.snake.segments[j]) {
                return true;
            }
            j = j + 1;
        }
        false
    }

    /// The head eats every enemy that stands on its cell: each one is
    /// removed and the snake grows by one segment. Returns how many were
    /// eaten.
    pub fn eat(&mut self) -> (r: usize)
        requires
            old(self).wf(),
            old(self).state == GameState::Playing,
        ensures
            final(self).wf(),
            r == eaten(old(self).enemies@, old(self).snake.body()[0]),
            final(self).enemies@ == uneaten(old(self).enemies@, old(self).snake.body()[0]),
            final(self).snake.body() == grown(old(self).snake.body(), r as nat),
            final(self).direction == old(self).direction,
            final(self).attacks == old(self).attacks,
            final(self).state == old(self).state,
            final(self).max_enemies == old(self).max_enemies,
            final(self).clock == old(self).clock,
    {
        let head = self.snake.head();
        let n = self.enemies.len();
        let mut kept: Vec<Enemy> = Vec::new();
        let mut count: usize = 0;
        let mut i: usize = 0;
        while i < n
            invariant
                n == old(self).enemies@.len(),
                self.enemies == old(self).enemies,
                self.direction == old(self).direction,
                self.attacks == old(self).attacks,
                self.state == old(self).state,
                self.clock == old(self).clock,
                self.max_enemies == old(self).max_enemies,
                old(self).wf(),
                old(self).state == GameState::Playing,
                head == old(self).snake.body()[0],
                i <= n,
                count <= i,
                count == eaten(old(self).enemies@.subrange(0, i as int), head),
                kept@ == uneaten(old(self).enemies@.subrange(0, i as int), head),
                forall|k: int| 0 <= k < kept@.len() ==> (#[trigger] kept@[k]).wf(),
                self.snake.body() == grown(old(self).snake.body(), count as nat),
                connected(self.snake.body()),
                self.snake.body().len() >= old(self).snake.body().len(),
                self.snake.body().subrange(0, old(self).snake.body().len() as int)
                    == old(self).snake.body(),
            decreases n - i,
        {
            let e = self.enemies[i];
            proof {
                let s = old(self).enemies@.subrange(0, i as int + 1);
                assert(s.drop_last() =~= old(self).enemies@.subrange(0, i as int));
                assert(s.last() == old(self).enemies@[i as int]);
            }
            if e.position == head {
                let tail = self.snake.tail();
                if i32::MIN < tail.x && tail.x < i32::MAX && i32::MIN < tail.y && tail.y < i32::MAX {
                    proof {
                        lemma_grown_connected(self.snake.body());
                        let b = self.snake.body();
                        assert(b.push(extension(b)).subrange(0, old(self).snake.body().len() as int)
                            =~= b.subrange(0, old(self).snake.body().len() as int));
                    }
                    self.snake.grow();
                }
                count = count + 1;
            } else {
                kept.push(e);
            }
            i = i + 1;
        }
        proof {
            assert(old(self).enemies@.subrange(0, n as int) =~= old(self).enemies@);
            let b = self.snake.body();
            let o = old(self).snake.body();
            assert(b[0] == o[0] && b[1] == o[1]) by {
                assert(b.subrange(0, o.len() as int)[0] == b[0]);
                assert(b.subrange(0, o.len() as int)[1] == b[1]);
            }
        }
        self.enemies = kept;
        count
    }

    /// Adds an idle enemy of type `kind` on cell `at`, first deciding after
    /// `decision` microseconds, if fewer enemies than the cap are alive.
    /// Returns whether it was added.
    pub fn spawn(&mut self, at: Position, kind: EnemyType, decision: u64) -> (r: bool)
        requires
            old(self).wf(),
            in_world_spec(at),
        ensures
            final(self).wf(),
            r == (old(self).enemies@.len() < old(self).max_enemies.0),
            final(self).enemies@ == if r {
                old(self).enemies@.push(spawned(kind, at, decision))
            } else {
                old(self).enemies@
            },
            final(self).snake == old(self).snake,
            final(self).direction == old(self).direction,
            final(self).attacks == old(self).attacks,
            final(self).state == old(self).state,
            final(self).max_enemies == old(self).max_enemies,
            final(self).clock == old(self).clock,
    {
        if self.enemies.len() >= self.max_enemies.0 {
            return false;
        }
        let e = Enemy::new(kind, at, decision);
        self.enemies.push(e);
        proof {
            assert forall|i: int| 0 <= i < self.enemies@.len() implies (#[trigger] self.enemies@[i]).wf() by {
                if i < old(self).enemies@.len() {
                    assert(self.enemies@[i] == old(self).enemies@[i]);
                }
            }
        }
        true
    }

    /// Spawns one enemy, of a type drawn at random, on a random cell of the
    /// field that the snake does not occupy, if fewer enemies than the cap
    /// are alive. When no free cell turns up in `SPAWN_ATTEMPTS` draws,
    /// nothing is spawned this time. Returns whether an enemy was added.
    pub fn spawn_enemy(&mut self) -> (r: bool)
        requires
            old(self).wf(),
        ensures
            final(self).wf(),
            r ==> old(self).enemies@.len() < old(self).max_enemies.0,
            r ==> exists|e: Enemy|
                {
                    &&& final(self).enemies@ == old(self).enemies@.push(e)
                    &&& e == spawned(e.kind, e.position, e.decision_timer.duration)
                    &&& in_world_spec(e.position)
                    &&& !occupies(old(self).snake.body(), e.position)
                    &&& decision_bounds(e.kind).0 <= e.decision_timer.duration
                        < decision_bounds(e.kind).1
                },
            !r ==> final(self).enemies == old(self).enemies,
            final(self).snake == old(self).snake,
            final(self).direction == old(self).direction,
            final(self).attacks == old(self).attacks,
            final(self).state == old(self).state,
            final(self).max_enemies == old(self).max_enemies,
            final(self).clock == old(self).clock,
    {
        if self.enemies.len() >= self.max_enemies.0 {
            return false;
        }
        let at = match free_cell(&self.snake) {
            Some(p) => p,
            None => {
                return false;
            },
        };
        let kind = if rand::random::<bool>() {
            EnemyType::Wizard
        } else {
            EnemyType::Knight
        };
        let decision = Enemy::draw_first_decision_time(kind);
        let added = self.spawn(at, kind, decision);
        proof {
            let e = spawned(kind, at, decision);
            assert(self.enemies@ == old(self).enemies@.push(e));
        }
        added
    }

    /// Each idle enemy's pause runs for `delta` microseconds; whenever one
    /// runs out, the enemy draws its next state and, if it stays idle, a new
    /// pause. Returns a cue for each wizard that starts to prepare an attack.
    pub fn enemies_decide(&mut self, delta: u64) -> (r: Vec<Cue>)
        requires
            old(self).wf(),
        ensures
            final(self).wf(),
            final(self).enemies@.len() == old(self).enemies@.len(),
            exists|flags: Seq<bool>|
                {
                    &&& flags.len() == old(self).enemies@.len()
                    &&& forall|i: int|
                        0 <= i < old(self).enemies@.len() ==> decides_to(
                            old(self).enemies@[i],
                            #[trigger] final(self).enemies@[i],
                            delta,
                            flags[i],
                        )
                    &&& r@ == prepare_cues(flags)
                },
            final(self).snake == old(self).snake,
            final(self).direction == old(self).direction,
            final(self).attacks == old(self).attacks,
            final(self).state == old(self).state,
            final(self).max_enemies == old(self).max_enemies,
            final(self).clock == old(self).clock,
    {
        let n = self.enemies.len();
        let mut cues: Vec<Cue> = Vec::new();
        let ghost mut flags: Seq<bool> = Seq::empty();
        let mut i: usize = 0;
        proof {
            assert(cues@ =~= prepare_cues(flags));
        }
        while i < n
            invariant
                n == old(self).enemies@.len(),
                self.enemies@.len() == n,
                self.snake == old(self).snake,
                self.direction == old(self).direction,
                self.attacks == old(self).attacks,
                self.state == old(self).state,
                self.clock == old(self).clock,
                self.max_enemies == old(self).max_enemies,
                old(self).wf(),
                i <= n,
                flags.len() == i,
                cues@ == prepare_cues(flags),
                forall|k: int| 0 <= k < n ==> (#[trigger] self.enemies@[k]).wf(),
                forall|k: int| i <= k < n ==> self.enemies@[k] == old(self).enemies@[k],
                forall|k: int|
                    0 <= k < i ==> decides_to(
                        old(self).enemies@[k],
                        #[trigger] self.enemies@[k],
                        delta,
                        flags[k],
                    ),
            decreases n - i,
        {
            let mut e = self.enemies[i];
            let rolled = EnemyState::randomize();
            let decision = Enemy::draw_decision_time();
            let prepare = e.decide(delta, rolled, decision);
            let ghost before = self.enemies@;
            let ghost old_flags = flags;
            self.enemies.set(i, e);
            proof {
                flags = flags.push(prepare);
                assert forall|k: int|
                    0 <= k < i + 1 implies decides_to(
                    old(self).enemies@[k],
                    #[trigger] self.enemies@[k],
                    delta,
                    flags[k],
                ) by {
                    if k < i {
                        assert(self.enemies@[k] == before[k]);
                        assert(flags[k] == old_flags[k]);
                    } else {
                        assert(self.enemies@[k] == decided(old(self).enemies@[k], delta, rolled, decision));
                        assert(pause_ok(decision));
                    }
                }
                assert forall|k: int| 0 <= k < n implies (#[trigger] self.enemies@[k]).wf() by {
                    if k != i {
                        assert(self.enemies@[k] == before[k]);
                    }
                }
                assert(flags.drop_last() =~= old_flags);
            }
            if prepare {
                cues.push(Cue::WizardPrepare);
            }
            i = i + 1;
        }
        cues
    }

    /// Each walking enemy acts for `delta` microseconds: one without a
    /// target draws one, one with a target steps toward it at its pace and
    /// stops, with a freshly drawn pause, on arrival or when the snake is in
    /// the way.
    pub fn enemies_walk(&mut self, delta: u64)
        requires
            old(self).wf(),
        ensures
            final(self).wf(),
            final(self).enemies@.len() == old(self).enemies@.len(),
            forall|i: int|
                0 <= i < old(self).enemies@.len() ==> walks_to(
                    old(self).enemies@[i],
                    #[trigger] final(self).enemies@[i],
                    delta,
                    old(self).snake.body(),
                ),
            final(self).snake == old(self).snake,
            final(self).direction == old(self).direction,
            final(self).attacks == old(self).attacks,
            final(self).state == old(self).state,
            final(self).max_enemies == old(self).max_enemies,
            final(self).clock == old(self).clock,
    {
        let n = self.enemies.len();
        let mut i: usize = 0;
        while i < n
            invariant
                n == old(self).enemies@.len(),
                self.enemies@.len() == n,
                self.snake == old(self).snake,
                self.direction == old(self).direction,
                self.attacks == old(self).attacks,
                self.state == old(self).state,
                self.clock == old(self).clock,
                self.max_enemies == old(self).max_enemies,
                old(self).wf(),
                i <= n,
                forall|k: int| 0 <= k < n ==> (#[trigger] self.enemies@[k]).wf(),
                forall|k: int| i <= k < n ==> self.enemies@[k] == old(self).enemies@[k],
                forall|k: int|
                    0 <= k < i ==> walks_to(
                        old(self).enemies@[k],
                        #[trigger] self.enemies@[k],
                        delta,
                        old(self).snake.body(),
                    ),
            decreases n - i,
        {
            let mut e = self.enemies[i];
            let fresh = random_target();
            let decision = Enemy::draw_decision_time();
            e.walk(delta, &self.snake, fresh, decision);
            let ghost before = self.enemies@;
            self.enemies.set(i, e);
            proof {
                assert forall|k: int|
                    0 <= k < i + 1 implies walks_to(
                    old(self).enemies@[k],
                    #[trigger] self.enemies@[k],
                    delta,
                    old(self).snake.body(),
                ) by {
                    if k < i {
                        assert(self.enemies@[k] == before[k]);
                    } else {
                        assert(self.enemies@[k] == walked(
                            old(self).enemies@[k],
                            delta,
                            old(self).snake.body(),
                            fresh,
                            decision,
                        ));
                    }
                }
                assert forall|k: int| 0 <= k < n implies (#[trigger] self.enemies@[k]).wf() by {
                    if k != i {
                        assert(self.enemies@[k] == before[k]);
                    }
                }
            }
            i = i + 1;
        }
    }

    /// Each enemy that prepares an attack goes on for `delta` microseconds.
    pub fn enemies_animate(&mut self, delta: u64)
        requires
            old(self).wf(),
        ensures
            final(self).wf(),
            final(self).enemies@.len() == old(self).enemies@.len(),
            forall|i: int|
                0 <= i < old(self).enemies@.len() ==> #[trigger] final(self).enemies@[i] == animated(
                    old(self).enemies@[i],
                    delta,
                    old(self).snake.body(),
                ),
            final(self).snake == old(self).snake,
            final(self).direction == old(self).direction,
            final(self).attacks == old(self).attacks,
            final(self).state == old(self).state,
            final(self).max_enemies == old(self).max_enemies,
            final(self).clock == old(self).clock,
    {
        let n = self.enemies.len();
        let mut i: usize = 0;
        while i < n
            invariant
                n == old(self).enemies@.len(),
                self.enemies@.len() == n,
                self.snake == old(self).snake,
                self.direction == old(self).direction,
                self.attacks == old(self).attacks,
                self.state == old(self).state,
                self.clock == old(self).clock,
                self.max_enemies == old(self).max_enemies,
                old(self).wf(),
                i <= n,
                forall|k: int| 0 <= k < n ==> (#[trigger] self.enemies@[k]).wf(),
                forall|k: int| i <= k < n ==> self.enemies@[k] == old(self).enemies@[k],
                forall|k: int|
                    0 <= k < i ==> #[trigger] self.enemies@[k] == animated(
                        old(self).enemies@[k],
                        delta,
                        old(self).snake.body(),
                    ),
            decreases n - i,
        {
            let mut e = self.enemies[i];
            e.animate(delta, &self.snake);
            let ghost before = self.enemies@;
            self.enemies.set(i, e);
            proof {
                assert forall|k: int| 0 <= k < n implies (#[trigger] self.enemies@[k]).wf() by {
                    if k != i {
                        assert(self.enemies@[k] == before[k]);
                    }
                }
            }
            i = i + 1;
        }
    }

    /// Each attacking enemy attacks, in order, then idles with a freshly
    /// drawn pause. A wizard fires one projectile at a segment of the snake
    /// drawn at random. A knight strikes the cell below it: while the game
    /// is on, a segment there costs the snake its last segment, and the game
    /// is lost when three or fewer are left. Returns the cues of the attacks
    /// and hits, in order.
    pub fn enemies_attack(&mut self) -> (r: Vec<Cue>)
        requires
            old(self).wf(),
            old(self).state == GameState::Playing,
        ensures
            final(self).wf(),
            final(self).enemies@.len() == old(self).enemies@.len(),
            exists|aims: Seq<Position>, decisions: Seq<u64>|
                {
                    &&& #[trigger] attack_draws(
                        old(self).enemies@,
                        final(self).enemies@,
                        old(self).snake.body(),
                        aims,
                        decisions,
                    )
                    &&& volley(
                        old(self).enemies@,
                        aims,
                        (old(self).snake.body(), old(self).attacks@, old(self).state, Seq::empty()),
                    ) == (final(self).snake.body(), final(self).attacks@, final(self).state, r@)
                },
            final(self).direction == old(self).direction,
            final(self).clock == old(self).clock,
            final(self).max_enemies == old(self).max_enemies,
    {
        let n = self.enemies.len();
        let mut cues: Vec<Cue> = Vec::new();
        let ghost mut aims: Seq<Position> = Seq::empty();
        let ghost mut decisions: Seq<u64> = Seq::empty();
        let ghost start: Volley = (
            old(self).snake.body(),
            old(self).attacks@,
            old(self).state,
            Seq::empty(),
        );
        let mut i: usize = 0;
        proof {
            assert(old(self).enemies@.subrange(0, 0) =~= Seq::<Enemy>::empty());
            assert(cues@ =~= Seq::<Cue>::empty());
            assert(self.snake.body().subrange(0, self.snake.body().len() as int) =~= self.snake.body());
        }
        while i < n
            invariant
                n == old(self).enemies@.len(),
                self.enemies@.len() == n,
                self.wf(),
                self.direction == old(self).direction,
                self.clock == old(self).clock,
                self.max_enemies == old(self).max_enemies,
                self.state == GameState::Playing || self.state == GameState::GameOver,
                old(self).wf(),
                old(self).state == GameState::Playing,
                start == (old(self).snake.body(), old(self).attacks@, old(self).state, Seq::<Cue>::empty()),
                i <= n,
                aims.len() == i,
                decisions.len() == i,
                forall|k: int| i <= k < n ==> self.enemies@[k] == old(self).enemies@[k],
                forall|k: int|
                    0 <= k < i ==> pause_ok(decisions[k]) && #[trigger] self.enemies@[k] == attacked(
                        old(self).enemies@[k],
                        decisions[k],
                    ),
                forall|k: int|
                    0 <= k < i && old(self).enemies@[k].state == EnemyState::Attacking
                        && old(self).enemies@[k].kind == EnemyType::Wizard ==> occupies(
                        old(self).snake.body(),
                        #[trigger] aims[k],
                    ),
                self.snake.body().len() <= old(self).snake.body().len(),
                self.snake.body() == old(self).snake.body().subrange(0, self.snake.body().len() as int),
                volley(old(self).enemies@.subrange(0, i as int), aims, start) == (
                    self.snake.body(),
                    self.attacks@,
                    self.state,
                    cues@,
                ),
            decreases n - i,
        {
            let mut e = self.enemies[i];
            let ghost before_enemies = self.enemies@;
            let ghost v: Volley = (self.snake.body(), self.attacks@, self.state, cues@);
            let ghost mut aim_used: Position = e.position;
            let ghost mut pause_used: u64 = crate::enemy::ENEMY_DECISION_TIME_MIN;
            if e.state.is_attacking() {
                let aim = match e.kind {
                    EnemyType::Wizard => {
                        let cells = self.snake.cells();
                        match choose_cell(cells.as_slice()) {
                            Some(p) => p,
                            None => e.position,
                        }
                    },
                    EnemyType::Knight => e.position,
                };
                proof {
                    aim_used = aim;
                    if e.kind == EnemyType::Wizard {
                        assert(self.snake.body().len() >= 2);
                        let j = choose|j: int|
                            0 <= j < self.snake.body().len() && self.snake.body()[j] == aim;
                        assert(old(self).snake.body()[j] == aim);
                    }
                }
                let decision = Enemy::draw_decision_time();
                proof {
                    pause_used = decision;
                }
                let outcome = e.attack(&self.snake, aim, decision);
                self.enemies.set(i, e);
                proof {
                    assert forall|k: int| 0 <= k < n implies (#[trigger] self.enemies@[k]).wf() by {
                        if k != i {
                            assert(self.enemies@[k] == before_enemies[k]);
                        }
                    }
                }
                match outcome {
                    AttackOutcome::Fired(a) => {
                        let ghost olda = self.attacks@;
                        proof {
                            lemma_fired_ok(a, old(self).enemies@[i as int].position, aim);
                        }
                        self.attacks.push(a);
                        proof {
                            assert forall|k: int| 0 <= k < self.attacks@.len() implies attack_ok(
                                #[trigger] self.attacks@[k],
                            ) by {
                                if k < olda.len() {
                                    assert(self.attacks@[k] == olda[k]);
                                }
                            }
                        }
                        cues.push(Cue::WizardAttack);
                    },
                    AttackOutcome::Struck(hit) => {
                        cues.push(Cue::KnightAttack);
                        if hit && self.state == GameState::Playing {
                            proof {
                                lemma_damaged_connected(self.snake.body(), 1);
                            }
                            self.snake.damage(1);
                            cues.push(Cue::Hit);
                            if self.snake.is_dead() {
                                self.state = GameState::GameOver;
                            }
                            proof {
                                assert(self.snake.body() =~= old(self).snake.body().subrange(
                                    0,
                                    self.snake.body().len() as int,
                                ));
                            }
                        }
                    },
                    AttackOutcome::Nothing => {},
                }
            } else {
                proof {
                    assert(attacked(e, pause_used) == e);
                }
            }
            proof {
                let es = old(self).enemies@.subrange(0, i as int + 1);
                let old_aims = aims;
                aims = aims.push(aim_used);
                decisions = decisions.push(pause_used);
                assert(es.drop_last() =~= old(self).enemies@.subrange(0, i as int));
                assert(aims.drop_last() =~= old_aims);
                assert(es.last() == old(self).enemies@[i as int]);
                assert(strike(v, old(self).enemies@[i as int], aim_used) == (
                    self.snake.body(),
                    self.attacks@,
                    self.state,
                    cues@,
                )) by {
                    assert(v.3.push(Cue::KnightAttack).push(Cue::Hit) =~= cues@
                        || v.3.push(Cue::KnightAttack) =~= cues@ || v.3.push(Cue::WizardAttack)
                        =~= cues@ || v.3 =~= cues@);
                }
                assert forall|k: int|
                    0 <= k < i + 1 implies pause_ok(decisions[k]) && #[trigger] self.enemies@[k]
                    == attacked(old(self).enemies@[k], decisions[k]) by {
                    if k < i {
                        assert(self.enemies@[k] == before_enemies[k]);
                    }
                }
            }
            i = i + 1;
        }
        proof {
            assert(old(self).enemies@.subrange(0, n as int) =~= old(self).enemies@);
            assert(attack_draws(
                old(self).enemies@,
                self.enemies@,
                old(self).snake.body(),
                aims,
                decisions,
            ));
        }
        cues
    }

    /// One frame of `delta` microseconds, in phase order: the direction
    /// request; the snake's move, when its fixed timestep has elapsed;
    /// eating; spawning; the enemies' decisions, walks, preparations and
    /// attacks; the flight of projectiles; hit resolution; and the enemy
    /// cap. A frame that starts with the game off changes nothing. Returns
    /// the frame's cues, in order.
    pub fn frame(&mut self, delta: u32, requested: Option<Direction>) -> (r: Vec<Cue>)
        requires
            old(self).wf(),
        ensures
            final(self).wf(),
            old(self).state != GameState::Playing ==> *final(self) == *old(self) && r@.len() == 0,
            old(self).state == GameState::Playing ==> exists|
                m: Seq<Game>,
                k: nat,
                pc: Seq<Cue>,
                vc: Seq<Cue>,
                hit: Option<usize>,
            |
                #[trigger] frame_path(*old(self), *final(self), delta, requested, r@, m, k, pc, vc, hit),
            final(self).snake.body().len() >= 1,
            final(self).state == GameState::Playing ==> final(self).snake.body().len() >= 3,
    {
        let mut cues: Vec<Cue> = Vec::new();
        if self.state != GameState::Playing {
            return cues;
        }
        if let Some(d) = requested {
            self.input(d);
        }
        let ghost g0 = *self;
        let due = self.clock.tick(delta as u64);
        let ghost g1 = *self;
        if due {
            if self.move_snake() {
                cues.push(Cue::DeathByBumping);
                proof {
                    let m = seq![g0, g1, *self, *self, *self, *self, *self, *self, *self, *self, *self];
                    assert(cues@ =~= seq![Cue::DeathByBumping]);
                    assert(frame_path(*old(self), *self, delta, requested, cues@, m, 0, seq![], seq![], None));
                }
                return cues;
            }
        }
        let ghost g2 = *self;
        let eaten_now = self.eat();
        let ghost g3 = *self;
        let mut k: usize = 0;
        while k < eaten_now
            invariant
                k <= eaten_now,
                cues@ =~= eat_cues(k as nat),
            decreases eaten_now - k,
        {
            cues.push(Cue::Eat);
            k = k + 1;
            proof {
                assert(cues@ =~= eat_cues(k as nat));
            }
        }
        self.spawn_enemy();
        let ghost g4 = *self;
        let mut prepared = self.enemies_decide(delta as u64);
        let ghost pc = prepared@;
        let ghost g5 = *self;
        cues.append(&mut prepared);
        self.enemies_walk(delta as u64);
        let ghost g6 = *self;
        self.enemies_animate(delta as u64);
        let ghost g7 = *self;
        let mut struck = self.enemies_attack();
        let ghost vc = struck@;
        let ghost g8 = *self;
        cues.append(&mut struck);
        if self.state != GameState::Playing {
            proof {
                let m = seq![g0, g1, g2, g3, g4, g5, g6, g7, g8, g8, g8];
                assert(frame_path(
                    *old(self),
                    *self,
                    delta,
                    requested,
                    cues@,
                    m,
                    eaten_now as nat,
                    pc,
                    vc,
                    None,
                ));
            }
            return cues;
        }
        self.move_attacks(delta);
        let ghost g9 = *self;
        let hit = self.resolve_hits();
        let ghost g10 = *self;
        if hit.is_some() {
            cues.push(Cue::Hit);
        }
        self.update_difficulty();
        proof {
            let m = seq![g0, g1, g2, g3, g4, g5, g6, g7, g8, g9, g10];
            if hit is Some {
                assert(cues@ =~= eat_cues(eaten_now as nat) + pc + vc + seq![Cue::Hit]);
            } else {
                assert(cues@ =~= eat_cues(eaten_now as nat) + pc + vc + Seq::<Cue>::empty());
            }
            assert(frame_path(
                *old(self),
                *self,
                delta,
                requested,
                cues@,
                m,
                eaten_now as nat,
                pc,
                vc,
                hit,
            ));
        }
        cues
    }
}

/// Whatever the frames did, the snake keeps a body: never fewer than two
/// segments, and never fewer than three while the game is on. A hit that
/// leaves three or fewer ends the game, so the body cannot run out.
pub proof fn lemma_body_never_empty(g: Game)
    requires
        g.wf(),
    ensures
        g.snake.body().len() >= 1,
        g.state == GameState::Playing ==> g.snake.body().len() >= 3,
{
}

/// A request for the reverse of the snake's heading (the direction from its
/// second segment to its head) is never taken, for each of the four
/// directions: `input` then leaves the direction as it was.
pub proof fn lemma_reverse_refused(g: Game, heading: Direction, d: Direction)
    requires
        g.wf(),
        g.state == GameState::Playing,
        step_spec(g.snake.body()[1], heading) == g.snake.body()[0],
        d == opposite_spec(heading),
    ensures
        !steers(g, d),
{
    let h = g.snake.body()[0];
    let n = g.snake.body()[1];
    assert(connected(g.snake.body()));
    assert(crate::snake::adjacent(g.snake.body()[0], g.snake.body()[1]));
    assert(step_spec(h, d) == n);
}

/// After a flight, no projectile whose cell left the field remains: every
/// projectile kept is on the field and is the flight of one of the old
/// ones, and every flight that stays on the field is kept.
pub proof fn lemma_kept_on_field(s: Seq<EnemyAttack>, delta: u32)
    ensures
        forall|k: int| 0 <= k < kept(s, delta).len() ==> (#[trigger] kept(s, delta)[k]).in_world_spec(),
        forall|k: int|
            0 <= k < kept(s, delta).len() ==> exists|i: int|
                0 <= i < s.len() && #[trigger] kept(s, delta)[k] == flown(s[i], delta),
        forall|i: int|
            0 <= i < s.len() && (#[trigger] flown(s[i], delta)).in_world_spec() ==> kept(
                s,
                delta,
            ).contains(flown(s[i], delta)),
    decreases s.len(),
{
    if s.len() > 0 {
        let p = s.drop_last();
        lemma_kept_on_field(p, delta);
        let rest = kept(p, delta);
        let t = kept(s, delta);
        let a = flown(s.last(), delta);
        assert forall|k: int| 0 <= k < t.len() implies exists|i: int|
            0 <= i < s.len() && #[trigger] t[k] == flown(s[i], delta) by {
            if k < rest.len() {
                assert(t[k] == rest[k]);
                let i = choose|i: int| 0 <= i < p.len() && rest[k] == flown(p[i], delta);
                assert(s[i] == p[i]);
            } else {
                assert(t[k] == flown(s[s.len() - 1], delta));
            }
        }
        assert forall|k: int| 0 <= k < t.len() implies (#[trigger] t[k]).in_world_spec() by {
            if k < rest.len() {
                assert(t[k] == rest[k]);
            }
        }
        assert forall|i: int|
            0 <= i < s.len() && (#[trigger] flown(s[i], delta)).in_world_spec() implies t.contains(
                flown(s[i], delta),
            ) by {
            if i < p.len() {
                assert(s[i] == p[i]);
                let k = choose|k: int| 0 <= k < rest.len() && rest[k] == flown(p[i], delta);
                assert(t[k] == rest[k]);
            } else {
                assert(t[t.len() - 1] == a);
            }
        }
    }
}

} // verus!
