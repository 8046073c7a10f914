use vstd::prelude::*;

pub use crate::attack::EnemyAttack;
pub use crate::score::MaxEnemies;

use crate::attack::aimed;
use crate::random::{choose_weighted_state, random_range};
use crate::snake::{occupies, offset, Snake};
use crate::timer::{tick_spec, Timer, TimerMode};
use crate::{in_world_spec, Position, LEVEL_SIZE_X, LEVEL_SIZE_Y};

verus! {

/// Shortest pause between two decisions of an enemy, in microseconds.
pub const ENEMY_DECISION_TIME_MIN: u64 = 500_000;

/// Longest pause (exclusive) between two decisions of an enemy, in microseconds.
pub const ENEMY_DECISION_TIME_MAX: u64 = 1_500_000;

/// Shortest first pause of a new knight: a new knight makes its first
/// decision a quarter sooner.
pub const KNIGHT_DECISION_TIME_MIN: u64 = 400_000;

/// Longest first pause (exclusive) of a new knight.
pub const KNIGHT_DECISION_TIME_MAX: u64 = 1_200_000;

/// How long a wizard prepares an attack, in microseconds.
pub const WIZARD_ATTACK_ANIMATION: u64 = 500_000;

/// How long a knight prepares an attack, in microseconds.
pub const KNIGHT_ATTACK_ANIMATION: u64 = 2_500_000;

/// Pause between two steps of a walking enemy, in microseconds.
pub const ENEMY_MOVE_STEP: u64 = 250_000;

/// Relative likelihood that an idle enemy stays idle.
pub const IDLE_WEIGHT: u32 = 5;

/// Relative likelihood that an idle enemy starts to prepare an attack.
pub const ATTACK_ANIMATION_WEIGHT: u32 = 2;

/// Relative likelihood that an idle enemy starts to walk.
pub const MOVING_WEIGHT: u32 = 3;

/// A knight fights next to the snake; a wizard fires projectiles.
#[derive(Clone, Copy, PartialEq, Eq, Structural, Debug, Hash)]
pub enum EnemyType {
    Knight,
    Wizard,
}

/// What an enemy is doing.
#[derive(Clone, Copy, PartialEq, Eq, Structural, Debug, Hash)]
pub enum EnemyState {
    Idle,
    AttackAnimation,
    Attacking,
    Moving,
}

impl EnemyState {
    /// The weight of a state when an idle enemy draws its next one.
    pub open spec fn weight_spec(&self) -> nat {
        match *self {
            EnemyState::Idle => IDLE_WEIGHT as nat,
            EnemyState::AttackAnimation => ATTACK_ANIMATION_WEIGHT as nat,
            EnemyState::Moving => MOVING_WEIGHT as nat,
            EnemyState::Attacking => 0,
        }
    }

    pub fn weight(&self) -> (r: u32)
        ensures
            r == self.weight_spec(),
    {
        match self {
            EnemyState::Idle => IDLE_WEIGHT,
            EnemyState::AttackAnimation => ATTACK_ANIMATION_WEIGHT,
            EnemyState::Moving => MOVING_WEIGHT,
            EnemyState::Attacking => 0,
        }
    }

    pub fn is_attack_animation(&self) -> (r: bool)
        ensures
            r == (*self == EnemyState::AttackAnimation),
    {
        *self == EnemyState::AttackAnimation
    }

    pub fn is_attacking(&self) -> (r: bool)
        ensures
            r == (*self == EnemyState::Attacking),
    {
        *self == EnemyState::Attacking
    }

    pub fn is_moving(&self) -> (r: bool)
        ensures
            r == (*self == EnemyState::Moving),
    {
        *self == EnemyState::Moving
    }

    pub fn is_idle(&self) -> (r: bool)
        ensures
            r == (*self == EnemyState::Idle),
    {
        *self == EnemyState::Idle
    }

    pub fn to_idle(&mut self)
        ensures
            *final(self) == EnemyState::Idle,
    {
        *self = EnemyState::Idle;
    }

    pub fn to_attacking(&mut self)
        ensures
            *final(self) == EnemyState::Attacking,
    {
        *self = EnemyState::Attacking;
    }

    /// Draws the next state of an idle enemy: idle, preparing an attack or
    /// walking, with weights 5, 2 and 3. Attacking is never drawn: it has
    /// weight zero and only follows the preparation.
    pub fn randomize() -> (r: EnemyState)
        ensures
            r == EnemyState::Idle || r == EnemyState::AttackAnimation || r == EnemyState::Moving,
    {
        let states = vec![EnemyState::Idle, EnemyState::AttackAnimation, EnemyState::Moving];
        proof {
            assert(states@[0].weight_spec() > 0);
        }
        let r = choose_weighted_state(states.as_slice());
        proof {
            let i = choose|i: int| 0 <= i < states@.len() && states@[i] == r;
            assert(i == 0 || i == 1 || i == 2);
        }
        r
    }
}

/// A pause drawn when an enemy becomes idle again, whatever its type.
pub open spec fn pause_ok(d: u64) -> bool {
    ENEMY_DECISION_TIME_MIN <= d < ENEMY_DECISION_TIME_MAX
}

/// The range `[min, max)` of the first decision pause of a new enemy of
/// each type.
pub open spec fn decision_bounds(kind: EnemyType) -> (u64, u64) {
    match kind {
        EnemyType::Wizard => (ENEMY_DECISION_TIME_MIN, ENEMY_DECISION_TIME_MAX),
        EnemyType::Knight => (KNIGHT_DECISION_TIME_MIN, KNIGHT_DECISION_TIME_MAX),
    }
}

/// How long an enemy type prepares an attack.
pub open spec fn attack_animation_time(kind: EnemyType) -> u64 {
    match kind {
        EnemyType::Wizard => WIZARD_ATTACK_ANIMATION,
        EnemyType::Knight => KNIGHT_ATTACK_ANIMATION,
    }
}

/// A fresh one-shot countdown of `duration` microseconds.
pub open spec fn once(duration: u64) -> Timer {
    Timer { duration, remaining: duration, mode: TimerMode::Once, just_finished: false }
}

/// The cell right below `p`.
pub open spec fn below(p: Position) -> Position {
    offset(p, 0, -1)
}

/// One step from `p` toward `t`: at most one cell on each axis, diagonals
/// allowed.
pub open spec fn toward(p: Position, t: Position) -> Position {
    let sx: int = if p.x < t.x {
        1
    } else if p.x > t.x {
        -1
    } else {
        0
    };
    let sy: int = if p.y < t.y {
        1
    } else if p.y > t.y {
        -1
    } else {
        0
    };
    offset(p, sx, sy)
}

/// An enemy of the field.
#[derive(Clone, Copy, PartialEq, Eq, Structural, Debug)]
pub struct Enemy {
    pub kind: EnemyType,
    pub state: EnemyState,
    pub position: Position,
    /// Where a walking enemy heads.
    pub target: Option<Position>,
    /// Counts down the pause before an idle enemy decides again.
    pub decision_timer: Timer,
    /// Counts down the preparation of an attack.
    pub atk_anim_timer: Timer,
    /// Paces the steps of a walking enemy.
    pub move_step_timer: Timer,
}

/// A new idle enemy of type `kind` at `position`, whose first decision
/// comes after `decision` microseconds.
pub open spec fn spawned(kind: EnemyType, position: Position, decision: u64) -> Enemy {
    Enemy {
        kind,
        state: EnemyState::Idle,
        position,
        target: None,
        decision_timer: once(decision),
        atk_anim_timer: once(attack_animation_time(kind)),
        move_step_timer: Timer {
            duration: ENEMY_MOVE_STEP,
            remaining: ENEMY_MOVE_STEP,
            mode: TimerMode::Repeating,
            just_finished: false,
        },
    }
}

/// An idle enemy's decision after a frame of `delta` microseconds, where
/// `rolled` is the state drawn if its pause runs out, and `decision` the
/// next pause drawn if it stays idle.
pub open spec fn decided(e: Enemy, delta: u64, rolled: EnemyState, decision: u64) -> Enemy {
    if e.state != EnemyState::Idle {
        e
    } else {
        let t = tick_spec(e.decision_timer, delta);
        if !t.just_finished {
            Enemy { decision_timer: t, ..e }
        } else if rolled == EnemyState::Idle {
            Enemy { decision_timer: once(decision), ..e }
        } else {
            Enemy { decision_timer: t, state: rolled, ..e }
        }
    }
}

/// The decision starts a wizard's preparation, which is announced.
pub open spec fn prepares(e: Enemy, delta: u64, rolled: EnemyState) -> bool {
    &&& e.state == EnemyState::Idle
    &&& tick_spec(e.decision_timer, delta).just_finished
    &&& rolled == EnemyState::AttackAnimation
    &&& e.kind == EnemyType::Wizard
}

/// A walking enemy after a frame of `delta` microseconds beside a snake of
/// body `body`. Without a target it takes `fresh` and waits; else, at each
/// step of its pace, it stops on its target, or steps toward it unless the
/// snake is in the way. Stopping makes it idle with a pause of `decision`.
pub open spec fn walked(e: Enemy, delta: u64, body: Seq<Position>, fresh: Position, decision: u64) -> Enemy {
    if e.state != EnemyState::Moving {
        e
    } else {
        match e.target {
            None => Enemy { target: Some(fresh), ..e },
            Some(target) => {
                let t = tick_spec(e.move_step_timer, delta);
                let stopped = Enemy {
                    move_step_timer: t,
                    target: None,
                    state: EnemyState::Idle,
                    decision_timer: once(decision),
                    ..e
                };
                if !t.just_finished {
                    Enemy { move_step_timer: t, ..e }
                } else if e.position == target {
                    stopped
                } else if occupies(body, toward(e.position, target)) {
                    stopped
                } else {
                    Enemy { move_step_timer: t, position: toward(e.position, target), ..e }
                }
            },
        }
    }
}

/// An enemy preparing an attack after a frame of `delta` microseconds: it
/// attacks when the preparation runs out, and a knight attacks at once when
/// a segment of the snake is right below it.
pub open spec fn animated(e: Enemy, delta: u64, body: Seq<Position>) -> Enemy {
    if e.state != EnemyState::AttackAnimation {
        e
    } else {
        let t = tick_spec(e.atk_anim_timer, delta);
        let attacking = Enemy {
            state: EnemyState::Attacking,
            atk_anim_timer: once(attack_animation_time(e.kind)),
            ..e
        };
        if t.just_finished {
            attacking
        } else if e.kind == EnemyType::Knight && occupies(body, below(e.position)) {
            attacking
        } else {
            Enemy { atk_anim_timer: t, ..e }
        }
    }
}

/// An attacking enemy after its attack: idle again, with a pause of
/// `decision`.
pub open spec fn attacked(e: Enemy, decision: u64) -> Enemy {
    if e.state != EnemyState::Attacking {
        e
    } else {
        Enemy { state: EnemyState::Idle, decision_timer: once(decision), ..e }
    }
}

/// What an enemy's attack did.
#[derive(Clone, Copy, PartialEq, Eq, Structural, Debug)]
pub enum AttackOutcome {
    /// The enemy was not attacking.
    Nothing,
    /// A wizard fired this projectile.
    Fired(EnemyAttack),
    /// A knight struck; whether a segment of the snake was right below it.
    Struck(bool),
}

/// The outcome of an enemy's attack, where `aim` is the segment a wizard
/// aims at.
pub open spec fn attack_outcome(e: Enemy, body: Seq<Position>, aim: Position) -> AttackOutcome {
    if e.state != EnemyState::Attacking {
        AttackOutcome::Nothing
    } else {
        match e.kind {
            EnemyType::Wizard => AttackOutcome::Fired(aimed(e.position, aim)),
            EnemyType::Knight => AttackOutcome::Struck(occupies(body, below(e.position))),
        }
    }
}

impl Enemy {
    /// Timers of the right kinds, and a position and target on the field.
    pub open spec fn wf(&self) -> bool {
        &&& self.decision_timer.wf()
        &&& self.decision_timer.mode == TimerMode::Once
        &&& self.atk_anim_timer.wf()
        &&& self.atk_anim_timer.mode == TimerMode::Once
        &&& self.move_step_timer.wf()
        &&& self.move_step_timer.mode == TimerMode::Repeating
        &&& in_world_spec(self.position)
        &&& (self.target matches Some(t) ==> in_world_spec(t))
    }

    /// A new idle enemy of type `kind` at `position`, deciding first after
    /// `decision` microseconds.
    pub fn new(kind: EnemyType, position: Position, decision: u64) -> (r: Enemy)
        ensures
            r == spawned(kind, position, decision),
            in_world_spec(position) ==> r.wf(),
    {
        let anim = match kind {
            EnemyType::Wizard => WIZARD_ATTACK_ANIMATION,
            EnemyType::Knight => KNIGHT_ATTACK_ANIMATION,
        };
        Enemy {
            kind,
            state: EnemyState::Idle,
            position,
            target: None,
            decision_timer: Timer::new(decision, TimerMode::Once),
            atk_anim_timer: Timer::new(anim, TimerMode::Once),
            move_step_timer: Timer::new(ENEMY_MOVE_STEP, TimerMode::Repeating),
        }
    }

    /// Draws the first decision pause of a new enemy, uniformly in the range
    /// of its type.
    pub fn draw_first_decision_time(kind: EnemyType) -> (r: u64)
        ensures
            decision_bounds(kind).0 <= r < decision_bounds(kind).1,
    {
        let (lo, hi) = match kind {
            EnemyType::Wizard => (ENEMY_DECISION_TIME_MIN, ENEMY_DECISION_TIME_MAX),
            EnemyType::Knight => (KNIGHT_DECISION_TIME_MIN, KNIGHT_DECISION_TIME_MAX),
        };
        random_range(lo as i64, hi as i64) as u64
    }

    /// Draws the pause of an enemy that becomes idle again, uniformly in
    /// `[ENEMY_DECISION_TIME_MIN, ENEMY_DECISION_TIME_MAX)`.
    pub fn draw_decision_time() -> (r: u64)
        ensures
            pause_ok(r),
    {
        random_range(ENEMY_DECISION_TIME_MIN as i64, ENEMY_DECISION_TIME_MAX as i64) as u64
    }

    /// Starts a new decision pause of `duration` microseconds.
    fn restart_decision_timer(&mut self, duration: u64)
        ensures
            *final(self) == (Enemy { decision_timer: once(duration), ..*old(self) }),
    {
        self.decision_timer = Timer::new(duration, TimerMode::Once);
    }

    /// Starts a new decision pause, drawn uniformly in
    /// `[ENEMY_DECISION_TIME_MIN, ENEMY_DECISION_TIME_MAX)`.
    pub fn reset_decision_timer(&mut self)
        ensures
            *final(self) == (Enemy { decision_timer: once(final(self).decision_timer.duration), ..*old(self) }),
            pause_ok(final(self).decision_timer.duration),
    {
        let duration = Enemy::draw_decision_time();
        self.restart_decision_timer(duration);
    }

    /// Rewinds the preparation of an attack to its full length.
    pub fn reset_attack_animation_timer(&mut self)
        ensures
            *final(self) == (Enemy {
                atk_anim_timer: once(attack_animation_time(old(self).kind)),
                ..*old(self)
            }),
    {
        let time = match self.kind {
            EnemyType::Wizard => WIZARD_ATTACK_ANIMATION,
            EnemyType::Knight => KNIGHT_ATTACK_ANIMATION,
        };
        self.atk_anim_timer = Timer::new(time, TimerMode::Once);
    }

    /// Lets an idle enemy's pause run for `delta` microseconds; when it runs
    /// out the enemy takes the state `rolled`, and a new pause of `decision`
    /// if it stays idle. Returns whether a wizard starts to prepare an
    /// attack.
    pub fn decide(&mut self, delta: u64, rolled: EnemyState, decision: u64) -> (r: bool)
        requires
            old(self).wf(),
        ensures
            *final(self) == decided(*old(self), delta, rolled, decision),
            final(self).wf(),
            r == prepares(*old(self), delta, rolled),
    {
        if !self.state.is_idle() {
            return false;
        }
        if !self.decision_timer.tick(delta) {
            return false;
        }
        let mut prepare = false;
        match rolled {
            EnemyState::Idle => self.restart_decision_timer(decision),
            EnemyState::AttackAnimation => {
                prepare = self.kind == EnemyType::Wizard;
            },
            _ => {},
        }
        self.state = rolled;
        prepare
    }

    /// Lets a walking enemy act for `delta` microseconds beside `snake`:
    /// takes `fresh` as its target if it has none, else steps toward its
    /// target at its pace, and becomes idle with a pause of `decision` when
    /// it arrives or when the snake is in the way.
    pub fn walk(&mut self, delta: u64, snake: &Snake, fresh: Position, decision: u64)
        requires
            old(self).wf(),
            in_world_spec(fresh),
        ensures
            *final(self) == walked(*old(self), delta, snake.body(), fresh, decision),
            final(self).wf(),
    {
        if !self.state.is_moving() {
            return;
        }
        let target = match self.target {
            None => {
                self.target = Some(fresh);
                return;
            },
            Some(t) => t,
        };
        if !self.move_step_timer.tick(delta) {
            return;
        }
        if self.position == target {
            self.target = None;
            self.state.to_idle();
            self.restart_decision_timer(decision);
            return;
        }
        let old_position = self.position;
        let mut next = self.position;
        if next.x < target.x {
            next.x = next.x + 1;
        } else if next.x > target.x {
            next.x = next.x - 1;
        }
        if next.y < target.y {
            next.y = next.y + 1;
        } else if next.y > target.y {
            next.y = next.y - 1;
        }
        self.position = next;
        if snake.contains(next) {
            self.target = None;
            self.position = old_position;
            self.state.to_idle();
            self.restart_decision_timer(decision);
        }
    }

    /// Lets an enemy that prepares an attack go on for `delta` microseconds
    /// beside `snake`.
    pub fn animate(&mut self, delta: u64, snake: &Snake)
        requires
            old(self).wf(),
        ensures
            *final(self) == animated(*old(self), delta, snake.body()),
            final(self).wf(),
    {
        if !self.state.is_attack_animation() {
            return;
        }
        if !self.atk_anim_timer.tick(delta) {
            if self.kind == EnemyType::Knight && snake.contains(
                Position { x: self.position.x, y: self.position.y - 1 },
            ) {
                self.state.to_attacking();
                self.reset_attack_animation_timer();
            }
            return;
        }
        self.state.to_attacking();
        self.reset_attack_animation_timer();
    }

    /// Carries out the attack of an attacking enemy beside `snake`: a
    /// wizard fires at cell `aim`, a knight strikes the cell below it. The
    /// enemy is then idle, with a pause of `decision`.
    pub fn attack(&mut self, snake: &Snake, aim: Position, decision: u64) -> (r: AttackOutcome)
        requires
            old(self).wf(),
        ensures
            *final(self) == attacked(*old(self), decision),
            final(self).wf(),
            r == attack_outcome(*old(self), snake.body(), aim),
            r matches AttackOutcome::Fired(a) ==> a.wf(),
    {
        if !self.state.is_attacking() {
            return AttackOutcome::Nothing;
        }
        let outcome = match self.kind {
            EnemyType::Wizard => AttackOutcome::Fired(EnemyAttack::aim(self.position, aim)),
            EnemyType::Knight => AttackOutcome::Struck(
                snake.contains(Position { x: self.position.x, y: self.position.y - 1 }),
            ),
        };
        self.state.to_idle();
        self.restart_decision_timer(decision);
        outcome
    }
}

/// Draws a cell of the field, uniformly, borders included.
pub fn random_position() -> (r: Position)
    ensures
        in_world_spec(r),
{
    let x = random_range(-(LEVEL_SIZE_X as i64), LEVEL_SIZE_X as i64 + 1);
    let y = random_range(-(LEVEL_SIZE_Y as i64), LEVEL_SIZE_Y as i64 + 1);
    Position { x: x as i32, y: y as i32 }
}

/// Draws the target of a walk: a cell of the field short of its last row
/// and column.
pub fn random_target() -> (r: Position)
    ensures
        in_world_spec(r),
        r.x < LEVEL_SIZE_X,
        r.y < LEVEL_SIZE_Y,
{
    let x = random_range(-(LEVEL_SIZE_X as i64), LEVEL_SIZE_X as i64);
    let y = random_range(-(LEVEL_SIZE_Y as i64), LEVEL_SIZE_Y as i64);
    Position { x: x as i32, y: y as i32 }
}

} // verus!
