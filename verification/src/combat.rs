//! Hit points, turrets and the shots they fire.

use crate::logging::{GameEvent, MatchLog};
use crate::player_id::PlayerID;
use crate::world::{dist_sq, distance_squared, WorldPos};
use vstd::pervasive::VecAdditionalExecFns;
use vstd::prelude::*;

verus! {

/// The hit points that one shot of a turret takes.
pub const TURRET_DAMAGE: u32 = 1;

/// The time a turret rests between two shots, in milliseconds.
pub const TURRET_COOLDOWN: i64 = 4000;

/// The square of the range of a turret: 15 world units, in thousandths.
pub const TURRET_RANGE_SQ: u128 = 225_000_000;

/// Whether the match is still being played. `GameOver` is final.
#[derive(Clone, Copy, Debug, PartialEq, Eq, Structural)]
pub enum GameState {
    Playing,
    GameOver,
}

/// Hit points: what is left, and what there was at the start.
#[derive(Clone, Copy, Debug, PartialEq, Eq, Structural)]
pub struct Hp {
    pub current: u32,
    pub max: u32,
}

impl Hp {
    /// Full hit points.
    pub fn new(max: u32) -> (hp: Self)
        ensures
            hp.current == max,
            hp.max == max,
    {
        Hp { current: max, max }
    }

    /// Tells whether any hit points are left.
    pub fn is_alive(&self) -> (alive: bool)
        ensures
            alive == (self.current > 0),
    {
        self.current > 0
    }

    /// Takes `amount` hit points away, stopping at zero.
    pub fn take_damage(&mut self, amount: u32)
        ensures
            final(self).max == old(self).max,
            final(self).current == (if old(self).current >= amount {
                old(self).current - amount
            } else {
                0
            }),
    {
        self.current = self.current.saturating_sub(amount);
    }
}

/// The four directions a turret can face. North looks towards smaller z,
/// east towards greater x.
#[derive(Clone, Copy, PartialEq, Eq, Debug, Structural)]
pub enum TurretDirection {
    North,
    East,
    South,
    West,
}

impl TurretDirection {
    /// The unit vector of the direction, as `(x, y, z)`.
    pub open spec fn axis(self) -> (int, int, int) {
        match self {
            TurretDirection::North => (0, 0, -1),
            TurretDirection::East => (1, 0, 0),
            TurretDirection::South => (0, 0, 1),
            TurretDirection::West => (-1, 0, 0),
        }
    }

    /// The direction whose axis lies closest to the flat vector `(x, z)`:
    /// east or west where `x` outweighs `z`, else south or north; a
    /// component that is not positive counts as pointing west or north.
    pub open spec fn facing(x: int, z: int) -> TurretDirection {
        if vstd::math::abs(x) > vstd::math::abs(z) {
            if x > 0 {
                TurretDirection::East
            } else {
                TurretDirection::West
            }
        } else {
            if z > 0 {
                TurretDirection::South
            } else {
                TurretDirection::North
            }
        }
    }

    /// The unit vector of the direction, as `(x, y, z)`.
    pub fn to_vec3(&self) -> (v: (i32, i32, i32))
        ensures
            (v.0 as int, v.1 as int, v.2 as int) == self.axis(),
    {
        match self {
            TurretDirection::North => (0, 0, -1),
            TurretDirection::East => (1, 0, 0),
            TurretDirection::South => (0, 0, 1),
            TurretDirection::West => (-1, 0, 0),
        }
    }

    /// The direction that faces along the flat vector `(x, z)`.
    pub fn from_vector(x: i64, z: i64) -> (direction: Self)
        ensures
            direction == Self::facing(x as int, z as int),
    {
        let abs_x: i128 = if x < 0 {
            -(x as i128)
        } else {
            x as i128
        };
        let abs_z: i128 = if z < 0 {
            -(z as i128)
        } else {
            z as i128
        };
        if abs_x > abs_z {
            if x > 0 {
                TurretDirection::East
            } else {
                TurretDirection::West
            }
        } else {
            if z > 0 {
                TurretDirection::South
            } else {
                TurretDirection::North
            }
        }
    }

    /// The rotation about the vertical axis that turns north into this
    /// direction, in quarter turns: east is a quarter turn clockwise, -1.
    pub fn quarter_turns(&self) -> (turns: i32)
        ensures
            turns == (match *self {
                TurretDirection::North => 0int,
                TurretDirection::East => -1int,
                TurretDirection::South => 2int,
                TurretDirection::West => 1int,
            }),
    {
        match self {
            TurretDirection::North => 0,
            TurretDirection::East => -1,
            TurretDirection::South => 2,
            TurretDirection::West => 1,
        }
    }
}

/// A turret: who built it, where it faces, and when it last fired, on the
/// simulation clock in milliseconds.
#[derive(Clone, Copy, Debug, PartialEq, Eq, Structural)]
pub struct Turret {
    pub owner: PlayerID,
    pub direction: TurretDirection,
    pub last_shot: i64,
}

impl Turret {
    /// The cooldown since the last shot is over at `current_time`.
    pub open spec fn ready(self, current_time: i64) -> bool {
        current_time - self.last_shot >= TURRET_COOLDOWN
    }

    /// A turret built at time `now`. Its last shot is dated one cooldown
    /// back, so that it may fire at once.
    pub fn new(owner: PlayerID, direction: TurretDirection, now: i64) -> (turret: Self)
        ensures
            turret.owner == owner,
            turret.direction == direction,
            turret.last_shot <= now,
            turret.last_shot == (if now - TURRET_COOLDOWN < i64::MIN {
                i64::MIN as int
            } else {
                now - TURRET_COOLDOWN
            }),
            now - TURRET_COOLDOWN >= i64::MIN ==> turret.ready(now),
    {
        let last_shot = if now < i64::MIN + TURRET_COOLDOWN {
            i64::MIN
        } else {
            now - TURRET_COOLDOWN
        };
        Turret { owner, direction, last_shot }
    }

    /// Tells whether the turret may fire at `current_time`.
    pub fn is_active(&self, current_time: i64) -> (active: bool)
        ensures
            active == self.ready(current_time),
    {
        current_time as i128 - self.last_shot as i128 >= TURRET_COOLDOWN as i128
    }

    /// Records a shot fired at `current_time`.
    pub fn shot(&mut self, current_time: i64)
        ensures
            final(self).last_shot == current_time,
            final(self).owner == old(self).owner,
            final(self).direction == old(self).direction,
    {
        self.last_shot = current_time;
    }
}

/// An actor as the turrets see it.
#[derive(Clone, Copy, Debug, PartialEq, Eq, Structural)]
pub struct Combatant {
    pub id: PlayerID,
    pub position: WorldPos,
    pub hp: Hp,
    pub is_user: bool,
}

/// How far `to` lies from `from` along the axis of `direction`.
pub open spec fn along(direction: TurretDirection, from: WorldPos, to: WorldPos) -> int {
    let axis = direction.axis();
    axis.0 * (to.x - from.x) + axis.2 * (to.z - from.z)
}

/// `to` lies within 15 units of `from`.
pub open spec fn in_range(from: WorldPos, to: WorldPos) -> bool {
    dist_sq(from, to) < TURRET_RANGE_SQ
}

/// `to` lies inside the cone of 45 degrees to either side of `direction`:
/// the cosine of the angle between the direction and the way to the
/// target is greater than 0.707.
pub open spec fn in_cone(direction: TurretDirection, from: WorldPos, to: WorldPos) -> bool {
    along(direction, from, to) > 0 && along(direction, from, to) * along(direction, from, to)
        * 1_000_000 > 499_849 * dist_sq(from, to)
}

/// The turret at `position` may fire at `target`.
pub open spec fn is_candidate(turret: Turret, position: WorldPos, target: Combatant) -> bool {
    target.id != turret.owner && in_range(position, target.position) && in_cone(
        turret.direction,
        position,
        target.position,
    )
}

/// `i` is the target that the turret picks: the nearest candidate, and
/// among equally near ones the first.
pub open spec fn is_chosen(
    turret: Turret,
    position: WorldPos,
    targets: Seq<Combatant>,
    i: int,
) -> bool {
    &&& 0 <= i < targets.len()
    &&& is_candidate(turret, position, targets[i])
    &&& forall|j: int|
        0 <= j < targets.len() && is_candidate(turret, position, #[trigger] targets[j])
            ==> dist_sq(position, targets[i].position) < dist_sq(position, targets[j].position)
            || (dist_sq(position, targets[i].position) == dist_sq(position, targets[j].position)
            && i <= j)
}

/// No target is a candidate.
pub open spec fn no_candidate(turret: Turret, position: WorldPos, targets: Seq<Combatant>) -> bool {
    forall|j: int| 0 <= j < targets.len() ==> !is_candidate(turret, position, #[trigger] targets[j])
}

fn candidate(turret: &Turret, position: &WorldPos, target: &Combatant) -> (r: Option<u128>)
    ensures
        r.is_some() == is_candidate(*turret, *position, *target),
        r.is_some() ==> r.unwrap() == dist_sq(*position, target.position),
{
    if target.id.same(&turret.owner) {
        return None;
    }
    let d = distance_squared(position, &target.position);
    if d >= TURRET_RANGE_SQ {
        return None;
    }
    let dx: i128 = target.position.x as i128 - position.x as i128;
    let dz: i128 = target.position.z as i128 - position.z as i128;
    let c: i128 = match turret.direction {
        TurretDirection::North => -dz,
        TurretDirection::East => dx,
        TurretDirection::South => dz,
        TurretDirection::West => -dx,
    };
    assert(c == along(turret.direction, *position, target.position));
    if c <= 0 {
        return None;
    }
    assert(c * c <= 0x1_0000_0000 * 0x1_0000_0000) by (nonlinear_arith)
        requires
            0 <= c <= 0x1_0000_0000,
    ;
    assert(c * c * 1_000_000 == (c * c) * 1_000_000) by (nonlinear_arith);
    if (c * c) * 1_000_000 > 499_849 * (d as i128) {
        Some(d)
    } else {
        None
    }
}

/// Picks the target of the turret at `position`: among the actors other
/// than its owner that stand within range and inside its cone, the
/// nearest one; nothing where there is none.
pub fn select_target(turret: &Turret, position: &WorldPos, targets: &Vec<Combatant>) -> (chosen:
    Option<usize>)
    ensures
        match chosen {
            Some(i) => is_chosen(*turret, *position, targets@, i as int),
            None => no_candidate(*turret, *position, targets@),
        },
{
    let mut best: Option<usize> = None;
    let mut best_distance: u128 = 0;
    let mut j: usize = 0;
    while j < targets.len()
        invariant
            j <= targets.len(),
            match best {
                Some(i) => {
                    &&& i < j
                    &&& is_candidate(*turret, *position, targets@[i as int])
                    &&& best_distance == dist_sq(*position, targets@[i as int].position)
                    &&& forall|k: int|
                        0 <= k < j && is_candidate(*turret, *position, #[trigger] targets@[k])
                            ==> best_distance < dist_sq(*position, targets@[k].position) || (
                        best_distance == dist_sq(*position, targets@[k].position) && i <= k)
                },
                None => forall|k: int|
                    0 <= k < j ==> !is_candidate(*turret, *position, #[trigger] targets@[k]),
            },
        decreases targets.len() - j,
    {
        match candidate(turret, position, &targets[j]) {
            Some(d) => {
                let closer = match best {
                    Some(_) => d < best_distance,
                    None => true,
                };
                if closer {
                    best = Some(j);
                    best_distance = d;
                }
            },
            None => {},
        }
        j = j + 1;
    }
    best
}

/// What became of a turret's turn.
#[derive(Clone, Copy, Debug, PartialEq, Eq, Structural)]
pub enum ShotOutcome {
    /// The match is over or the turret is cooling down: nothing happened.
    Held,
    /// The turret was ready but had nobody to fire at.
    NoTarget,
    /// The turret hit `victim`; `eliminated` tells whether that was the
    /// victim's last hit point.
    Hit { victim: PlayerID, eliminated: bool },
}

/// `hp` after one shot of a turret.
pub open spec fn after_hit(hp: Hp) -> Hp {
    Hp {
        current: if hp.current >= TURRET_DAMAGE {
            (hp.current - TURRET_DAMAGE) as u32
        } else {
            0
        },
        max: hp.max,
    }
}

/// `target` with the hit points that one shot leaves it.
pub open spec fn wounded(target: Combatant) -> Combatant {
    Combatant { hp: after_hit(target.hp), ..target }
}

/// The turn of one turret at time `now`.
///
/// While the match is over, or the turret is cooling down, nothing
/// changes. Otherwise the turret picks its target as `select_target`
/// does; without a target nothing changes either. With one, the target
/// loses a hit point, the journal gains a `DamageDealt` event and the
/// turret's last shot is dated `now`. Where that was the target's last hit
/// point, the journal gains a `PlayerEliminated` event as well; the user's
/// death ends the match, any other actor is removed from `targets`.
pub fn turret_shoot(
    turret: &mut Turret,
    position: &WorldPos,
    targets: &mut Vec<Combatant>,
    now: i64,
    state: &mut GameState,
    log: &mut MatchLog,
) -> (outcome: ShotOutcome)
    ensures
        final(turret).owner == old(turret).owner,
        final(turret).direction == old(turret).direction,
        old(turret).last_shot <= now ==> final(turret).last_shot <= now,
        *old(state) == GameState::GameOver ==> *final(state) == GameState::GameOver,
        (*old(state) == GameState::GameOver || !old(turret).ready(now)) ==> {
            &&& outcome == ShotOutcome::Held
            &&& *final(turret) == *old(turret)
            &&& final(targets)@ == old(targets)@
            &&& *final(state) == *old(state)
            &&& final(log).events@ == old(log).events@
        },
        (*old(state) == GameState::Playing && old(turret).ready(now) && no_candidate(
            *old(turret),
            *position,
            old(targets)@,
        )) ==> {
            &&& outcome == ShotOutcome::NoTarget
            &&& *final(turret) == *old(turret)
            &&& final(targets)@ == old(targets)@
            &&& *final(state) == *old(state)
            &&& final(log).events@ == old(log).events@
        },
        forall|i: int|
            (*old(state) == GameState::Playing && old(turret).ready(now) && is_chosen(
                *old(turret),
                *position,
                old(targets)@,
                i,
            )) ==> {
                let victim = old(targets)@[i];
                let hurt = wounded(victim);
                let hit = GameEvent::DamageDealt {
                    attacker: old(turret).owner,
                    victim: victim.id,
                    amount: TURRET_DAMAGE,
                    time: now,
                };
                let gone = GameEvent::PlayerEliminated {
                    entity: victim.id,
                    killer: Some(old(turret).owner),
                    time: now,
                };
                &&& final(turret).last_shot == now
                &&& outcome == (ShotOutcome::Hit {
                    victim: victim.id,
                    eliminated: hurt.hp.current == 0,
                })
                &&& hurt.hp.current > 0 ==> {
                    &&& final(targets)@ == old(targets)@.update(i, hurt)
                    &&& *final(state) == GameState::Playing
                    &&& final(log).events@ == old(log).events@.push(hit)
                }
                &&& hurt.hp.current == 0 && victim.is_user ==> {
                    &&& final(targets)@ == old(targets)@.update(i, hurt)
                    &&& *final(state) == GameState::GameOver
                    &&& final(log).events@ == old(log).events@.push(hit).push(gone)
                }
                &&& hurt.hp.current == 0 && !victim.is_user ==> {
                    &&& final(targets)@ == old(targets)@.remove(i)
                    &&& *final(state) == GameState::Playing
                    &&& final(log).events@ == old(log).events@.push(hit).push(gone)
                }
            },
{
    match *state {
        GameState::GameOver => {
            return ShotOutcome::Held;
        },
        GameState::Playing => {},
    }
    if !turret.is_active(now) {
        return ShotOutcome::Held;
    }
    let chosen = select_target(turret, position, targets);
    match chosen {
        None => {
            proof {
                assert forall|i: int|
                    !is_chosen(*old(turret), *position, old(targets)@, i) by {}
            }
            ShotOutcome::NoTarget
        },
        Some(index) => {
            proof {
                assert forall|i: int|
                    is_chosen(*old(turret), *position, old(targets)@, i) implies i == index by {
                    assert(is_candidate(*old(turret), *position, old(targets)@[index as int]));
                    assert(is_candidate(*old(turret), *position, old(targets)@[i]));
                }
            }
            let owner = turret.owner;
            turret.shot(now);
            let mut victim = targets[index];
            victim.hp.take_damage(TURRET_DAMAGE);
            assert(victim == wounded(old(targets)@[index as int]));
            log.add(
                GameEvent::DamageDealt {
                    attacker: owner,
                    victim: victim.id,
                    amount: TURRET_DAMAGE,
                    time: now,
                },
            );
            if victim.hp.is_alive() {
                targets.set(index, victim);
                ShotOutcome::Hit { victim: victim.id, eliminated: false }
            } else {
                log.add(
                    GameEvent::PlayerEliminated {
                        entity: victim.id,
                        killer: Some(owner),
                        time: now,
                    },
                );
                if victim.is_user {
                    targets.set(index, victim);
                    *state = GameState::GameOver;
                } else {
                    targets.remove(index);
                }
                ShotOutcome::Hit { victim: victim.id, eliminated: true }
            }
        },
    }
}

} // verus!
