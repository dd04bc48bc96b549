//! Rule sets: the conditions and actions that steer a scripted actor.

use crate::areas::AreaID;
use crate::building::StructureType;
use crate::combat::TurretDirection;
use vstd::prelude::*;
use vstd::string::StringExecFns;

verus! {

/// A predicate over what an actor perceives, its hit points and its
/// inventory.
#[derive(Debug, PartialEq)]
pub enum Condition {
    True,
    IsEnemyVisible,
    IsHealthLow { threshold: u32 },
    InArea(AreaID),
    HasItem { item: String, count: u32 },
    IsUnderAttack,
    And(Vec<Condition>),
    Or(Vec<Condition>),
    Not(Box<Condition>),
}

/// What a rule makes its actor do.
#[derive(Debug, PartialEq)]
pub enum Action {
    MoveToArea(AreaID),
    ChaseEnemy,
    Flee,
    Build { structure: StructureType, direction: Option<TurretDirection> },
    Idle,
}

/// A named pair of condition and action. Of the rules whose condition
/// holds, the one with the greatest priority is carried out.
#[derive(Debug, PartialEq)]
pub struct Rule {
    pub name: String,
    pub priority: i32,
    pub condition: Condition,
    pub action: Action,
}

/// The rules of one actor, in the order they were declared.
#[derive(Debug, PartialEq)]
pub struct RuleSet {
    pub rules: Vec<Rule>,
}

impl RuleSet {
    /// A rule set with one rule, for trying turrets out: build a turret
    /// whenever one is in stock.
    pub fn new_turret_only() -> (set: Self)
        ensures
            set.rules@.len() == 1,
            set.rules@[0].name@ == "DebugBuildTurret"@,
            set.rules@[0].priority == 100,
            set.rules@[0].condition is HasItem,
            set.rules@[0].condition->HasItem_item@ == "turret"@,
            set.rules@[0].condition->HasItem_count == 1,
            set.rules@[0].action == (Action::Build {
                structure: StructureType::Turret,
                direction: None,
            }),
    {
        let mut rules: Vec<Rule> = Vec::new();
        rules.push(
            Rule {
                name: String::from_str("DebugBuildTurret"),
                priority: 100,
                condition: Condition::HasItem { item: String::from_str("turret"), count: 1 },
                action: Action::Build { structure: StructureType::Turret, direction: None },
            },
        );
        RuleSet { rules }
    }

    /// A rule set that holds `rules`, in their order.
    pub fn from_rules(rules: Vec<Rule>) -> (set: Self)
        ensures
            set.rules == rules,
    {
        RuleSet { rules }
    }
}

/// `condition` asks for `count` items named `item`.
pub open spec fn asks_item(condition: Condition, item: Seq<char>, count: u32) -> bool {
    condition is HasItem && condition->HasItem_item@ == item && condition->HasItem_count == count
}

/// `condition` asks for both: to be in `area`, and to have one item named
/// `item`.
pub open spec fn asks_area_and_item(condition: Condition, area: AreaID, item: Seq<char>) -> bool {
    &&& condition is And
    &&& condition->And_0@.len() == 2
    &&& condition->And_0@[0] == Condition::InArea(area)
    &&& asks_item(condition->And_0@[1], item, 1)
}

/// `condition` asks for both: an enemy in sight, and one item named
/// `item`.
pub open spec fn asks_enemy_and_item(condition: Condition, item: Seq<char>) -> bool {
    &&& condition is And
    &&& condition->And_0@.len() == 2
    &&& condition->And_0@[0] == Condition::IsEnemyVisible
    &&& asks_item(condition->And_0@[1], item, 1)
}

impl Default for RuleSet {
    /// The standard rules of a scripted actor, in falling priority:
    /// retreat to the enemy base when down to one hit point; deploy a
    /// turret when an enemy is in sight and a turret in stock; chase an
    /// enemy in sight; fortify the centre with an obstacle; head for the
    /// centre when outside it; and from the centre invade the user's
    /// base.
    fn default() -> (set: Self)
        ensures
            set.rules@.len() == 6,
            set.rules@[0].name@ == "RetreatToSafety"@,
            set.rules@[0].priority == 100,
            set.rules@[0].condition == (Condition::IsHealthLow { threshold: 1 }),
            set.rules@[0].action == Action::MoveToArea(AreaID::EnemyBase),
            set.rules@[1].name@ == "DeployCombatTurret"@,
            set.rules@[1].priority == 95,
            asks_enemy_and_item(set.rules@[1].condition, "turret"@),
            set.rules@[1].action == (Action::Build {
                structure: StructureType::Turret,
                direction: None,
            }),
            set.rules@[2].name@ == "EngageEnemy"@,
            set.rules@[2].priority == 80,
            set.rules@[2].condition == Condition::IsEnemyVisible,
            set.rules@[2].action == Action::ChaseEnemy,
            set.rules@[3].name@ == "FortifyCenter"@,
            set.rules@[3].priority == 50,
            asks_area_and_item(set.rules@[3].condition, AreaID::CenterArena, "obstacle"@),
            set.rules@[3].action == (Action::Build {
                structure: StructureType::Obstacle,
                direction: None,
            }),
            set.rules@[4].name@ == "ClaimCenter"@,
            set.rules@[4].priority == 20,
            set.rules@[4].condition is Not,
            *set.rules@[4].condition->Not_0 == Condition::InArea(AreaID::CenterArena),
            set.rules@[4].action == Action::MoveToArea(AreaID::CenterArena),
            set.rules@[5].name@ == "InvadePlayerBase"@,
            set.rules@[5].priority == 10,
            set.rules@[5].condition == Condition::InArea(AreaID::CenterArena),
            set.rules@[5].action == Action::MoveToArea(AreaID::UserBase),
    {
        let mut rules: Vec<Rule> = Vec::new();
        rules.push(
            Rule {
                name: String::from_str("RetreatToSafety"),
                priority: 100,
                condition: Condition::IsHealthLow { threshold: 1 },
                action: Action::MoveToArea(AreaID::EnemyBase),
            },
        );
        let mut deploy: Vec<Condition> = Vec::new();
        deploy.push(Condition::IsEnemyVisible);
        deploy.push(Condition::HasItem { item: String::from_str("turret"), count: 1 });
        rules.push(
            Rule {
                name: String::from_str("DeployCombatTurret"),
                priority: 95,
                condition: Condition::And(deploy),
                action: Action::Build { structure: StructureType::Turret, direction: None },
            },
        );
        rules.push(
            Rule {
                name: String::from_str("EngageEnemy"),
                priority: 80,
                condition: Condition::IsEnemyVisible,
                action: Action::ChaseEnemy,
            },
        );
        let mut fortify: Vec<Condition> = Vec::new();
        fortify.push(Condition::InArea(AreaID::CenterArena));
        fortify.push(Condition::HasItem { item: String::from_str("obstacle"), count: 1 });
        rules.push(
            Rule {
                name: String::from_str("FortifyCenter"),
                priority: 50,
                condition: Condition::And(fortify),
                action: Action::Build { structure: StructureType::Obstacle, direction: None },
            },
        );
        rules.push(
            Rule {
                name: String::from_str("ClaimCenter"),
                priority: 20,
                condition: Condition::Not(Box::new(Condition::InArea(AreaID::CenterArena))),
                action: Action::MoveToArea(AreaID::CenterArena),
            },
        );
        rules.push(
            Rule {
                name: String::from_str("InvadePlayerBase"),
                priority: 10,
                condition: Condition::InArea(AreaID::CenterArena),
                action: Action::MoveToArea(AreaID::UserBase),
            },
        );
        RuleSet { rules }
    }
}

} // verus!
