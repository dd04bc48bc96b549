//! A deterministic arena simulation: a tile grid, a navigation graph with
//! path finding and line of sight, a rule engine for scripted actors, a
//! build and destroy pipeline, turret combat and an event journal.
//!
//! Positions are measured in thousandths of a world unit and times in
//! milliseconds, so that every decision of the simulation is exact.

use crate::logging::MatchLog;
use crate::player::PlayerStatus;
use crate::rules::RuleSet;
use vstd::prelude::*;

pub mod ai;
pub mod areas;
pub mod arena;
pub mod building;
pub mod combat;
pub mod layout;
pub mod logging;
pub mod movement;
pub mod navgraph;
pub mod pathfinding;
pub mod player;
pub mod player_id;
pub mod rules;
pub mod sight;
pub mod tilemap;
pub mod world;

verus! {

/// What the simulation reports to an observer.
#[derive(Debug, PartialEq)]
pub enum ClientMessage {
    UpdatePlayerStatus(PlayerStatus),
    PushMatchLog(MatchLog),
}

/// What a controller sends down to the simulation.
#[derive(Debug, PartialEq)]
pub enum ServerMessage {
    UpdateRuleSet(RuleSet),
}

/// Takes a message from the controller in, between two ticks: the rule
/// set it carries replaces the actor's rule set as a whole.
pub fn receive(rule_set: &mut RuleSet, message: ServerMessage)
    ensures
        *final(rule_set) == message->UpdateRuleSet_0,
{
    match message {
        ServerMessage::UpdateRuleSet(rules) => {
            *rule_set = rules;
        },
    }
}

} // verus!
