//! The event journal: an append-only record of what happened in a match.

use crate::areas::AreaID;
use crate::arena::CollectibleType;
use crate::building::StructureType;
use crate::player_id::PlayerID;
use crate::tilemap::TilePos;
use vstd::prelude::*;

verus! {

/// The simulated time between two flushes of the journal, in milliseconds.
pub const FLUSH_INTERVAL: u64 = 10_000;

/// Something that happened in the match. `time` is the simulation clock
/// in milliseconds.
#[derive(Debug, PartialEq, Eq)]
pub enum GameEvent {
    AreaEntered { entity: PlayerID, area_id: AreaID, time: i64 },
    StructureBuilt { entity: PlayerID, structure: StructureType, location: TilePos, time: i64 },
    StructureDestroyed {
        destroyer: Option<PlayerID>,
        structure: StructureType,
        location: TilePos,
        time: i64,
    },
    ItemCollected { entity: PlayerID, item_type: CollectibleType, location: TilePos, time: i64 },
    DamageDealt { attacker: PlayerID, victim: PlayerID, amount: u32, time: i64 },
    PlayerEliminated { entity: PlayerID, killer: Option<PlayerID>, time: i64 },
    AiDecision {
        entity: PlayerID,
        entity_name: String,
        rule_name: String,
        condition_met: bool,
        inventory_obstacles: u32,
        inventory_turrets: u32,
        visible_enemies: usize,
        time: i64,
    },
}

/// The journal of a match, oldest event first.
#[derive(Debug, PartialEq)]
pub struct MatchLog {
    pub events: Vec<GameEvent>,
}

impl MatchLog {
    /// An empty journal.
    pub fn new() -> (log: Self)
        ensures
            log.events@ == Seq::<GameEvent>::empty(),
    {
        MatchLog { events: Vec::new() }
    }

    /// Appends `event` and leaves the events before it as they were.
    pub fn add(&mut self, event: GameEvent)
        ensures
            final(self).events@ == old(self).events@.push(event),
    {
        self.events.push(event);
    }

    /// The number of events recorded.
    pub fn len(&self) -> (n: usize)
        ensures
            n == self.events@.len(),
    {
        self.events.len()
    }
}

/// Counts simulated time towards the next flush of the journal.
pub struct FlushTimer {
    pub elapsed: u64,
}

impl FlushTimer {
    /// A timer that has counted nothing yet.
    pub fn new() -> (timer: Self)
        ensures
            timer.elapsed == 0,
    {
        FlushTimer { elapsed: 0 }
    }

    /// Adds `dt` milliseconds. Once more than `FLUSH_INTERVAL` has been
    /// counted the journal is due: the answer is `true` and the count
    /// starts again from 0.
    pub fn advance(&mut self, dt: u64) -> (due: bool)
        ensures
            due == (old(self).elapsed + dt > FLUSH_INTERVAL),
            due ==> final(self).elapsed == 0,
            !due ==> final(self).elapsed == old(self).elapsed + dt,
    {
        let total = self.elapsed.saturating_add(dt);
        if total > FLUSH_INTERVAL {
            self.elapsed = 0;
            true
        } else {
            self.elapsed = total;
            false
        }
    }
}

impl Default for MatchLog {
    /// An empty journal.
    fn default() -> (log: Self)
        ensures
            log.events@ == Seq::<GameEvent>::empty(),
    {
        MatchLog::new()
    }
}

} // verus!
