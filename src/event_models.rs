//! The values that one log line decodes to.
use vstd::prelude::*;
use crate::interner::IStr;

verus! {

/// What kind of combatant an entity is.
#[derive(Clone, Copy, Debug, PartialEq, Eq, Structural)]
pub enum EntityType {
    Player,
    Npc,
    Companion,
    Empty,
}

/// Wall-clock time of day, to the millisecond.
#[derive(Clone, Copy, Debug, PartialEq, Eq, Structural)]
pub struct Timestamp {
    pub hour: u8,
    pub minute: u8,
    pub second: u8,
    pub millis: u16,
}

impl Timestamp {
    pub open spec fn wf(&self) -> bool {
        &&& self.hour < 24
        &&& self.minute < 60
        &&& self.second < 60
        &&& self.millis < 1000
    }

    /// Milliseconds since midnight.
    pub open spec fn spec_ms(&self) -> int {
        ((self.hour as int * 60 + self.minute as int) * 60 + self.second as int) * 1000
            + self.millis as int
    }

    /// Whether every field is within its range.
    pub fn is_valid(&self) -> (r: bool)
        ensures
            r == self.wf(),
    {
        self.hour < 24 && self.minute < 60 && self.second < 60 && self.millis < 1000
    }

    /// Milliseconds since midnight.
    pub fn ms_of_day(&self) -> (r: u32)
        requires
            self.wf(),
        ensures
            r as int == self.spec_ms(),
    {
        ((self.hour as u32 * 60 + self.minute as u32) * 60 + self.second as u32) * 1000
            + self.millis as u32
    }
}

/// Current and maximum health of an entity.
#[derive(Clone, Copy, Debug, PartialEq, Eq, Structural)]
pub struct Health {
    pub current: i64,
    pub max: i64,
}

/// A player, non-player combatant, companion, or nobody.
#[derive(Clone, Copy, Debug, PartialEq, Eq, Structural)]
pub struct Entity {
    pub name: Option<IStr>,
    pub class_id: i64,
    pub log_id: i64,
    pub entity_type: EntityType,
    pub coordinates: Option<IStr>,
    pub health: Option<Health>,
}

impl Entity {
    pub open spec fn spec_empty() -> Entity {
        Entity {
            name: None,
            class_id: 0,
            log_id: 0,
            entity_type: EntityType::Empty,
            coordinates: None,
            health: None,
        }
    }

    /// The entity with every field at its default.
    pub fn empty() -> (r: Entity)
        ensures
            r == Entity::spec_empty(),
    {
        Entity {
            name: None,
            class_id: 0,
            log_id: 0,
            entity_type: EntityType::Empty,
            coordinates: None,
            health: None,
        }
    }
}

/// The category of an event, read from its effect-type and effect names.
#[derive(Clone, Copy, Debug, PartialEq, Eq, Structural)]
pub enum EffectKind {
    EnterCombat,
    ExitCombat,
    AreaEntered,
    PhaseStart,
    Damage,
    Heal,
    Other,
}

/// One decoded log line. Every name is an interned key.
#[derive(Clone, Copy, Debug, PartialEq, Eq, Structural)]
pub struct CombatEvent {
    pub line_number: usize,
    pub timestamp: Timestamp,
    pub source_entity: Entity,
    pub target_entity: Option<Entity>,
    pub action_name: Option<IStr>,
    pub action_id: Option<i64>,
    pub effect_type_name: Option<IStr>,
    pub effect_type_id: Option<i64>,
    pub effect_name: Option<IStr>,
    pub effect_id: Option<i64>,
    pub effect_kind: EffectKind,
    pub charges: Option<i64>,
    pub damage: Option<i64>,
    pub effective_damage: Option<i64>,
    pub heal: Option<i64>,
    pub effective_heal: Option<i64>,
    pub is_critical: Option<bool>,
    pub is_reflected: Option<bool>,
    pub damage_type_id: Option<i64>,
    pub reduction_class_id: Option<i64>,
    pub damage_reduced: Option<i64>,
    pub reduction_type_id: Option<i64>,
    pub threat: Option<i64>,
}

} // verus!
