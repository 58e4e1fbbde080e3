//! Domain data for the analytics output: entity classification, players,
//! damage records, boss snapshots and creep-wave snapshots.

use vstd::prelude::*;

verus! {

/// Classification of a simulation entity, as reported by the decoder.
///
/// The decoder identifies an entity's type by the hash of its serializer
/// name; the unverified layer maps the known hashes onto these variants and
/// passes every other hash through unchanged in `Other`.
#[derive(Clone, Copy, Debug, PartialEq, Eq, Structural)]
pub enum EntityClass {
    /// A player's pawn (the controlled hero entity).
    PlayerPawn,
    /// A player's controller (lobby identity, lane assignment).
    PlayerController,
    /// The game-rules proxy entity (carries the match start time).
    GameRules,
    /// Lane trooper (lane creep).
    Trooper,
    /// Guardian (lane objective).
    TrooperBoss,
    /// Neutral trooper.
    TrooperNeutral,
    /// Mid boss.
    MidBoss,
    /// Experience pickup.
    ItemXp,
    /// Shrine (destroyable building).
    DestroyableBuilding,
    /// Walker (tier-2 objective).
    BossTier2,
    /// Base guardian.
    TrooperBarrackBoss,
    /// Patron (tier-3 objective).
    BossTier3,
    /// Neutral sinner's sacrifice.
    NeutralSinnersSacrifice,
    /// Base defense sentry.
    BaseDefenseSentry,
    /// Shielded sentry.
    ShieldedSentry,
    /// Any entity type outside the recognized classification table; carries
    /// the raw serializer-name hash for error reporting.
    Other(u64),
}

/// The fixed identity code of an NPC or objective category, or `None` for a
/// class that has no category code (players, controllers, game rules, and
/// unrecognized classes).
pub open spec fn npc_code_spec(class: EntityClass) -> Option<u32> {
    match class {
        EntityClass::Trooper => Some(20u32),
        EntityClass::TrooperBoss => Some(21u32),
        EntityClass::TrooperNeutral => Some(22u32),
        EntityClass::MidBoss => Some(23u32),
        EntityClass::ItemXp => Some(24u32),
        EntityClass::DestroyableBuilding => Some(25u32),
        EntityClass::BossTier2 => Some(26u32),
        EntityClass::TrooperBarrackBoss => Some(27u32),
        EntityClass::BossTier3 => Some(28u32),
        EntityClass::NeutralSinnersSacrifice => Some(29u32),
        EntityClass::BaseDefenseSentry => Some(30u32),
        EntityClass::ShieldedSentry => Some(31u32),
        _ => None,
    }
}

/// Executable form of the NPC category table.
pub fn npc_code(class: EntityClass) -> (r: Option<u32>)
    ensures
        r == npc_code_spec(class),
{
    match class {
        EntityClass::Trooper => Some(20),
        EntityClass::TrooperBoss => Some(21),
        EntityClass::TrooperNeutral => Some(22),
        EntityClass::MidBoss => Some(23),
        EntityClass::ItemXp => Some(24),
        EntityClass::DestroyableBuilding => Some(25),
        EntityClass::BossTier2 => Some(26),
        EntityClass::TrooperBarrackBoss => Some(27),
        EntityClass::BossTier3 => Some(28),
        EntityClass::NeutralSinnersSacrifice => Some(29),
        EntityClass::BaseDefenseSentry => Some(30),
        EntityClass::ShieldedSentry => Some(31),
        _ => None,
    }
}

/// Sentinel for a numeric identity-adjacent field that was absent on read.
pub const UNKNOWN_SENTINEL: u32 = 999999;

/// Sentinel for an unresolved lane assignment.
pub const LANE_UNRESOLVED: i32 = 999999;

/// Player metadata, created once on the first identity resolution of the
/// player's pawn and mutated in place only when a lane lock is observed.
///
/// `entity_id` and `custom_id` are kept numeric here; the serialization layer
/// renders them as strings.
#[derive(Clone, Debug)]
pub struct Player {
    /// Raw entity index of the player's pawn.
    pub entity_id: i32,
    /// The stable reporting identity: the lobby slot.
    pub custom_id: u32,
    /// Player name as reported by the controller (empty when absent).
    pub name: String,
    /// 32-bit Steam account id derived from the 64-bit Steam id.
    pub steam_id_32: u32,
    /// Hero id (`UNKNOWN_SENTINEL` when absent).
    pub hero_id: u32,
    /// Lobby slot (`UNKNOWN_SENTINEL` when absent).
    pub lobby_player_slot: u32,
    /// Team number (`UNKNOWN_SENTINEL` when absent).
    pub team: u32,
    /// Lane, `LANE_UNRESOLVED` until a lane lock is observed.
    pub lane: i32,
    /// Zipline lane color (`UNKNOWN_SENTINEL` when absent).
    pub zipline_lane_color: u32,
}

/// Per-window position sample of a tracked entity, in whole world units.
#[derive(Clone, Copy, Debug, PartialEq, Eq, Structural)]
pub struct PlayerPosition {
    pub custom_id: u32,
    pub x: i32,
    pub y: i32,
    pub z: i32,
    pub is_npc: bool,
}

/// One decoded damage event's numeric fields; immutable once created.
#[derive(Clone, Copy, Debug, PartialEq, Eq, Structural)]
pub struct DamageRecord {
    pub damage: i32,
    pub pre_damage: i32,
    pub damage_type: i32,
    pub citadel_type: i32,
    pub entindex_inflictor: i32,
    pub entindex_ability: i32,
    pub damage_absorbed: i32,
    pub victim_health_max: i32,
    pub victim_health_new: i32,
    pub flags: u64,
    pub ability_id: u32,
    pub attacker_class: u32,
    pub victim_class: u32,
    pub victim_shield_max: i32,
    pub victim_shield_new: i32,
    pub hits: i32,
    pub health_lost: i32,
}

/// Snapshot of a tracked objective ("boss") entity; spawn fields are fixed on
/// creation, the death fields are filled on deletion.
#[derive(Clone, Copy, Debug, PartialEq, Eq, Structural)]
pub struct BossSnapshot {
    /// Raw entity index; boss identities are not collapsed per category.
    pub entity_index: i32,
    /// The category code of the boss class.
    pub custom_id: u32,
    /// The entity class of the boss.
    pub class: EntityClass,
    pub team: u32,
    pub lane: i32,
    pub x: i32,
    pub y: i32,
    pub z: i32,
    pub spawn_time_s: u32,
    pub max_health: i32,
    pub life_state_on_create: i32,
    pub death_time_s: Option<u32>,
    pub life_state_on_delete: Option<i32>,
}

/// Snapshot of one creep wave (a spatial cluster) in one window.
#[derive(Clone, Copy, Debug, PartialEq, Eq, Structural)]
pub struct CreepWaveSnapshot {
    /// Centroid X, in whole world units (truncated mean of the members).
    pub x: i32,
    /// Centroid Y, in whole world units (truncated mean of the members).
    pub y: i32,
    /// Number of creeps in the wave.
    pub count: u64,
    /// Team that owns the wave.
    pub team: u32,
}

/// Key of one creep-wave timeline: lane, team and the zero-based wave index
/// within that lane/team ordering. The serialization layer renders it as the
/// composite string `lane_team_waveIndex`.
#[derive(Clone, Copy, Debug, PartialEq, Eq, Structural)]
pub struct WaveKey {
    pub lane: i32,
    pub team: u32,
    pub wave_index: usize,
}

/// Typed errors raised by the core; it never panics and never guesses domain
/// values it has no basis for.
#[derive(Clone, Copy, Debug, PartialEq, Eq, Structural)]
pub enum CoreError {
    /// An entity of a class outside the recognized classification table
    /// reached identity resolution; carries that class.
    UnknownEntityClass(EntityClass),
    /// The game-rules entity was seen without its start-time field.
    MissingGameStartTime,
}

/// Why an identity resolution produced no id. `NotLive` and
/// `UnresolvedOwner` mark an event whose subject cannot be resolved (the
/// event is dropped); `UnknownClass` is the fatal classification error.
#[derive(Clone, Copy, Debug, PartialEq, Eq, Structural)]
pub enum IdError {
    /// The entity index is not in the live entity set.
    NotLive,
    /// The pawn's owning controller cannot be resolved.
    UnresolvedOwner,
    /// The entity's class is outside the classification table.
    UnknownClass(EntityClass),
}

} // verus!
