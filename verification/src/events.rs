//! Input events of the core: entity lifecycle events with their field bundle,
//! and decoded damage messages.
//!
//! The decoder reads entity fields by precomputed field key with a
//! "default on missing" discipline; here every such read is an `Option`, with
//! `None` standing for a field that was absent at event time.

use vstd::prelude::*;
use crate::domain::EntityClass;

verus! {

/// Kind of an entity lifecycle event.
#[derive(Clone, Copy, Debug, PartialEq, Eq, Structural)]
pub enum EntityKind {
    Create,
    Update,
    Delete,
}

/// Raw spatial fields of an entity: a cell index and a within-cell offset per
/// axis, the offset already rounded to whole world units.
#[derive(Clone, Copy, Debug, PartialEq, Eq, Structural)]
pub struct RawPos {
    pub cell_x: u16,
    pub vec_x: i32,
    pub cell_y: u16,
    pub vec_y: i32,
    pub cell_z: u16,
    pub vec_z: i32,
}

/// The typed fields the core reads from an entity, sampled at event time.
/// `None` means the field was absent on that read.
#[derive(Clone, Debug)]
pub struct EntityFields {
    /// Handle of the owning entity (a pawn's owning controller).
    pub owner_handle: Option<u32>,
    /// Handle of the paired pawn/controller entity.
    pub pawn_handle: Option<u32>,
    /// Player name (controllers).
    pub player_name: Option<String>,
    /// 64-bit Steam id (controllers).
    pub steam_id: Option<u64>,
    /// Hero id (controllers).
    pub hero_id: Option<u32>,
    /// Lobby player slot (controllers).
    pub lobby_player_slot: Option<u32>,
    /// Team number.
    pub team: Option<u32>,
    /// Zipline lane color (controllers).
    pub zipline_lane_color: Option<u32>,
    /// Lane number.
    pub lane: Option<i32>,
    /// Current health.
    pub health: Option<i32>,
    /// Maximum health.
    pub max_health: Option<i32>,
    /// Life state.
    pub life_state: Option<i32>,
    /// Whether lane swapping is locked (controllers).
    pub lane_swap_locked: Option<bool>,
    /// The assigned lane after swaps (controllers); 0 is the unset sentinel.
    pub assigned_lane: Option<i32>,
    /// The original lane assignment (controllers).
    pub original_lane: Option<i32>,
    /// Match start time in milliseconds (game-rules entity); values under one
    /// millisecond are placeholders reported before the match has started.
    pub game_start_time_ms: Option<u64>,
    /// Raw spatial fields.
    pub position: Option<RawPos>,
}

impl EntityFields {
    /// A field bundle with every field absent.
    pub fn empty() -> (r: EntityFields)
        ensures
            r.owner_handle is None,
            r.pawn_handle is None,
            r.player_name is None,
            r.steam_id is None,
            r.hero_id is None,
            r.lobby_player_slot is None,
            r.team is None,
            r.zipline_lane_color is None,
            r.lane is None,
            r.health is None,
            r.max_health is None,
            r.life_state is None,
            r.lane_swap_locked is None,
            r.assigned_lane is None,
            r.original_lane is None,
            r.game_start_time_ms is None,
            r.position is None,
    {
        EntityFields {
            owner_handle: None,
            pawn_handle: None,
            player_name: None,
            steam_id: None,
            hero_id: None,
            lobby_player_slot: None,
            team: None,
            zipline_lane_color: None,
            lane: None,
            health: None,
            max_health: None,
            life_state: None,
            lane_swap_locked: None,
            assigned_lane: None,
            original_lane: None,
            game_start_time_ms: None,
            position: None,
        }
    }
}

/// A live entity as mirrored by the core: its class and its latest fields.
#[derive(Clone, Debug)]
pub struct EntityEntry {
    pub class: EntityClass,
    pub fields: EntityFields,
}

/// The numeric fields of a decoded damage message that the core consumes.
#[derive(Clone, Copy, Debug, PartialEq, Eq, Structural)]
pub struct DamageMsg {
    pub entindex_attacker: i32,
    pub entindex_victim: i32,
    pub entindex_inflictor: i32,
    pub entindex_ability: i32,
    pub damage: i32,
    pub pre_damage: i32,
    pub damage_type: i32,
    pub citadel_type: i32,
    pub damage_absorbed: i32,
    pub victim_health_max: i32,
    pub victim_health_new: i32,
    pub flags: u64,
    pub ability_id: u32,
    pub attacker_class: u32,
    pub victim_class: u32,
    pub victim_shield_max: i32,
    pub victim_shield_new: i32,
    pub hits: i32,
    pub health_lost: i32,
}

} // verus!
