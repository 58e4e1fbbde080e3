//! Steam id conversion: a 32-bit account id is the 64-bit Steam id minus a
//! fixed offset.

use vstd::prelude::*;
use crate::events::{EntityEntry, EntityFields};
use crate::assoc::{find_pair_spec, find_entity};

verus! {

/// The fixed offset between a 64-bit Steam id and its 32-bit account id.
pub const STEAM_ID64_OFFSET: u64 = 76561197960265728;

/// Mask extracting the entity index from an entity handle.
pub const EHANDLE_INDEX_MASK: u32 = 0x3FFF;

/// The account id of a 64-bit Steam id: the offset subtraction, truncated to
/// 32 bits; ids below the offset saturate to 0 rather than wrapping, and a
/// missing id maps to 0.
pub open spec fn account_id_spec(steamid64: Option<u64>) -> u32 {
    match steamid64 {
        Some(id) => if id >= STEAM_ID64_OFFSET {
            ((id - STEAM_ID64_OFFSET) % 0x100000000) as u32
        } else {
            0u32
        },
        None => 0u32,
    }
}

/// Convert a 64-bit Steam id to a 32-bit Steam account id.
pub fn steamid64_to_accountid(steamid64: Option<u64>) -> (r: u32)
    ensures
        r == account_id_spec(steamid64),
{
    match steamid64 {
        Some(id) => {
            if id >= STEAM_ID64_OFFSET {
                ((id - STEAM_ID64_OFFSET) % 0x100000000) as u32
            } else {
                0
            }
        },
        None => 0,
    }
}

/// Get the 32-bit Steam account id from an entity's fields.
pub fn get_steam_id32(fields: &EntityFields) -> (r: Option<u32>)
    ensures
        r == Some(account_id_spec(fields.steam_id)),
{
    let steamid64: Option<u64> = fields.steam_id;
    Some(steamid64_to_accountid(steamid64))
}

/// The entity index an entity handle refers to.
pub open spec fn ehandle_to_index_spec(handle: u32) -> i32 {
    (handle & EHANDLE_INDEX_MASK) as i32
}

/// Resolve an entity handle to the index of the entity it refers to.
pub fn ehandle_to_index(handle: u32) -> (r: i32)
    ensures
        r == ehandle_to_index_spec(handle),
        0 <= r <= EHANDLE_INDEX_MASK,
{
    proof {
        assert((handle & EHANDLE_INDEX_MASK) <= EHANDLE_INDEX_MASK) by (bit_vector);
    }
    (handle & EHANDLE_INDEX_MASK) as i32
}

/// Get the 64-bit Steam id of the controller paired with a pawn: resolve the
/// pawn's controller handle against the live entity set and read the
/// controller's Steam id; `None` when the handle is absent or the controller
/// is not live.
pub fn get_steamid_from_pawn(pawn: &EntityFields, entities: &Vec<(i32, EntityEntry)>) -> (r: Option<
    u64,
>)
    ensures
        r == (match pawn.pawn_handle {
            Some(h) => match find_pair_spec(entities@, ehandle_to_index_spec(h)) {
                Some(e) => e.fields.steam_id,
                None => None::<u64>,
            },
            None => None::<u64>,
        }),
{
    match pawn.pawn_handle {
        Some(h) => {
            let idx: i32 = ehandle_to_index(h);
            match find_entity(entities, idx) {
                Some(pos) => entities[pos].1.fields.steam_id,
                None => None,
            }
        },
        None => None,
    }
}

} // verus!
