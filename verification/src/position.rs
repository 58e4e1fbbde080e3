//! Position resolver: converts an entity's raw cell+offset spatial fields
//! into world coordinates. Pure, no state.
//!
//! The recording splits the world into a grid of cells `CELL_WIDTH` world
//! units wide, offset so that cell 0 starts at `-MAX_COORD`; a coordinate is
//! the cell's base plus a within-cell offset. Coordinates here are whole
//! world units (`i32`); the decoder's fractional offsets are rounded by the
//! unverified layer before they reach the core.

use vstd::prelude::*;
use crate::events::EntityFields;

verus! {

/// Width of one spatial cell, in world units.
pub const CELL_WIDTH: i32 = 512;

/// Offset of the grid: cell 0 begins at `-MAX_COORD` world units.
pub const MAX_COORD: i32 = 16384;

/// Largest magnitude a within-cell offset is allowed to carry; offsets
/// beyond it are clamped so that coordinate arithmetic stays in `i32`.
pub const VEC_LIMIT: i32 = 1048576;

/// Bound on every world coordinate the resolver can produce.
pub const COORD_BOUND: i32 = 40000000;

/// A resolved world position in whole world units.
#[derive(Clone, Copy, Debug, PartialEq, Eq, Structural)]
pub struct WorldPos {
    pub x: i32,
    pub y: i32,
    pub z: i32,
}

/// The within-cell offset, clamped to `[-VEC_LIMIT, VEC_LIMIT]`.
pub open spec fn clamp_vec_spec(vec: int) -> int {
    if vec < -VEC_LIMIT {
        -VEC_LIMIT as int
    } else if vec > VEC_LIMIT {
        VEC_LIMIT as int
    } else {
        vec
    }
}

/// World coordinate of a cell index plus a (clamped) within-cell offset.
pub open spec fn coord_spec(cell: u16, vec: int) -> int {
    cell * CELL_WIDTH - MAX_COORD + clamp_vec_spec(vec)
}

/// Get a single world coordinate from an entity's cell and offset fields.
pub fn get_entity_coord(cell: u16, vec: i32) -> (c: i32)
    ensures
        c == coord_spec(cell, vec as int),
        -COORD_BOUND <= c <= COORD_BOUND,
{
    let v: i32 = if vec < -VEC_LIMIT {
        -VEC_LIMIT
    } else if vec > VEC_LIMIT {
        VEC_LIMIT
    } else {
        vec
    };
    (cell as i32) * CELL_WIDTH - MAX_COORD + v
}

/// The world position an entity's fields resolve to: each axis from its
/// cell and offset, or the origin when the spatial fields are absent
/// (the sentinel for a missing position-adjacent field is 0).
pub open spec fn position_spec(fields: EntityFields) -> WorldPos {
    match fields.position {
        Some(p) => WorldPos {
            x: coord_spec(p.cell_x, p.vec_x as int) as i32,
            y: coord_spec(p.cell_y, p.vec_y as int) as i32,
            z: coord_spec(p.cell_z, p.vec_z as int) as i32,
        },
        None => WorldPos { x: 0, y: 0, z: 0 },
    }
}

/// Get the full world position from an entity's fields.
pub fn get_entity_position(fields: &EntityFields) -> (r: WorldPos)
    ensures
        r == position_spec(*fields),
        -COORD_BOUND <= r.x <= COORD_BOUND,
        -COORD_BOUND <= r.y <= COORD_BOUND,
        -COORD_BOUND <= r.z <= COORD_BOUND,
{
    match fields.position {
        Some(p) => WorldPos {
            x: get_entity_coord(p.cell_x, p.vec_x),
            y: get_entity_coord(p.cell_y, p.vec_y),
            z: get_entity_coord(p.cell_z, p.vec_z),
        },
        None => WorldPos { x: 0, y: 0, z: 0 },
    }
}

} // verus!
