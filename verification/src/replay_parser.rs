//! The tick-window accumulator: consumes the ordered entity/packet event
//! stream, resolves identities, buckets damage and positions into one-second
//! windows, and drives the boss and creep trackers.

use vstd::prelude::*;
use vstd::arithmetic::div_mod::{lemma_div_is_ordered, lemma_div_multiples_vanish_fancy};
use crate::assoc::{find_pair_spec, find_key_idx, find_idx_i32, find_idx_u32, find_entity,
    lemma_find_at, lemma_find_push, lemma_find_update, unique_keys, upsert_i32, remove_key_i32};
use crate::boss_tracker::{BossTracker, is_boss_class, health_or_zero, snapshot_spec,
    window_map_spec};
use crate::creep_tracker::{CreepTracker, is_creep_class, creep_spec, active_view, none_slots,
    window_waves_spec};
use crate::domain::{BossSnapshot, CoreError, CreepWaveSnapshot, DamageRecord, EntityClass,
    IdError, Player, PlayerPosition, WaveKey, npc_code_spec, npc_code, LANE_UNRESOLVED,
    UNKNOWN_SENTINEL};
use crate::events::{DamageMsg, EntityEntry, EntityFields, EntityKind};
use crate::position::{position_spec, get_entity_position};
use crate::steam_id::{account_id_spec, ehandle_to_index_spec, ehandle_to_index,
    steamid64_to_accountid};

verus! {

/// One window's damage buckets: attacker id, then victim id, then the
/// records in arrival order.
pub type DamageWindow = Vec<(u32, Vec<(u32, Vec<DamageRecord>)>)>;

/// The lobby-slot sentinel when a lane-locked controller reports no slot.
pub const SLOT_UNKNOWN: u32 = 9999;

/// Microseconds per second (a window is one second).
pub const US_PER_S: u64 = 1000000;

/// The one-second window a tick falls in: `tick * interval`, rounded to the
/// nearest whole second (half away from zero).
pub open spec fn window_spec(tick: int, tick_interval_us: int) -> int {
    (tick * tick_interval_us + 500000) / 1000000
}

/// The lobby slot a pawn resolves to through its owning controller, if the
/// owner chain resolves: the controller's slot, with the unknown sentinel
/// when the controller reports none.
pub open spec fn pawn_slot_spec(entities: Seq<(i32, EntityEntry)>, index: i32) -> Option<u32> {
    match find_pair_spec(entities, index) {
        Some(e) => match e.fields.owner_handle {
            Some(h) => match find_pair_spec(entities, ehandle_to_index_spec(h)) {
                Some(owner) => Some(
                    match owner.fields.lobby_player_slot {
                        Some(s) => s,
                        None => UNKNOWN_SENTINEL,
                    },
                ),
                None => None,
            },
            None => None,
        },
        None => None,
    }
}

/// The custom id an entity index resolves to: the (cached) lobby slot for a
/// player pawn, the fixed category code for a recognized NPC class, and a
/// typed error otherwise.
pub open spec fn resolve_id_spec(
    entities: Seq<(i32, EntityEntry)>,
    cache: Seq<(i32, u32)>,
    index: i32,
) -> Result<u32, IdError> {
    match find_pair_spec(entities, index) {
        None => Err(IdError::NotLive),
        Some(e) => {
            if e.class == EntityClass::PlayerPawn {
                match find_pair_spec(cache, index) {
                    Some(slot) => Ok(slot),
                    None => match pawn_slot_spec(entities, index) {
                        Some(slot) => Ok(slot),
                        None => Err(IdError::UnresolvedOwner),
                    },
                }
            } else {
                match npc_code_spec(e.class) {
                    Some(c) => Ok(c),
                    None => Err(IdError::UnknownClass(e.class)),
                }
            }
        },
    }
}

/// Whether resolving the index memoizes a new pawn (and appends a player).
pub open spec fn resolve_appends_spec(
    entities: Seq<(i32, EntityEntry)>,
    cache: Seq<(i32, u32)>,
    index: i32,
) -> bool {
    match find_pair_spec(entities, index) {
        Some(e) => e.class == EntityClass::PlayerPawn && find_pair_spec(cache, index) is None
            && pawn_slot_spec(entities, index) is Some,
        None => false,
    }
}

/// The memoization cache after resolving the index.
pub open spec fn resolve_cache_spec(
    entities: Seq<(i32, EntityEntry)>,
    cache: Seq<(i32, u32)>,
    index: i32,
) -> Seq<(i32, u32)> {
    if resolve_appends_spec(entities, cache, index) {
        match pawn_slot_spec(entities, index) {
            Some(slot) => cache.push((index, slot)),
            None => cache,
        }
    } else {
        cache
    }
}

/// What the player record appended for a pawn holds: identity fields from
/// the pawn, the rest read from its owning controller, with documented
/// sentinels for missing reads and the lane unresolved.
pub open spec fn player_matches(p: Player, entities: Seq<(i32, EntityEntry)>, index: i32) -> bool {
    match find_pair_spec(entities, index) {
        Some(e) => match e.fields.owner_handle {
            Some(h) => match find_pair_spec(entities, ehandle_to_index_spec(h)) {
                Some(owner) => {
                    let slot = match owner.fields.lobby_player_slot {
                        Some(s) => s,
                        None => UNKNOWN_SENTINEL,
                    };
                    &&& p.entity_id == index
                    &&& p.custom_id == slot
                    &&& p.name@ == (match owner.fields.player_name {
                        Some(s) => s@,
                        None => Seq::<char>::empty(),
                    })
                    &&& p.steam_id_32 == account_id_spec(owner.fields.steam_id)
                    &&& p.hero_id == (match owner.fields.hero_id {
                        Some(x) => x,
                        None => UNKNOWN_SENTINEL,
                    })
                    &&& p.lobby_player_slot == slot
                    &&& p.team == (match owner.fields.team {
                        Some(x) => x,
                        None => UNKNOWN_SENTINEL,
                    })
                    &&& p.lane == LANE_UNRESOLVED
                    &&& p.zipline_lane_color == (match owner.fields.zipline_lane_color {
                        Some(x) => x,
                        None => UNKNOWN_SENTINEL,
                    })
                },
                None => false,
            },
            None => false,
        },
        None => false,
    }
}

/// The identity used in the damage matrix: a tracked objective keeps its raw
/// entity index so simultaneous objectives of one category stay separate;
/// anything else resolves to its custom id.
pub open spec fn damage_id_spec(
    entities: Seq<(i32, EntityEntry)>,
    cache: Seq<(i32, u32)>,
    index: i32,
) -> Result<u32, IdError> {
    match find_pair_spec(entities, index) {
        None => Err(IdError::NotLive),
        Some(e) => if is_boss_class(e.class) {
            Ok(index as u32)
        } else {
            resolve_id_spec(entities, cache, index)
        },
    }
}

/// Whether the damage-identity resolution memoizes a new pawn.
pub open spec fn damage_appends_spec(
    entities: Seq<(i32, EntityEntry)>,
    cache: Seq<(i32, u32)>,
    index: i32,
) -> bool {
    match find_pair_spec(entities, index) {
        None => false,
        Some(e) => if is_boss_class(e.class) {
            false
        } else {
            resolve_appends_spec(entities, cache, index)
        },
    }
}

/// The memoization cache after a damage-identity resolution.
pub open spec fn damage_cache_spec(
    entities: Seq<(i32, EntityEntry)>,
    cache: Seq<(i32, u32)>,
    index: i32,
) -> Seq<(i32, u32)> {
    if damage_appends_spec(entities, cache, index) {
        resolve_cache_spec(entities, cache, index)
    } else {
        cache
    }
}

/// The records bucketed under an attacker/victim pair.
pub open spec fn dmg_of(
    w: Seq<(u32, Vec<(u32, Vec<DamageRecord>)>)>,
    a: u32,
    v: u32,
) -> Seq<DamageRecord> {
    match find_pair_spec(w, a) {
        None => Seq::empty(),
        Some(lvl) => match find_pair_spec(lvl@, v) {
            None => Seq::empty(),
            Some(recs) => recs@,
        },
    }
}

/// Both levels of the damage buckets are keyed injectively.
pub open spec fn dmg_wf(w: Seq<(u32, Vec<(u32, Vec<DamageRecord>)>)>) -> bool {
    &&& unique_keys(w)
    &&& forall|i: int| 0 <= i < w.len() ==> unique_keys((#[trigger] w[i]).1@)
}

/// Append a damage record into `buffer[attacker][victim]`, creating the
/// intermediate buckets on demand.
fn dmg_push(w: &mut DamageWindow, a: u32, v: u32, rec: DamageRecord)
    requires
        dmg_wf(old(w)@),
    ensures
        dmg_wf(final(w)@),
        dmg_of(final(w)@, a, v) == dmg_of(old(w)@, a, v).push(rec),
        forall|a2: u32, v2: u32|
            !(a2 == a && v2 == v) ==> #[trigger] dmg_of(final(w)@, a2, v2) == dmg_of(
                old(w)@,
                a2,
                v2,
            ),
{
    let found = find_idx_u32(w, a);
    let ghost pre = w@;
    match found {
        Some(i) => {
            let mut entry = w.remove(i);
            let ghost inner_pre = entry.1@;
            let vfound = find_idx_u32(&entry.1, v);
            match vfound {
                Some(j) => {
                    let mut ve = entry.1.remove(j);
                    ve.1.push(rec);
                    entry.1.insert(j, ve);
                    proof {
                        assert(entry.1@ =~= inner_pre.update(j as int, ve));
                        assert forall|v2: u32| true implies #[trigger] find_pair_spec(
                            entry.1@,
                            v2,
                        ) == (if v2 == v {
                            Some(ve.1)
                        } else {
                            find_pair_spec(inner_pre, v2)
                        }) by {
                            lemma_find_update(inner_pre, j as int, ve, v2);
                        }
                        assert forall|x: int, y: int|
                            0 <= x < y < entry.1@.len() implies entry.1@[x].0 != entry.1@[y].0 by {
                            assert(entry.1@[x].0 == inner_pre[x].0);
                            assert(entry.1@[y].0 == inner_pre[y].0);
                        }
                    }
                },
                None => {
                    let mut fresh: Vec<DamageRecord> = Vec::new();
                    fresh.push(rec);
                    entry.1.push((v, fresh));
                    proof {
                        assert forall|v2: u32| true implies #[trigger] find_pair_spec(
                            entry.1@,
                            v2,
                        ) == (if v2 == v {
                            Some(fresh)
                        } else {
                            find_pair_spec(inner_pre, v2)
                        }) by {
                            lemma_find_push(inner_pre, (v, fresh), v2);
                        }
                        assert forall|x: int, y: int|
                            0 <= x < y < entry.1@.len() implies entry.1@[x].0 != entry.1@[y].0 by {
                            if y == entry.1@.len() - 1 {
                                if entry.1@[x].0 == v {
                                    lemma_find_at(inner_pre, v, x);
                                }
                            } else {
                                assert(entry.1@[x] == inner_pre[x]);
                                assert(entry.1@[y] == inner_pre[y]);
                            }
                        }
                        assert(fresh@ =~= dmg_of(pre, a, v).push(rec));
                    }
                },
            }
            w.insert(i, entry);
            proof {
                assert(w@ =~= pre.update(i as int, entry));
                assert forall|a2: u32| true implies #[trigger] find_pair_spec(w@, a2) == (if a2
                    == a {
                    Some(entry.1)
                } else {
                    find_pair_spec(pre, a2)
                }) by {
                    lemma_find_update(pre, i as int, (a, entry.1), a2);
                    assert((a, entry.1) == (entry.0, entry.1));
                    assert(entry == (entry.0, entry.1));
                }
                assert forall|x: int, y: int| 0 <= x < y < w@.len() implies w@[x].0 != w@[y].0 by {
                    assert(w@[x].0 == pre[x].0);
                    assert(w@[y].0 == pre[y].0);
                }
            }
        },
        None => {
            let mut fresh: Vec<DamageRecord> = Vec::new();
            fresh.push(rec);
            let mut inner: Vec<(u32, Vec<DamageRecord>)> = Vec::new();
            inner.push((v, fresh));
            w.push((a, inner));
            proof {
                assert forall|a2: u32| true implies #[trigger] find_pair_spec(w@, a2) == (if a2
                    == a {
                    Some(inner)
                } else {
                    find_pair_spec(pre, a2)
                }) by {
                    lemma_find_push(pre, (a, inner), a2);
                }
                assert forall|x: int, y: int| 0 <= x < y < w@.len() implies w@[x].0 != w@[y].0 by {
                    if y == w@.len() - 1 {
                        if w@[x].0 == a {
                            lemma_find_at(pre, a, x);
                        }
                    } else {
                        assert(w@[x] == pre[x]);
                        assert(w@[y] == pre[y]);
                    }
                }
                assert(inner@[0] == (v, fresh));
                assert(inner@.drop_first() =~= Seq::<(u32, Vec<DamageRecord>)>::empty());
                assert forall|v2: u32| v2 != v implies find_pair_spec(inner@, v2) is None by {
                    assert(find_pair_spec(inner@.drop_first(), v2) is None);
                }
                assert(fresh@ =~= dmg_of(pre, a, v).push(rec));
            }
        },
    }
}

/// Every player's lane has been resolved.
pub open spec fn all_lanes_resolved(players: Seq<Player>) -> bool {
    forall|i: int| 0 <= i < players.len() ==> (#[trigger] players[i]).lane != LANE_UNRESOLVED
}

/// The lane a lane-locked controller reports: the assigned lane unless it is
/// the unset sentinel 0, then the original assignment, then unresolved.
pub open spec fn lane_value_spec(fields: EntityFields) -> i32 {
    match fields.assigned_lane {
        Some(v) => if v != 0 {
            v
        } else {
            match fields.original_lane {
                Some(o) => o,
                None => LANE_UNRESOLVED,
            }
        },
        None => match fields.original_lane {
            Some(o) => o,
            None => LANE_UNRESOLVED,
        },
    }
}

/// The position of the first player holding a lobby slot, or `-1`.
pub open spec fn first_slot_idx(players: Seq<Player>, slot: u32) -> int
    decreases players.len(),
{
    if players.len() == 0 {
        -1
    } else if players[0].lobby_player_slot == slot {
        0
    } else {
        let r = first_slot_idx(players.drop_first(), slot);
        if r < 0 {
            -1
        } else {
            r + 1
        }
    }
}

/// What the first-slot position means.
pub proof fn lemma_first_slot_idx(players: Seq<Player>, slot: u32)
    ensures
        first_slot_idx(players, slot) == -1 ==> forall|j: int|
            0 <= j < players.len() ==> (#[trigger] players[j]).lobby_player_slot != slot,
        first_slot_idx(players, slot) >= 0 ==> {
            let i = first_slot_idx(players, slot);
            &&& i < players.len()
            &&& players[i].lobby_player_slot == slot
            &&& forall|j: int| 0 <= j < i ==> (#[trigger] players[j]).lobby_player_slot != slot
        },
    decreases players.len(),
{
    if players.len() > 0 && players[0].lobby_player_slot != slot {
        lemma_first_slot_idx(players.drop_first(), slot);
        let r = first_slot_idx(players.drop_first(), slot);
        if r < 0 {
            assert forall|j: int|
                0 <= j < players.len() implies (#[trigger] players[j]).lobby_player_slot != slot by {
                if j > 0 {
                    assert(players.drop_first()[j - 1] == players[j]);
                }
            }
        } else {
            let i = first_slot_idx(players, slot);
            assert(i == r + 1);
            assert(players.drop_first()[r] == players[i]);
            assert forall|j: int|
                0 <= j < i implies (#[trigger] players[j]).lobby_player_slot != slot by {
                if j > 0 {
                    assert(players.drop_first()[j - 1] == players[j]);
                }
            }
        }
    }
}

/// Whether an entity class is in the position-tracking allow-list: player
/// pawns and every NPC/objective category of the classification table.
pub open spec fn should_track_spec(class: EntityClass) -> bool {
    class == EntityClass::PlayerPawn || npc_code_spec(class) is Some
}

/// The match start time after a game-rules read: fixed once set; set only
/// when the reported value is at least one millisecond, rounded up to the
/// next whole second (saturating at the largest second).
pub open spec fn start_update_spec(old_start: Option<u32>, ms: u64) -> Option<u32> {
    if old_start is None && ms >= 1 {
        Some(ceil_seconds_spec(ms))
    } else {
        old_start
    }
}

/// Milliseconds rounded up to whole seconds, saturating at `u32::MAX`.
pub open spec fn ceil_seconds_spec(ms: u64) -> u32 {
    let v = ms / 1000 + (if ms % 1000 != 0 {
        1int
    } else {
        0int
    });
    if v > u32::MAX {
        u32::MAX
    } else {
        v as u32
    }
}

/// The position sample of a tracked entity under its resolved identity.
pub open spec fn sample_of(id: u32, e: EntityEntry) -> PlayerPosition {
    PlayerPosition {
        custom_id: id,
        x: position_spec(e.fields).x,
        y: position_spec(e.fields).y,
        z: position_spec(e.fields).z,
        is_npc: e.class != EntityClass::PlayerPawn,
    }
}

/// The window-boundary position sweep over the first `n` live entities, in
/// tracking order: the cache after all resolutions, the samples appended,
/// and the pawn indices whose player records were appended, in order.
pub open spec fn sample_fold(
    entities: Seq<(i32, EntityEntry)>,
    cache: Seq<(i32, u32)>,
    n: int,
) -> (Seq<(i32, u32)>, Seq<PlayerPosition>, Seq<i32>)
    decreases n,
{
    if n <= 0 {
        (cache, Seq::empty(), Seq::empty())
    } else {
        let (c1, w1, a1) = sample_fold(entities, cache, n - 1);
        let (idx, e) = entities[n - 1];
        if should_track_spec(e.class) {
            let r = resolve_id_spec(entities, c1, idx);
            let c2 = resolve_cache_spec(entities, c1, idx);
            let a2 = if resolve_appends_spec(entities, c1, idx) {
                a1.push(idx)
            } else {
                a1
            };
            match r {
                Ok(id) => (c2, w1.push(sample_of(id, e)), a2),
                Err(_) => (c2, w1, a2),
            }
        } else {
            (c1, w1, a1)
        }
    }
}

/// The tick-window accumulator and orchestrator: one instance per match, no
/// global state.
pub struct MatchAccumulator {
    /// The last finalized elapsed second.
    pub total_game_time_s: u32,
    /// The match start time, fixed once known.
    pub game_start_time_s: Option<u32>,
    /// Mirror of the live entity set, keyed by raw entity index.
    pub entities: Vec<(i32, EntityEntry)>,
    /// The damage buckets of the current window.
    pub damage_window: DamageWindow,
    /// One damage bucket map per finalized window.
    pub damage: Vec<DamageWindow>,
    /// Player records, appended on first pawn resolution, never removed.
    pub players: Vec<Player>,
    /// Memoized pawn index to lobby slot resolutions.
    pub pawn_slot_cache: Vec<(i32, u32)>,
    /// The position samples of the current window.
    pub positions_window: Vec<PlayerPosition>,
    /// One position sample list per finalized window.
    pub positions: Vec<Vec<PlayerPosition>>,
    /// Objective lifecycle and health tracking.
    pub boss_tracker: BossTracker,
    /// Lane-creep position and wave tracking.
    pub creep_tracker: CreepTracker,
    /// Set once every player's lane is resolved; lane-lock checking is then
    /// permanently disabled.
    pub lane_data_updated: bool,
}

impl MatchAccumulator {
    /// All maps are keyed injectively, the trackers are well-formed, and the
    /// per-window timelines that are filled together stay the same length.
    pub open spec fn wf(&self) -> bool {
        &&& unique_keys(self.entities@)
        &&& unique_keys(self.pawn_slot_cache@)
        &&& dmg_wf(self.damage_window@)
        &&& forall|i: int| 0 <= i < self.damage@.len() ==> dmg_wf((#[trigger] self.damage@[i])@)
        &&& self.boss_tracker.wf()
        &&& self.creep_tracker.wf()
        &&& self.damage@.len() == self.positions@.len()
        &&& self.damage@.len() == self.boss_tracker.health_timeline@.len()
    }

    /// A fresh accumulator: nothing finalized, nothing tracked.
    pub fn new() -> (r: MatchAccumulator)
        ensures
            r.wf(),
            r.total_game_time_s == 0,
            r.game_start_time_s is None,
            r.entities@ == Seq::<(i32, EntityEntry)>::empty(),
            r.damage_window@ == Seq::<(u32, Vec<(u32, Vec<DamageRecord>)>)>::empty(),
            r.damage@ == Seq::<DamageWindow>::empty(),
            r.players@ == Seq::<Player>::empty(),
            r.pawn_slot_cache@ == Seq::<(i32, u32)>::empty(),
            r.positions_window@ == Seq::<PlayerPosition>::empty(),
            r.positions@ == Seq::<Vec<PlayerPosition>>::empty(),
            r.boss_tracker.bosses@ == Seq::<(i32, BossSnapshot)>::empty(),
            r.boss_tracker.health_samples@ == Seq::<(i32, Vec<(u32, i32)>)>::empty(),
            r.boss_tracker.health_timeline@ == Seq::<Vec<(i32, i32)>>::empty(),
            r.creep_tracker.active_creeps@ == Seq::<
                (i32, crate::creep_tracker::ActiveCreep),
            >::empty(),
            r.creep_tracker.wave_timeline@ == Seq::<
                (WaveKey, Vec<Option<CreepWaveSnapshot>>),
            >::empty(),
            r.creep_tracker.current_window == 0,
            !r.lane_data_updated,
    {
        MatchAccumulator {
            total_game_time_s: 0,
            game_start_time_s: None,
            entities: Vec::new(),
            damage_window: Vec::new(),
            damage: Vec::new(),
            players: Vec::new(),
            pawn_slot_cache: Vec::new(),
            positions_window: Vec::new(),
            positions: Vec::new(),
            boss_tracker: BossTracker::new(),
            creep_tracker: CreepTracker::new(),
            lane_data_updated: false,
        }
    }

    /// The one-second window a tick falls in.
    pub fn window_of(tick: u32, tick_interval_us: u64) -> (w: u32)
        requires
            1 <= tick_interval_us <= US_PER_S,
        ensures
            w == window_spec(tick as int, tick_interval_us as int),
            w <= tick,
    {
        proof {
            vstd::arithmetic::mul::lemma_mul_upper_bound(
                tick as int,
                u32::MAX as int,
                tick_interval_us as int,
                US_PER_S as int,
            );
            let t = tick as int;
            let i = tick_interval_us as int;
            assert(t * i <= t * 1000000) by (nonlinear_arith)
                requires
                    0 <= t,
                    i <= 1000000,
            ;
            lemma_div_is_ordered(t * i + 500000, t * 1000000 + 500000, 1000000);
            lemma_div_multiples_vanish_fancy(t, 500000, 1000000);
        }
        (((tick as u64) * tick_interval_us + 500000) / 1000000) as u32
    }

    /// Whether an entity's positions are sampled at window boundaries.
    pub fn should_track_position(&self, class: EntityClass) -> (r: bool)
        ensures
            r == should_track_spec(class),
    {
        if class == EntityClass::PlayerPawn {
            true
        } else {
            npc_code(class).is_some()
        }
    }

    /// Whether the entity is reported as an NPC in position samples.
    pub fn is_npc_entity(&self, class: EntityClass) -> (r: bool)
        ensures
            r == (class != EntityClass::PlayerPawn),
    {
        class != EntityClass::PlayerPawn
    }

    /// Read the match start time from the game-rules entity: an error when
    /// the field is absent (that single event fails, the stream continues);
    /// otherwise the start time is fixed on the first valid (at least one
    /// millisecond) value, rounded up to the next whole second.
    pub fn handle_game_rules(&mut self, fields: &EntityFields) -> (r: Result<(), CoreError>)
        requires
            old(self).wf(),
        ensures
            final(self).wf(),
            final(self).game_start_time_s == (match fields.game_start_time_ms {
                Some(ms) => start_update_spec(old(self).game_start_time_s, ms),
                None => old(self).game_start_time_s,
            }),
            r == (match fields.game_start_time_ms {
                Some(ms) => Ok::<(), CoreError>(()),
                None => Err::<(), CoreError>(CoreError::MissingGameStartTime),
            }),
            *final(self) == (MatchAccumulator {
                game_start_time_s: final(self).game_start_time_s,
                ..*old(self)
            }),
    {
        match fields.game_start_time_ms {
            None => Err(CoreError::MissingGameStartTime),
            Some(ms) => {
                if self.game_start_time_s.is_none() && ms >= 1 {
                    let q: u64 = ms / 1000;
                    let r64: u64 = ms % 1000;
                    let extra: u64 = if r64 != 0 {
                        1
                    } else {
                        0
                    };
                    let v: u64 = q + extra;
                    let capped: u32 = if v > (u32::MAX as u64) {
                        u32::MAX
                    } else {
                        v as u32
                    };
                    self.game_start_time_s = Some(capped);
                }
                Ok(())
            },
        }
    }

    /// Lane-lock check on a controller UPDATE: when the controller reports
    /// lane swapping locked, fix the matching player's lane; once every
    /// player's lane is resolved, disable further checking.
    pub fn check_and_update_lane_lock(&mut self, class: EntityClass, fields: &EntityFields)
        requires
            old(self).wf(),
        ensures
            final(self).wf(),
            *final(self) == (MatchAccumulator {
                players: final(self).players,
                lane_data_updated: final(self).lane_data_updated,
                ..*old(self)
            }),
            ({
                let proceed = class == EntityClass::PlayerController && (
                match fields.lane_swap_locked {
                    Some(b) => b,
                    None => false,
                });
                &&& !proceed ==> final(self).players == old(self).players && final(
                    self).lane_data_updated == old(self).lane_data_updated
                &&& proceed ==> {
                    let slot = match fields.lobby_player_slot {
                        Some(s) => s,
                        None => SLOT_UNKNOWN,
                    };
                    let idx = first_slot_idx(old(self).players@, slot);
                    &&& idx < 0 ==> final(self).players == old(self).players
                    &&& idx >= 0 ==> final(self).players@ == old(self).players@.update(
                        idx,
                        Player { lane: lane_value_spec(*fields), ..old(self).players@[idx] },
                    )
                    &&& final(self).lane_data_updated == (old(self).lane_data_updated
                        || all_lanes_resolved(final(self).players@))
                }
            }),
    {
        if !(class == EntityClass::PlayerController) {
            return ;
        }
        let locked: bool = match fields.lane_swap_locked {
            Some(b) => b,
            None => false,
        };
        if !locked {
            return ;
        }
        let slot: u32 = match fields.lobby_player_slot {
            Some(s) => s,
            None => SLOT_UNKNOWN,
        };
        proof {
            lemma_first_slot_idx(self.players@, slot);
        }
        let mut i: usize = 0;
        let mut found: Option<usize> = None;
        while i < self.players.len()
            invariant_except_break
                found is None,
            invariant
                0 <= i <= self.players@.len(),
                forall|j: int|
                    0 <= j < i ==> (#[trigger] self.players@[j]).lobby_player_slot != slot,
                *self == *old(self),
            ensures
                *self == *old(self),
                match found {
                    Some(f) => f
                        < self.players@.len() && self.players@[f as int].lobby_player_slot == slot
                        && f as int == first_slot_idx(self.players@, slot),
                    None => forall|j: int|
                        0 <= j < self.players@.len() ==> (
                        #[trigger] self.players@[j]).lobby_player_slot != slot,
                },
            decreases self.players@.len() - i,
        {
            if self.players[i].lobby_player_slot == slot {
                proof {
                    lemma_first_slot_idx(self.players@, slot);
                }
                found = Some(i);
                break ;
            }
            i = i + 1;
        }
        proof {
            lemma_first_slot_idx(self.players@, slot);
        }
        match found {
            Some(f) => {
                let lane: i32 = match fields.assigned_lane {
                    Some(v) => if v != 0 {
                        v
                    } else {
                        match fields.original_lane {
                            Some(o) => o,
                            None => LANE_UNRESOLVED,
                        }
                    },
                    None => match fields.original_lane {
                        Some(o) => o,
                        None => LANE_UNRESOLVED,
                    },
                };
                let ghost pre_players = self.players@;
                let mut p = self.players.remove(f);
                p.lane = lane;
                self.players.insert(f, p);
                proof {
                    assert(self.players@ =~= pre_players.update(f as int, p));
                }
            },
            None => {},
        }
        let ghost ps = self.players@;
        let mut all_set: bool = true;
        let mut j: usize = 0;
        while j < self.players.len()
            invariant
                0 <= j <= self.players@.len(),
                all_set == (forall|l: int|
                    0 <= l < j ==> (#[trigger] self.players@[l]).lane != LANE_UNRESOLVED),
                self.players@ == ps,
            decreases self.players@.len() - j,
        {
            if self.players[j].lane == LANE_UNRESOLVED {
                all_set = false;
            }
            j = j + 1;
        }
        if all_set {
            self.lane_data_updated = true;
        }
    }

    /// Resolve a stable custom id for an entity index: for a player pawn the
    /// lobby slot read through the owning controller, memoized on first
    /// resolution (which also appends the full player record, exactly once
    /// per pawn); for a recognized NPC class its fixed category code; a
    /// typed error for an unresolvable pawn or an unrecognized class.
    pub fn get_custom_id(&mut self, index: i32) -> (r: Result<u32, IdError>)
        requires
            old(self).wf(),
        ensures
            final(self).wf(),
            final(self).entities == old(self).entities,
            final(self).total_game_time_s == old(self).total_game_time_s,
            final(self).game_start_time_s == old(self).game_start_time_s,
            final(self).damage_window == old(self).damage_window,
            final(self).damage == old(self).damage,
            final(self).positions_window == old(self).positions_window,
            final(self).positions == old(self).positions,
            final(self).boss_tracker == old(self).boss_tracker,
            final(self).creep_tracker == old(self).creep_tracker,
            final(self).lane_data_updated == old(self).lane_data_updated,
            r == resolve_id_spec(old(self).entities@, old(self).pawn_slot_cache@, index),
            final(self).pawn_slot_cache@ == resolve_cache_spec(
                old(self).entities@,
                old(self).pawn_slot_cache@,
                index,
            ),
            resolve_appends_spec(old(self).entities@, old(self).pawn_slot_cache@, index) ==> {
                &&& final(self).players@.len() == old(self).players@.len() + 1
                &&& forall|j: int|
                    0 <= j < old(self).players@.len() ==> final(self).players@[j] == old(self).players@[j]
                &&& player_matches(final(self).players@.last(), old(self).entities@, index)
            },
            !resolve_appends_spec(old(self).entities@, old(self).pawn_slot_cache@, index) ==> final(self).players == old(self).players,
    {
        let found = find_entity(&self.entities, index);
        match found {
            None => Err(IdError::NotLive),
            Some(ei) => {
                let class = self.entities[ei].1.class;
                if class == EntityClass::PlayerPawn {
                    let cached = find_idx_i32(&self.pawn_slot_cache, index);
                    match cached {
                        Some(ci) => Ok(self.pawn_slot_cache[ci].1),
                        None => {
                            let oh = self.entities[ei].1.fields.owner_handle;
                            match oh {
                                None => Err(IdError::UnresolvedOwner),
                                Some(h) => {
                                    let oidx = ehandle_to_index(h);
                                    let ofound = find_entity(&self.entities, oidx);
                                    match ofound {
                                        None => Err(IdError::UnresolvedOwner),
                                        Some(oi) => {
                                            let slot: u32 = match self.entities[oi].1.fields.lobby_player_slot {
                                                Some(s) => s,
                                                None => UNKNOWN_SENTINEL,
                                            };
                                            let name: String = match &self.entities[oi].1.fields.player_name {
                                                Some(s) => s.clone(),
                                                None => String::new(),
                                            };
                                            let steam32 = steamid64_to_accountid(
                                                self.entities[oi].1.fields.steam_id,
                                            );
                                            let hero: u32 = match self.entities[oi].1.fields.hero_id {
                                                Some(x) => x,
                                                None => UNKNOWN_SENTINEL,
                                            };
                                            let team: u32 = match self.entities[oi].1.fields.team {
                                                Some(x) => x,
                                                None => UNKNOWN_SENTINEL,
                                            };
                                            let zip: u32 = match self.entities[oi].1.fields.zipline_lane_color {
                                                Some(x) => x,
                                                None => UNKNOWN_SENTINEL,
                                            };
                                            let player = Player {
                                                entity_id: index,
                                                custom_id: slot,
                                                name,
                                                steam_id_32: steam32,
                                                hero_id: hero,
                                                lobby_player_slot: slot,
                                                team,
                                                lane: LANE_UNRESOLVED,
                                                zipline_lane_color: zip,
                                            };
                                            let ghost cache_pre = self.pawn_slot_cache@;
                                            self.players.push(player);
                                            self.pawn_slot_cache.push((index, slot));
                                            proof {
                                                assert forall|a: int, b: int|
                                                    0 <= a < b
                                                        < self.pawn_slot_cache@.len() implies self.pawn_slot_cache@[a].0
                                                    != self.pawn_slot_cache@[b].0 by {
                                                    if b == self.pawn_slot_cache@.len() - 1 {
                                                        if self.pawn_slot_cache@[a].0 == index {
                                                            lemma_find_at(cache_pre, index, a);
                                                        }
                                                    } else {
                                                        assert(self.pawn_slot_cache@[a]
                                                            == cache_pre[a]);
                                                        assert(self.pawn_slot_cache@[b]
                                                            == cache_pre[b]);
                                                    }
                                                }
                                                assert(player_matches(
                                                    self.players@.last(),
                                                    self.entities@,
                                                    index,
                                                ));
                                            }
                                            Ok(slot)
                                        },
                                    }
                                },
                            }
                        },
                    }
                } else {
                    match npc_code(class) {
                        Some(c) => Ok(c),
                        None => Err(IdError::UnknownClass(class)),
                    }
                }
            },
        }
    }

    /// Resolve the identity used in the damage matrix: a tracked objective
    /// keeps its raw entity index; anything else resolves to its custom id.
    pub fn get_damage_id(&mut self, index: i32) -> (r: Result<u32, IdError>)
        requires
            old(self).wf(),
        ensures
            final(self).wf(),
            final(self).entities == old(self).entities,
            final(self).total_game_time_s == old(self).total_game_time_s,
            final(self).game_start_time_s == old(self).game_start_time_s,
            final(self).damage_window == old(self).damage_window,
            final(self).damage == old(self).damage,
            final(self).positions_window == old(self).positions_window,
            final(self).positions == old(self).positions,
            final(self).boss_tracker == old(self).boss_tracker,
            final(self).creep_tracker == old(self).creep_tracker,
            final(self).lane_data_updated == old(self).lane_data_updated,
            r == damage_id_spec(old(self).entities@, old(self).pawn_slot_cache@, index),
            final(self).pawn_slot_cache@ == damage_cache_spec(
                old(self).entities@,
                old(self).pawn_slot_cache@,
                index,
            ),
            damage_appends_spec(old(self).entities@, old(self).pawn_slot_cache@, index) ==> {
                &&& final(self).players@.len() == old(self).players@.len() + 1
                &&& forall|j: int|
                    0 <= j < old(self).players@.len() ==> final(self).players@[j] == old(self).players@[j]
                &&& player_matches(final(self).players@.last(), old(self).entities@, index)
            },
            !damage_appends_spec(old(self).entities@, old(self).pawn_slot_cache@, index) ==> final(self).players == old(self).players,
    {
        let found = find_entity(&self.entities, index);
        match found {
            None => Err(IdError::NotLive),
            Some(ei) => {
                let class = self.entities[ei].1.class;
                if self.boss_tracker.is_boss_entity(class) {
                    Ok(#[verifier::truncate] (index as u32))
                } else {
                    self.get_custom_id(index)
                }
            },
        }
    }

    /// Append a damage record under the resolved attacker and victim
    /// identities. An attacker or victim that cannot be resolved (not live,
    /// or a pawn with a broken owner chain) drops the event silently; an
    /// unrecognized entity class is the fatal classification error.
    pub fn push_damage_record(
        &mut self,
        attacker_index: i32,
        victim_index: i32,
        record: DamageRecord,
    ) -> (r: Result<(), CoreError>)
        requires
            old(self).wf(),
        ensures
            final(self).wf(),
            final(self).entities == old(self).entities,
            final(self).total_game_time_s == old(self).total_game_time_s,
            final(self).game_start_time_s == old(self).game_start_time_s,
            final(self).damage == old(self).damage,
            final(self).positions_window == old(self).positions_window,
            final(self).positions == old(self).positions,
            final(self).boss_tracker == old(self).boss_tracker,
            final(self).creep_tracker == old(self).creep_tracker,
            final(self).lane_data_updated == old(self).lane_data_updated,
            ({
                let e0 = old(self).entities@;
                let c0 = old(self).pawn_slot_cache@;
                let ra = damage_id_spec(e0, c0, attacker_index);
                let c1 = damage_cache_spec(e0, c0, attacker_index);
                let rv = damage_id_spec(e0, c1, victim_index);
                let c2 = damage_cache_spec(e0, c1, victim_index);
                &&& r == (match ra {
                    Err(IdError::UnknownClass(cl)) => Err(CoreError::UnknownEntityClass(cl)),
                    Err(_) => Ok::<(), CoreError>(()),
                    Ok(_) => match rv {
                        Err(IdError::UnknownClass(cl)) => Err(CoreError::UnknownEntityClass(cl)),
                        Err(_) => Ok::<(), CoreError>(()),
                        Ok(_) => Ok::<(), CoreError>(()),
                    },
                })
                &&& final(self).pawn_slot_cache@ == (match ra {
                    Ok(_) => c2,
                    Err(_) => c1,
                })
                &&& (match (ra, rv) {
                    (Ok(a), Ok(v)) => dmg_of(final(self).damage_window@, a, v) == dmg_of(
                        old(self).damage_window@,
                        a,
                        v,
                    ).push(record) && (forall|a2: u32, v2: u32|
                        !(a2 == a && v2 == v) ==> #[trigger] dmg_of(
                            final(self).damage_window@,
                            a2,
                            v2,
                        ) == dmg_of(old(self).damage_window@, a2, v2)),
                    _ => final(self).damage_window == old(self).damage_window,
                })
            }),
    {
        let ra = self.get_damage_id(attacker_index);
        let a: u32 = match ra {
            Ok(a) => a,
            Err(IdError::UnknownClass(cl)) => {
                return Err(CoreError::UnknownEntityClass(cl));
            },
            Err(_) => {
                return Ok(());
            },
        };
        let rv = self.get_damage_id(victim_index);
        let v: u32 = match rv {
            Ok(v) => v,
            Err(IdError::UnknownClass(cl)) => {
                return Err(CoreError::UnknownEntityClass(cl));
            },
            Err(_) => {
                return Ok(());
            },
        };
        dmg_push(&mut self.damage_window, a, v, record);
        Ok(())
    }

    /// Handle a decoded damage message: an attacker or victim that is not in
    /// the live entity set drops the event; a victim that is a tracked
    /// objective also triggers a boss health sample from the victim's live
    /// health field; the record is then bucketed under the resolved
    /// identities.
    pub fn on_damage(&mut self, msg: &DamageMsg) -> (r: Result<(), CoreError>)
        requires
            old(self).wf(),
        ensures
            final(self).wf(),
            final(self).entities == old(self).entities,
            final(self).total_game_time_s == old(self).total_game_time_s,
            final(self).game_start_time_s == old(self).game_start_time_s,
            final(self).damage == old(self).damage,
            final(self).positions_window == old(self).positions_window,
            final(self).positions == old(self).positions,
            final(self).creep_tracker == old(self).creep_tracker,
            final(self).lane_data_updated == old(self).lane_data_updated,
            ({
                let e0 = old(self).entities@;
                let att = find_pair_spec(e0, msg.entindex_attacker);
                let vic = find_pair_spec(e0, msg.entindex_victim);
                &&& (att is None || vic is None) ==> *final(self) == *old(self) && r == Ok::<
                    (),
                    CoreError,
                >(())
                &&& (att is Some && vic is Some) ==> {
                    let c0 = old(self).pawn_slot_cache@;
                    let ra = damage_id_spec(e0, c0, msg.entindex_attacker);
                    let c1 = damage_cache_spec(e0, c0, msg.entindex_attacker);
                    let rv = damage_id_spec(e0, c1, msg.entindex_victim);
                    let c2 = damage_cache_spec(e0, c1, msg.entindex_victim);
                    &&& (match vic {
                        Some(vice) => {
                            &&& !is_boss_class(vice.class) ==> final(self).boss_tracker == old(self).boss_tracker
                            &&& is_boss_class(vice.class) ==> {
                                &&& final(self).boss_tracker.bosses == old(self).boss_tracker.bosses
                                &&& final(self).boss_tracker.health_timeline == old(self).boss_tracker.health_timeline
                                &&& old(self).boss_tracker.boss_of(
                                    msg.entindex_victim,
                                ) is None ==> final(self).boss_tracker == old(self).boss_tracker
                                &&& old(self).boss_tracker.boss_of(
                                    msg.entindex_victim,
                                ) is Some ==> final(self).boss_tracker.samples_of(
                                    msg.entindex_victim,
                                ) == old(self).boss_tracker.samples_of(msg.entindex_victim).push(
                                    (old(self).total_game_time_s, health_or_zero(vice.fields)),
                                )
                                &&& forall|k: i32|
                                    k != msg.entindex_victim ==> #[trigger] final(self).boss_tracker.samples_of(k) == old(self).boss_tracker.samples_of(k)
                            }
                        },
                        None => true,
                    })
                    &&& r == (match ra {
                        Err(IdError::UnknownClass(cl)) => Err(CoreError::UnknownEntityClass(cl)),
                        Err(_) => Ok::<(), CoreError>(()),
                        Ok(_) => match rv {
                            Err(IdError::UnknownClass(cl)) => Err(
                                CoreError::UnknownEntityClass(cl),
                            ),
                            _ => Ok::<(), CoreError>(()),
                        },
                    })
                    &&& final(self).pawn_slot_cache@ == (match ra {
                        Ok(_) => c2,
                        Err(_) => c1,
                    })
                    &&& (match (ra, rv) {
                        (Ok(a), Ok(v)) => dmg_of(final(self).damage_window@, a, v) == dmg_of(
                            old(self).damage_window@,
                            a,
                            v,
                        ).push(record_of_spec(*msg)) && (forall|a2: u32, v2: u32|
                            !(a2 == a && v2 == v) ==> #[trigger] dmg_of(
                                final(self).damage_window@,
                                a2,
                                v2,
                            ) == dmg_of(old(self).damage_window@, a2, v2)),
                        _ => final(self).damage_window == old(self).damage_window,
                    })
                }
            }),
    {
        let att_found = find_entity(&self.entities, msg.entindex_attacker);
        let vic_found = find_entity(&self.entities, msg.entindex_victim);
        let vi: usize = match vic_found {
            Some(vi) => vi,
            None => {
                return Ok(());
            },
        };
        if att_found.is_none() {
            return Ok(());
        }
        let vclass = self.entities[vi].1.class;
        if self.boss_tracker.is_boss_entity(vclass) {
            let h: i32 = match self.entities[vi].1.fields.health {
                Some(x) => x,
                None => 0,
            };
            let t = self.total_game_time_s;
            self.boss_tracker.record_boss_damage(msg.entindex_victim, Some(h), t);
        }
        let record = DamageRecord {
            damage: msg.damage,
            pre_damage: msg.pre_damage,
            damage_type: msg.damage_type,
            citadel_type: msg.citadel_type,
            entindex_inflictor: msg.entindex_inflictor,
            entindex_ability: msg.entindex_ability,
            damage_absorbed: msg.damage_absorbed,
            victim_health_max: msg.victim_health_max,
            victim_health_new: msg.victim_health_new,
            flags: msg.flags,
            ability_id: msg.ability_id,
            attacker_class: msg.attacker_class,
            victim_class: msg.victim_class,
            victim_shield_max: msg.victim_shield_max,
            victim_shield_new: msg.victim_shield_new,
            hits: msg.hits,
            health_lost: msg.health_lost,
        };
        self.push_damage_record(msg.entindex_attacker, msg.entindex_victim, record)
    }

    /// Handle an entity lifecycle event: read the match start time from the
    /// game-rules entity, check lane locks on controller updates (until all
    /// lanes are resolved), route objective and lane-creep lifecycles to
    /// their trackers, and mirror the entity's latest fields.
    pub fn on_entity(
        &mut self,
        kind: EntityKind,
        index: i32,
        class: EntityClass,
        fields: EntityFields,
    ) -> (r: Result<(), CoreError>)
        requires
            old(self).wf(),
        ensures
            final(self).wf(),
            final(self).total_game_time_s == old(self).total_game_time_s,
            final(self).damage_window == old(self).damage_window,
            final(self).damage == old(self).damage,
            final(self).positions_window == old(self).positions_window,
            final(self).positions == old(self).positions,
            final(self).pawn_slot_cache == old(self).pawn_slot_cache,
            final(self).entities@ == mirror_step_spec(
                old(self).entities@,
                kind,
                index,
                EntityEntry { class, fields },
            ),
            final(self).game_start_time_s == (if class == EntityClass::GameRules {
                match fields.game_start_time_ms {
                    Some(ms) => start_update_spec(old(self).game_start_time_s, ms),
                    None => old(self).game_start_time_s,
                }
            } else {
                old(self).game_start_time_s
            }),
            r == (if class == EntityClass::GameRules && fields.game_start_time_ms is None {
                Err::<(), CoreError>(CoreError::MissingGameStartTime)
            } else {
                Ok::<(), CoreError>(())
            }),
            (match kind {
                EntityKind::Create => {
                    &&& !is_boss_class(class) ==> final(self).boss_tracker == old(self).boss_tracker
                    &&& is_boss_class(class) ==> {
                        &&& final(self).boss_tracker.boss_of(index) == Some(
                            snapshot_spec(index, class, fields, old(self).total_game_time_s),
                        )
                        &&& forall|k: i32|
                            k != index ==> #[trigger] final(self).boss_tracker.boss_of(k) == old(self).boss_tracker.boss_of(k)
                        &&& final(self).boss_tracker.samples_of(index) == old(self).boss_tracker.samples_of(index).push(
                            (old(self).total_game_time_s, health_or_zero(fields)),
                        )
                        &&& forall|k: i32|
                            k != index ==> #[trigger] final(self).boss_tracker.samples_of(k)
                                == old(self).boss_tracker.samples_of(k)
                        &&& final(self).boss_tracker.health_timeline == old(self).boss_tracker.health_timeline
                    }
                },
                EntityKind::Delete => {
                    &&& final(self).boss_tracker.health_samples == old(self).boss_tracker.health_samples
                    &&& final(self).boss_tracker.health_timeline == old(self).boss_tracker.health_timeline
                    &&& old(self).boss_tracker.boss_of(index) is None ==> final(self).boss_tracker
                        == old(self).boss_tracker
                    &&& forall|k: i32|
                        k != index ==> #[trigger] final(self).boss_tracker.boss_of(k) == old(self).boss_tracker.boss_of(k)
                    &&& forall|b: BossSnapshot|
                        old(self).boss_tracker.boss_of(index) == Some(b) ==> final(self).boss_tracker.boss_of(index) == Some(
                            BossSnapshot {
                                death_time_s: Some(old(self).total_game_time_s),
                                life_state_on_delete: fields.life_state,
                                ..b
                            },
                        )
                },
                EntityKind::Update => final(self).boss_tracker == old(self).boss_tracker,
            }),
            (match kind {
                EntityKind::Create => {
                    &&& !is_creep_class(class) ==> final(self).creep_tracker == old(self).creep_tracker
                    &&& is_creep_class(class) ==> {
                        &&& final(self).creep_tracker.wave_timeline == old(self).creep_tracker.wave_timeline
                        &&& final(self).creep_tracker.current_window == old(self).creep_tracker.current_window
                        &&& final(self).creep_tracker.creep_of(index) == Some(
                            creep_spec(index, fields),
                        )
                        &&& forall|k: i32|
                            k != index ==> #[trigger] final(self).creep_tracker.creep_of(k) == old(self).creep_tracker.creep_of(k)
                    }
                },
                EntityKind::Delete => {
                    &&& !is_creep_class(class) ==> final(self).creep_tracker == old(self).creep_tracker
                    &&& is_creep_class(class) ==> {
                        &&& final(self).creep_tracker.wave_timeline == old(self).creep_tracker.wave_timeline
                        &&& final(self).creep_tracker.current_window == old(self).creep_tracker.current_window
                        &&& final(self).creep_tracker.creep_of(index) is None
                        &&& forall|k: i32|
                            k != index ==> #[trigger] final(self).creep_tracker.creep_of(k) == old(self).creep_tracker.creep_of(k)
                    }
                },
                EntityKind::Update => {
                    &&& !is_creep_class(class) ==> final(self).creep_tracker == old(self).creep_tracker
                    &&& is_creep_class(class) ==> {
                        &&& final(self).creep_tracker.wave_timeline == old(self).creep_tracker.wave_timeline
                        &&& final(self).creep_tracker.current_window == old(self).creep_tracker.current_window
                        &&& final(self).creep_tracker.creep_of(index) == (match old(self).creep_tracker.creep_of(index) {
                            Some(c) => Some(
                                crate::creep_tracker::ActiveCreep {
                                    x: position_spec(fields).x,
                                    y: position_spec(fields).y,
                                    ..c
                                },
                            ),
                            None => Some(creep_spec(index, fields)),
                        })
                        &&& forall|k: i32|
                            k != index ==> #[trigger] final(self).creep_tracker.creep_of(k) == old(self).creep_tracker.creep_of(k)
                    }
                },
            }),
            (match kind {
                EntityKind::Update => {
                    &&& old(self).lane_data_updated ==> final(self).players == old(self).players
                        && final(self).lane_data_updated
                    &&& !old(self).lane_data_updated ==> {
                        let proceed = class == EntityClass::PlayerController && (
                        match fields.lane_swap_locked {
                            Some(b) => b,
                            None => false,
                        });
                        &&& !proceed ==> final(self).players == old(self).players && final(self).lane_data_updated == old(self).lane_data_updated
                        &&& proceed ==> {
                            let slot = match fields.lobby_player_slot {
                                Some(s) => s,
                                None => SLOT_UNKNOWN,
                            };
                            let idx = first_slot_idx(old(self).players@, slot);
                            &&& idx < 0 ==> final(self).players == old(self).players
                            &&& idx >= 0 ==> final(self).players@ == old(self).players@.update(
                                idx,
                                Player {
                                    lane: lane_value_spec(fields),
                                    ..old(self).players@[idx]
                                },
                            )
                            &&& final(self).lane_data_updated == (old(self).lane_data_updated
                                || all_lanes_resolved(final(self).players@))
                        }
                    }
                },
                _ => final(self).players == old(self).players && final(self).lane_data_updated
                    == old(self).lane_data_updated,
            }),
    {
        let r_rules: Result<(), CoreError> = if class == EntityClass::GameRules {
            self.handle_game_rules(&fields)
        } else {
            Ok(())
        };
        let t = self.total_game_time_s;
        match kind {
            EntityKind::Create => {
                self.boss_tracker.handle_boss_create(index, class, &fields, t);
                if CreepTracker::is_creep_entity(class) {
                    self.creep_tracker.handle_creep_create(index, &fields);
                }
            },
            EntityKind::Delete => {
                self.boss_tracker.handle_boss_delete(index, fields.life_state, t);
                if CreepTracker::is_creep_entity(class) {
                    self.creep_tracker.handle_creep_delete(index);
                }
            },
            EntityKind::Update => {
                if !self.lane_data_updated {
                    self.check_and_update_lane_lock(class, &fields);
                }
                if CreepTracker::is_creep_entity(class) {
                    self.creep_tracker.handle_creep_update(index, &fields);
                }
            },
        }
        match kind {
            EntityKind::Delete => {
                remove_key_i32(&mut self.entities, index);
            },
            _ => {
                upsert_i32(&mut self.entities, index, EntityEntry { class, fields });
            },
        }
        r_rules
    }
}

/// The record built from a decoded damage message: its numeric fields, one
/// for one.
pub open spec fn record_of_spec(m: DamageMsg) -> DamageRecord {
    DamageRecord {
        damage: m.damage,
        pre_damage: m.pre_damage,
        damage_type: m.damage_type,
        citadel_type: m.citadel_type,
        entindex_inflictor: m.entindex_inflictor,
        entindex_ability: m.entindex_ability,
        damage_absorbed: m.damage_absorbed,
        victim_health_max: m.victim_health_max,
        victim_health_new: m.victim_health_new,
        flags: m.flags,
        ability_id: m.ability_id,
        attacker_class: m.attacker_class,
        victim_class: m.victim_class,
        victim_shield_max: m.victim_shield_max,
        victim_shield_new: m.victim_shield_new,
        hits: m.hits,
        health_lost: m.health_lost,
    }
}

impl MatchAccumulator {
    /// Handle a tick-end event: compute this tick's and the next tick's
    /// windows; before the match start is known and reached the event is
    /// discarded; when the next tick crosses a window boundary, finalize the
    /// boss health window and the creep wave window, sample the position of
    /// every live tracked entity, flush the damage and position buffers into
    /// their timelines and record the elapsed time. Boundaries that would
    /// rewind an already finalized window (an out-of-order tick) are
    /// discarded.
    pub fn on_tick_end(&mut self, tick: u32, tick_interval_us: u64)
        requires
            old(self).wf(),
            1 <= tick_interval_us <= US_PER_S,
            tick < u32::MAX,
        ensures
            final(self).wf(),
            ({
                let this_w = window_spec(tick as int, tick_interval_us as int);
                let next_w = window_spec(tick as int + 1, tick_interval_us as int);
                let started = match old(self).game_start_time_s {
                    Some(s) => this_w >= s,
                    None => false,
                };
                let fires = started && next_w != this_w && this_w >= old(self).creep_tracker.current_window;
                &&& !fires ==> *final(self) == *old(self)
                &&& fires ==> {
                    let e0 = old(self).entities@;
                    let fold = sample_fold(e0, old(self).pawn_slot_cache@, e0.len() as int);
                    &&& final(self).total_game_time_s == this_w
                    &&& final(self).game_start_time_s == old(self).game_start_time_s
                    &&& final(self).entities == old(self).entities
                    &&& final(self).lane_data_updated == old(self).lane_data_updated
                    &&& final(self).damage@ == old(self).damage@.push(old(self).damage_window)
                    &&& final(self).damage_window@.len() == 0
                    &&& final(self).positions@.len() == old(self).positions@.len() + 1
                    &&& (forall|j: int|
                        0 <= j < old(self).positions@.len() ==> final(self).positions@[j] == old(self).positions@[j])
                    &&& final(self).positions@.last()@ == old(self).positions_window@ + fold.1
                    &&& final(self).positions_window@.len() == 0
                    &&& final(self).pawn_slot_cache@ == fold.0
                    &&& final(self).players@.len() == old(self).players@.len() + fold.2.len()
                    &&& (forall|j: int|
                        0 <= j < old(self).players@.len() ==> final(self).players@[j] == old(self).players@[j])
                    &&& (forall|l: int|
                        0 <= l < fold.2.len() ==> player_matches(
                            #[trigger] final(self).players@[old(self).players@.len() + l],
                            e0,
                            fold.2[l],
                        ))
                    &&& final(self).boss_tracker.bosses == old(self).boss_tracker.bosses
                    &&& final(self).boss_tracker.health_samples == old(self).boss_tracker.health_samples
                    &&& final(self).boss_tracker.health_timeline@.len() == old(self).boss_tracker.health_timeline@.len() + 1
                    &&& (forall|j: int|
                        0 <= j < old(self).boss_tracker.health_timeline@.len() ==> #[trigger] final(self).boss_tracker.health_timeline@[j] == old(self).boss_tracker.health_timeline@[j])
                    &&& final(self).boss_tracker.health_timeline@.last()@ == window_map_spec(
                        old(self).boss_tracker.health_samples@,
                        this_w as u32,
                    )
                    &&& final(self).creep_tracker.current_window == this_w + 1
                    &&& final(self).creep_tracker.active_creeps == old(self).creep_tracker.active_creeps
                    &&& (forall|k: WaveKey|
                        #[trigger] final(self).creep_tracker.timeline_seq(k) == (match old(self).creep_tracker.timeline_seq(k) {
                            Some(t) => Some(
                                t + none_slots(this_w - old(self).creep_tracker.current_window)
                                    + seq![
                                    find_pair_spec(
                                        window_waves_spec(
                                            active_view(old(self).creep_tracker.active_creeps@),
                                        ),
                                        k,
                                    ),
                                ],
                            ),
                            None => match find_pair_spec(
                                window_waves_spec(
                                    active_view(old(self).creep_tracker.active_creeps@),
                                ),
                                k,
                            ) {
                                Some(sn) => Some(none_slots(this_w).push(Some(sn))),
                                None => None,
                            },
                        }))
                }
            }),
    {
        let this_window = Self::window_of(tick, tick_interval_us);
        let next_window = Self::window_of(tick + 1, tick_interval_us);
        let started = match self.game_start_time_s {
            Some(s) => this_window >= s,
            None => false,
        };
        if !started {
            return ;
        }
        if next_window == this_window {
            return ;
        }
        if this_window < self.creep_tracker.current_window {
            return ;
        }
        let ghost mid = *self;
        let ghost e0 = self.entities@;
        let ghost c0 = self.pawn_slot_cache@;
        let ghost p0 = self.players@;
        let ghost w0 = self.positions_window@;
        let n = self.entities.len();
        let mut i: usize = 0;
        while i < n
            invariant
                0 <= i <= n,
                n == self.entities@.len(),
                self.wf(),
                self.entities == mid.entities,
                self.entities@ == e0,
                self.total_game_time_s == mid.total_game_time_s,
                self.game_start_time_s == mid.game_start_time_s,
                self.damage_window == mid.damage_window,
                self.damage == mid.damage,
                self.positions == mid.positions,
                self.boss_tracker == mid.boss_tracker,
                self.creep_tracker == mid.creep_tracker,
                self.lane_data_updated == mid.lane_data_updated,
                c0 == mid.pawn_slot_cache@,
                p0 == mid.players@,
                w0 == mid.positions_window@,
                e0 == mid.entities@,
                ({
                    let fold = sample_fold(e0, c0, i as int);
                    &&& self.pawn_slot_cache@ == fold.0
                    &&& self.positions_window@ == w0 + fold.1
                    &&& self.players@.len() == p0.len() + fold.2.len()
                    &&& (forall|j: int| 0 <= j < p0.len() ==> self.players@[j] == p0[j])
                    &&& (forall|l: int|
                        0 <= l < fold.2.len() ==> player_matches(
                            #[trigger] self.players@[p0.len() + l],
                            e0,
                            fold.2[l],
                        ))
                }),
            decreases n - i,
        {
            let ghost fold_pre = sample_fold(e0, c0, i as int);
            let idx = self.entities[i].0;
            let class = self.entities[i].1.class;
            if self.should_track_position(class) {
                let pos = get_entity_position(&self.entities[i].1.fields);
                let is_npc = self.is_npc_entity(class);
                let rid = self.get_custom_id(idx);
                match rid {
                    Ok(id) => {
                        self.positions_window.push(
                            PlayerPosition { custom_id: id, x: pos.x, y: pos.y, z: pos.z, is_npc },
                        );
                        proof {
                            assert(self.positions_window@ =~= w0 + fold_pre.1.push(
                                sample_of(id, e0[i as int].1),
                            ));
                        }
                    },
                    Err(_) => {},
                }
            }
            i = i + 1;
        }
        self.boss_tracker.build_health_window(this_window);
        self.creep_tracker.build_wave_window(this_window);
        let mut dw: DamageWindow = Vec::new();
        core::mem::swap(&mut dw, &mut self.damage_window);
        self.damage.push(dw);
        let mut pw: Vec<PlayerPosition> = Vec::new();
        core::mem::swap(&mut pw, &mut self.positions_window);
        self.positions.push(pw);
        self.total_game_time_s = this_window;
    }
}

/// The assembled result of one match: the static player list and every
/// per-window timeline.
pub struct GameData {
    pub total_game_time_s: u32,
    pub game_start_time_s: Option<u32>,
    /// One damage bucket map per finalized window.
    pub damage: Vec<DamageWindow>,
    pub players: Vec<Player>,
    /// One position sample list per finalized window.
    pub positions: Vec<Vec<PlayerPosition>>,
    /// Final state of every tracked objective.
    pub boss_snapshots: Vec<BossSnapshot>,
    /// One carry-forward health map per finalized window.
    pub boss_health_timeline: Vec<Vec<(i32, i32)>>,
    /// One timeline per wave key, one slot per window from the start of the
    /// recording.
    pub creep_waves: Vec<(WaveKey, Vec<Option<CreepWaveSnapshot>>)>,
}

impl MatchAccumulator {
    /// Assemble the final structured result: the timelines that are filled
    /// together (damage, positions, boss health) have one slot per finalized
    /// window with no gaps, and every creep-wave timeline has one slot per
    /// window of the recording.
    pub fn get_game_data(self) -> (r: GameData)
        requires
            self.wf(),
        ensures
            r.total_game_time_s == self.total_game_time_s,
            r.game_start_time_s == self.game_start_time_s,
            r.damage == self.damage,
            r.players == self.players,
            r.positions == self.positions,
            r.boss_snapshots@ == self.boss_tracker.bosses@.map_values(
                |p: (i32, BossSnapshot)| p.1,
            ),
            r.boss_health_timeline == self.boss_tracker.health_timeline,
            r.creep_waves == self.creep_tracker.wave_timeline,
            r.damage@.len() == r.positions@.len(),
            r.damage@.len() == r.boss_health_timeline@.len(),
            forall|i: int|
                0 <= i < r.creep_waves@.len() ==> (#[trigger] r.creep_waves@[i]).1@.len()
                    == self.creep_tracker.current_window,
    {
        let boss_out = self.boss_tracker.get_output();
        let waves = self.creep_tracker.get_output();
        GameData {
            total_game_time_s: self.total_game_time_s,
            game_start_time_s: self.game_start_time_s,
            damage: self.damage,
            players: self.players,
            positions: self.positions,
            boss_snapshots: boss_out.0,
            boss_health_timeline: boss_out.1,
            creep_waves: waves,
        }
    }
}

/// LAW (window contiguity): in a well-formed accumulator the timelines that
/// are filled together — damage, positions and boss health — hold one slot
/// per finalized window, with equal lengths and no gaps, and every
/// creep-wave timeline holds one slot per window of the recording.
pub proof fn lemma_window_contiguity(acc: &MatchAccumulator)
    requires
        acc.wf(),
    ensures
        acc.damage@.len() == acc.positions@.len(),
        acc.damage@.len() == acc.boss_tracker.health_timeline@.len(),
        forall|i: int|
            0 <= i < acc.creep_tracker.wave_timeline@.len() ==> (
            #[trigger] acc.creep_tracker.wave_timeline@[i]).1@.len()
                == acc.creep_tracker.current_window,
{
}

/// LAW (identity idempotence): resolving the same entity index again, after
/// a resolution, yields the same custom id, appends no player record, and
/// leaves the memoization cache unchanged — however many times it is
/// repeated.
pub proof fn lemma_identity_idempotent(
    entities: Seq<(i32, EntityEntry)>,
    cache: Seq<(i32, u32)>,
    index: i32,
)
    ensures
        resolve_id_spec(entities, resolve_cache_spec(entities, cache, index), index)
            == resolve_id_spec(entities, cache, index),
        !resolve_appends_spec(entities, resolve_cache_spec(entities, cache, index), index),
        resolve_cache_spec(entities, resolve_cache_spec(entities, cache, index), index)
            == resolve_cache_spec(entities, cache, index),
{
    if resolve_appends_spec(entities, cache, index) {
        match pawn_slot_spec(entities, index) {
            Some(slot) => {
                lemma_find_push(cache, (index, slot), index);
            },
            None => {},
        }
    }
}

/// The live-entity mirror after one lifecycle event: CREATE and UPDATE set
/// the entity's class and latest fields (inserting when absent), DELETE
/// removes it.
pub open spec fn mirror_step_spec(
    entities: Seq<(i32, EntityEntry)>,
    kind: EntityKind,
    index: i32,
    entry: EntityEntry,
) -> Seq<(i32, EntityEntry)> {
    match kind {
        EntityKind::Delete => if find_key_idx(entities, index) >= 0 {
            entities.remove(find_key_idx(entities, index))
        } else {
            entities
        },
        _ => if find_key_idx(entities, index) >= 0 {
            entities.update(find_key_idx(entities, index), (index, entry))
        } else {
            entities.push((index, entry))
        },
    }
}

} // verus!
