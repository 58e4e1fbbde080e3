use replay_core::domain::{CoreError, EntityClass, IdError};
use replay_core::events::{DamageMsg, EntityFields, EntityKind, RawPos};
use replay_core::replay_parser::MatchAccumulator;

fn fields() -> EntityFields {
    EntityFields::empty()
}

fn fields_at(x_units: i32, y_units: i32) -> EntityFields {
    let mut f = fields();
    f.position = Some(RawPos {
        cell_x: 32,
        vec_x: x_units,
        cell_y: 32,
        vec_y: y_units,
        cell_z: 32,
        vec_z: 0,
    });
    f
}

fn controller_fields(slot: u32, name: &str, steam_id: u64) -> EntityFields {
    let mut f = fields();
    f.lobby_player_slot = Some(slot);
    f.player_name = Some(name.to_string());
    f.steam_id = Some(steam_id);
    f.hero_id = Some(15);
    f.team = Some(2);
    f.zipline_lane_color = Some(1);
    f
}

fn pawn_fields(owner_handle: u32) -> EntityFields {
    let mut f = fields_at(50, 60);
    f.owner_handle = Some(owner_handle);
    f
}

fn damage_msg(attacker: i32, victim: i32, damage: i32) -> DamageMsg {
    DamageMsg {
        entindex_attacker: attacker,
        entindex_victim: victim,
        entindex_inflictor: -1,
        entindex_ability: -1,
        damage,
        pre_damage: damage + 5,
        damage_type: 1,
        citadel_type: 2,
        damage_absorbed: 3,
        victim_health_max: 700,
        victim_health_new: 650,
        flags: 8,
        ability_id: 9,
        attacker_class: 10,
        victim_class: 11,
        victim_shield_max: 12,
        victim_shield_new: 13,
        hits: 1,
        health_lost: 50,
    }
}

#[test]
fn window_rounding() {
    assert_eq!(MatchAccumulator::window_of(0, 500000), 0);
    assert_eq!(MatchAccumulator::window_of(1, 500000), 1);
    assert_eq!(MatchAccumulator::window_of(2, 500000), 1);
    assert_eq!(MatchAccumulator::window_of(3, 500000), 2);
    assert_eq!(MatchAccumulator::window_of(60, 16667), 1);
}

#[test]
fn game_rules_without_start_time_is_an_error() {
    let mut acc = MatchAccumulator::new();
    let r = acc.on_entity(EntityKind::Create, 1, EntityClass::GameRules, fields());
    assert_eq!(r, Err(CoreError::MissingGameStartTime));
    // The event fails alone; later events still work.
    let mut f = fields();
    f.game_start_time_ms = Some(1500);
    assert_eq!(acc.on_entity(EntityKind::Update, 1, EntityClass::GameRules, f), Ok(()));
    let data = acc.get_game_data();
    assert_eq!(data.game_start_time_s, Some(2));
}

#[test]
fn start_time_is_fixed_once_set() {
    let mut acc = MatchAccumulator::new();
    let mut f = fields();
    f.game_start_time_ms = Some(1000);
    acc.on_entity(EntityKind::Create, 1, EntityClass::GameRules, f).unwrap();
    let mut g = fields();
    g.game_start_time_ms = Some(9000);
    acc.on_entity(EntityKind::Update, 1, EntityClass::GameRules, g).unwrap();
    assert_eq!(acc.get_game_data().game_start_time_s, Some(1));
}

#[test]
fn placeholder_start_time_is_ignored() {
    let mut acc = MatchAccumulator::new();
    let mut f = fields();
    f.game_start_time_ms = Some(0);
    acc.on_entity(EntityKind::Create, 1, EntityClass::GameRules, f).unwrap();
    assert_eq!(acc.get_game_data().game_start_time_s, None);
}

#[test]
fn identity_resolution_is_idempotent() {
    let mut acc = MatchAccumulator::new();
    acc.on_entity(EntityKind::Create, 7, EntityClass::PlayerController, controller_fields(3, "Alice", 76561197960265728 + 1000))
        .unwrap();
    acc.on_entity(EntityKind::Create, 5, EntityClass::PlayerPawn, pawn_fields(7)).unwrap();
    for _ in 0..5 {
        assert_eq!(acc.get_custom_id(5), Ok(3));
    }
    let data = acc.get_game_data();
    assert_eq!(data.players.len(), 1);
    let p = &data.players[0];
    assert_eq!(p.entity_id, 5);
    assert_eq!(p.custom_id, 3);
    assert_eq!(p.name, "Alice");
    assert_eq!(p.steam_id_32, 1000);
    assert_eq!(p.hero_id, 15);
    assert_eq!(p.lobby_player_slot, 3);
    assert_eq!(p.team, 2);
    assert_eq!(p.lane, 999999);
    assert_eq!(p.zipline_lane_color, 1);
}

#[test]
fn npc_identity_is_category_code() {
    let mut acc = MatchAccumulator::new();
    acc.on_entity(EntityKind::Create, 50, EntityClass::Trooper, fields()).unwrap();
    assert_eq!(acc.get_custom_id(50), Ok(20));
    acc.on_entity(EntityKind::Create, 51, EntityClass::MidBoss, fields()).unwrap();
    assert_eq!(acc.get_custom_id(51), Ok(23));
    assert_eq!(acc.get_game_data().players.len(), 0);
}

#[test]
fn unknown_class_is_a_typed_error() {
    let mut acc = MatchAccumulator::new();
    acc.on_entity(EntityKind::Create, 9, EntityClass::Other(12345), fields()).unwrap();
    assert_eq!(acc.get_custom_id(9), Err(IdError::UnknownClass(EntityClass::Other(12345))));
}

#[test]
fn not_live_entity_is_reported() {
    let mut acc = MatchAccumulator::new();
    assert_eq!(acc.get_custom_id(404), Err(IdError::NotLive));
}

#[test]
fn damage_with_unknown_attacker_class_aborts() {
    let mut acc = MatchAccumulator::new();
    acc.on_entity(EntityKind::Create, 9, EntityClass::Other(77), fields()).unwrap();
    acc.on_entity(EntityKind::Create, 50, EntityClass::Trooper, fields()).unwrap();
    let r = acc.on_damage(&damage_msg(9, 50, 10));
    assert_eq!(r, Err(CoreError::UnknownEntityClass(EntityClass::Other(77))));
}

#[test]
fn damage_with_missing_victim_is_dropped() {
    let mut acc = MatchAccumulator::new();
    acc.on_entity(EntityKind::Create, 50, EntityClass::Trooper, fields()).unwrap();
    assert_eq!(acc.on_damage(&damage_msg(50, 404, 10)), Ok(()));
    let data = acc.get_game_data();
    assert!(data.damage.is_empty());
}

#[test]
fn boss_victim_keeps_raw_index_in_damage_matrix() {
    let mut acc = MatchAccumulator::new();
    acc.on_entity(EntityKind::Create, 50, EntityClass::Trooper, fields()).unwrap();
    let mut bf = fields();
    bf.health = Some(4000);
    acc.on_entity(EntityKind::Create, 300, EntityClass::TrooperBoss, bf).unwrap();
    let mut acc2 = acc;
    acc2.on_damage(&damage_msg(50, 300, 25)).unwrap();
    // Finalize a window so the bucket is observable.
    let mut gr = fields();
    gr.game_start_time_ms = Some(1);
    acc2.on_entity(EntityKind::Create, 1, EntityClass::GameRules, gr).unwrap();
    acc2.on_tick_end(2, 1000000);
    let data = acc2.get_game_data();
    let window = &data.damage[0];
    let attacker = window.iter().find(|a| a.0 == 20).expect("attacker bucket");
    let victim = attacker.1.iter().find(|v| v.0 == 300).expect("victim keyed by raw index");
    assert_eq!(victim.1.len(), 1);
}

#[test]
fn lane_lock_sets_lane_and_freezes_it() {
    let mut acc = MatchAccumulator::new();
    acc.on_entity(EntityKind::Create, 7, EntityClass::PlayerController, controller_fields(3, "A", 0)).unwrap();
    acc.on_entity(EntityKind::Create, 5, EntityClass::PlayerPawn, pawn_fields(7)).unwrap();
    assert_eq!(acc.get_custom_id(5), Ok(3));
    // Lane lock observed: assigned lane wins.
    let mut upd = controller_fields(3, "A", 0);
    upd.lane_swap_locked = Some(true);
    upd.assigned_lane = Some(2);
    upd.original_lane = Some(4);
    acc.on_entity(EntityKind::Update, 7, EntityClass::PlayerController, upd).unwrap();
    // Every player's lane is now resolved; later updates change nothing.
    let mut upd2 = controller_fields(3, "A", 0);
    upd2.lane_swap_locked = Some(true);
    upd2.assigned_lane = Some(5);
    acc.on_entity(EntityKind::Update, 7, EntityClass::PlayerController, upd2).unwrap();
    let data = acc.get_game_data();
    assert_eq!(data.players[0].lane, 2);
}

#[test]
fn lane_lock_falls_back_to_original_assignment() {
    let mut acc = MatchAccumulator::new();
    acc.on_entity(EntityKind::Create, 7, EntityClass::PlayerController, controller_fields(3, "A", 0)).unwrap();
    acc.on_entity(EntityKind::Create, 5, EntityClass::PlayerPawn, pawn_fields(7)).unwrap();
    assert_eq!(acc.get_custom_id(5), Ok(3));
    // Assigned lane carries the unset sentinel 0: fall back to the original.
    let mut upd = controller_fields(3, "A", 0);
    upd.lane_swap_locked = Some(true);
    upd.assigned_lane = Some(0);
    upd.original_lane = Some(4);
    acc.on_entity(EntityKind::Update, 7, EntityClass::PlayerController, upd).unwrap();
    assert_eq!(acc.get_game_data().players[0].lane, 4);
}

#[test]
fn no_windows_before_match_start() {
    let mut acc = MatchAccumulator::new();
    acc.on_tick_end(2, 500000);
    let data = acc.get_game_data();
    assert_eq!(data.total_game_time_s, 0);
    assert!(data.damage.is_empty());
    assert!(data.positions.is_empty());
    assert!(data.boss_health_timeline.is_empty());
}

#[test]
fn end_to_end_three_tick_stream() {
    // A 3-tick stream with a 0.5 s tick interval, one player pawn owned by a
    // controller reporting lobby slot 3, one damage event against an NPC of
    // category 20, and a tick-end crossing a window boundary.
    let mut acc = MatchAccumulator::new();
    let mut gr = fields();
    gr.game_start_time_ms = Some(500);
    acc.on_entity(EntityKind::Create, 1, EntityClass::GameRules, gr).unwrap();
    acc.on_entity(
        EntityKind::Create,
        7,
        EntityClass::PlayerController,
        controller_fields(3, "Alice", 76561197960265728 + 77),
    )
    .unwrap();
    acc.on_entity(EntityKind::Create, 5, EntityClass::PlayerPawn, pawn_fields(7)).unwrap();
    acc.on_entity(EntityKind::Create, 50, EntityClass::Trooper, fields_at(30, 40)).unwrap();
    acc.on_tick_end(0, 500000);
    acc.on_tick_end(1, 500000);
    acc.on_damage(&damage_msg(5, 50, 123)).unwrap();
    acc.on_tick_end(2, 500000);
    let data = acc.get_game_data();

    // One player with custom id 3 (rendered as "3" by the serialization layer).
    assert_eq!(data.players.len(), 1);
    assert_eq!(data.players[0].custom_id, 3);

    // damage[0][3][20] holds exactly one record with the decoded fields.
    assert_eq!(data.damage.len(), 1);
    let attacker = data.damage[0].iter().find(|a| a.0 == 3).expect("attacker 3");
    let victim = attacker.1.iter().find(|v| v.0 == 20).expect("victim 20");
    assert_eq!(victim.1.len(), 1);
    let rec = &victim.1[0];
    assert_eq!(rec.damage, 123);
    assert_eq!(rec.pre_damage, 128);
    assert_eq!(rec.damage_type, 1);
    assert_eq!(rec.citadel_type, 2);
    assert_eq!(rec.damage_absorbed, 3);
    assert_eq!(rec.victim_health_max, 700);
    assert_eq!(rec.victim_health_new, 650);
    assert_eq!(rec.flags, 8);
    assert_eq!(rec.ability_id, 9);
    assert_eq!(rec.attacker_class, 10);
    assert_eq!(rec.victim_class, 11);
    assert_eq!(rec.victim_shield_max, 12);
    assert_eq!(rec.victim_shield_new, 13);
    assert_eq!(rec.hits, 1);
    assert_eq!(rec.health_lost, 50);

    // Window contiguity: timelines filled together have equal lengths.
    assert_eq!(data.positions.len(), data.damage.len());
    assert_eq!(data.boss_health_timeline.len(), data.damage.len());

    // Both tracked entities were position-sampled at the boundary.
    let samples = &data.positions[0];
    assert_eq!(samples.len(), 2);
    let pawn = samples.iter().find(|s| s.custom_id == 3).expect("pawn sample");
    assert!(!pawn.is_npc);
    assert_eq!((pawn.x, pawn.y), (50, 60));
    let npc = samples.iter().find(|s| s.custom_id == 20).expect("npc sample");
    assert!(npc.is_npc);
    assert_eq!((npc.x, npc.y), (30, 40));

    assert_eq!(data.total_game_time_s, 1);
    assert_eq!(data.game_start_time_s, Some(1));
}
