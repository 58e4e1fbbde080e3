use replay_core::boss_tracker::BossTracker;
use replay_core::events::EntityEntry;
use replay_core::steam_id::{get_steam_id32, get_steamid_from_pawn};
use replay_core::creep_tracker::{cluster_creeps, ActiveCreep, CreepTracker};
use replay_core::domain::EntityClass;
use replay_core::events::{EntityFields, RawPos};
use replay_core::position::{get_entity_coord, get_entity_position};
use replay_core::steam_id::{ehandle_to_index, steamid64_to_accountid};

fn fields() -> EntityFields {
    EntityFields::empty()
}

fn fields_at(x_units: i32, y_units: i32) -> EntityFields {
    // Cell 32 starts exactly at world 0 (32 * 512 - 16384 == 0).
    let mut f = fields();
    f.position = Some(RawPos {
        cell_x: 32,
        vec_x: x_units,
        cell_y: 32,
        vec_y: y_units,
        cell_z: 32,
        vec_z: 0,
    });
    f
}

#[test]
fn steamid_conversion_subtracts_offset() {
    assert_eq!(steamid64_to_accountid(Some(76561197960265728 + 42)), 42);
}

#[test]
fn steamid_conversion_missing_is_zero() {
    assert_eq!(steamid64_to_accountid(None), 0);
}

#[test]
fn steamid_conversion_below_offset_saturates() {
    assert_eq!(steamid64_to_accountid(Some(5)), 0);
}

#[test]
fn ehandle_masks_serial_bits() {
    assert_eq!(ehandle_to_index(0x3FFF), 0x3FFF);
    assert_eq!(ehandle_to_index((1 << 14) | 7), 7);
}

#[test]
fn coord_from_cell_and_offset() {
    assert_eq!(get_entity_coord(0, 0), -16384);
    assert_eq!(get_entity_coord(32, 10), 10);
    assert_eq!(get_entity_coord(33, -5), 507);
}

#[test]
fn position_of_missing_fields_is_origin() {
    let p = get_entity_position(&fields());
    assert_eq!((p.x, p.y, p.z), (0, 0, 0));
}

#[test]
fn boss_create_captures_snapshot() {
    let mut bt = BossTracker::new();
    let mut f = fields_at(100, 200);
    f.team = Some(2);
    f.lane = Some(3);
    f.health = Some(5000);
    f.max_health = Some(5500);
    f.life_state = Some(0);
    bt.handle_boss_create(77, EntityClass::TrooperBoss, &f, 9);
    let (snaps, _) = bt.get_output();
    assert_eq!(snaps.len(), 1);
    let s = &snaps[0];
    assert_eq!(s.entity_index, 77);
    assert_eq!(s.custom_id, 21);
    assert_eq!(s.team, 2);
    assert_eq!(s.lane, 3);
    assert_eq!((s.x, s.y), (100, 200));
    assert_eq!(s.spawn_time_s, 9);
    assert_eq!(s.max_health, 5500);
    assert_eq!(s.life_state_on_create, 0);
    assert!(s.death_time_s.is_none());
    assert!(s.life_state_on_delete.is_none());
}

#[test]
fn boss_create_ignores_untracked_class() {
    let mut bt = BossTracker::new();
    bt.handle_boss_create(1, EntityClass::Trooper, &fields(), 0);
    let (snaps, _) = bt.get_output();
    assert!(snaps.is_empty());
}

#[test]
fn boss_recreate_overwrites() {
    let mut bt = BossTracker::new();
    let mut f = fields();
    f.max_health = Some(100);
    bt.handle_boss_create(5, EntityClass::BossTier2, &f, 1);
    f.max_health = Some(900);
    bt.handle_boss_create(5, EntityClass::BossTier2, &f, 2);
    let (snaps, _) = bt.get_output();
    assert_eq!(snaps.len(), 1);
    assert_eq!(snaps[0].max_health, 900);
    assert_eq!(snaps[0].spawn_time_s, 2);
}

#[test]
fn boss_delete_records_death() {
    let mut bt = BossTracker::new();
    bt.handle_boss_create(5, EntityClass::BossTier3, &fields(), 1);
    bt.handle_boss_delete(5, Some(2), 42);
    let (snaps, _) = bt.get_output();
    assert_eq!(snaps[0].death_time_s, Some(42));
    assert_eq!(snaps[0].life_state_on_delete, Some(2));
}

fn health_of(window: &Vec<(i32, i32)>, key: i32) -> Option<i32> {
    window.iter().find(|p| p.0 == key).map(|p| p.1)
}

#[test]
fn carry_forward_health_timeline() {
    // Samples (5, 100) and (12, 60): windows 5..=11 carry 100, 12.. carry 60,
    // and windows before 5 have no entry for the boss.
    let mut bt = BossTracker::new();
    let mut f = fields();
    f.health = Some(100);
    bt.handle_boss_create(7, EntityClass::TrooperBoss, &f, 5);
    bt.record_boss_damage(7, Some(60), 12);
    for w in 0..=14 {
        bt.build_health_window(w);
    }
    let (_, timeline) = bt.get_output();
    assert_eq!(timeline.len(), 15);
    for w in 0..5 {
        assert_eq!(health_of(&timeline[w], 7), None);
    }
    for w in 5..12 {
        assert_eq!(health_of(&timeline[w], 7), Some(100));
    }
    for w in 12..=14 {
        assert_eq!(health_of(&timeline[w], 7), Some(60));
    }
}

#[test]
fn boss_damage_on_untracked_index_is_ignored() {
    let mut bt = BossTracker::new();
    bt.record_boss_damage(99, Some(10), 3);
    bt.build_health_window(3);
    let (_, timeline) = bt.get_output();
    assert!(timeline[0].is_empty());
}

fn creep(idx: i32, lane: i32, team: u32, x: i32, y: i32) -> ActiveCreep {
    ActiveCreep { entity_index: idx, lane, team, x, y }
}

#[test]
fn clusters_separate_distant_groups() {
    // Two tight groups far more than the threshold apart never merge.
    let creeps = vec![
        creep(1, 1, 2, 0, 0),
        creep(2, 1, 2, 10, 20),
        creep(3, 1, 2, 5, 40),
        creep(4, 1, 2, 0, 3000),
        creep(5, 1, 2, 8, 3020),
    ];
    let clusters = cluster_creeps(&creeps);
    assert_eq!(clusters.len(), 2);
    assert_eq!(clusters[0].len(), 3);
    assert_eq!(clusters[1].len(), 2);
    // Ordered by centroid Y ascending.
    assert!(clusters[0].iter().all(|c| c.y < 100));
    assert!(clusters[1].iter().all(|c| c.y > 2900));
}

#[test]
fn clusters_merge_nearby_creeps() {
    // Creeps within a small box always form exactly one cluster.
    let creeps = vec![
        creep(1, 1, 2, 0, 0),
        creep(2, 1, 2, 100, 50),
        creep(3, 1, 2, -80, 120),
        creep(4, 1, 2, 40, -60),
    ];
    let clusters = cluster_creeps(&creeps);
    assert_eq!(clusters.len(), 1);
    assert_eq!(clusters[0].len(), 4);
}

#[test]
fn cluster_of_empty_input_is_empty() {
    let clusters = cluster_creeps(&Vec::new());
    assert!(clusters.is_empty());
}

#[test]
fn is_creep_entity_accepts_troopers_only() {
    assert!(CreepTracker::is_creep_entity(EntityClass::Trooper));
    assert!(!CreepTracker::is_creep_entity(EntityClass::TrooperBoss));
    assert!(!CreepTracker::is_creep_entity(EntityClass::PlayerPawn));
}

#[test]
fn creep_update_inserts_untracked_creep() {
    let mut ct = CreepTracker::new();
    let mut f = fields_at(10, 20);
    f.lane = Some(1);
    f.team = Some(2);
    ct.handle_creep_update(4, &f);
    ct.build_wave_window(0);
    let waves = ct.get_output();
    assert_eq!(waves.len(), 1);
    assert_eq!(waves[0].0.lane, 1);
    assert_eq!(waves[0].0.team, 2);
    assert_eq!(waves[0].0.wave_index, 0);
    let snap = waves[0].1[0].expect("window 0 has a wave");
    assert_eq!(snap.count, 1);
    assert_eq!((snap.x, snap.y), (10, 20));
}

#[test]
fn creep_delete_removes_from_waves() {
    let mut ct = CreepTracker::new();
    let mut f = fields_at(10, 20);
    f.lane = Some(1);
    f.team = Some(2);
    ct.handle_creep_create(4, &f);
    ct.handle_creep_delete(4);
    ct.build_wave_window(0);
    let waves = ct.get_output();
    assert!(waves.is_empty());
}

#[test]
fn wave_timelines_stay_aligned() {
    // A wave that disappears keeps receiving empty slots, so every timeline
    // has one slot per finalized window.
    let mut ct = CreepTracker::new();
    let mut f = fields_at(0, 0);
    f.lane = Some(1);
    f.team = Some(2);
    ct.handle_creep_create(1, &f);
    ct.build_wave_window(0);
    ct.handle_creep_delete(1);
    let mut g = fields_at(0, 500);
    g.lane = Some(3);
    g.team = Some(2);
    ct.handle_creep_create(2, &g);
    ct.build_wave_window(3);
    let waves = ct.get_output();
    assert_eq!(waves.len(), 2);
    for (_, timeline) in &waves {
        assert_eq!(timeline.len(), 4);
    }
    let lane1 = waves.iter().find(|w| w.0.lane == 1).unwrap();
    assert!(lane1.1[0].is_some());
    assert!(lane1.1[1].is_none());
    assert!(lane1.1[2].is_none());
    assert!(lane1.1[3].is_none());
    let lane3 = waves.iter().find(|w| w.0.lane == 3).unwrap();
    assert!(lane3.1[0].is_none());
    assert!(lane3.1[3].is_some());
}

#[test]
fn creep_update_refreshes_position_only() {
    let mut ct = CreepTracker::new();
    let mut f = fields_at(10, 20);
    f.lane = Some(1);
    f.team = Some(2);
    ct.handle_creep_create(4, &f);
    // The update reports a different lane, but only the position moves.
    let mut g = fields_at(300, 400);
    g.lane = Some(9);
    g.team = Some(3);
    ct.handle_creep_update(4, &g);
    ct.build_wave_window(0);
    let waves = ct.get_output();
    assert_eq!(waves.len(), 1);
    assert_eq!(waves[0].0.lane, 1);
    assert_eq!(waves[0].0.team, 2);
    let snap = waves[0].1[0].unwrap();
    assert_eq!((snap.x, snap.y), (300, 400));
}

#[test]
fn steam_id_read_through_fields() {
    let mut f = fields();
    f.steam_id = Some(76561197960265728 + 9);
    assert_eq!(get_steam_id32(&f), Some(9));
    assert_eq!(get_steam_id32(&fields()), Some(0));
}

#[test]
fn steam_id_resolved_through_paired_entity() {
    let mut controller = fields();
    controller.steam_id = Some(555);
    let entities = vec![(
        7,
        EntityEntry {
            class: EntityClass::PlayerController,
            fields: controller,
        },
    )];
    let mut pawn = fields();
    pawn.pawn_handle = Some(7);
    assert_eq!(get_steamid_from_pawn(&pawn, &entities), Some(555));
    assert_eq!(get_steamid_from_pawn(&fields(), &entities), None);
    let mut dangling = fields();
    dangling.pawn_handle = Some(99);
    assert_eq!(get_steamid_from_pawn(&dangling, &entities), None);
}

#[test]
fn centroid_is_truncated_mean() {
    let creeps = vec![creep(1, 1, 2, 0, 0), creep(2, 1, 2, 5, 11)];
    let clusters = cluster_creeps(&creeps);
    assert_eq!(clusters.len(), 1);
    let mut ct = CreepTracker::new();
    let mut f = fields_at(0, 0);
    f.lane = Some(1);
    f.team = Some(2);
    ct.handle_creep_create(1, &f);
    let mut g = fields_at(5, 11);
    g.lane = Some(1);
    g.team = Some(2);
    ct.handle_creep_create(2, &g);
    ct.build_wave_window(0);
    let waves = ct.get_output();
    let snap = waves[0].1[0].unwrap();
    assert_eq!((snap.x, snap.y), (2, 5));
    assert_eq!(snap.count, 2);
}
