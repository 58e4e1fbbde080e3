//! Boss tracker: lifecycle and sparse health samples of tracked objective
//! entities (guardians, shrines, walkers, base guardians, patrons), and the
//! per-second carry-forward health timeline built from them.

use vstd::prelude::*;
use crate::assoc::{find_pair_spec, find_idx_i32, lemma_find_at, lemma_find_none, lemma_find_push,
    lemma_find_update, unique_keys};
use crate::domain::{BossSnapshot, EntityClass, npc_code_spec, npc_code};
use crate::events::EntityFields;
use crate::position::{position_spec, get_entity_position};

verus! {

/// Whether a class is a tracked objective ("boss") type.
pub open spec fn is_boss_class(class: EntityClass) -> bool {
    class == EntityClass::TrooperBoss || class == EntityClass::DestroyableBuilding || class
        == EntityClass::BossTier2 || class == EntityClass::TrooperBarrackBoss || class
        == EntityClass::BossTier3
}

/// The health field of an entity, with 0 as the sentinel for a missing read.
pub open spec fn health_or_zero(fields: EntityFields) -> i32 {
    match fields.health {
        Some(h) => h,
        None => 0i32,
    }
}

/// The spawn snapshot captured for a boss on its CREATE event: position,
/// team, lane, maximum health and life state from the event's fields, the
/// spawn time from the clock, and empty death fields.
pub open spec fn snapshot_spec(
    entity_index: i32,
    class: EntityClass,
    fields: EntityFields,
    current_time_s: u32,
) -> BossSnapshot {
    BossSnapshot {
        entity_index,
        custom_id: match npc_code_spec(class) {
            Some(c) => c,
            None => 0u32,
        },
        class,
        team: match fields.team {
            Some(t) => t,
            None => 0u32,
        },
        lane: match fields.lane {
            Some(l) => l,
            None => 0i32,
        },
        x: position_spec(fields).x,
        y: position_spec(fields).y,
        z: position_spec(fields).z,
        spawn_time_s: current_time_s,
        max_health: match fields.max_health {
            Some(h) => h,
            None => 0i32,
        },
        life_state_on_create: match fields.life_state {
            Some(s) => s,
            None => 0i32,
        },
        death_time_s: None,
        life_state_on_delete: None,
    }
}

/// The health of the rightmost sample taken at or before the window, if any:
/// the carry-forward (last-observed-value) policy.
pub open spec fn last_at_or_before(samples: Seq<(u32, i32)>, window_s: u32) -> Option<i32>
    decreases samples.len(),
{
    if samples.len() == 0 {
        None
    } else if samples.last().0 <= window_s {
        Some(samples.last().1)
    } else {
        last_at_or_before(samples.drop_last(), window_s)
    }
}

/// The position of the rightmost sample taken at or before the window, or
/// `-1` when every sample is later.
pub open spec fn last_sample_idx(samples: Seq<(u32, i32)>, window_s: u32) -> int
    decreases samples.len(),
{
    if samples.len() == 0 {
        -1
    } else if samples.last().0 <= window_s {
        samples.len() - 1
    } else {
        last_sample_idx(samples.drop_last(), window_s)
    }
}

/// What the carry-forward result means: nothing is carried exactly when every
/// sample is later than the window; otherwise the carried value is that of
/// the rightmost sample at or before it, and every later sample is after the
/// window.
pub proof fn lemma_last_at_or_before(samples: Seq<(u32, i32)>, window_s: u32)
    ensures
        last_sample_idx(samples, window_s) == -1 ==> last_at_or_before(samples, window_s) is None
            && (forall|j: int| 0 <= j < samples.len() ==> #[trigger] samples[j].0 > window_s),
        last_sample_idx(samples, window_s) >= 0 ==> {
            let i = last_sample_idx(samples, window_s);
            &&& i < samples.len()
            &&& samples[i].0 <= window_s
            &&& last_at_or_before(samples, window_s) == Some(samples[i].1)
            &&& forall|j: int| i < j < samples.len() ==> #[trigger] samples[j].0 > window_s
        },
    decreases samples.len(),
{
    if samples.len() > 0 {
        lemma_last_at_or_before(samples.drop_last(), window_s);
        if samples.last().0 <= window_s {
        } else {
            assert(forall|j: int|
                0 <= j < samples.len() - 1 ==> samples.drop_last()[j] == samples[j]);
        }
    }
}

/// The per-window health map built from the sample lists: one entry per
/// tracked entity that has a sample at or before the window, carrying the
/// carry-forward value, in the order the entities were first tracked.
pub open spec fn window_map_spec(samples: Seq<(i32, Vec<(u32, i32)>)>, window_s: u32) -> Seq<
    (i32, i32),
>
    decreases samples.len(),
{
    if samples.len() == 0 {
        Seq::empty()
    } else {
        let prev = window_map_spec(samples.drop_last(), window_s);
        match last_at_or_before(samples.last().1@, window_s) {
            Some(h) => prev.push((samples.last().0, h)),
            None => prev,
        }
    }
}

/// LAW (carry-forward correctness): a finalized window's health map holds an
/// entry for a tracked objective exactly when the objective has a sample at
/// or before the window, and that entry carries the value of the rightmost
/// such sample (`lemma_last_at_or_before` says what that value is).
pub proof fn lemma_window_map_find(samples: Seq<(i32, Vec<(u32, i32)>)>, window_s: u32, k: i32)
    requires
        unique_keys(samples),
    ensures
        find_pair_spec(window_map_spec(samples, window_s), k) == (match find_pair_spec(samples, k) {
            Some(v) => last_at_or_before(v@, window_s),
            None => None::<i32>,
        }),
    decreases samples.len(),
{
    if samples.len() > 0 {
        let dl = samples.drop_last();
        let lastp = samples.last();
        assert forall|a: int, b: int| 0 <= a < b < dl.len() implies dl[a].0 != dl[b].0 by {
            assert(dl[a] == samples[a]);
            assert(dl[b] == samples[b]);
        }
        lemma_window_map_find(dl, window_s, k);
        lemma_window_map_find(dl, window_s, lastp.0);
        assert forall|j: int| 0 <= j < dl.len() implies (#[trigger] dl[j]).0 != lastp.0 by {
            assert(dl[j] == samples[j]);
            assert(samples.last() == samples[samples.len() - 1]);
        }
        lemma_find_none(dl, lastp.0);
        assert(samples =~= dl.push(lastp));
        lemma_find_push(dl, lastp, k);
        match last_at_or_before(lastp.1@, window_s) {
            Some(h) => {
                lemma_find_push(window_map_spec(dl, window_s), (lastp.0, h), k);
            },
            None => {},
        }
    }
}

/// Tracks boss entities (objectives) throughout the match.
pub struct BossTracker {
    /// Snapshot per tracked objective, keyed by raw entity index; entries are
    /// never removed.
    pub bosses: Vec<(i32, BossSnapshot)>,
    /// Sparse health samples per tracked objective, keyed by raw entity
    /// index.
    pub health_samples: Vec<(i32, Vec<(u32, i32)>)>,
    /// One health map per finalized window.
    pub health_timeline: Vec<Vec<(i32, i32)>>,
}

impl BossTracker {
    /// The tracker's maps are keyed injectively.
    pub open spec fn wf(&self) -> bool {
        unique_keys(self.bosses@) && unique_keys(self.health_samples@)
    }

    /// The sample list recorded for an entity index (empty when untracked).
    pub open spec fn samples_of(&self, entity_index: i32) -> Seq<(u32, i32)> {
        match find_pair_spec(self.health_samples@, entity_index) {
            Some(v) => v@,
            None => Seq::empty(),
        }
    }

    /// The snapshot recorded for an entity index.
    pub open spec fn boss_of(&self, entity_index: i32) -> Option<BossSnapshot> {
        find_pair_spec(self.bosses@, entity_index)
    }

    pub fn new() -> (r: BossTracker)
        ensures
            r.wf(),
            r.bosses@ == Seq::<(i32, BossSnapshot)>::empty(),
            r.health_samples@ == Seq::<(i32, Vec<(u32, i32)>)>::empty(),
            r.health_timeline@ == Seq::<Vec<(i32, i32)>>::empty(),
    {
        BossTracker { bosses: Vec::new(), health_samples: Vec::new(), health_timeline: Vec::new() }
    }

    /// Check whether an entity class is a tracked objective type.
    pub fn is_boss_entity(&self, class: EntityClass) -> (r: bool)
        ensures
            r == is_boss_class(class),
    {
        match class {
            EntityClass::TrooperBoss => true,
            EntityClass::DestroyableBuilding => true,
            EntityClass::BossTier2 => true,
            EntityClass::TrooperBarrackBoss => true,
            EntityClass::BossTier3 => true,
            _ => false,
        }
    }

    /// Append a health sample for an entity index, starting its list when the
    /// index is new.
    fn push_sample(&mut self, entity_index: i32, time_s: u32, health: i32)
        requires
            old(self).wf(),
        ensures
            final(self).wf(),
            final(self).bosses == old(self).bosses,
            final(self).health_timeline == old(self).health_timeline,
            final(self).samples_of(entity_index) == old(self).samples_of(entity_index).push(
                (time_s, health),
            ),
            forall|k: i32|
                k != entity_index ==> #[trigger] final(self).samples_of(k) == old(self).samples_of(
                    k,
                ),
    {
        let found = find_idx_i32(&self.health_samples, entity_index);
        match found {
            Some(i) => {
                let mut entry = self.health_samples.remove(i);
                entry.1.push((time_s, health));
                let ghost pre = old(self).health_samples@;
                self.health_samples.insert(i, entry);
                proof {
                    assert(self.health_samples@ =~= pre.update(i as int, entry));
                    assert forall|k: i32| true implies #[trigger] find_pair_spec(
                        self.health_samples@,
                        k,
                    ) == (if k == entity_index {
                        Some(entry.1)
                    } else {
                        find_pair_spec(pre, k)
                    }) by {
                        lemma_find_update(pre, i as int, entry, k);
                    }
                    assert forall|a: int, b: int|
                        0 <= a < b < self.health_samples@.len() implies self.health_samples@[a].0
                        != self.health_samples@[b].0 by {
                        assert(self.health_samples@[a].0 == pre[a].0);
                        assert(self.health_samples@[b].0 == pre[b].0);
                    }
                }
            },
            None => {
                let mut fresh: Vec<(u32, i32)> = Vec::new();
                fresh.push((time_s, health));
                let ghost pre = old(self).health_samples@;
                self.health_samples.push((entity_index, fresh));
                proof {
                    assert forall|k: i32| true implies #[trigger] find_pair_spec(
                        self.health_samples@,
                        k,
                    ) == (if k == entity_index {
                        Some(fresh)
                    } else {
                        find_pair_spec(pre, k)
                    }) by {
                        lemma_find_push(pre, (entity_index, fresh), k);
                    }
                    assert(old(self).samples_of(entity_index) =~= Seq::<(u32, i32)>::empty());
                    assert(fresh@ =~= old(self).samples_of(entity_index).push((time_s, health)));
                    assert forall|a: int, b: int|
                        0 <= a < b < self.health_samples@.len() implies self.health_samples@[a].0
                        != self.health_samples@[b].0 by {
                        if b == self.health_samples@.len() - 1 {
                            if self.health_samples@[a].0 == entity_index {
                                lemma_find_at(pre, entity_index, a);
                            }
                        }
                    }
                }
            },
        }
    }

    /// Handle a boss CREATE event: capture the spawn snapshot and the first
    /// health sample; re-creating an already tracked index overwrites its
    /// snapshot (last-create-wins). A class outside the objective table
    /// leaves the tracker unchanged.
    pub fn handle_boss_create(
        &mut self,
        entity_index: i32,
        class: EntityClass,
        fields: &EntityFields,
        current_time_s: u32,
    )
        requires
            old(self).wf(),
        ensures
            final(self).wf(),
            !is_boss_class(class) ==> *final(self) == *old(self),
            is_boss_class(class) ==> {
                &&& final(self).boss_of(entity_index) == Some(
                    snapshot_spec(entity_index, class, *fields, current_time_s),
                )
                &&& forall|k: i32|
                    k != entity_index ==> #[trigger] final(self).boss_of(k) == old(self).boss_of(k)
                &&& final(self).samples_of(entity_index) == old(self).samples_of(
                    entity_index,
                ).push((current_time_s, health_or_zero(*fields)))
                &&& forall|k: i32|
                    k != entity_index ==> #[trigger] final(self).samples_of(k) == old(self).samples_of(k)
                &&& final(self).health_timeline == old(self).health_timeline
            },
    {
        if !self.is_boss_entity(class) {
            return ;
        }
        let pos = get_entity_position(fields);
        let team: u32 = match fields.team {
            Some(t) => t,
            None => 0,
        };
        let lane: i32 = match fields.lane {
            Some(l) => l,
            None => 0,
        };
        let health: i32 = match fields.health {
            Some(h) => h,
            None => 0,
        };
        let max_health: i32 = match fields.max_health {
            Some(h) => h,
            None => 0,
        };
        let life_state: i32 = match fields.life_state {
            Some(s) => s,
            None => 0,
        };
        let custom_id: u32 = match npc_code(class) {
            Some(c) => c,
            None => 0,
        };
        let snapshot = BossSnapshot {
            entity_index,
            custom_id,
            class,
            team,
            lane,
            x: pos.x,
            y: pos.y,
            z: pos.z,
            spawn_time_s: current_time_s,
            max_health,
            life_state_on_create: life_state,
            death_time_s: None,
            life_state_on_delete: None,
        };
        assert(snapshot == snapshot_spec(entity_index, class, *fields, current_time_s));
        self.push_sample(entity_index, current_time_s, health);
        let ghost mid = *self;
        let found = find_idx_i32(&self.bosses, entity_index);
        let ghost pre = self.bosses@;
        match found {
            Some(i) => {
                let mut entry = self.bosses.remove(i);
                entry.1 = snapshot;
                self.bosses.insert(i, entry);
                proof {
                    assert(self.bosses@ =~= pre.update(i as int, entry));
                    assert forall|k: i32| true implies #[trigger] find_pair_spec(self.bosses@, k)
                        == (if k == entity_index {
                        Some(snapshot)
                    } else {
                        find_pair_spec(pre, k)
                    }) by {
                        lemma_find_update(pre, i as int, (entity_index, snapshot), k);
                    }
                    assert forall|a: int, b: int|
                        0 <= a < b < self.bosses@.len() implies self.bosses@[a].0
                        != self.bosses@[b].0 by {
                        assert(self.bosses@[a].0 == pre[a].0);
                        assert(self.bosses@[b].0 == pre[b].0);
                    }
                    assert(self.health_samples == mid.health_samples);
                    assert forall|k: i32| k != entity_index implies self.samples_of(k) == old(
                        self,
                    ).samples_of(k) by {
                        assert(mid.samples_of(k) == old(self).samples_of(k));
                    }
                    assert(self.samples_of(entity_index) == mid.samples_of(entity_index));
                }
            },
            None => {
                self.bosses.push((entity_index, snapshot));
                proof {
                    assert forall|k: i32| true implies #[trigger] find_pair_spec(self.bosses@, k)
                        == (if k == entity_index {
                        Some(snapshot)
                    } else {
                        find_pair_spec(pre, k)
                    }) by {
                        lemma_find_push(pre, (entity_index, snapshot), k);
                    }
                    assert forall|a: int, b: int|
                        0 <= a < b < self.bosses@.len() implies self.bosses@[a].0
                        != self.bosses@[b].0 by {
                        if b == self.bosses@.len() - 1 {
                            if self.bosses@[a].0 == entity_index {
                                lemma_find_at(pre, entity_index, a);
                            }
                        }
                    }
                    assert(self.health_samples == mid.health_samples);
                    assert forall|k: i32| k != entity_index implies self.samples_of(k) == old(
                        self,
                    ).samples_of(k) by {
                        assert(mid.samples_of(k) == old(self).samples_of(k));
                    }
                    assert(self.samples_of(entity_index) == mid.samples_of(entity_index));
                }
            },
        }
    }

    /// Handle a boss DELETE event: record the death time and the life state
    /// reported at deletion; the snapshot stays tracked. An untracked index
    /// leaves the tracker unchanged.
    pub fn handle_boss_delete(
        &mut self,
        entity_index: i32,
        life_state: Option<i32>,
        current_time_s: u32,
    )
        requires
            old(self).wf(),
        ensures
            final(self).wf(),
            final(self).health_samples == old(self).health_samples,
            final(self).health_timeline == old(self).health_timeline,
            old(self).boss_of(entity_index) is None ==> *final(self) == *old(self),
            forall|k: i32|
                k != entity_index ==> #[trigger] final(self).boss_of(k) == old(self).boss_of(k),
            forall|b: BossSnapshot|
                old(self).boss_of(entity_index) == Some(b) ==> final(self).boss_of(entity_index)
                    == Some(
                    BossSnapshot {
                        death_time_s: Some(current_time_s),
                        life_state_on_delete: life_state,
                        ..b
                    },
                ),
    {
        let found = find_idx_i32(&self.bosses, entity_index);
        match found {
            Some(i) => {
                let ghost pre = self.bosses@;
                let mut entry = self.bosses.remove(i);
                entry.1.death_time_s = Some(current_time_s);
                entry.1.life_state_on_delete = life_state;
                self.bosses.insert(i, entry);
                proof {
                    assert(self.bosses@ =~= pre.update(i as int, entry));
                    assert forall|k: i32| true implies #[trigger] find_pair_spec(self.bosses@, k)
                        == (if k == entity_index {
                        Some(entry.1)
                    } else {
                        find_pair_spec(pre, k)
                    }) by {
                        lemma_find_update(pre, i as int, entry, k);
                    }
                    assert forall|a: int, b: int|
                        0 <= a < b < self.bosses@.len() implies self.bosses@[a].0
                        != self.bosses@[b].0 by {
                        assert(self.bosses@[a].0 == pre[a].0);
                        assert(self.bosses@[b].0 == pre[b].0);
                    }
                }
            },
            None => {},
        }
    }

    /// Record a boss health sample from a damage event: when the victim index
    /// is tracked and the victim is still live, append a sample with the
    /// victim's live health field at event time (`live_health`), not the
    /// damage message's reported value. Otherwise nothing changes.
    pub fn record_boss_damage(
        &mut self,
        victim_entity_index: i32,
        live_health: Option<i32>,
        current_time_s: u32,
    )
        requires
            old(self).wf(),
        ensures
            final(self).wf(),
            final(self).bosses == old(self).bosses,
            final(self).health_timeline == old(self).health_timeline,
            old(self).boss_of(victim_entity_index) is None || live_health is None ==> *final(self)
                == *old(self),
            forall|h: i32|
                old(self).boss_of(victim_entity_index) is Some && live_health == Some(h) ==> final(self).samples_of(victim_entity_index) == old(self).samples_of(
                    victim_entity_index,
                ).push((current_time_s, h)),
            forall|k: i32|
                k != victim_entity_index ==> #[trigger] final(self).samples_of(k) == old(self).samples_of(k),
    {
        let tracked_boss = find_idx_i32(&self.bosses, victim_entity_index);
        if tracked_boss.is_none() {
            return ;
        }
        match live_health {
            Some(h) => {
                self.push_sample(victim_entity_index, current_time_s, h);
            },
            None => {},
        }
    }

    /// Finalize a window: for every tracked objective with a sample at or
    /// before the window, record the carry-forward health value; objectives
    /// without such a sample are omitted from the window's map.
    pub fn build_health_window(&mut self, window_s: u32)
        requires
            old(self).wf(),
        ensures
            final(self).wf(),
            final(self).bosses == old(self).bosses,
            final(self).health_samples == old(self).health_samples,
            final(self).health_timeline@.len() == old(self).health_timeline@.len() + 1,
            forall|j: int|
                0 <= j < old(self).health_timeline@.len() ==> #[trigger] final(self).health_timeline@[j] == old(self).health_timeline@[j],
            final(self).health_timeline@.last()@ == window_map_spec(
                old(self).health_samples@,
                window_s,
            ),
    {
        let mut window_health: Vec<(i32, i32)> = Vec::new();
        let mut i: usize = 0;
        let ghost all = self.health_samples@;
        while i < self.health_samples.len()
            invariant
                0 <= i <= self.health_samples.len(),
                self.health_samples@ == all,
                window_health@ == window_map_spec(all.take(i as int), window_s),
            decreases self.health_samples.len() - i,
        {
            proof {
                assert(all.take(i as int + 1).drop_last() =~= all.take(i as int));
                assert(all.take(i as int + 1).last() == all[i as int]);
            }
            let entry_len = self.health_samples[i].1.len();
            let mut j: usize = entry_len;
            let mut carried: Option<i32> = None;
            proof {
                assert(self.health_samples@[i as int].1@.take(entry_len as int)
                    =~= self.health_samples@[i as int].1@);
            }
            while j > 0 && carried.is_none()
                invariant
                    0 <= j <= entry_len,
                    entry_len == self.health_samples@[i as int].1@.len(),
                    i < self.health_samples@.len(),
                    self.health_samples@ == all,
                    carried is None ==> last_at_or_before(self.health_samples@[i as int].1@,
                        window_s) == last_at_or_before(
                        self.health_samples@[i as int].1@.take(j as int),
                        window_s,
                    ),
                    carried is Some ==> carried == last_at_or_before(
                        self.health_samples@[i as int].1@,
                        window_s,
                    ),
                decreases j,
            {
                let sample = self.health_samples[i].1[j - 1];
                proof {
                    let sv = self.health_samples@[i as int].1@;
                    assert(sv.take(j as int).last() == sv[j - 1]);
                    assert(sv.take(j as int).drop_last() =~= sv.take(j as int - 1));
                }
                if sample.0 <= window_s {
                    carried = Some(sample.1);
                }
                j = j - 1;
            }
            proof {
                if carried is None {
                    assert(self.health_samples@[i as int].1@.take(0) =~= Seq::<(u32, i32)>::empty());
                }
            }
            match carried {
                Some(h) => {
                    window_health.push((self.health_samples[i].0, h));
                },
                None => {},
            }
            i = i + 1;
        }
        proof {
            assert(all.take(all.len() as int) =~= all);
        }
        self.health_timeline.push(window_health);
    }

    /// The output of the tracker: every snapshot in tracking order, and the
    /// per-window health timeline.
    pub fn get_output(self) -> (r: (Vec<BossSnapshot>, Vec<Vec<(i32, i32)>>))
        ensures
            r.0@ == self.bosses@.map_values(|p: (i32, BossSnapshot)| p.1),
            r.1 == self.health_timeline,
    {
        let mut snapshots: Vec<BossSnapshot> = Vec::new();
        let mut i: usize = 0;
        while i < self.bosses.len()
            invariant
                0 <= i <= self.bosses.len(),
                snapshots@ =~= self.bosses@.take(i as int).map_values(
                    |p: (i32, BossSnapshot)| p.1,
                ),
            decreases self.bosses.len() - i,
        {
            snapshots.push(self.bosses[i].1);
            proof {
                assert(self.bosses@.take(i as int + 1).drop_last() =~= self.bosses@.take(i as int));
                assert(self.bosses@.take(i as int + 1).map_values(|p: (i32, BossSnapshot)| p.1)
                    =~= self.bosses@.take(i as int).map_values(|p: (i32, BossSnapshot)| p.1).push(
                    self.bosses@[i as int].1,
                ));
            }
            i = i + 1;
        }
        proof {
            assert(self.bosses@.take(self.bosses@.len() as int) =~= self.bosses@);
        }
        (snapshots, self.health_timeline)
    }
}

} // verus!
