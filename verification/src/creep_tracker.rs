//! Creep tracker: active lane-creep positions and the per-window spatial
//! clustering of each lane/team group into distinct "waves".
//!
//! Clustering is greedy nearest-centroid: members are taken in order of the
//! motion-axis coordinate (Y), each joins the nearest existing cluster whose
//! current centroid lies strictly within the clustering threshold, and
//! otherwise starts a new cluster; centroids are truncated integer means.

use vstd::prelude::*;
use vstd::arithmetic::div_mod::{lemma_div_is_ordered, lemma_div_multiples_vanish};
use crate::assoc::{find_pair_spec, lemma_find_at, lemma_find_none, unique_keys};
use crate::domain::{CreepWaveSnapshot, EntityClass, WaveKey};
use crate::events::EntityFields;
use crate::position::{COORD_BOUND, get_entity_position};

verus! {

/// Distance threshold for clustering creeps into separate waves, in world
/// units: large enough to group one wave's spawn group, small enough to keep
/// successive waves and stragglers distinct.
pub const WAVE_CLUSTER_THRESHOLD: i64 = 1000;

/// The squared clustering threshold; distances are compared squared.
pub const WAVE_CLUSTER_THRESHOLD_SQ: i64 = 1000000;

/// An active creep: identity, lane/team grouping key, and position.
#[derive(Clone, Copy, Debug, PartialEq, Eq, Structural)]
pub struct ActiveCreep {
    pub entity_index: i32,
    pub lane: i32,
    pub team: u32,
    pub x: i32,
    pub y: i32,
}

/// The creep's coordinates are within the resolver's world bound.
pub open spec fn creep_bounded(c: ActiveCreep) -> bool {
    &&& -COORD_BOUND <= c.x <= COORD_BOUND
    &&& -COORD_BOUND <= c.y <= COORD_BOUND
}

/// Integer division truncated toward zero (the centroid rounding).
pub open spec fn div_trunc(a: int, b: int) -> int {
    if a >= 0 {
        a / b
    } else {
        -((-a) / b)
    }
}

/// Truncating division of a sum bounded by `n` multiples stays within the
/// same per-element bounds.
proof fn lemma_div_trunc_bounds(s: int, n: int, lo: int, hi: int)
    requires
        0 < n,
        lo * n <= s <= hi * n,
    ensures
        lo <= div_trunc(s, n) <= hi,
{
    if s >= 0 {
        assert(hi * n == n * hi) by (nonlinear_arith);
        lemma_div_is_ordered(s, hi * n, n);
        lemma_div_multiples_vanish(hi, n);
        if lo >= 0 {
            assert(lo * n == n * lo) by (nonlinear_arith);
            lemma_div_is_ordered(lo * n, s, n);
            lemma_div_multiples_vanish(lo, n);
        } else {
            vstd::arithmetic::div_mod::lemma_div_pos_is_pos(s, n);
        }
    } else {
        assert((-lo) * n == -(lo * n) && (-lo) * n == n * (-lo)) by (nonlinear_arith);
        lemma_div_is_ordered(-s, (-lo) * n, n);
        lemma_div_multiples_vanish(-lo, n);
        if hi < 0 {
            assert((-hi) * n == -(hi * n) && (-hi) * n == n * (-hi)) by (nonlinear_arith);
            lemma_div_is_ordered((-hi) * n, -s, n);
            lemma_div_multiples_vanish(-hi, n);
        } else {
            vstd::arithmetic::div_mod::lemma_div_pos_is_pos(-s, n);
        }
    }
}

/// Sum of the members' X coordinates.
pub open spec fn sum_x(s: Seq<ActiveCreep>) -> int
    decreases s.len(),
{
    if s.len() == 0 {
        0
    } else {
        sum_x(s.drop_last()) + s.last().x
    }
}

/// Sum of the members' Y coordinates.
pub open spec fn sum_y(s: Seq<ActiveCreep>) -> int
    decreases s.len(),
{
    if s.len() == 0 {
        0
    } else {
        sum_y(s.drop_last()) + s.last().y
    }
}

/// Centroid X of a cluster: the truncated mean of the members' X.
pub open spec fn cent_x(s: Seq<ActiveCreep>) -> int {
    div_trunc(sum_x(s), s.len() as int)
}

/// Centroid Y of a cluster: the truncated mean of the members' Y.
pub open spec fn cent_y(s: Seq<ActiveCreep>) -> int {
    div_trunc(sum_y(s), s.len() as int)
}

/// Squared Euclidean distance between two points.
pub open spec fn dist2(px: int, py: int, qx: int, qy: int) -> int {
    (px - qx) * (px - qx) + (py - qy) * (py - qy)
}

/// Squared distance from a creep to a cluster's current centroid.
pub open spec fn creep_dist2(c: ActiveCreep, cl: Seq<ActiveCreep>) -> int {
    dist2(c.x as int, c.y as int, cent_x(cl), cent_y(cl))
}

/// The first nearest cluster among the first `n` whose centroid lies
/// strictly within the threshold of the creep, if any.
pub open spec fn best_upto(cls: Seq<Seq<ActiveCreep>>, c: ActiveCreep, n: int) -> Option<int>
    decreases n,
{
    if n <= 0 {
        None
    } else {
        let prev = best_upto(cls, c, n - 1);
        let d = creep_dist2(c, cls[n - 1]);
        if d < WAVE_CLUSTER_THRESHOLD_SQ && (match prev {
            Some(p) => d < creep_dist2(c, cls[p]),
            None => true,
        }) {
            Some(n - 1)
        } else {
            prev
        }
    }
}

/// The cluster a creep is assigned to, if any: the nearest existing cluster
/// within the threshold, ties resolved to the earliest cluster.
pub open spec fn best_cluster(cls: Seq<Seq<ActiveCreep>>, c: ActiveCreep) -> Option<int> {
    best_upto(cls, c, cls.len() as int)
}

/// A selected cluster index is in range and strictly within the threshold.
pub proof fn lemma_best_upto_in_range(cls: Seq<Seq<ActiveCreep>>, c: ActiveCreep, n: int)
    requires
        n <= cls.len(),
    ensures
        match best_upto(cls, c, n) {
            Some(p) => 0 <= p < n && creep_dist2(c, cls[p]) < WAVE_CLUSTER_THRESHOLD_SQ,
            None => true,
        },
    decreases n,
{
    if n > 0 {
        lemma_best_upto_in_range(cls, c, n - 1);
    }
}

/// One step of greedy clustering: the creep joins its best cluster, or
/// starts a new one.
pub open spec fn greedy_step(cls: Seq<Seq<ActiveCreep>>, c: ActiveCreep) -> Seq<Seq<ActiveCreep>> {
    match best_cluster(cls, c) {
        Some(p) => cls.update(p, cls[p].push(c)),
        None => cls.push(seq![c]),
    }
}

/// Greedy clustering of a sequence of creeps, in order.
pub open spec fn greedy_spec(s: Seq<ActiveCreep>) -> Seq<Seq<ActiveCreep>>
    decreases s.len(),
{
    if s.len() == 0 {
        Seq::empty()
    } else {
        greedy_step(greedy_spec(s.drop_last()), s.last())
    }
}

/// Stable insertion of a creep into a sequence sorted by Y ascending.
pub open spec fn insert_by_y(s: Seq<ActiveCreep>, c: ActiveCreep) -> Seq<ActiveCreep>
    decreases s.len(),
{
    if s.len() == 0 {
        seq![c]
    } else if c.y < s.last().y {
        insert_by_y(s.drop_last(), c).push(s.last())
    } else {
        s.push(c)
    }
}

/// Stable insertion sort of creeps by Y ascending.
pub open spec fn sort_by_y_spec(s: Seq<ActiveCreep>) -> Seq<ActiveCreep>
    decreases s.len(),
{
    if s.len() == 0 {
        Seq::empty()
    } else {
        insert_by_y(sort_by_y_spec(s.drop_last()), s.last())
    }
}

/// Stable insertion of a cluster into a sequence sorted by centroid Y.
pub open spec fn insert_cluster_spec(s: Seq<Seq<ActiveCreep>>, cl: Seq<ActiveCreep>) -> Seq<
    Seq<ActiveCreep>,
>
    decreases s.len(),
{
    if s.len() == 0 {
        seq![cl]
    } else if cent_y(cl) < cent_y(s.last()) {
        insert_cluster_spec(s.drop_last(), cl).push(s.last())
    } else {
        s.push(cl)
    }
}

/// Stable insertion sort of clusters by centroid Y ascending.
pub open spec fn sort_clusters_spec(s: Seq<Seq<ActiveCreep>>) -> Seq<Seq<ActiveCreep>>
    decreases s.len(),
{
    if s.len() == 0 {
        Seq::empty()
    } else {
        insert_cluster_spec(sort_clusters_spec(s.drop_last()), s.last())
    }
}

/// The full clustering pipeline: sort by Y, cluster greedily, and order the
/// clusters by centroid Y.
pub open spec fn cluster_model(s: Seq<ActiveCreep>) -> Seq<Seq<ActiveCreep>> {
    sort_clusters_spec(greedy_spec(sort_by_y_spec(s)))
}

/// The view of an executable cluster list.
pub open spec fn clusters_view(s: Seq<Vec<ActiveCreep>>) -> Seq<Seq<ActiveCreep>> {
    s.map_values(|v: Vec<ActiveCreep>| v@)
}

/// Every member of every cluster is coordinate-bounded.
pub open spec fn clusters_bounded(s: Seq<Seq<ActiveCreep>>) -> bool {
    forall|i: int, j: int|
        0 <= i < s.len() && 0 <= j < s[i].len() ==> creep_bounded(#[trigger] s[i][j])
}

/// Every cluster is nonempty.
pub open spec fn clusters_nonempty(s: Seq<Seq<ActiveCreep>>) -> bool {
    forall|i: int| 0 <= i < s.len() ==> #[trigger] s[i].len() > 0
}

/// Compute a cluster's centroid: the truncated integer mean of its members.
pub fn centroid(cl: &Vec<ActiveCreep>) -> (r: (i32, i32))
    requires
        cl@.len() > 0,
        forall|i: int| 0 <= i < cl@.len() ==> creep_bounded(#[trigger] cl@[i]),
    ensures
        r.0 == cent_x(cl@),
        r.1 == cent_y(cl@),
        -COORD_BOUND <= r.0 <= COORD_BOUND,
        -COORD_BOUND <= r.1 <= COORD_BOUND,
{
    let mut sx: i128 = 0;
    let mut sy: i128 = 0;
    let mut i: usize = 0;
    while i < cl.len()
        invariant
            0 <= i <= cl@.len(),
            forall|k: int| 0 <= k < cl@.len() ==> creep_bounded(#[trigger] cl@[k]),
            sx == sum_x(cl@.take(i as int)),
            sy == sum_y(cl@.take(i as int)),
            -(i as int) * (COORD_BOUND as int) <= sx <= (i as int) * (COORD_BOUND as int),
            -(i as int) * (COORD_BOUND as int) <= sy <= (i as int) * (COORD_BOUND as int),
        decreases cl@.len() - i,
    {
        proof {
            assert(cl@.take(i as int + 1).drop_last() =~= cl@.take(i as int));
            assert(cl@.take(i as int + 1).last() == cl@[i as int]);
        }
        sx = sx + (cl[i].x as i128);
        sy = sy + (cl[i].y as i128);
        i = i + 1;
    }
    proof {
        assert(cl@.take(cl@.len() as int) =~= cl@);
    }
    let cx = div_count(sx, cl.len());
    let cy = div_count(sy, cl.len());
    (cx, cy)
}

/// Divide a bounded coordinate sum by the member count, truncating toward
/// zero.
fn div_count(sum: i128, n: usize) -> (q: i32)
    requires
        n > 0,
        -(n as int) * (COORD_BOUND as int) <= sum <= (n as int) * (COORD_BOUND as int),
    ensures
        q == div_trunc(sum as int, n as int),
        -COORD_BOUND <= q <= COORD_BOUND,
{
    proof {
        assert((-(COORD_BOUND as int)) * (n as int) == -((n as int) * (COORD_BOUND as int))
            && (COORD_BOUND as int) * (n as int) == (n as int) * (COORD_BOUND as int))
            by (nonlinear_arith);
        lemma_div_trunc_bounds(sum as int, n as int, -(COORD_BOUND as int), COORD_BOUND as int);
    }
    if sum >= 0 {
        let q128: u128 = (sum as u128) / (n as u128);
        q128 as i32
    } else {
        let m: u128 = (-sum) as u128;
        let q128: u128 = m / (n as u128);
        -(q128 as i32)
    }
}

/// Compute the squared distance between two bounded points.
fn dist2_exec(px: i32, py: i32, qx: i32, qy: i32) -> (d: i64)
    requires
        -COORD_BOUND <= px <= COORD_BOUND,
        -COORD_BOUND <= py <= COORD_BOUND,
        -COORD_BOUND <= qx <= COORD_BOUND,
        -COORD_BOUND <= qy <= COORD_BOUND,
    ensures
        d == dist2(px as int, py as int, qx as int, qy as int),
        d >= 0,
{
    let dx: i64 = (px as i64) - (qx as i64);
    let dy: i64 = (py as i64) - (qy as i64);
    proof {
        lemma_square_bound(dx as int, 2 * COORD_BOUND as int);
        lemma_square_bound(dy as int, 2 * COORD_BOUND as int);
    }
    dx * dx + dy * dy
}

/// The square of a bounded value is bounded by the squared bound.
proof fn lemma_square_bound(a: int, m: int)
    requires
        -m <= a <= m,
        0 <= m,
    ensures
        0 <= a * a <= m * m,
{
    if a >= 0 {
        vstd::arithmetic::mul::lemma_mul_upper_bound(a, m, a, m);
    } else {
        assert(a * a == (-a) * (-a)) by (nonlinear_arith);
        vstd::arithmetic::mul::lemma_mul_upper_bound(-a, m, -a, m);
    }
    assert(a * a >= 0) by (nonlinear_arith);
}

/// Where the stable insertion lands: before every member with a strictly
/// larger Y and after the rest.
proof fn lemma_insert_by_y_at(s: Seq<ActiveCreep>, c: ActiveCreep, j: int)
    requires
        0 <= j <= s.len(),
        forall|k: int| j <= k < s.len() ==> c.y < (#[trigger] s[k]).y,
        j > 0 ==> !(c.y < s[j - 1].y),
    ensures
        insert_by_y(s, c) == s.take(j).push(c) + s.skip(j),
    decreases s.len() - j,
{
    if j == s.len() {
        if s.len() == 0 {
            assert(insert_by_y(s, c) =~= s.take(j).push(c) + s.skip(j));
        } else {
            assert(insert_by_y(s, c) == s.push(c));
            assert(s.push(c) =~= s.take(j).push(c) + s.skip(j));
        }
    } else {
        assert(c.y < s.last().y);
        let dl = s.drop_last();
        assert(forall|k: int| j <= k < dl.len() ==> (#[trigger] dl[k]) == s[k]);
        lemma_insert_by_y_at(dl, c, j);
        assert(insert_by_y(s, c) == insert_by_y(dl, c).push(s.last()));
        assert((dl.take(j).push(c) + dl.skip(j)).push(s.last()) =~= s.take(j).push(c) + s.skip(j));
    }
}

/// Stable insertion adds exactly the inserted member to the multiset.
pub proof fn lemma_insert_by_y_multiset(s: Seq<ActiveCreep>, c: ActiveCreep)
    ensures
        insert_by_y(s, c).to_multiset() == s.to_multiset().insert(c),
        insert_by_y(s, c).len() == s.len() + 1,
    decreases s.len(),
{
    broadcast use vstd::seq_lib::group_to_multiset_ensures;

    if s.len() == 0 {
        assert(seq![c] =~= Seq::<ActiveCreep>::empty().push(c));
        assert(insert_by_y(s, c).to_multiset() =~= s.to_multiset().insert(c));
    } else if c.y < s.last().y {
        lemma_insert_by_y_multiset(s.drop_last(), c);
        assert(s =~= s.drop_last().push(s.last()));
        assert(insert_by_y(s, c).to_multiset() =~= s.to_multiset().insert(c));
    } else {
        assert(insert_by_y(s, c).to_multiset() =~= s.to_multiset().insert(c));
    }
}

/// Sorting by Y preserves the members as a multiset.
pub proof fn lemma_sort_by_y_multiset(s: Seq<ActiveCreep>)
    ensures
        sort_by_y_spec(s).to_multiset() == s.to_multiset(),
        sort_by_y_spec(s).len() == s.len(),
    decreases s.len(),
{
    broadcast use vstd::seq_lib::group_to_multiset_ensures;

    if s.len() > 0 {
        lemma_sort_by_y_multiset(s.drop_last());
        lemma_insert_by_y_multiset(sort_by_y_spec(s.drop_last()), s.last());
        assert(s =~= s.drop_last().push(s.last()));
        assert(sort_by_y_spec(s).to_multiset() =~= s.to_multiset());
    }
}

/// Insert a creep into a vector sorted by Y ascending, stably.
fn insert_creep_sorted(v: &mut Vec<ActiveCreep>, c: ActiveCreep)
    ensures
        final(v)@ == insert_by_y(old(v)@, c),
{
    let mut j: usize = v.len();
    while j > 0 && c.y < v[j - 1].y
        invariant
            0 <= j <= v@.len(),
            v@ == old(v)@,
            forall|k: int| j <= k < v@.len() ==> c.y < (#[trigger] v@[k]).y,
        decreases j,
    {
        j = j - 1;
    }
    proof {
        lemma_insert_by_y_at(v@, c, j as int);
    }
    v.insert(j, c);
    proof {
        assert(v@ =~= old(v)@.take(j as int).push(c) + old(v)@.skip(j as int));
    }
}

/// Sort creeps by their Y coordinate ascending (the motion axis), stably.
fn sort_creeps_by_y(creeps: &Vec<ActiveCreep>) -> (r: Vec<ActiveCreep>)
    ensures
        r@ == sort_by_y_spec(creeps@),
{
    let mut r: Vec<ActiveCreep> = Vec::new();
    let mut i: usize = 0;
    while i < creeps.len()
        invariant
            0 <= i <= creeps@.len(),
            r@ == sort_by_y_spec(creeps@.take(i as int)),
        decreases creeps@.len() - i,
    {
        proof {
            assert(creeps@.take(i as int + 1).drop_last() =~= creeps@.take(i as int));
            assert(creeps@.take(i as int + 1).last() == creeps@[i as int]);
        }
        insert_creep_sorted(&mut r, creeps[i]);
        i = i + 1;
    }
    proof {
        assert(creeps@.take(creeps@.len() as int) =~= creeps@);
    }
    r
}

/// Where the stable cluster insertion lands, by centroid Y.
proof fn lemma_insert_cluster_at(s: Seq<Seq<ActiveCreep>>, cl: Seq<ActiveCreep>, j: int)
    requires
        0 <= j <= s.len(),
        forall|k: int| j <= k < s.len() ==> cent_y(cl) < cent_y(#[trigger] s[k]),
        j > 0 ==> !(cent_y(cl) < cent_y(s[j - 1])),
    ensures
        insert_cluster_spec(s, cl) == s.take(j).push(cl) + s.skip(j),
    decreases s.len() - j,
{
    if j == s.len() {
        if s.len() == 0 {
            assert(insert_cluster_spec(s, cl) =~= s.take(j).push(cl) + s.skip(j));
        } else {
            assert(insert_cluster_spec(s, cl) == s.push(cl));
            assert(s.push(cl) =~= s.take(j).push(cl) + s.skip(j));
        }
    } else {
        assert(cent_y(cl) < cent_y(s.last()));
        let dl = s.drop_last();
        assert(forall|k: int| j <= k < dl.len() ==> (#[trigger] dl[k]) == s[k]);
        lemma_insert_cluster_at(dl, cl, j);
        assert(insert_cluster_spec(s, cl) == insert_cluster_spec(dl, cl).push(s.last()));
        assert((dl.take(j).push(cl) + dl.skip(j)).push(s.last()) =~= s.take(j).push(cl) + s.skip(
            j,
        ));
    }
}

/// Insert a cluster into a vector sorted by centroid Y ascending, stably.
fn insert_cluster_sorted(v: &mut Vec<Vec<ActiveCreep>>, cl: Vec<ActiveCreep>)
    requires
        cl@.len() > 0,
        forall|i: int| 0 <= i < cl@.len() ==> creep_bounded(#[trigger] cl@[i]),
        clusters_nonempty(clusters_view(old(v)@)),
        clusters_bounded(clusters_view(old(v)@)),
    ensures
        clusters_view(final(v)@) == insert_cluster_spec(clusters_view(old(v)@), cl@),
        clusters_nonempty(clusters_view(final(v)@)),
        clusters_bounded(clusters_view(final(v)@)),
{
    let cy = centroid(&cl).1;
    let mut j: usize = v.len();
    while j > 0
        invariant
            0 <= j <= v@.len(),
            v@ == old(v)@,
            cy == cent_y(cl@),
            cl@.len() > 0,
            forall|i: int| 0 <= i < cl@.len() ==> creep_bounded(#[trigger] cl@[i]),
            clusters_nonempty(clusters_view(v@)),
            clusters_bounded(clusters_view(v@)),
            forall|k: int|
                j <= k < v@.len() ==> cent_y(cl@) < cent_y(#[trigger] clusters_view(v@)[k]),
        ensures
            0 <= j <= v@.len(),
            v@ == old(v)@,
            forall|k: int|
                j <= k < v@.len() ==> cent_y(cl@) < cent_y(#[trigger] clusters_view(v@)[k]),
            j > 0 ==> !(cent_y(cl@) < cent_y(clusters_view(v@)[j - 1])),
        decreases j,
    {
        proof {
            assert(clusters_view(v@)[j - 1] == v@[j - 1]@);
        }
        let py = centroid(&v[j - 1]).1;
        if !(cy < py) {
            break ;
        }
        j = j - 1;
    }
    proof {
        lemma_insert_cluster_at(clusters_view(v@), cl@, j as int);
    }
    v.insert(j, cl);
    proof {
        let pre = clusters_view(old(v)@);
        assert(clusters_view(v@) =~= pre.take(j as int).push(cl@) + pre.skip(j as int));
    }
}

/// Cluster creeps spatially: sort by Y, assign each in order to the nearest
/// cluster whose running centroid is strictly within the threshold (or start
/// a new cluster), and order the clusters by centroid Y.
pub fn cluster_creeps(creeps: &Vec<ActiveCreep>) -> (r: Vec<Vec<ActiveCreep>>)
    requires
        forall|i: int| 0 <= i < creeps@.len() ==> creep_bounded(#[trigger] creeps@[i]),
    ensures
        clusters_view(r@) == cluster_model(creeps@),
        clusters_nonempty(clusters_view(r@)),
        clusters_bounded(clusters_view(r@)),
{
    broadcast use vstd::seq_lib::group_to_multiset_ensures;

    let sorted = sort_creeps_by_y(creeps);
    proof {
        lemma_sort_by_y_multiset(creeps@);
        assert forall|i: int| 0 <= i < sorted@.len() implies creep_bounded(
            #[trigger] sorted@[i],
        ) by {
            assert(sorted@.contains(sorted@[i]));
            assert(creeps@.to_multiset().count(sorted@[i]) > 0);
            assert(creeps@.contains(sorted@[i]));
            let j = choose|j: int| 0 <= j < creeps@.len() && creeps@[j] == sorted@[i];
            assert(creep_bounded(creeps@[j]));
        }
    }
    let mut clusters: Vec<Vec<ActiveCreep>> = Vec::new();
    let mut i: usize = 0;
    while i < sorted.len()
        invariant
            0 <= i <= sorted@.len(),
            forall|k: int| 0 <= k < sorted@.len() ==> creep_bounded(#[trigger] sorted@[k]),
            clusters_view(clusters@) == greedy_spec(sorted@.take(i as int)),
            clusters_nonempty(clusters_view(clusters@)),
            clusters_bounded(clusters_view(clusters@)),
        decreases sorted@.len() - i,
    {
        let c = sorted[i];
        let ghost cv = clusters_view(clusters@);
        let mut best: Option<usize> = None;
        let mut bd: i64 = 0;
        let mut k: usize = 0;
        while k < clusters.len()
            invariant
                0 <= k <= clusters@.len(),
                creep_bounded(c),
                clusters_view(clusters@) == cv,
                clusters_nonempty(cv),
                clusters_bounded(cv),
                match best {
                    Some(b) => b < k && best_upto(cv, c, k as int) == Some(b as int) && bd
                        == creep_dist2(c, cv[b as int]),
                    None => best_upto(cv, c, k as int) is None,
                },
            decreases clusters@.len() - k,
        {
            proof {
                assert(cv[k as int] == clusters@[k as int]@);
            }
            let cen = centroid(&clusters[k]);
            let d = dist2_exec(c.x, c.y, cen.0, cen.1);
            proof {
                assert(d == creep_dist2(c, cv[k as int]));
            }
            let better: bool = d < WAVE_CLUSTER_THRESHOLD_SQ && (match best {
                Some(_) => d < bd,
                None => true,
            });
            if better {
                best = Some(k);
                bd = d;
            }
            k = k + 1;
        }
        let ghost pre = clusters_view(clusters@);
        match best {
            Some(b) => {
                let mut cl = clusters.remove(b);
                cl.push(c);
                clusters.insert(b, cl);
                proof {
                    assert(clusters_view(clusters@) =~= pre.update(
                        b as int,
                        pre[b as int].push(c),
                    ));
                }
            },
            None => {
                let mut nv: Vec<ActiveCreep> = Vec::new();
                nv.push(c);
                clusters.push(nv);
                proof {
                    assert(nv@ =~= seq![c]);
                    assert(clusters_view(clusters@) =~= pre.push(nv@));
                }
            },
        }
        proof {
            assert(sorted@.take(i as int + 1).drop_last() =~= sorted@.take(i as int));
            assert(sorted@.take(i as int + 1).last() == sorted@[i as int]);
            assert(clusters_view(clusters@) == greedy_step(pre, c));
        }
        i = i + 1;
    }
    proof {
        assert(sorted@.take(sorted@.len() as int) =~= sorted@);
    }
    let ghost gv = clusters_view(clusters@);
    let mut out: Vec<Vec<ActiveCreep>> = Vec::new();
    let mut n: usize = 0;
    let total_now: usize = clusters.len();
    let ghost total = total_now as int;
    while clusters.len() > 0
        invariant
            0 <= n <= total <= usize::MAX,
            clusters_view(clusters@) == gv.skip(n as int),
            n as int + clusters@.len() == total,
            gv.len() == total,
            clusters_nonempty(gv),
            clusters_bounded(gv),
            clusters_view(out@) == sort_clusters_spec(gv.take(n as int)),
            clusters_nonempty(clusters_view(out@)),
            clusters_bounded(clusters_view(out@)),
        decreases clusters@.len(),
    {
        let ghost before = clusters@;
        let cl = clusters.remove(0);
        proof {
            assert(clusters_view(before)[0] == before[0]@);
            assert(cl@ == gv.skip(n as int)[0]);
            assert(gv.skip(n as int)[0] == gv[n as int]);
            assert(gv[n as int].len() > 0);
            assert forall|j: int| 0 <= j < clusters@.len() implies clusters_view(clusters@)[j]
                == gv.skip(n as int + 1)[j] by {
                assert(clusters@[j] == before[j + 1]);
                assert(clusters_view(before)[j + 1] == before[j + 1]@);
                assert(clusters_view(before)[j + 1] == gv.skip(n as int)[j + 1]);
                assert(gv.skip(n as int)[j + 1] == gv[n as int + 1 + j]);
                assert(gv.skip(n as int + 1)[j] == gv[n as int + 1 + j]);
            }
            assert(clusters_view(clusters@) =~= gv.skip(n as int + 1));
            assert(gv.take(n as int + 1).drop_last() =~= gv.take(n as int));
            assert(gv.take(n as int + 1).last() == gv[n as int]);
        }
        insert_cluster_sorted(&mut out, cl);
        n = n + 1;
    }
    proof {
        assert(gv.take(total) =~= gv);
    }
    out
}

/// Whether a class is a tracked lane-creep type.
pub open spec fn is_creep_class(class: EntityClass) -> bool {
    class == EntityClass::Trooper
}

/// The active-creep record built from an entity's fields: lane and team with
/// 0 as the missing-field sentinel, and the resolved world position.
pub open spec fn creep_spec(entity_index: i32, fields: EntityFields) -> ActiveCreep {
    ActiveCreep {
        entity_index,
        lane: match fields.lane {
            Some(l) => l,
            None => 0i32,
        },
        team: match fields.team {
            Some(t) => t,
            None => 0u32,
        },
        x: crate::position::position_spec(fields).x,
        y: crate::position::position_spec(fields).y,
    }
}

/// The creeps carried by the active list, in tracking order.
pub open spec fn active_view(s: Seq<(i32, ActiveCreep)>) -> Seq<ActiveCreep> {
    s.map_values(|p: (i32, ActiveCreep)| p.1)
}

/// `n` empty timeline slots.
pub open spec fn none_slots(n: int) -> Seq<Option<CreepWaveSnapshot>> {
    Seq::new(n as nat, |i: int| None::<CreepWaveSnapshot>)
}

/// Tracks lane-creep entities to compute per-window wave positions.
pub struct CreepTracker {
    /// Currently active creeps, keyed by raw entity index.
    pub active_creeps: Vec<(i32, ActiveCreep)>,
    /// Per-wave timelines, keyed by (lane, team, wave index); every timeline
    /// holds one slot per window finalized so far.
    pub wave_timeline: Vec<(WaveKey, Vec<Option<CreepWaveSnapshot>>)>,
    /// The next window to be finalized.
    pub current_window: u32,
}

impl CreepTracker {
    /// Keys are distinct, each record carries its own key, every coordinate
    /// is bounded, and every timeline covers exactly the finalized windows.
    pub open spec fn wf(&self) -> bool {
        &&& unique_keys(self.active_creeps@)
        &&& forall|i: int|
            0 <= i < self.active_creeps@.len() ==> (#[trigger] self.active_creeps@[i]).1.entity_index
                == self.active_creeps@[i].0 && creep_bounded(self.active_creeps@[i].1)
        &&& unique_keys(self.wave_timeline@)
        &&& forall|i: int|
            0 <= i < self.wave_timeline@.len() ==> (#[trigger] self.wave_timeline@[i]).1@.len()
                == self.current_window
    }

    /// The active record of an entity index.
    pub open spec fn creep_of(&self, entity_index: i32) -> Option<ActiveCreep> {
        find_pair_spec(self.active_creeps@, entity_index)
    }

    /// The slots of the timeline under a wave key.
    pub open spec fn timeline_seq(&self, k: WaveKey) -> Option<Seq<Option<CreepWaveSnapshot>>> {
        match find_pair_spec(self.wave_timeline@, k) {
            Some(v) => Some(v@),
            None => None,
        }
    }

    pub fn new() -> (r: CreepTracker)
        ensures
            r.wf(),
            r.active_creeps@ == Seq::<(i32, ActiveCreep)>::empty(),
            r.wave_timeline@ == Seq::<(WaveKey, Vec<Option<CreepWaveSnapshot>>)>::empty(),
            r.current_window == 0,
    {
        CreepTracker { active_creeps: Vec::new(), wave_timeline: Vec::new(), current_window: 0 }
    }

    /// Check whether an entity class is a lane creep.
    pub fn is_creep_entity(class: EntityClass) -> (r: bool)
        ensures
            r == is_creep_class(class),
    {
        match class {
            EntityClass::Trooper => true,
            _ => false,
        }
    }

    /// Handle creep creation: record (or overwrite) the creep's lane, team
    /// and position.
    pub fn handle_creep_create(&mut self, entity_index: i32, fields: &EntityFields)
        requires
            old(self).wf(),
        ensures
            final(self).wf(),
            final(self).wave_timeline == old(self).wave_timeline,
            final(self).current_window == old(self).current_window,
            final(self).creep_of(entity_index) == Some(creep_spec(entity_index, *fields)),
            forall|k: i32|
                k != entity_index ==> #[trigger] final(self).creep_of(k) == old(self).creep_of(k),
    {
        let pos = get_entity_position(fields);
        let lane: i32 = match fields.lane {
            Some(l) => l,
            None => 0,
        };
        let team: u32 = match fields.team {
            Some(t) => t,
            None => 0,
        };
        let creep = ActiveCreep { entity_index, lane, team, x: pos.x, y: pos.y };
        crate::assoc::upsert_i32(&mut self.active_creeps, entity_index, creep);
        proof {
            crate::assoc::lemma_find_key_idx(old(self).active_creeps@, entity_index);
            let pre = old(self).active_creeps@;
            let idx = crate::assoc::find_key_idx(pre, entity_index);
            assert forall|j: int| 0 <= j < self.active_creeps@.len() implies (
            #[trigger] self.active_creeps@[j]).1.entity_index == self.active_creeps@[j].0
                && creep_bounded(self.active_creeps@[j].1) by {
                if idx >= 0 {
                    if j != idx {
                        assert(self.active_creeps@[j] == pre[j]);
                    }
                } else {
                    if j < pre.len() {
                        assert(self.active_creeps@[j] == pre[j]);
                    }
                }
            }
        }
    }

    /// Handle a creep position update: refresh the position of a tracked
    /// creep, or start tracking a creep first seen by an update.
    pub fn handle_creep_update(&mut self, entity_index: i32, fields: &EntityFields)
        requires
            old(self).wf(),
        ensures
            final(self).wf(),
            final(self).wave_timeline == old(self).wave_timeline,
            final(self).current_window == old(self).current_window,
            final(self).creep_of(entity_index) == (match old(self).creep_of(entity_index) {
                Some(c) => Some(
                    ActiveCreep {
                        x: crate::position::position_spec(*fields).x,
                        y: crate::position::position_spec(*fields).y,
                        ..c
                    },
                ),
                None => Some(creep_spec(entity_index, *fields)),
            }),
            forall|k: i32|
                k != entity_index ==> #[trigger] final(self).creep_of(k) == old(self).creep_of(k),
    {
        let pos = get_entity_position(fields);
        let found = crate::assoc::find_idx_i32(&self.active_creeps, entity_index);
        match found {
            Some(i) => {
                let cur: ActiveCreep = self.active_creeps[i].1;
                let updated = ActiveCreep { x: pos.x, y: pos.y, ..cur };
                crate::assoc::upsert_i32(&mut self.active_creeps, entity_index, updated);
            },
            None => {
                let lane: i32 = match fields.lane {
                    Some(l) => l,
                    None => 0,
                };
                let team: u32 = match fields.team {
                    Some(t) => t,
                    None => 0,
                };
                let creep = ActiveCreep { entity_index, lane, team, x: pos.x, y: pos.y };
                crate::assoc::upsert_i32(&mut self.active_creeps, entity_index, creep);
            },
        }
        proof {
            crate::assoc::lemma_find_key_idx(old(self).active_creeps@, entity_index);
            let pre = old(self).active_creeps@;
            let idx = crate::assoc::find_key_idx(pre, entity_index);
            assert forall|j: int| 0 <= j < self.active_creeps@.len() implies (
            #[trigger] self.active_creeps@[j]).1.entity_index == self.active_creeps@[j].0
                && creep_bounded(self.active_creeps@[j].1) by {
                if idx >= 0 {
                    if j != idx {
                        assert(self.active_creeps@[j] == pre[j]);
                    }
                } else {
                    if j < pre.len() {
                        assert(self.active_creeps@[j] == pre[j]);
                    }
                }
            }
        }
    }

    /// Handle creep deletion (death): stop tracking the entity.
    #[verifier::rlimit(100)]
    #[verifier::spinoff_prover]
    pub fn handle_creep_delete(&mut self, entity_index: i32)
        requires
            old(self).wf(),
        ensures
            final(self).wf(),
            final(self).wave_timeline == old(self).wave_timeline,
            final(self).current_window == old(self).current_window,
            final(self).creep_of(entity_index) is None,
            forall|k: i32|
                k != entity_index ==> #[trigger] final(self).creep_of(k) == old(self).creep_of(k),
    {
        crate::assoc::remove_key_i32(&mut self.active_creeps, entity_index);
        proof {
            crate::assoc::lemma_find_key_idx(old(self).active_creeps@, entity_index);
            if crate::assoc::find_key_idx(old(self).active_creeps@, entity_index) >= 0 {
                let i = crate::assoc::find_key_idx(old(self).active_creeps@, entity_index);
                assert forall|j: int| 0 <= j < self.active_creeps@.len() implies (
                #[trigger] self.active_creeps@[j]).1.entity_index == self.active_creeps@[j].0
                    && creep_bounded(self.active_creeps@[j].1) by {
                    let j0 = if j < i {
                        j
                    } else {
                        j + 1
                    };
                    assert(self.active_creeps@[j] == old(self).active_creeps@[j0]);
                }
            }
        }
    }

    /// The creep-wave output: every wave timeline under its key.
    pub fn get_output(self) -> (r: Vec<(WaveKey, Vec<Option<CreepWaveSnapshot>>)>)
        ensures
            r == self.wave_timeline,
    {
        self.wave_timeline
    }

    /// Finalize a window: cluster the active creeps of every (lane, team)
    /// group into waves and write the window's slot of every wave timeline.
    ///
    /// Every timeline that existed before is padded with empty slots up to
    /// the window and receives this window's snapshot of its wave (or an
    /// empty slot when that wave has no members now); a wave first seen in
    /// this window starts a timeline of empty slots with the snapshot at the
    /// window's index. All timelines therefore stay the same length: one
    /// slot per window from the start of the recording.
    ///
    /// Creeps with an unresolved lane are grouped under lane 0 rather than
    /// dropped.
    pub fn build_wave_window(&mut self, window_s: u32)
        requires
            old(self).wf(),
            old(self).current_window <= window_s,
            window_s < u32::MAX,
        ensures
            final(self).wf(),
            final(self).current_window == window_s + 1,
            final(self).active_creeps == old(self).active_creeps,
            forall|j: int|
                0 <= j < old(self).wave_timeline@.len() ==> (#[trigger] final(
                    self).wave_timeline@[j]).0 == old(self).wave_timeline@[j].0,
            forall|k: WaveKey|
                #[trigger] final(self).timeline_seq(k) == (match old(self).timeline_seq(k) {
                    Some(t) => Some(
                        t + none_slots(window_s - old(self).current_window) + seq![
                            find_pair_spec(
                                window_waves_spec(active_view(old(self).active_creeps@)),
                                k,
                            ),
                        ],
                    ),
                    None => match find_pair_spec(
                        window_waves_spec(active_view(old(self).active_creeps@)),
                        k,
                    ) {
                        Some(sn) => Some(none_slots(window_s as int).push(Some(sn))),
                        None => None,
                    },
                }),
    {
        let ghost wavespec = window_waves_spec(active_view(self.active_creeps@));
        let mut creeps: Vec<ActiveCreep> = Vec::new();
        let mut i: usize = 0;
        while i < self.active_creeps.len()
            invariant
                0 <= i <= self.active_creeps@.len(),
                old(self).wf(),
                *self == *old(self),
                creeps@ == active_view(self.active_creeps@.take(i as int)),
                forall|l: int| 0 <= l < creeps@.len() ==> creep_bounded(#[trigger] creeps@[l]),
            decreases self.active_creeps@.len() - i,
        {
            proof {
                assert(self.active_creeps@.take(i as int + 1).map_values(
                    |p: (i32, ActiveCreep)| p.1,
                ) =~= self.active_creeps@.take(i as int).map_values(
                    |p: (i32, ActiveCreep)| p.1,
                ).push(self.active_creeps@[i as int].1));
            }
            creeps.push(self.active_creeps[i].1);
            i = i + 1;
        }
        proof {
            assert(self.active_creeps@.take(self.active_creeps@.len() as int)
                =~= self.active_creeps@);
            assert(creeps@ == active_view(self.active_creeps@));
        }
        let waves = window_waves(&creeps);
        let cw: u32 = self.current_window;
        let ghost pre_tl = self.wave_timeline@;
        let mut t: usize = 0;
        while t < self.wave_timeline.len()
            invariant
                0 <= t <= pre_tl.len(),
                old(self).wf(),
                cw == old(self).current_window,
                cw <= window_s < u32::MAX,
                pre_tl == old(self).wave_timeline@,
                waves@ == wavespec,
                self.active_creeps == old(self).active_creeps,
                self.current_window == old(self).current_window,
                self.wave_timeline@.len() == pre_tl.len(),
                forall|j: int| t <= j < pre_tl.len() ==> #[trigger] self.wave_timeline@[j] == pre_tl[j],
                forall|j: int|
                    0 <= j < t ==> (#[trigger] self.wave_timeline@[j]).0 == pre_tl[j].0
                        && self.wave_timeline@[j].1@ == pre_tl[j].1@ + none_slots(
                        window_s - cw,
                    ) + seq![find_pair_spec(waves@, pre_tl[j].0)],
            decreases pre_tl.len() - t,
        {
            let ghost tl_before = self.wave_timeline@;
            let mut entry = self.wave_timeline.remove(t);
            let ghost entry0 = entry;
            let slot = find_wave_slot(&waves, entry.0);
            proof {
                assert(entry0 == pre_tl[t as int]);
                assert(entry0.1@.len() == cw as int);
                assert(entry0.1@ + none_slots(0) =~= entry0.1@);
            }
            while entry.1.len() < window_s as usize
                invariant
                    cw <= window_s < u32::MAX,
                    entry.0 == entry0.0,
                    entry0.1@.len() == cw as int,
                    cw as int <= entry.1@.len() <= window_s as int,
                    entry.1@ == entry0.1@ + none_slots(entry.1@.len() - entry0.1@.len()),
                decreases window_s as int - entry.1@.len(),
            {
                entry.1.push(None);
                proof {
                    assert(entry.1@ =~= entry0.1@ + none_slots(
                        entry.1@.len() - entry0.1@.len(),
                    ));
                }
            }
            proof {
                assert(entry.1@.len() == window_s as int);
                assert(entry.1@ == entry0.1@ + none_slots(window_s - cw));
            }
            entry.1.push(slot);
            proof {
                assert(entry.1@ =~= entry0.1@ + none_slots(window_s - cw) + seq![
                    find_pair_spec(waves@, entry0.0),
                ]);
            }
            self.wave_timeline.insert(t, entry);
            proof {
                assert(self.wave_timeline@ =~= tl_before.update(t as int, entry));
            }
            t = t + 1;
        }
        let ghost post_a = self.wave_timeline@;
        let mut w: usize = 0;
        while w < waves.len()
            invariant
                0 <= w <= waves@.len(),
                old(self).wf(),
                cw == old(self).current_window,
                cw <= window_s < u32::MAX,
                pre_tl == old(self).wave_timeline@,
                waves@ == wavespec,
                self.active_creeps == old(self).active_creeps,
                self.current_window == old(self).current_window,
                post_a.len() == pre_tl.len(),
                self.wave_timeline@.len() >= post_a.len(),
                forall|j: int| 0 <= j < post_a.len() ==> #[trigger] self.wave_timeline@[j] == post_a[j],
                forall|j: int|
                    0 <= j < post_a.len() ==> (#[trigger] post_a[j]).0 == pre_tl[j].0
                        && post_a[j].1@ == pre_tl[j].1@ + none_slots(window_s - cw) + seq![
                        find_pair_spec(waves@, pre_tl[j].0),
                    ],
                forall|j: int|
                    post_a.len() <= j < self.wave_timeline@.len() ==> {
                        let e = #[trigger] self.wave_timeline@[j];
                        &&& find_pair_spec(pre_tl, e.0) is None
                        &&& find_pair_spec(waves@, e.0) is Some
                        &&& e.1@ == none_slots(window_s as int).push(
                            find_pair_spec(waves@, e.0),
                        )
                    },
                forall|l: int|
                    0 <= l < w ==> #[trigger] find_pair_spec(
                        self.wave_timeline@,
                        waves@[l].0,
                    ) is Some,
                unique_keys(self.wave_timeline@),
            decreases waves@.len() - w,
        {
            let key = waves[w].0;
            let found = find_idx_wave(&self.wave_timeline, key);
            match found {
                Some(_) => {},
                None => {
                    let mut fresh: Vec<Option<CreepWaveSnapshot>> = Vec::new();
                    while fresh.len() < window_s as usize
                        invariant
                            window_s < u32::MAX,
                            fresh.len() <= window_s as usize,
                            fresh@ == none_slots(fresh@.len() as int),
                        decreases window_s as int - fresh.len(),
                    {
                        fresh.push(None);
                        proof {
                            assert(fresh@ =~= none_slots(fresh@.len() as int));
                        }
                    }
                    let snap = waves[w].1;
                    proof {
                        assert forall|l: int| 0 <= l < w implies #[trigger] waves@[l].0 != key by {
                            if waves@[l].0 == key {
                                assert(find_pair_spec(self.wave_timeline@, waves@[l].0) is Some);
                            }
                        }
                        lemma_find_at(waves@, key, w as int);
                        assert(find_pair_spec(waves@, key) == Some(snap));
                    }
                    fresh.push(Some(snap));
                    let ghost tl_before = self.wave_timeline@;
                    self.wave_timeline.push((key, fresh));
                    proof {
                        assert(fresh@ =~= none_slots(window_s as int).push(
                            find_pair_spec(waves@, key),
                        ));
                        crate::assoc::lemma_find_key_idx(tl_before, key);
                        assert forall|a: int, b: int|
                            0 <= a < b < self.wave_timeline@.len() implies (
                        #[trigger] self.wave_timeline@[a]).0 != (
                        #[trigger] self.wave_timeline@[b]).0 by {
                            if b == self.wave_timeline@.len() - 1 {
                                if self.wave_timeline@[a].0 == key {
                                    lemma_find_at(tl_before, key, a);
                                }
                            } else {
                                assert(self.wave_timeline@[a] == tl_before[a]);
                                assert(self.wave_timeline@[b] == tl_before[b]);
                            }
                        }
                        assert(find_pair_spec(pre_tl, key) is None) by {
                            crate::assoc::lemma_find_key_idx(pre_tl, key);
                            if crate::assoc::find_key_idx(pre_tl, key) >= 0 {
                                let j = crate::assoc::find_key_idx(pre_tl, key);
                                assert(tl_before[j].0 == pre_tl[j].0);
                                lemma_find_at(tl_before, key, j);
                            }
                        }
                        assert forall|l: int| 0 <= l <= w implies #[trigger] find_pair_spec(
                            self.wave_timeline@,
                            waves@[l].0,
                        ) is Some by {
                            if l < w {
                                crate::assoc::lemma_find_key_idx(tl_before, waves@[l].0);
                                let j = crate::assoc::find_key_idx(tl_before, waves@[l].0);
                                assert(j >= 0);
                                lemma_find_at(self.wave_timeline@, waves@[l].0, j);
                            } else {
                                lemma_find_at(
                                    self.wave_timeline@,
                                    key,
                                    self.wave_timeline@.len() - 1,
                                );
                            }
                        }
                    }
                },
            }
            w = w + 1;
        }
        self.current_window = window_s + 1;
        proof {
            let fin = self.wave_timeline@;
            assert forall|j: int| 0 <= j < fin.len() implies (#[trigger] fin[j]).1@.len()
                == window_s + 1 by {
                if j < post_a.len() {
                    assert(fin[j] == post_a[j]);
                    assert(pre_tl[j].1@.len() == cw as int);
                }
            }
            assert forall|k: WaveKey| true implies #[trigger] self.timeline_seq(k) == (match old(
                self,
            ).timeline_seq(k) {
                Some(t0) => Some(
                    t0 + none_slots(window_s - cw) + seq![find_pair_spec(wavespec, k)],
                ),
                None => match find_pair_spec(wavespec, k) {
                    Some(sn) => Some(none_slots(window_s as int).push(Some(sn))),
                    None => None,
                },
            }) by {
                crate::assoc::lemma_find_key_idx(pre_tl, k);
                let i0 = crate::assoc::find_key_idx(pre_tl, k);
                if i0 >= 0 {
                    assert(fin[i0] == post_a[i0]);
                    assert(fin[i0].0 == k);
                    assert forall|l: int| 0 <= l < i0 implies (#[trigger] fin[l]).0 != k by {
                        assert(fin[l] == post_a[l]);
                        assert(post_a[l].0 == pre_tl[l].0);
                    }
                    lemma_find_at(fin, k, i0);
                    assert(fin[i0].1@ == pre_tl[i0].1@ + none_slots(window_s - cw) + seq![
                        find_pair_spec(waves@, k),
                    ]);
                } else {
                    if find_pair_spec(wavespec, k) is Some {
                        crate::assoc::lemma_find_key_idx(waves@, k);
                        let l0 = crate::assoc::find_key_idx(waves@, k);
                        assert(l0 >= 0);
                        assert(waves@[l0].0 == k);
                        assert(find_pair_spec(fin, waves@[l0].0) is Some);
                        crate::assoc::lemma_find_key_idx(fin, k);
                        let j = crate::assoc::find_key_idx(fin, k);
                        assert(j >= 0);
                        assert(fin[j].0 == k);
                        if j < post_a.len() {
                            assert(fin[j] == post_a[j]);
                            assert(post_a[j].0 == pre_tl[j].0);
                            assert(false);
                        }
                        assert(fin[j].1@ == none_slots(window_s as int).push(
                            find_pair_spec(waves@, k),
                        ));
                    } else {
                        assert forall|j: int| 0 <= j < fin.len() implies (#[trigger] fin[j]).0
                            != k by {
                            if j < post_a.len() {
                                assert(fin[j] == post_a[j]);
                                assert(post_a[j].0 == pre_tl[j].0);
                            } else {
                                assert(find_pair_spec(waves@, fin[j].0) is Some);
                            }
                        }
                        lemma_find_none(fin, k);
                    }
                }
            }
        }
    }
}

/// The distinct (lane, team) grouping keys of the active creeps, in order of
/// first appearance.
pub open spec fn group_keys_spec(s: Seq<ActiveCreep>) -> Seq<(i32, u32)>
    decreases s.len(),
{
    if s.len() == 0 {
        Seq::empty()
    } else {
        let prev = group_keys_spec(s.drop_last());
        if prev.contains((s.last().lane, s.last().team)) {
            prev
        } else {
            prev.push((s.last().lane, s.last().team))
        }
    }
}

/// The creeps of one (lane, team) group, in tracking order.
pub open spec fn members_of_spec(s: Seq<ActiveCreep>, lane: i32, team: u32) -> Seq<ActiveCreep>
    decreases s.len(),
{
    if s.len() == 0 {
        Seq::empty()
    } else {
        let prev = members_of_spec(s.drop_last(), lane, team);
        if s.last().lane == lane && s.last().team == team {
            prev.push(s.last())
        } else {
            prev
        }
    }
}

/// The snapshot of one cluster: its centroid, member count and team.
pub open spec fn wave_snapshot_spec(cl: Seq<ActiveCreep>, team: u32) -> CreepWaveSnapshot {
    CreepWaveSnapshot { x: cent_x(cl) as i32, y: cent_y(cl) as i32, count: cl.len() as u64, team }
}

/// The keyed wave snapshots of one (lane, team) group: its clusters in
/// centroid-Y order, numbered from zero.
pub open spec fn waves_for_key_spec(s: Seq<ActiveCreep>, lane: i32, team: u32) -> Seq<
    (WaveKey, CreepWaveSnapshot),
> {
    let cls = cluster_model(members_of_spec(s, lane, team));
    Seq::new(
        cls.len(),
        |i: int|
            (
                WaveKey { lane, team, wave_index: i as usize },
                wave_snapshot_spec(cls[i], team),
            ),
    )
}

/// The keyed wave snapshots of a list of groups, concatenated in order.
pub open spec fn waves_for_keys_spec(s: Seq<ActiveCreep>, keys: Seq<(i32, u32)>) -> Seq<
    (WaveKey, CreepWaveSnapshot),
>
    decreases keys.len(),
{
    if keys.len() == 0 {
        Seq::empty()
    } else {
        waves_for_keys_spec(s, keys.drop_last()) + waves_for_key_spec(
            s,
            keys.last().0,
            keys.last().1,
        )
    }
}

/// All keyed wave snapshots of one window: every (lane, team) group of the
/// active creeps, clustered.
pub open spec fn window_waves_spec(s: Seq<ActiveCreep>) -> Seq<(WaveKey, CreepWaveSnapshot)> {
    waves_for_keys_spec(s, group_keys_spec(s))
}

/// Whether the group-key list already carries a (lane, team) pair.
fn keys_contains(keys: &Vec<(i32, u32)>, lane: i32, team: u32) -> (r: bool)
    ensures
        r == keys@.contains((lane, team)),
{
    let mut j: usize = 0;
    while j < keys.len()
        invariant
            0 <= j <= keys@.len(),
            forall|l: int| 0 <= l < j ==> #[trigger] keys@[l] != (lane, team),
        decreases keys@.len() - j,
    {
        if keys[j].0 == lane && keys[j].1 == team {
            proof {
                assert(keys@[j as int] == (lane, team));
            }
            return true;
        }
        j = j + 1;
    }
    proof {
        if keys@.contains((lane, team)) {
            let l = choose|l: int| 0 <= l < keys@.len() && keys@[l] == (lane, team);
            assert(false);
        }
    }
    false
}

/// The members of one (lane, team) group, in tracking order.
fn members_for(creeps: &Vec<ActiveCreep>, lane: i32, team: u32) -> (m: Vec<ActiveCreep>)
    requires
        forall|i: int| 0 <= i < creeps@.len() ==> creep_bounded(#[trigger] creeps@[i]),
    ensures
        m@ == members_of_spec(creeps@, lane, team),
        forall|i: int| 0 <= i < m@.len() ==> creep_bounded(#[trigger] m@[i]),
{
    let mut m: Vec<ActiveCreep> = Vec::new();
    let mut i: usize = 0;
    while i < creeps.len()
        invariant
            0 <= i <= creeps@.len(),
            forall|k: int| 0 <= k < creeps@.len() ==> creep_bounded(#[trigger] creeps@[k]),
            m@ == members_of_spec(creeps@.take(i as int), lane, team),
            forall|k: int| 0 <= k < m@.len() ==> creep_bounded(#[trigger] m@[k]),
        decreases creeps@.len() - i,
    {
        proof {
            assert(creeps@.take(i as int + 1).drop_last() =~= creeps@.take(i as int));
            assert(creeps@.take(i as int + 1).last() == creeps@[i as int]);
        }
        let c = creeps[i];
        if c.lane == lane && c.team == team {
            m.push(c);
        }
        i = i + 1;
    }
    proof {
        assert(creeps@.take(creeps@.len() as int) =~= creeps@);
    }
    m
}

/// The keyed wave snapshots of one (lane, team) group.
fn waves_for(creeps: &Vec<ActiveCreep>, lane: i32, team: u32) -> (r: Vec<
    (WaveKey, CreepWaveSnapshot),
>)
    requires
        forall|i: int| 0 <= i < creeps@.len() ==> creep_bounded(#[trigger] creeps@[i]),
    ensures
        r@ == waves_for_key_spec(creeps@, lane, team),
{
    let members = members_for(creeps, lane, team);
    let cls = cluster_creeps(&members);
    let mut r: Vec<(WaveKey, CreepWaveSnapshot)> = Vec::new();
    let mut k: usize = 0;
    while k < cls.len()
        invariant
            0 <= k <= cls@.len(),
            clusters_view(cls@) == cluster_model(members_of_spec(creeps@, lane, team)),
            clusters_nonempty(clusters_view(cls@)),
            clusters_bounded(clusters_view(cls@)),
            r@.len() == k,
            forall|l: int|
                0 <= l < k ==> #[trigger] r@[l] == (
                    WaveKey { lane, team, wave_index: l as usize },
                    wave_snapshot_spec(clusters_view(cls@)[l], team),
                ),
        decreases cls@.len() - k,
    {
        proof {
            assert(clusters_view(cls@)[k as int] == cls@[k as int]@);
        }
        let cen = centroid(&cls[k]);
        let count: u64 = cls[k].len() as u64;
        let snap = CreepWaveSnapshot { x: cen.0, y: cen.1, count, team };
        proof {
            assert(snap == wave_snapshot_spec(clusters_view(cls@)[k as int], team));
        }
        r.push((WaveKey { lane, team, wave_index: k }, snap));
        k = k + 1;
    }
    proof {
        assert(r@ =~= waves_for_key_spec(creeps@, lane, team));
    }
    r
}

/// Compute the keyed wave snapshots of one window from the active creeps.
pub fn window_waves(creeps: &Vec<ActiveCreep>) -> (r: Vec<(WaveKey, CreepWaveSnapshot)>)
    requires
        forall|i: int| 0 <= i < creeps@.len() ==> creep_bounded(#[trigger] creeps@[i]),
    ensures
        r@ == window_waves_spec(creeps@),
{
    let mut keys: Vec<(i32, u32)> = Vec::new();
    let mut i: usize = 0;
    while i < creeps.len()
        invariant
            0 <= i <= creeps@.len(),
            keys@ == group_keys_spec(creeps@.take(i as int)),
        decreases creeps@.len() - i,
    {
        proof {
            assert(creeps@.take(i as int + 1).drop_last() =~= creeps@.take(i as int));
            assert(creeps@.take(i as int + 1).last() == creeps@[i as int]);
        }
        let c = creeps[i];
        if !keys_contains(&keys, c.lane, c.team) {
            keys.push((c.lane, c.team));
        }
        i = i + 1;
    }
    proof {
        assert(creeps@.take(creeps@.len() as int) =~= creeps@);
    }
    let mut r: Vec<(WaveKey, CreepWaveSnapshot)> = Vec::new();
    let mut g: usize = 0;
    while g < keys.len()
        invariant
            0 <= g <= keys@.len(),
            keys@ == group_keys_spec(creeps@),
            forall|l: int| 0 <= l < creeps@.len() ==> creep_bounded(#[trigger] creeps@[l]),
            r@ == waves_for_keys_spec(creeps@, keys@.take(g as int)),
        decreases keys@.len() - g,
    {
        proof {
            assert(keys@.take(g as int + 1).drop_last() =~= keys@.take(g as int));
            assert(keys@.take(g as int + 1).last() == keys@[g as int]);
        }
        let mut w = waves_for(creeps, keys[g].0, keys[g].1);
        r.append(&mut w);
        g = g + 1;
    }
    proof {
        assert(keys@.take(keys@.len() as int) =~= keys@);
    }
    r
}

/// Find the position of the first pair carrying a wave key.
pub fn find_idx_wave<V>(s: &Vec<(WaveKey, V)>, k: WaveKey) -> (r: Option<usize>)
    ensures
        match r {
            Some(i) => i < s.len() && s@[i as int].0 == k && find_pair_spec(s@, k) == Some(
                s@[i as int].1,
            ) && (forall|j: int| 0 <= j < i ==> s@[j].0 != k),
            None => find_pair_spec(s@, k) is None,
        },
{
    let mut i: usize = 0;
    while i < s.len()
        invariant
            0 <= i <= s.len(),
            forall|j: int| 0 <= j < i ==> s@[j].0 != k,
        decreases s.len() - i,
    {
        if s[i].0.lane == k.lane && s[i].0.team == k.team && s[i].0.wave_index == k.wave_index {
            proof {
                assert(s@[i as int].0 == k);
                lemma_find_at(s@, k, i as int);
            }
            return Some(i);
        }
        i = i + 1;
    }
    proof {
        lemma_find_none(s@, k);
    }
    None
}

/// The snapshot recorded for a wave key in this window, if any.
fn find_wave_slot(waves: &Vec<(WaveKey, CreepWaveSnapshot)>, k: WaveKey) -> (r: Option<
    CreepWaveSnapshot,
>)
    ensures
        r == find_pair_spec(waves@, k),
{
    match find_idx_wave(waves, k) {
        Some(i) => Some(waves[i].1),
        None => None,
    }
}


/// One-sided lower bound for truncating division of a bounded sum.
proof fn lemma_div_trunc_lower(s: int, n: int, lo: int)
    requires
        0 < n,
        lo * n <= s,
    ensures
        div_trunc(s, n) >= lo,
{
    if s >= 0 {
        if lo >= 0 {
            assert(lo * n == n * lo) by (nonlinear_arith);
            lemma_div_is_ordered(lo * n, s, n);
            lemma_div_multiples_vanish(lo, n);
        } else {
            vstd::arithmetic::div_mod::lemma_div_pos_is_pos(s, n);
        }
    } else {
        assert(lo < 0) by (nonlinear_arith)
            requires
                lo * n <= s,
                s < 0,
                n > 0,
        ;
        assert((-lo) * n == -(lo * n) && (-lo) * n == n * (-lo)) by (nonlinear_arith);
        lemma_div_is_ordered(-s, (-lo) * n, n);
        lemma_div_multiples_vanish(-lo, n);
    }
}

/// One-sided upper bound for truncating division of a bounded sum.
proof fn lemma_div_trunc_upper(s: int, n: int, hi: int)
    requires
        0 < n,
        s <= hi * n,
    ensures
        div_trunc(s, n) <= hi,
{
    if s >= 0 {
        assert(hi >= 0) by (nonlinear_arith)
            requires
                s <= hi * n,
                s >= 0,
                n > 0,
        ;
        assert(hi * n == n * hi) by (nonlinear_arith);
        lemma_div_is_ordered(s, hi * n, n);
        lemma_div_multiples_vanish(hi, n);
    } else {
        if hi < 0 {
            assert((-hi) * n == -(hi * n) && (-hi) * n == n * (-hi)) by (nonlinear_arith);
            lemma_div_is_ordered((-hi) * n, -s, n);
            lemma_div_multiples_vanish(-hi, n);
        } else {
            vstd::arithmetic::div_mod::lemma_div_pos_is_pos(-s, n);
        }
    }
}

/// A pointwise lower bound on Y gives the same bound on the sum.
proof fn lemma_sum_y_lower(cl: Seq<ActiveCreep>, lo: int)
    requires
        forall|i: int| 0 <= i < cl.len() ==> (#[trigger] cl[i]).y >= lo,
    ensures
        sum_y(cl) >= lo * cl.len(),
    decreases cl.len(),
{
    if cl.len() > 0 {
        assert(forall|i: int|
            0 <= i < cl.len() - 1 ==> (#[trigger] cl.drop_last()[i]) == cl[i]);
        lemma_sum_y_lower(cl.drop_last(), lo);
        assert(lo * (cl.len() - 1) + lo == lo * cl.len()) by (nonlinear_arith);
    }
}

/// A pointwise upper bound on Y gives the same bound on the sum.
proof fn lemma_sum_y_upper(cl: Seq<ActiveCreep>, hi: int)
    requires
        forall|i: int| 0 <= i < cl.len() ==> (#[trigger] cl[i]).y <= hi,
    ensures
        sum_y(cl) <= hi * cl.len(),
    decreases cl.len(),
{
    if cl.len() > 0 {
        assert(forall|i: int|
            0 <= i < cl.len() - 1 ==> (#[trigger] cl.drop_last()[i]) == cl[i]);
        lemma_sum_y_upper(cl.drop_last(), hi);
        assert(hi * (cl.len() - 1) + hi == hi * cl.len()) by (nonlinear_arith);
    }
}

/// A pointwise bound on X around a point gives the same bound on the sum.
proof fn lemma_sum_x_around(cl: Seq<ActiveCreep>, px: int, b: int)
    requires
        forall|i: int| 0 <= i < cl.len() ==> px - b <= (#[trigger] cl[i]).x <= px + b,
    ensures
        (px - b) * cl.len() <= sum_x(cl) <= (px + b) * cl.len(),
    decreases cl.len(),
{
    if cl.len() > 0 {
        assert(forall|i: int|
            0 <= i < cl.len() - 1 ==> (#[trigger] cl.drop_last()[i]) == cl[i]);
        lemma_sum_x_around(cl.drop_last(), px, b);
        assert((px - b) * (cl.len() - 1) + (px - b) == (px - b) * cl.len()
            && (px + b) * (cl.len() - 1) + (px + b) == (px + b) * cl.len()) by (nonlinear_arith);
    }
}

/// Every member of the cluster is at or below the split.
pub open spec fn all_low(cl: Seq<ActiveCreep>, y_split: int) -> bool {
    forall|i: int| 0 <= i < cl.len() ==> (#[trigger] cl[i]).y <= y_split
}

/// Every member of the cluster is beyond the split by more than the
/// clustering threshold.
pub open spec fn all_high(cl: Seq<ActiveCreep>, y_split: int) -> bool {
    forall|i: int|
        0 <= i < cl.len() ==> (#[trigger] cl[i]).y > y_split + WAVE_CLUSTER_THRESHOLD
}

/// No cluster of the list mixes the two sides of the split.
pub open spec fn separated(cls: Seq<Seq<ActiveCreep>>, y_split: int) -> bool {
    forall|k: int|
        0 <= k < cls.len() ==> all_low(#[trigger] cls[k], y_split) || all_high(cls[k], y_split)
}

/// Greedy clustering of one-sided creeps keeps the sides apart: a creep on
/// one side of the split never joins a cluster whose members are all on the
/// other side, because that cluster's centroid is more than the threshold
/// away along Y alone.
proof fn lemma_greedy_separated(t: Seq<ActiveCreep>, y_split: int)
    requires
        forall|i: int|
            0 <= i < t.len() ==> (#[trigger] t[i]).y <= y_split || t[i].y > y_split
                + WAVE_CLUSTER_THRESHOLD,
    ensures
        separated(greedy_spec(t), y_split),
        clusters_nonempty(greedy_spec(t)),
    decreases t.len(),
{
    if t.len() > 0 {
        assert(forall|i: int|
            0 <= i < t.len() - 1 ==> (#[trigger] t.drop_last()[i]) == t[i]);
        lemma_greedy_separated(t.drop_last(), y_split);
        let cls = greedy_spec(t.drop_last());
        let c = t.last();
        lemma_best_upto_in_range(cls, c, cls.len() as int);
        match best_cluster(cls, c) {
            Some(p) => {
                let target = cls[p];
                assert(target.len() > 0);
                if c.y <= y_split && all_high(target, y_split) {
                    lemma_sum_y_lower(target, y_split + WAVE_CLUSTER_THRESHOLD + 1);
                    lemma_div_trunc_lower(
                        sum_y(target),
                        target.len() as int,
                        y_split + WAVE_CLUSTER_THRESHOLD + 1,
                    );
                    let dy = c.y - cent_y(target);
                    assert(dy <= -(WAVE_CLUSTER_THRESHOLD + 1));
                    assert(dy * dy >= (WAVE_CLUSTER_THRESHOLD + 1) * (WAVE_CLUSTER_THRESHOLD + 1))
                        by (nonlinear_arith)
                        requires
                            dy <= -(WAVE_CLUSTER_THRESHOLD + 1),
                    ;
                    let dx = c.x - cent_x(target);
                    assert(dx * dx >= 0) by (nonlinear_arith);
                    assert(creep_dist2(c, target) >= WAVE_CLUSTER_THRESHOLD_SQ);
                    assert(false);
                }
                if c.y > y_split + WAVE_CLUSTER_THRESHOLD && all_low(target, y_split) {
                    lemma_sum_y_upper(target, y_split);
                    lemma_div_trunc_upper(sum_y(target), target.len() as int, y_split);
                    let dy = c.y - cent_y(target);
                    assert(dy >= WAVE_CLUSTER_THRESHOLD + 1);
                    assert(dy * dy >= (WAVE_CLUSTER_THRESHOLD + 1) * (WAVE_CLUSTER_THRESHOLD + 1))
                        by (nonlinear_arith)
                        requires
                            dy >= WAVE_CLUSTER_THRESHOLD + 1,
                    ;
                    let dx = c.x - cent_x(target);
                    assert(dx * dx >= 0) by (nonlinear_arith);
                    assert(creep_dist2(c, target) >= WAVE_CLUSTER_THRESHOLD_SQ);
                    assert(false);
                }
                let updated = target.push(c);
                assert(all_low(target, y_split) && c.y <= y_split ==> all_low(
                    updated,
                    y_split,
                )) by {
                    if all_low(target, y_split) && c.y <= y_split {
                        assert forall|i: int|
                            0 <= i < updated.len() implies (#[trigger] updated[i]).y
                            <= y_split by {
                            if i < target.len() {
                                assert(updated[i] == target[i]);
                            }
                        }
                    }
                }
                assert(all_high(target, y_split) && c.y > y_split + WAVE_CLUSTER_THRESHOLD
                    ==> all_high(updated, y_split)) by {
                    if all_high(target, y_split) && c.y > y_split + WAVE_CLUSTER_THRESHOLD {
                        assert forall|i: int|
                            0 <= i < updated.len() implies (#[trigger] updated[i]).y > y_split
                            + WAVE_CLUSTER_THRESHOLD by {
                            if i < target.len() {
                                assert(updated[i] == target[i]);
                            }
                        }
                    }
                }
                let out = cls.update(p, updated);
                assert forall|k: int|
                    0 <= k < out.len() implies (all_low(#[trigger] out[k], y_split) || all_high(
                    out[k],
                    y_split,
                )) && out[k].len() > 0 by {
                    if k != p {
                        assert(out[k] == cls[k]);
                    }
                }
            },
            None => {
                let out = cls.push(seq![c]);
                assert forall|k: int|
                    0 <= k < out.len() implies (all_low(#[trigger] out[k], y_split) || all_high(
                    out[k],
                    y_split,
                )) && out[k].len() > 0 by {
                    if k < cls.len() {
                        assert(out[k] == cls[k]);
                    } else {
                        assert(out[k] == seq![c]);
                        assert(seq![c][0] == c);
                    }
                }
            },
        }
    }
}

/// Inserting a one-sided cluster into a list of one-sided clusters keeps
/// every cluster one-sided.
proof fn lemma_insert_cluster_separated(s: Seq<Seq<ActiveCreep>>, cl: Seq<ActiveCreep>, y_split: int)
    requires
        separated(s, y_split),
        clusters_nonempty(s),
        all_low(cl, y_split) || all_high(cl, y_split),
        cl.len() > 0,
    ensures
        separated(insert_cluster_spec(s, cl), y_split),
        clusters_nonempty(insert_cluster_spec(s, cl)),
    decreases s.len(),
{
    if s.len() == 0 {
        let out = insert_cluster_spec(s, cl);
        assert(out[0] == cl);
    } else if cent_y(cl) < cent_y(s.last()) {
        assert forall|k: int|
            0 <= k < s.drop_last().len() implies (all_low(
            #[trigger] s.drop_last()[k],
            y_split,
        ) || all_high(s.drop_last()[k], y_split)) && s.drop_last()[k].len() > 0 by {
            assert(s.drop_last()[k] == s[k]);
        }
        lemma_insert_cluster_separated(s.drop_last(), cl, y_split);
        let inner = insert_cluster_spec(s.drop_last(), cl);
        let out = inner.push(s.last());
        assert forall|k: int|
            0 <= k < out.len() implies (all_low(#[trigger] out[k], y_split) || all_high(
            out[k],
            y_split,
        )) && out[k].len() > 0 by {
            if k < inner.len() {
                assert(out[k] == inner[k]);
            } else {
                assert(out[k] == s.last());
                assert(s.last() == s[s.len() - 1]);
            }
        }
    } else {
        let out = s.push(cl);
        assert forall|k: int|
            0 <= k < out.len() implies (all_low(#[trigger] out[k], y_split) || all_high(
            out[k],
            y_split,
        )) && out[k].len() > 0 by {
            if k < s.len() {
                assert(out[k] == s[k]);
            } else {
                assert(out[k] == cl);
            }
        }
    }
}

/// Ordering the clusters by centroid keeps every cluster one-sided.
proof fn lemma_sort_clusters_separated(s: Seq<Seq<ActiveCreep>>, y_split: int)
    requires
        separated(s, y_split),
        clusters_nonempty(s),
    ensures
        separated(sort_clusters_spec(s), y_split),
        clusters_nonempty(sort_clusters_spec(s)),
    decreases s.len(),
{
    if s.len() > 0 {
        assert forall|k: int|
            0 <= k < s.drop_last().len() implies (all_low(
            #[trigger] s.drop_last()[k],
            y_split,
        ) || all_high(s.drop_last()[k], y_split)) && s.drop_last()[k].len() > 0 by {
            assert(s.drop_last()[k] == s[k]);
        }
        lemma_sort_clusters_separated(s.drop_last(), y_split);
        assert(s.last() == s[s.len() - 1]);
        lemma_insert_cluster_separated(sort_clusters_spec(s.drop_last()), s.last(), y_split);
    }
}

/// LAW (clustering separation): when every creep lies on one side of a Y
/// split — at or below it, or beyond it by more than the clustering
/// threshold — no produced cluster ever mixes the two sides: the two groups
/// never merge, regardless of group size.
pub proof fn lemma_cluster_separation(s: Seq<ActiveCreep>, y_split: int)
    requires
        forall|i: int|
            0 <= i < s.len() ==> (#[trigger] s[i]).y <= y_split || s[i].y > y_split
                + WAVE_CLUSTER_THRESHOLD,
    ensures
        separated(cluster_model(s), y_split),
    decreases s.len(),
{
    broadcast use vstd::seq_lib::group_to_multiset_ensures;

    lemma_sort_by_y_multiset(s);
    let sorted = sort_by_y_spec(s);
    assert forall|i: int|
        0 <= i < sorted.len() implies (#[trigger] sorted[i]).y <= y_split || sorted[i].y > y_split
        + WAVE_CLUSTER_THRESHOLD by {
        assert(sorted.contains(sorted[i]));
        assert(s.to_multiset().count(sorted[i]) > 0);
        assert(s.contains(sorted[i]));
        let j = choose|j: int| 0 <= j < s.len() && s[j] == sorted[i];
        assert(s[j].y <= y_split || s[j].y > y_split + WAVE_CLUSTER_THRESHOLD);
    }
    lemma_greedy_separated(sorted, y_split);
    lemma_sort_clusters_separated(greedy_spec(sorted), y_split);
}

/// LAW (clustering merge): creeps that all lie within a small box of each
/// other — coordinate differences bounded by `bx` and `by` with
/// `bx*bx + by*by` under the squared threshold — always merge into exactly
/// one cluster holding all of them. (Creeps within threshold distance of
/// each other but spread so that some pair is farther apart than the box
/// allows, such as two points exactly the threshold apart, may still split.)
pub proof fn lemma_cluster_merge(s: Seq<ActiveCreep>, bx: int, by: int)
    requires
        s.len() > 0,
        0 <= bx,
        0 <= by,
        bx * bx + by * by < WAVE_CLUSTER_THRESHOLD_SQ,
        forall|i: int, j: int|
            0 <= i < s.len() && 0 <= j < s.len() ==> -bx <= (#[trigger] s[i]).x - (
            #[trigger] s[j]).x <= bx && -by <= s[i].y - s[j].y <= by,
    ensures
        cluster_model(s).len() == 1,
        cluster_model(s)[0].to_multiset() == s.to_multiset(),
{
    broadcast use vstd::seq_lib::group_to_multiset_ensures;

    lemma_sort_by_y_multiset(s);
    let sorted = sort_by_y_spec(s);
    assert forall|i: int, j: int|
        0 <= i < sorted.len() && 0 <= j < sorted.len() implies -bx <= (#[trigger] sorted[i]).x - (
    #[trigger] sorted[j]).x <= bx && -by <= sorted[i].y - sorted[j].y <= by by {
        assert(sorted.contains(sorted[i]));
        assert(s.to_multiset().count(sorted[i]) > 0);
        assert(s.contains(sorted[i]));
        assert(sorted.contains(sorted[j]));
        assert(s.to_multiset().count(sorted[j]) > 0);
        assert(s.contains(sorted[j]));
        let i0 = choose|i0: int| 0 <= i0 < s.len() && s[i0] == sorted[i];
        let j0 = choose|j0: int| 0 <= j0 < s.len() && s[j0] == sorted[j];
        assert(-bx <= s[i0].x - s[j0].x <= bx && -by <= s[i0].y - s[j0].y <= by);
    }
    lemma_greedy_single(sorted, bx, by);
    assert(greedy_spec(sorted) == seq![sorted]);
    let one = seq![sorted];
    assert(sort_clusters_spec(one) =~= one) by {
        assert(one.drop_last() =~= Seq::<Seq<ActiveCreep>>::empty());
        assert(one.last() == sorted);
        assert(sort_clusters_spec(one.drop_last()) =~= Seq::<Seq<ActiveCreep>>::empty());
        assert(insert_cluster_spec(Seq::<Seq<ActiveCreep>>::empty(), sorted) =~= seq![sorted]);
    }
    assert(cluster_model(s) == seq![sorted]);
    assert(cluster_model(s)[0] == sorted);
}

/// Greedy clustering of box-bounded creeps builds exactly one cluster: each
/// creep is within the threshold of the running centroid, which always stays
/// inside the box.
proof fn lemma_greedy_single(t: Seq<ActiveCreep>, bx: int, by: int)
    requires
        t.len() > 0,
        0 <= bx,
        0 <= by,
        bx * bx + by * by < WAVE_CLUSTER_THRESHOLD_SQ,
        forall|i: int, j: int|
            0 <= i < t.len() && 0 <= j < t.len() ==> -bx <= (#[trigger] t[i]).x - (
            #[trigger] t[j]).x <= bx && -by <= t[i].y - t[j].y <= by,
    ensures
        greedy_spec(t) == seq![t],
    decreases t.len(),
{
    let dl = t.drop_last();
    let c = t.last();
    if t.len() == 1 {
        assert(greedy_spec(dl) =~= Seq::<Seq<ActiveCreep>>::empty());
        assert(best_upto(Seq::<Seq<ActiveCreep>>::empty(), c, 0) is None);
        assert(greedy_spec(t) =~= seq![seq![c]]);
        assert(t =~= seq![c]);
    } else {
        assert(forall|i: int| 0 <= i < dl.len() ==> (#[trigger] dl[i]) == t[i]);
        lemma_greedy_single(dl, bx, by);
        let cls = seq![dl];
        assert(cls[0] == dl);
        assert(dl.len() > 0);
        assert forall|i: int| 0 <= i < dl.len() implies c.x - bx <= (#[trigger] dl[i]).x <= c.x
            + bx && c.y - by <= dl[i].y <= c.y + by by {
            assert(dl[i] == t[i]);
            assert(c == t[t.len() - 1]);
            assert(-bx <= t[t.len() - 1].x - t[i].x <= bx);
            assert(-by <= t[t.len() - 1].y - t[i].y <= by);
        }
        lemma_sum_x_around(dl, c.x as int, bx);
        lemma_div_trunc_lower(sum_x(dl), dl.len() as int, c.x - bx);
        lemma_div_trunc_upper(sum_x(dl), dl.len() as int, c.x + bx);
        lemma_sum_y_lower(dl, c.y - by);
        lemma_sum_y_upper(dl, c.y + by);
        lemma_div_trunc_lower(sum_y(dl), dl.len() as int, c.y - by);
        lemma_div_trunc_upper(sum_y(dl), dl.len() as int, c.y + by);
        let dx = c.x - cent_x(dl);
        let dy = c.y - cent_y(dl);
        assert(-bx <= dx <= bx && -by <= dy <= by);
        lemma_square_bound(dx, bx);
        lemma_square_bound(dy, by);
        assert(creep_dist2(c, dl) < WAVE_CLUSTER_THRESHOLD_SQ);
        assert(best_upto(cls, c, 0) is None);
        assert(creep_dist2(c, cls[0]) < WAVE_CLUSTER_THRESHOLD_SQ);
        assert(best_upto(cls, c, 1) == Some(0int));
        assert(best_cluster(cls, c) == Some(0int));
        assert(greedy_spec(t) == cls.update(0, dl.push(c)));
        assert(cls.update(0, dl.push(c)) =~= seq![t]) by {
            assert(dl.push(c) =~= t);
        }
    }
}

} // verus!
