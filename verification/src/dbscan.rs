//! Density clustering of line segments.
//!
//! The caller measures the segments and hands over, for each segment, two
//! lists of segments: those that are `similar` to it (within the radius,
//! with a close speed and an acceleration of the same sign) and those that
//! are `near` it (within the radius). A list names the segment itself where
//! the caller counts it among its own neighbours, and names no segment twice.
//! A segment is a core when its list of similar segments has at least
//! `min_lns` entries. Cores are taken in the order of the
//! segments; each joins the cores before it that are similar to it, in the
//! lowest of their cluster slots, or opens a slot. Then every segment gets the
//! cluster of the first core in its list of near segments: the first match
//! wins, in the order in which the caller lists the segments.
use vstd::prelude::*;
use crate::lists::{ascending, lemma_listed_all, lemma_listed_push, lemma_listed_take, listed};
use crate::models::merge_indexs::{
    consistent, corrected, empty_table, lemma_corrected, lemma_merged_alone, lemma_merged_consistent,
    lemma_merged_same, merged, slot_of, MergeIndexs, MergeIndexsView,
};

verus! {

/// The label of a line segment that is in no cluster.
pub const NOISE: i32 = -1;

/// There is one list for each of `count` line segments, and every entry
/// names one of them.
pub open spec fn neighbourhoods(lists: Seq<Vec<usize>>, count: int) -> bool {
    &&& lists.len() == count
    &&& forall|i: int, k: int|
        0 <= i < lists.len() && 0 <= k < lists[i]@.len() ==> #[trigger] lists[i]@[k] < count
}

/// The merge table after the first `upto` line segments were looked at.
pub open spec fn merge_table(similar: Seq<Vec<usize>>, min_lns: usize, upto: int) -> MergeIndexsView
    decreases upto,
{
    if upto <= 0 {
        empty_table()
    } else {
        let table = merge_table(similar, min_lns, upto - 1);
        if similar[upto - 1]@.len() >= min_lns {
            merged(table, similar[upto - 1]@, (upto - 1) as usize)
        } else {
            table
        }
    }
}

/// The clusters of the cores: the merge table over all line segments, with
/// the empty slots closed up.
pub open spec fn clusters(similar: Seq<Vec<usize>>, min_lns: usize) -> MergeIndexsView {
    corrected(merge_table(similar, min_lns, similar.len() as int))
}

/// For each of `count` line segments the cluster that it is a core of, or
/// -1 when it is no core.
pub open spec fn core_clusters(table: MergeIndexsView, count: nat) -> Seq<int> {
    Seq::new(count, |segment: int| slot_of(table, segment as usize, table.cores.len() as int))
}

/// The cluster of the first entry of `near`, at or behind `from`, that is a
/// core, or -1 when none of them is a core.
pub open spec fn first_cluster(near: Seq<usize>, core_cluster: Seq<int>, from: int) -> int
    decreases near.len() - from,
{
    if from < 0 || from >= near.len() {
        -1
    } else if core_cluster[near[from] as int] >= 0 {
        core_cluster[near[from] as int]
    } else {
        first_cluster(near, core_cluster, from + 1)
    }
}

/// The merge table stays consistent, and records only segments that were
/// looked at and are cores.
pub proof fn lemma_merge_table(similar: Seq<Vec<usize>>, min_lns: usize, upto: int)
    requires
        0 <= upto <= similar.len() <= usize::MAX,
    ensures
        consistent(merge_table(similar, min_lns, upto)),
        merge_table(similar, min_lns, upto).cores.len() <= upto,
        forall|k: int|
            0 <= k < merge_table(similar, min_lns, upto).cores.len() ==> {
                let core = #[trigger] merge_table(similar, min_lns, upto).cores[k];
                core < upto && similar[core as int]@.len() >= min_lns
            },
    decreases upto,
{
    if upto > 0 {
        lemma_merge_table(similar, min_lns, upto - 1);
        let table = merge_table(similar, min_lns, upto - 1);
        if similar[upto - 1]@.len() >= min_lns {
            lemma_merged_consistent(table, similar[upto - 1]@, (upto - 1) as usize);
            let after = merged(table, similar[upto - 1]@, (upto - 1) as usize);
            assert forall|k: int| 0 <= k < after.cores.len() implies {
                let core = #[trigger] after.cores[k];
                core < upto && similar[core as int]@.len() >= min_lns
            } by {
                if k < table.cores.len() {
                    assert(after.cores[k] == table.cores[k]);
                }
            }
        }
    }
}

/// The cores of the merge table are the segments that were looked at and
/// have at least `min_lns` similar segments: each of them once, in
/// ascending order.
pub proof fn lemma_cores(similar: Seq<Vec<usize>>, min_lns: usize, upto: int)
    requires
        0 <= upto <= similar.len() <= usize::MAX,
    ensures
        ascending(merge_table(similar, min_lns, upto).cores),
        forall|i: int|
            0 <= i < upto ==> (similar[i]@.len() >= min_lns <==> #[trigger] merge_table(
                similar,
                min_lns,
                upto,
            ).cores.contains(i as usize)),
    decreases upto,
{
    if upto > 0 {
        lemma_cores(similar, min_lns, upto - 1);
        lemma_merge_table(similar, min_lns, upto - 1);
        lemma_merge_table(similar, min_lns, upto);
        let before = merge_table(similar, min_lns, upto - 1).cores;
        let after = merge_table(similar, min_lns, upto).cores;
        if similar[upto - 1]@.len() >= min_lns {
            assert(after == before.push((upto - 1) as usize));
            assert(after[before.len() as int] == (upto - 1) as usize);
        }
        assert forall|i: int| 0 <= i < upto implies (similar[i]@.len() >= min_lns
            <==> #[trigger] after.contains(i as usize)) by {
            if after.contains(i as usize) {
                let k = choose|k: int| 0 <= k < after.len() && after[k] == i as usize;
                assert(after[k] < upto && similar[after[k] as int]@.len() >= min_lns);
            }
            if i < upto - 1 && before.contains(i as usize) {
                let k = choose|k: int| 0 <= k < before.len() && before[k] == i as usize;
                assert(after[k] == i as usize);
            }
        }
        assert forall|j: int, k: int| 0 <= j < k < after.len() implies after[j] < after[k] by {
            if k < before.len() {
                assert(before[j] < before[k]);
            } else {
                assert(before[j] < upto - 1);
            }
        }
    }
}

/// The slot of a segment is -1 or one of the table's slots.
pub proof fn lemma_slot_of(table: MergeIndexsView, segment: usize, upto: int)
    requires
        consistent(table),
        0 <= upto <= table.cores.len(),
    ensures
        -1 <= slot_of(table, segment, upto) < table.slot_count,
    decreases upto,
{
    if upto > 0 {
        lemma_slot_of(table, segment, upto - 1);
        assert(table.slots[upto - 1] < table.slot_count);
    }
}

/// The cluster of the first core is -1 or the cluster of one of the entries.
pub proof fn lemma_first_cluster(near: Seq<usize>, core_cluster: Seq<int>, from: int, count: int)
    requires
        0 <= from,
        forall|k: int| 0 <= k < near.len() ==> #[trigger] near[k] < core_cluster.len(),
        forall|j: int| 0 <= j < core_cluster.len() ==> -1 <= #[trigger] core_cluster[j] < count,
    ensures
        first_cluster(near, core_cluster, from) == -1 || 0 <= first_cluster(near, core_cluster, from)
            < count,
    decreases near.len() - from,
{
    if from < near.len() {
        assert(near[from] < core_cluster.len());
        lemma_first_cluster(near, core_cluster, from + 1, count);
    }
}

/// The cores among `neighbours`, in their order.
fn known_cores(neighbours: &Vec<usize>, is_core: &Vec<bool>) -> (cores: Vec<usize>)
    requires
        forall|k: int| 0 <= k < neighbours.len() ==> #[trigger] neighbours[k] < is_core.len(),
    ensures
        forall|id: usize|
            #[trigger] cores@.contains(id) <==> (neighbours@.contains(id) && is_core@[id as int]),
{
    let mut cores: Vec<usize> = Vec::new();
    let mut at: usize = 0;
    while at < neighbours.len()
        invariant
            at <= neighbours.len(),
            forall|k: int| 0 <= k < neighbours.len() ==> #[trigger] neighbours[k] < is_core.len(),
            forall|id: usize|
                #[trigger] listed(cores@, cores@.len() as int, id) <==> (listed(
                    neighbours@,
                    at as int,
                    id,
                ) && is_core@[id as int]),
        decreases neighbours.len() - at,
    {
        let neighbour = neighbours[at];
        let ghost found = cores@;
        if is_core[neighbour] {
            cores.push(neighbour);
        }
        proof {
            assert forall|id: usize|
                #[trigger] listed(cores@, cores@.len() as int, id) <==> (listed(
                    neighbours@,
                    at + 1,
                    id,
                ) && is_core@[id as int]) by {
                assert(listed(found, found.len() as int, id) <==> (listed(neighbours@, at as int, id)
                    && is_core@[id as int]));
                assert(neighbours@.take(at + 1) == neighbours@.take(at as int).push(neighbour));
                lemma_listed_take(neighbours@, at as int, id);
                lemma_listed_take(neighbours@, at + 1, id);
                lemma_listed_push(neighbours@.take(at as int), neighbour, id);
                if is_core@[neighbour as int] {
                    lemma_listed_push(found, neighbour, id);
                }
            }
        }
        at += 1;
    }
    proof {
        assert forall|id: usize|
            #[trigger] cores@.contains(id) <==> (neighbours@.contains(id) && is_core@[id as int]) by {
            lemma_listed_all(cores@, id);
            lemma_listed_all(neighbours@, id);
        }
    }
    cores
}

/// The cluster of the first entry of `near` that is a core.
fn first_label(near: &Vec<usize>, cluster_of: &Vec<i32>) -> (label: i32)
    requires
        forall|k: int| 0 <= k < near.len() ==> #[trigger] near[k] < cluster_of.len(),
    ensures
        label == first_cluster(near@, cluster_of@.map_values(|c: i32| c as int), 0),
{
    let ghost core_cluster = cluster_of@.map_values(|c: i32| c as int);
    let mut at: usize = 0;
    while at < near.len()
        invariant
            at <= near.len(),
            forall|k: int| 0 <= k < near.len() ==> #[trigger] near[k] < cluster_of.len(),
            core_cluster == cluster_of@.map_values(|c: i32| c as int),
            first_cluster(near@, core_cluster, 0) == first_cluster(near@, core_cluster, at as int),
        decreases near.len() - at,
    {
        let cluster = cluster_of[near[at]];
        if cluster >= 0 {
            return cluster;
        }
        at += 1;
    }
    NOISE
}

/// Clusters the line segments. Returns the cluster of each segment, `NOISE`
/// for a segment in none, and the number of clusters. Clusters are numbered
/// from 0 without a gap, in the order in which their slots were opened.
pub fn perform_dbscan(min_lns: usize, similar: &Vec<Vec<usize>>, near: &Vec<Vec<usize>>) -> (result: (
    Vec<i32>,
    usize,
))
    requires
        near.len() <= i32::MAX,
        neighbourhoods(similar@, near.len() as int),
        neighbourhoods(near@, near.len() as int),
    ensures
        result.0.len() == near.len(),
        result.1 == clusters(similar@, min_lns).slot_count,
        forall|i: int|
            0 <= i < near.len() ==> #[trigger] result.0[i] == first_cluster(
                near@[i]@,
                core_clusters(clusters(similar@, min_lns), near.len() as nat),
                0,
            ),
        forall|i: int| 0 <= i < near.len() ==> #[trigger] result.0[i] == NOISE || 0 <= result.0[i] < result.1,
        forall|cluster: usize|
            cluster < result.1 ==> clusters(similar@, min_lns).slots.contains(cluster),
{
    let len = similar.len();
    let mut merge_indexs = MergeIndexs::new();
    let mut is_core: Vec<bool> = Vec::new();
    while is_core.len() < len
        invariant
            is_core.len() <= len,
            forall|j: int| 0 <= j < is_core.len() ==> !#[trigger] is_core@[j],
        decreases len - is_core.len(),
    {
        is_core.push(false);
    }
    let mut i: usize = 0;
    while i < len
        invariant
            len == similar.len() == near.len(),
            neighbourhoods(similar@, len as int),
            i <= len,
            is_core.len() == len,
            merge_indexs.well_formed(),
            merge_indexs@ == merge_table(similar@, min_lns, i as int),
            forall|j: int| 0 <= j < len ==> #[trigger] is_core@[j] == (j < i && similar@[j]@.len() >= min_lns),
        decreases len - i,
    {
        let neighbours = &similar[i];
        let ghost table = merge_indexs@;
        proof {
            lemma_merge_table(similar@, min_lns, i as int);
        }
        if neighbours.len() >= min_lns {
            assert forall|k: int| 0 <= k < neighbours.len() implies #[trigger] neighbours[k]
                < is_core.len() by {
                assert(similar@[i as int]@[k] < len);
            }
            let can_merge_index = known_cores(neighbours, &is_core);
            proof {
                assert forall|k: int| 0 <= k < table.cores.len() implies can_merge_index@.contains(
                    #[trigger] table.cores[k],
                ) == neighbours@.contains(table.cores[k]) by {
                    let core = table.cores[k];
                    assert(core < i && similar@[core as int]@.len() >= min_lns);
                    assert(is_core@[core as int]);
                }
                lemma_merged_same(table, can_merge_index@, neighbours@, i);
            }
            if can_merge_index.len() > 0 {
                merge_indexs.set_to_min(&can_merge_index, i);
            } else {
                proof {
                    assert forall|k: int| 0 <= k < table.cores.len() implies !can_merge_index@.contains(
                        #[trigger] table.cores[k],
                    ) by {
                        if can_merge_index@.contains(table.cores[k]) {
                            let at = choose|at: int|
                                0 <= at < can_merge_index@.len() && can_merge_index@[at]
                                    == table.cores[k];
                        }
                    }
                    lemma_merged_alone(table, can_merge_index@, i);
                }
                merge_indexs.push(i);
            }
            is_core.set(i, true);
        }
        i += 1;
    }
    let ghost raw = merge_indexs@;
    merge_indexs.correct_indexs();
    let ghost table = merge_indexs@;
    proof {
        lemma_merge_table(similar@, min_lns, len as int);
        lemma_corrected(raw);
        assert(table == clusters(similar@, min_lns));
    }
    let mut cluster_of: Vec<i32> = Vec::new();
    while cluster_of.len() < len
        invariant
            cluster_of.len() <= len,
            forall|j: int| 0 <= j < cluster_of.len() ==> #[trigger] cluster_of@[j] == NOISE,
        decreases len - cluster_of.len(),
    {
        cluster_of.push(NOISE);
    }
    let cores = merge_indexs.len();
    let mut at: usize = 0;
    while at < cores
        invariant
            len == near.len(),
            len <= i32::MAX,
            merge_indexs@ == table,
            merge_indexs.well_formed(),
            cores == table.cores.len(),
            table.cores == raw.cores,
            table.slot_count <= table.cores.len(),
            raw.cores.len() <= len,
            forall|k: int| 0 <= k < raw.cores.len() ==> #[trigger] raw.cores[k] < len,
            at <= cores,
            cluster_of.len() == len,
            forall|j: int| 0 <= j < len ==> #[trigger] cluster_of@[j] == slot_of(table, j as usize, at as int),
        decreases cores - at,
    {
        let core = merge_indexs.get_index(at);
        let slot = merge_indexs.get_slot(at);
        assert(raw.cores[at as int] < len);
        cluster_of.set(core, slot as i32);
        at += 1;
    }
    let ghost core_cluster = core_clusters(table, len as nat);
    proof {
        assert(cluster_of@.map_values(|c: i32| c as int) =~= core_cluster);
        assert forall|j: int| 0 <= j < core_cluster.len() implies -1 <= #[trigger] core_cluster[j]
            < table.slot_count by {
            lemma_slot_of(table, j as usize, table.cores.len() as int);
        }
    }
    let mut labels: Vec<i32> = Vec::new();
    let mut i: usize = 0;
    while i < len
        invariant
            len == near.len(),
            neighbourhoods(near@, len as int),
            i <= len,
            cluster_of.len() == len,
            labels.len() == i,
            table.slot_count <= i32::MAX,
            core_cluster == core_clusters(table, len as nat),
            cluster_of@.map_values(|c: i32| c as int) == core_cluster,
            forall|j: int| 0 <= j < core_cluster.len() ==> -1 <= #[trigger] core_cluster[j] < table.slot_count,
            forall|j: int|
                0 <= j < i ==> #[trigger] labels@[j] == first_cluster(near@[j]@, core_cluster, 0),
            forall|j: int| 0 <= j < i ==> #[trigger] labels@[j] == NOISE || 0 <= labels@[j] < table.slot_count,
        decreases len - i,
    {
        let neighbours = &near[i];
        assert forall|k: int| 0 <= k < neighbours.len() implies #[trigger] neighbours[k]
            < cluster_of.len() by {
            assert(near@[i as int]@[k] < len);
        }
        let label = first_label(neighbours, &cluster_of);
        proof {
            lemma_first_cluster(neighbours@, core_cluster, 0, table.slot_count as int);
        }
        labels.push(label);
        i += 1;
    }
    (labels, merge_indexs.get_slot_count())
}

} // verus!
