//! The reconciler: merges the duplicate clusters back into the frame.
//! Rows whose id was absorbed disappear; every surviving original is
//! emitted first, with a null `ids` cell, and the cluster rows follow.
//! The structural invariants — clusters pairwise disjoint, members
//! drawn from the frame, the absorbed ids exactly their union — are
//! checked, and a violation aborts with a frame-schema error.

use vstd::prelude::*;
use crate::dedup::{contains_id, ClusterRow};
use crate::error::Error;
use crate::frame::{unique_ids, Record, RecordV};

verus! {

/// The record value with its `ids` cell nulled.
pub open spec fn with_null_ids(v: RecordV) -> RecordV {
    RecordV { ids: None, ..v }
}

/// Some row of the frame carries this id.
pub open spec fn frame_has_id(rows: Seq<Record>, id: i64) -> bool {
    exists|i: int| 0 <= i < rows.len() && (#[trigger] rows[i]).id == id
}

/// The surviving originals: the rows whose id was not absorbed, in
/// input order, with their `ids` cell nulled.
pub open spec fn survivor_views(rows: Seq<Record>, ab: Seq<i64>) -> Seq<RecordV>
    decreases rows.len(),
{
    if rows.len() == 0 {
        Seq::empty()
    } else {
        let rest = survivor_views(rows.drop_last(), ab);
        if ab.contains(rows.last().id) {
            rest
        } else {
            rest.push(with_null_ids(rows.last()@))
        }
    }
}

/// What the surviving originals look like: each one is an input row
/// whose id was not absorbed, with a null `ids` cell; every such input
/// row appears; and no two survivors share an id.
pub proof fn lemma_survivor_views_props(rows: Seq<Record>, ab: Seq<i64>)
    requires
        unique_ids(rows),
    ensures
        forall|t: int|
            0 <= t < survivor_views(rows, ab).len() ==> exists|i: int|
                0 <= i < rows.len() && (#[trigger] survivor_views(rows, ab)[t]) == with_null_ids(
                    rows[i]@,
                ) && !ab.contains(rows[i].id),
        forall|i: int|
            0 <= i < rows.len() && !ab.contains((#[trigger] rows[i]).id) ==> exists|t: int|
                0 <= t < survivor_views(rows, ab).len() && survivor_views(rows, ab)[t]
                    == with_null_ids(rows[i]@),
        forall|t1: int, t2: int|
            0 <= t1 < t2 < survivor_views(rows, ab).len() ==> (#[trigger] survivor_views(
                rows,
                ab,
            )[t1]).id != (#[trigger] survivor_views(rows, ab)[t2]).id,
    decreases rows.len(),
{
    if rows.len() > 0 {
        let prev = rows.drop_last();
        assert(unique_ids(prev)) by {
            assert(forall|i: int, j: int|
                0 <= i < prev.len() && 0 <= j < prev.len() && i != j ==> (#[trigger] prev[i])@.id
                    != (#[trigger] prev[j])@.id) by {
                assert(forall|i: int| 0 <= i < prev.len() ==> #[trigger] prev[i] == rows[i]);
            }
        }
        lemma_survivor_views_props(prev, ab);
        let sv = survivor_views(rows, ab);
        let svp = survivor_views(prev, ab);
        assert forall|t: int| 0 <= t < sv.len() implies exists|i: int|
            0 <= i < rows.len() && (#[trigger] sv[t]) == with_null_ids(rows[i]@) && !ab.contains(
                rows[i].id,
            ) by {
            if t < svp.len() {
                let i = choose|i: int|
                    0 <= i < prev.len() && (#[trigger] svp[t]) == with_null_ids(prev[i]@)
                        && !ab.contains(prev[i].id);
                assert(prev[i] == rows[i]);
                assert(sv[t] == svp[t]);
            } else {
                assert(!ab.contains(rows.last().id));
                assert(sv[t] == with_null_ids(rows[rows.len() - 1]@));
            }
        }
        assert forall|i: int|
            0 <= i < rows.len() && !ab.contains((#[trigger] rows[i]).id) implies exists|t: int|
            0 <= t < sv.len() && sv[t] == with_null_ids(rows[i]@) by {
            if i < rows.len() - 1 {
                assert(prev[i] == rows[i]);
                let t = choose|t: int|
                    0 <= t < svp.len() && svp[t] == with_null_ids(prev[i]@);
                assert(sv[t] == svp[t]);
            } else {
                assert(sv.last() == with_null_ids(rows[i]@));
            }
        }
        assert forall|t1: int, t2: int| 0 <= t1 < t2 < sv.len() implies (#[trigger] sv[t1]).id != (
        #[trigger] sv[t2]).id by {
            if t2 < svp.len() {
            } else if ab.contains(rows.last().id) {
            } else {
                assert(t2 == svp.len() && sv[t2] == with_null_ids(rows.last()@));
                let i1 = choose|i: int|
                    0 <= i < prev.len() && (#[trigger] svp[t1]) == with_null_ids(prev[i]@)
                        && !ab.contains(prev[i].id);
                assert(sv[t1].id == rows[i1]@.id);
                assert(rows[i1]@.id != rows[rows.len() - 1]@.id);
            }
        }
    }
}

/// Two clusters of the list share a member id.
pub open spec fn clusters_overlap(cs: Seq<ClusterRow>, k1: int, k2: int) -> bool {
    exists|id: i64| #[trigger] cs[k1].member_ids@.contains(id) && cs[k2].member_ids@.contains(id)
}

/// Some cluster of the list holds the id among its members.
pub open spec fn absorbed_in_some(cs: Seq<ClusterRow>, id: i64) -> bool {
    exists|k: int| 0 <= k < cs.len() && (#[trigger] cs[k]).member_ids@.contains(id)
}

/// The structural invariants reconciliation demands: the clusters are
/// pairwise disjoint, every member id names a row of the frame, and
/// the absorbed ids are exactly the union of the members.
pub open spec fn reconcile_ok(rows: Seq<Record>, cs: Seq<ClusterRow>, ab: Seq<i64>) -> bool {
    &&& forall|k1: int, k2: int|
        0 <= k1 < cs.len() && 0 <= k2 < cs.len() && k1 != k2 ==> !#[trigger] clusters_overlap(
            cs,
            k1,
            k2,
        )
    &&& forall|k: int, id: i64|
        0 <= k < cs.len() && #[trigger] cs[k].member_ids@.contains(id) ==> frame_has_id(rows, id)
    &&& forall|id: i64| #[trigger] ab.contains(id) <==> absorbed_in_some(cs, id)
}

/// Checks whether the clusters are pairwise disjoint.
fn check_disjoint(cs: &Vec<ClusterRow>) -> (b: bool)
    ensures
        b == (forall|k1: int, k2: int|
            0 <= k1 < cs@.len() && 0 <= k2 < cs@.len() && k1 != k2 ==> !#[trigger] clusters_overlap(
                cs@,
                k1,
                k2,
            )),
{
    let n = cs.len();
    let mut k1: usize = 0;
    while k1 < n
        invariant
            k1 <= n,
            n == cs@.len(),
            forall|a: int, b2: int|
                0 <= a < k1 && 0 <= b2 < cs@.len() && a != b2 ==> !#[trigger] clusters_overlap(
                    cs@,
                    a,
                    b2,
                ),
        decreases n - k1,
    {
        let mut k2: usize = 0;
        while k2 < n
            invariant
                k1 < n,
                k2 <= n,
                n == cs@.len(),
                forall|a: int, b2: int|
                    0 <= a < k1 && 0 <= b2 < cs@.len() && a != b2 ==> !#[trigger] clusters_overlap(
                        cs@,
                        a,
                        b2,
                    ),
                forall|b2: int|
                    0 <= b2 < k2 && b2 != k1 as int ==> !#[trigger] clusters_overlap(
                        cs@,
                        k1 as int,
                        b2,
                    ),
            decreases n - k2,
        {
            if k2 != k1 {
                let ids1 = &cs[k1].member_ids;
                let mut t: usize = 0;
                while t < ids1.len()
                    invariant
                        k1 < n,
                        k2 < n,
                        k1 != k2,
                        n == cs@.len(),
                        t <= ids1@.len(),
                        ids1@ == cs@[k1 as int].member_ids@,
                        forall|u: int|
                            0 <= u < t ==> !cs@[k2 as int].member_ids@.contains(
                                #[trigger] ids1@[u],
                            ),
                    decreases ids1@.len() - t,
                {
                    if contains_id(&cs[k2].member_ids, ids1[t]) {
                        proof {
                            let w = ids1@[t as int];
                            assert(cs@[k1 as int].member_ids@.contains(w));
                            assert(cs@[k2 as int].member_ids@.contains(w));
                            assert(clusters_overlap(cs@, k1 as int, k2 as int));
                            assert((k1 as int) < cs@.len());
                            assert((k2 as int) < cs@.len());
                            assert(k1 != k2);
                            assert(!(forall|a: int, b2: int|
                                0 <= a < cs@.len() && 0 <= b2 < cs@.len() && a != b2
                                    ==> !#[trigger] clusters_overlap(cs@, a, b2)));
                        }
                        return false;
                    }
                    t = t + 1;
                }
                proof {
                    assert(!clusters_overlap(cs@, k1 as int, k2 as int)) by {
                        if clusters_overlap(cs@, k1 as int, k2 as int) {
                            let id = choose|id: i64|
                                #[trigger] cs@[k1 as int].member_ids@.contains(id) && cs@[
                            k2 as int].member_ids@.contains(id);
                            let u = choose|u: int| 0 <= u < ids1@.len() && ids1@[u] == id;
                        }
                    }
                }
            }
            k2 = k2 + 1;
        }
        k1 = k1 + 1;
    }
    true
}

/// Checks that every member id names a row of the frame.
fn check_members_known(rows: &Vec<Record>, cs: &Vec<ClusterRow>) -> (b: bool)
    ensures
        b == (forall|k: int, id: i64|
            0 <= k < cs@.len() && #[trigger] cs@[k].member_ids@.contains(id) ==> frame_has_id(
                rows@,
                id,
            )),
{
    let mut k: usize = 0;
    while k < cs.len()
        invariant
            k <= cs@.len(),
            forall|a: int, id: i64|
                0 <= a < k && #[trigger] cs@[a].member_ids@.contains(id) ==> frame_has_id(
                    rows@,
                    id,
                ),
        decreases cs@.len() - k,
    {
        let ids = &cs[k].member_ids;
        let mut t: usize = 0;
        while t < ids.len()
            invariant
                k < cs@.len(),
                t <= ids@.len(),
                ids@ == cs@[k as int].member_ids@,
                forall|u: int| 0 <= u < t ==> frame_has_id(rows@, #[trigger] ids@[u]),
            decreases ids@.len() - t,
        {
            let mut found = false;
            let mut i: usize = 0;
            while i < rows.len()
                invariant
                    i <= rows@.len(),
                    t < ids@.len(),
                    found ==> frame_has_id(rows@, ids@[t as int]),
                    !found ==> forall|w: int| 0 <= w < i ==> (#[trigger] rows@[w]).id != ids@[
                    t as int],
                decreases rows@.len() - i,
            {
                if rows[i].id == ids[t] {
                    found = true;
                }
                i = i + 1;
            }
            if !found {
                proof {
                    assert(cs@[k as int].member_ids@.contains(ids@[t as int]));
                    if frame_has_id(rows@, ids@[t as int]) {
                        let w = choose|w: int|
                            0 <= w < rows@.len() && (#[trigger] rows@[w]).id == ids@[t as int];
                    }
                }
                return false;
            }
            t = t + 1;
        }
        k = k + 1;
        proof {
            assert forall|a: int, id: i64|
                0 <= a < k && #[trigger] cs@[a].member_ids@.contains(id) implies frame_has_id(
                rows@,
                id,
            ) by {
                if a == k - 1 {
                    let u = choose|u: int| 0 <= u < ids@.len() && ids@[u] == id;
                }
            }
        }
    }
    true
}

/// Checks that every absorbed id lies in some cluster.
fn check_absorbed_sound(cs: &Vec<ClusterRow>, ab: &Vec<i64>) -> (b: bool)
    ensures
        b == (forall|u: int| 0 <= u < ab@.len() ==> absorbed_in_some(cs@, #[trigger] ab@[u])),
{
    let mut t: usize = 0;
    while t < ab.len()
        invariant
            t <= ab@.len(),
            forall|u: int| 0 <= u < t ==> absorbed_in_some(cs@, #[trigger] ab@[u]),
        decreases ab@.len() - t,
    {
        let mut hit = false;
        let mut k: usize = 0;
        while k < cs.len()
            invariant
                k <= cs@.len(),
                t < ab@.len(),
                hit ==> absorbed_in_some(cs@, ab@[t as int]),
                !hit ==> forall|kk: int|
                    0 <= kk < k ==> !(#[trigger] cs@[kk]).member_ids@.contains(ab@[t as int]),
            decreases cs@.len() - k,
        {
            if contains_id(&cs[k].member_ids, ab[t]) {
                hit = true;
            }
            k = k + 1;
        }
        if !hit {
            proof {
                if absorbed_in_some(cs@, ab@[t as int]) {
                    let kk = choose|kk: int|
                        0 <= kk < cs@.len() && (#[trigger] cs@[kk]).member_ids@.contains(
                            ab@[t as int],
                        );
                }
            }
            return false;
        }
        t = t + 1;
    }
    true
}

/// Checks that every member id of every cluster is absorbed.
fn check_absorbed_complete(cs: &Vec<ClusterRow>, ab: &Vec<i64>) -> (b: bool)
    ensures
        b == (forall|a: int, id: i64|
            0 <= a < cs@.len() && #[trigger] cs@[a].member_ids@.contains(id) ==> ab@.contains(id)),
{
    let mut k: usize = 0;
    while k < cs.len()
        invariant
            k <= cs@.len(),
            forall|a: int, id: i64|
                0 <= a < k && #[trigger] cs@[a].member_ids@.contains(id) ==> ab@.contains(id),
        decreases cs@.len() - k,
    {
        let ids = &cs[k].member_ids;
        let mut t2: usize = 0;
        while t2 < ids.len()
            invariant
                k < cs@.len(),
                t2 <= ids@.len(),
                ids@ == cs@[k as int].member_ids@,
                forall|u: int| 0 <= u < t2 ==> ab@.contains(#[trigger] ids@[u]),
            decreases ids@.len() - t2,
        {
            if !contains_id(ab, ids[t2]) {
                proof {
                    assert(cs@[k as int].member_ids@.contains(ids@[t2 as int]));
                }
                return false;
            }
            t2 = t2 + 1;
        }
        k = k + 1;
        proof {
            assert forall|a: int, id: i64|
                0 <= a < k && #[trigger] cs@[a].member_ids@.contains(id) implies ab@.contains(
                id,
            ) by {
                if a == k - 1 {
                    let u = choose|u: int| 0 <= u < ids@.len() && ids@[u] == id;
                }
            }
        }
    }
    true
}

/// Checks that the absorbed ids are exactly the union of the members.
fn check_absorbed(cs: &Vec<ClusterRow>, ab: &Vec<i64>) -> (b: bool)
    ensures
        b == (forall|id: i64| #[trigger] ab@.contains(id) <==> absorbed_in_some(cs@, id)),
{
    let sound = check_absorbed_sound(cs, ab);
    let complete = check_absorbed_complete(cs, ab);
    proof {
        if sound && complete {
            assert forall|id: i64| #[trigger] ab@.contains(id) <==> absorbed_in_some(
                cs@,
                id,
            ) by {
                if ab@.contains(id) {
                    let u = choose|u: int| 0 <= u < ab@.len() && ab@[u] == id;
                    assert(absorbed_in_some(cs@, ab@[u]));
                }
                if absorbed_in_some(cs@, id) {
                    let k = choose|k: int|
                        0 <= k < cs@.len() && (#[trigger] cs@[k]).member_ids@.contains(id);
                }
            }
        } else if !sound {
            let u = choose|u: int|
                0 <= u < ab@.len() && !absorbed_in_some(cs@, #[trigger] ab@[u]);
            assert(ab@.contains(ab@[u]));
            assert(!(forall|id: i64| #[trigger] ab@.contains(id) <==> absorbed_in_some(cs@, id)))
                by {
                assert(ab@.contains(ab@[u]) && !absorbed_in_some(cs@, ab@[u]));
            }
        } else {
            let (a, id) = choose|a: int, id: i64|
                0 <= a < cs@.len() && #[trigger] cs@[a].member_ids@.contains(id) && !ab@.contains(
                    id,
                );
            assert(absorbed_in_some(cs@, id));
            assert(!(forall|idx: i64|
                #[trigger] ab@.contains(idx) <==> absorbed_in_some(cs@, idx))) by {
                assert(absorbed_in_some(cs@, id) && !ab@.contains(id));
            }
        }
    }
    sound && complete
}

/// Merges the clusters back into the frame: the surviving originals,
/// in input order and with a null `ids` cell, followed by the cluster
/// rows.  A violated structural invariant yields a frame-schema
/// error and no frame.
pub fn reconcile(rows: &Vec<Record>, clusters: &Vec<ClusterRow>, absorbed: &Vec<i64>) -> (r:
    Result<Vec<Record>, Error>)
    ensures
        r is Ok <==> reconcile_ok(rows@, clusters@, absorbed@),
        r matches Err(e) ==> e is FrameSchemaError,
        r matches Ok(out) ==> out@.map_values(|rr: Record| rr@) == survivor_views(
            rows@,
            absorbed@,
        ) + clusters@.map_values(|c: ClusterRow| c.row@),
{
    if !check_disjoint(clusters) {
        return Err(Error::FrameSchemaError);
    }
    if !check_members_known(rows, clusters) {
        return Err(Error::FrameSchemaError);
    }
    if !check_absorbed(clusters, absorbed) {
        return Err(Error::FrameSchemaError);
    }
    let mut out: Vec<Record> = Vec::new();
    let mut i: usize = 0;
    proof {
        assert(out@.map_values(|rr: Record| rr@) =~= survivor_views(
            rows@.subrange(0, 0),
            absorbed@,
        ));
    }
    while i < rows.len()
        invariant
            i <= rows@.len(),
            out@.map_values(|rr: Record| rr@) == survivor_views(
                rows@.subrange(0, i as int),
                absorbed@,
            ),
        decreases rows@.len() - i,
    {
        let ghost pre = rows@.subrange(0, i as int);
        proof {
            assert(rows@.subrange(0, i as int + 1).drop_last() =~= pre);
            assert(rows@.subrange(0, i as int + 1).last() == rows@[i as int]);
        }
        if !contains_id(absorbed, rows[i].id) {
            let mut d = rows[i].duplicate();
            d.ids = None;
            proof {
                assert(d@ == with_null_ids(rows@[i as int]@));
            }
            out.push(d);
        }
        i = i + 1;
        proof {
            assert(out@.map_values(|rr: Record| rr@) =~= survivor_views(
                rows@.subrange(0, i as int),
                absorbed@,
            ));
        }
    }
    proof {
        assert(rows@.subrange(0, rows@.len() as int) =~= rows@);
    }
    let ghost base = out@.map_values(|rr: Record| rr@);
    let mut k: usize = 0;
    while k < clusters.len()
        invariant
            k <= clusters@.len(),
            base == survivor_views(rows@, absorbed@),
            out@.map_values(|rr: Record| rr@) == base + clusters@.map_values(
                |c: ClusterRow| c.row@,
            ).subrange(0, k as int),
        decreases clusters@.len() - k,
    {
        let ghost oldout = out@;
        let d = clusters[k].row.duplicate();
        proof {
            assert(d@ == clusters@[k as int].row@);
        }
        out.push(d);
        k = k + 1;
        proof {
            let cm = clusters@.map_values(|c: ClusterRow| c.row@);
            assert(cm[k - 1] == clusters@[k - 1].row@);
            assert(out@ == oldout.push(d));
            assert(out@.map_values(|rr: Record| rr@) =~= oldout.map_values(|rr: Record| rr@).push(
                d@,
            ));
            assert(cm.subrange(0, k as int) =~= cm.subrange(0, k as int - 1).push(cm[k - 1]));
            assert(out@.map_values(|rr: Record| rr@) =~= base + cm.subrange(0, k as int));
        }
    }
    proof {
        let cm = clusters@.map_values(|c: ClusterRow| c.row@);
        assert(cm.subrange(0, cm.len() as int) =~= cm);
        assert(out@.map_values(|rr: Record| rr@) =~= survivor_views(rows@, absorbed@) + cm);
    }
    Ok(out)
}

} // verus!
