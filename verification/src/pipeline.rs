//! The column pipeline: applies the per-field transforms to a frame,
//! column by column, for the dataset the pipeline is bound to.  Each
//! row is normalized independently, so the output frame has exactly
//! the input's row at every position — normalization never reorders.

use vstd::prelude::*;
use crate::config::PaidPhonePolicy;
use crate::frame::{clone_cell, Record, RecordV};
use crate::schemas::SchemasEnum;
use crate::transforms::ape::ape_spec;
use crate::transforms::ape::transform_ape;
use crate::transforms::civilite::civilite_spec;
use crate::transforms::civilite::transform_civilite;
use crate::transforms::email::email_spec;
use crate::transforms::email::transform_email;
use crate::transforms::nom::nom_spec;
use crate::transforms::nom::transform_nom;
use crate::transforms::pce::pce_spec;
use crate::transforms::pce::transform_pce;
use crate::transforms::prenom::prenom_spec;
use crate::transforms::prenom::transform_prenom;
use crate::transforms::raison_sociale::raison_sociale_spec;
use crate::transforms::raison_sociale::transform_raison_sociale;
use crate::transforms::siren::siren_spec;
use crate::transforms::siren::transform_siren;
use crate::transforms::siret::siret_spec;
use crate::transforms::siret::transform_siret;
use crate::transforms::telephone::phone_policy_spec;
use crate::transforms::telephone::transform_telephone_with;

verus! {

/// The normalized value of one record under the current-customer
/// schema: every field the dataset carries is canonicalized, the rest
/// pass through.
pub open spec fn normalize_jdd_spec(v: RecordV, policy: PaidPhonePolicy) -> RecordV {
    RecordV {
        raison_sociale: raison_sociale_spec(v.raison_sociale),
        siret: siret_spec(v.siret),
        siren: siren_spec(v.siren),
        ape: ape_spec(v.ape),
        code_naf: ape_spec(v.code_naf),
        libele_naf: ape_spec(v.libele_naf),
        civilite: civilite_spec(v.civilite),
        nom: nom_spec(v.nom),
        prenom: prenom_spec(v.prenom),
        telephone: phone_policy_spec(policy, v.telephone),
        email: email_spec(v.email),
        ..v
    }
}

/// The normalized value of one record under the historical-customer
/// schema.
pub open spec fn normalize_hdd_spec(v: RecordV, policy: PaidPhonePolicy) -> RecordV {
    RecordV {
        pce: pce_spec(v.pce),
        nom: nom_spec(v.nom),
        prenom: prenom_spec(v.prenom),
        email: email_spec(v.email),
        telephone: phone_policy_spec(policy, v.telephone),
        raison_sociale: raison_sociale_spec(v.raison_sociale),
        siret: siret_spec(v.siret),
        siret_successeur: siret_spec(v.siret_successeur),
        ..v
    }
}

/// The normalized value of one record under the given dataset.
pub open spec fn normalize_record_spec(v: RecordV, ds: SchemasEnum, policy: PaidPhonePolicy) -> RecordV {
    match ds {
        SchemasEnum::Jdd => normalize_jdd_spec(v, policy),
        SchemasEnum::Hdd => normalize_hdd_spec(v, policy),
    }
}

/// A borrowed view of one optional text cell.
fn cell_ref<'a>(c: &'a Option<String>) -> (r: Option<&'a str>)
    ensures
        r.deep_view() == c.deep_view(),
{
    match c {
        None => None,
        Some(s) => Some(s.as_str()),
    }
}

/// Normalizes one record for the given dataset.
pub fn normalize_record(r: &Record, ds: SchemasEnum, policy: PaidPhonePolicy) -> (out: Record)
    ensures
        out@ == normalize_record_spec(r@, ds, policy),
{
    match ds {
        SchemasEnum::Jdd => Record {
            id: r.id,
            id_source: clone_cell(&r.id_source),
            raison_sociale: transform_raison_sociale(cell_ref(&r.raison_sociale)),
            siret: transform_siret(cell_ref(&r.siret)),
            siren: transform_siren(cell_ref(&r.siren)),
            ape: transform_ape(cell_ref(&r.ape)),
            code_naf: transform_ape(cell_ref(&r.code_naf)),
            libele_naf: transform_ape(cell_ref(&r.libele_naf)),
            civilite: transform_civilite(cell_ref(&r.civilite)),
            nom: transform_nom(cell_ref(&r.nom)),
            prenom: transform_prenom(cell_ref(&r.prenom)),
            telephone: transform_telephone_with(policy, cell_ref(&r.telephone)),
            email: transform_email(cell_ref(&r.email)),
            siret_successeur: clone_cell(&r.siret_successeur),
            pce: clone_cell(&r.pce),
            ids: clone_cell(&r.ids),
        },
        SchemasEnum::Hdd => Record {
            id: r.id,
            id_source: clone_cell(&r.id_source),
            raison_sociale: transform_raison_sociale(cell_ref(&r.raison_sociale)),
            siret: transform_siret(cell_ref(&r.siret)),
            siren: clone_cell(&r.siren),
            ape: clone_cell(&r.ape),
            code_naf: clone_cell(&r.code_naf),
            libele_naf: clone_cell(&r.libele_naf),
            civilite: clone_cell(&r.civilite),
            nom: transform_nom(cell_ref(&r.nom)),
            prenom: transform_prenom(cell_ref(&r.prenom)),
            telephone: transform_telephone_with(policy, cell_ref(&r.telephone)),
            email: transform_email(cell_ref(&r.email)),
            siret_successeur: transform_siret(cell_ref(&r.siret_successeur)),
            pce: transform_pce(cell_ref(&r.pce)),
            ids: clone_cell(&r.ids),
        },
    }
}

/// Normalizes a whole frame, row by row.  The output holds exactly the
/// normalized input row at every position: normalization preserves the
/// row order and the length of the frame, and never touches an id.
pub fn normalize_frame(rows: &Vec<Record>, ds: SchemasEnum, policy: PaidPhonePolicy) -> (out: Vec<
    Record,
>)
    ensures
        out@.len() == rows@.len(),
        forall|i: int|
            0 <= i < rows@.len() ==> (#[trigger] out@[i])@ == normalize_record_spec(
                rows@[i]@,
                ds,
                policy,
            ),
        forall|i: int| 0 <= i < rows@.len() ==> (#[trigger] out@[i])@.id == rows@[i]@.id,
{
    let mut out: Vec<Record> = Vec::new();
    let mut i: usize = 0;
    while i < rows.len()
        invariant
            i <= rows@.len(),
            out@.len() == i,
            forall|t: int|
                0 <= t < i ==> (#[trigger] out@[t])@ == normalize_record_spec(
                    rows@[t]@,
                    ds,
                    policy,
                ),
        decreases rows@.len() - i,
    {
        let nr = normalize_record(&rows[i], ds, policy);
        out.push(nr);
        i = i + 1;
    }
    out
}

/// What one deduplication run yields: the reconciled frame, the
/// maximal cluster rows it ends with, and the absorbed ids.
pub struct DedupOutcome {
    pub frame: Vec<Record>,
    pub clusters: Vec<crate::dedup::ClusterRow>,
    pub absorbed: Vec<i64>,
}

/// Subsumption among the built candidate clusters agrees with the
/// specification-level subsumption of their anchors.
#[verifier::rlimit(100)]
proof fn lemma_subsumed_bridge(
    rows: Seq<Record>,
    cs: Seq<crate::dedup::ClusterRow>,
    sep: char,
)
    requires
        crate::frame::unique_ids(rows),
        cs.len() == crate::dedup::anchor_list(rows, rows.len() as int).len(),
        forall|k: int|
            0 <= k < cs.len() ==> crate::dedup::is_anchor_cluster(
                rows,
                crate::dedup::anchor_list(rows, rows.len() as int)[k],
                (#[trigger] cs[k]).row@,
                cs[k].member_ids@,
                sep,
            ),
    ensures
        forall|j: int|
            0 <= j < cs.len() ==> (#[trigger] crate::dedup::subsumed(cs, j)
                <==> crate::dedup::anchor_subsumed_v(
                rows.map_values(|r: Record| r@),
                crate::dedup::anchor_list(rows, rows.len() as int)[j],
            )),
{
    let n = rows.len() as int;
    let al = crate::dedup::anchor_list(rows, n);
    let rv = rows.map_values(|r: Record| r@);
    crate::dedup::lemma_anchor_list_props(rows, n);
    crate::dedup::lemma_views_bridge(rows);
    // Subsumption among the built clusters agrees with the
    // specification-level subsumption of their anchors.
    assert forall|j: int| 0 <= j < cs.len() implies (crate::dedup::subsumed(cs, j)
        <==> crate::dedup::anchor_subsumed_v(rv, al[j])) by {
        let a = al[j];
        assert(0 <= a < n && crate::dedup::has_partner(rows, a));
        if crate::dedup::subsumed(cs, j) {
            let b = choose|b: int|
                0 <= b < cs.len() && b != j && crate::dedup::subset_ids(
                    cs[j].member_ids@,
                    (#[trigger] cs[b]).member_ids@,
                ) && (cs[j].member_ids@.len() < cs[b].member_ids@.len() || (cs[j].member_ids@.len()
                    == cs[b].member_ids@.len() && cs[b].row@.id < cs[j].row@.id));
            let a2 = al[b];
            assert(a2 != a) by {
                if b < j {
                    assert(al[b] < al[j]);
                } else {
                    assert(al[j] < al[b]);
                }
            }
            assert(crate::dedup::has_partner_v(rv, a2));
            assert forall|id: int| crate::dedup::in_cluster_of_v(rv, a, id)
                implies #[trigger] crate::dedup::in_cluster_of_v(rv, a2, id) by {
                assert(crate::dedup::in_cluster_of(rows, a, id));
                let w = choose|w: int|
                    0 <= w < rows.len() && (#[trigger] rows[w])@.id == id && (id == rows[a]@.id
                        || crate::dedup::is_pair(rows, a, w));
                assert(0 <= w < rows.len() && rows[w]@.id == id) by {
                    if id == rows[a]@.id {
                        assert(rows[a]@.id == id);
                    } else {
                        let ww = choose|ww: int|
                            crate::dedup::is_pair(rows, a, ww) && (#[trigger] rows[ww])@.id == id;
                        assert(rows[ww]@.id == id && 0 <= ww < rows.len());
                    }
                }
                let v = rows[w].id;
                assert(id == v as int);
                assert(cs[j].member_ids@.contains(v));
                assert(cs[b].member_ids@.contains(v));
                assert(crate::dedup::in_cluster_of(rows, a2, id));
            }
            assert(crate::dedup::anchor_subsumed_v(rv, a));
        }
        if crate::dedup::anchor_subsumed_v(rv, a) {
            let a2 = choose|a2: int|
                0 <= a2 < rv.len() && a2 != a && #[trigger] crate::dedup::has_partner_v(rv, a2) && (
                forall|id: int|
                    crate::dedup::in_cluster_of_v(rv, a, id)
                        ==> #[trigger] crate::dedup::in_cluster_of_v(rv, a2, id));
            assert(crate::dedup::has_partner(rows, a2));
            assert(al.contains(a2));
            let b = choose|b: int| 0 <= b < al.len() && al[b] == a2;
            assert(b != j);
            assert forall|v: i64| cs[j].member_ids@.contains(v)
                implies #[trigger] cs[b].member_ids@.contains(v) by {
                assert(crate::dedup::in_cluster_of(rows, a, v as int));
                assert(crate::dedup::in_cluster_of_v(rv, a, v as int));
                assert(crate::dedup::in_cluster_of_v(rv, a2, v as int));
                assert(crate::dedup::in_cluster_of(rows, a2, v as int));
            }
            assert(crate::dedup::subset_ids(cs[j].member_ids@, cs[b].member_ids@));
            crate::dedup::lemma_sorted_subset_len(cs[j].member_ids@, cs[b].member_ids@);
            assert(cs[j].member_ids@.len() < cs[b].member_ids@.len()) by {
                if cs[j].member_ids@.len() == cs[b].member_ids@.len() {
                    assert(cs[j].member_ids@ == cs[b].member_ids@);
                    assert(cs[j].member_ids@[0] == rows[a]@.id);
                    assert(cs[b].member_ids@[0] == rows[a2]@.id);
                    assert(rows[a]@.id == rows[a2]@.id);
                }
            }
            assert(crate::dedup::subsumed(cs, j));
        }
    }
}

/// Pruning keeps exactly one candidate cluster per kept anchor.
#[verifier::rlimit(100)]
proof fn lemma_detect_kept_anchors(
    rows: Seq<Record>,
    cs: Seq<crate::dedup::ClusterRow>,
    kept: Seq<crate::dedup::ClusterRow>,
    picks: Seq<int>,
    sep: char,
)
    requires
        crate::frame::unique_ids(rows),
        cs.len() == crate::dedup::anchor_list(rows, rows.len() as int).len(),
        forall|k: int|
            0 <= k < cs.len() ==> crate::dedup::is_anchor_cluster(
                rows,
                crate::dedup::anchor_list(rows, rows.len() as int)[k],
                (#[trigger] cs[k]).row@,
                cs[k].member_ids@,
                sep,
            ),
        picks.len() == kept.len(),
        forall|k1: int, k2: int| 0 <= k1 < k2 < picks.len() ==> picks[k1] < picks[k2],
        forall|k: int|
            0 <= k < picks.len() ==> 0 <= #[trigger] picks[k] < cs.len() && !crate::dedup::subsumed(
                cs,
                picks[k],
            ) && kept[k].row@ == cs[picks[k]].row@ && kept[k].member_ids@
                == cs[picks[k]].member_ids@,
        forall|a: int|
            0 <= a < cs.len() && !crate::dedup::subsumed(cs, a) ==> picks.contains(a),
    ensures
        forall|k: int|
            0 <= k < kept.len() ==> crate::dedup::kept_cluster_shape(
                rows,
                (#[trigger] kept[k]).row@,
                kept[k].member_ids@,
                sep,
            ),
        forall|a: int|
            #[trigger] crate::dedup::anchor_kept(rows, a) ==> crate::dedup::lists_anchor(
                rows,
                kept,
                a,
                sep,
            ),
{
    let n = rows.len() as int;
    let al = crate::dedup::anchor_list(rows, n);
    let rv = rows.map_values(|r: Record| r@);
    crate::dedup::lemma_anchor_list_props(rows, n);
    crate::dedup::lemma_views_bridge(rows);
    lemma_subsumed_bridge(rows, cs, sep);
    // What pruning keeps is exactly one cluster per kept anchor.
    assert forall|k: int| 0 <= k < kept.len() implies crate::dedup::anchor_kept(
        rows,
        al[picks[k]],
    ) && crate::dedup::is_anchor_cluster(
        rows,
        al[picks[k]],
        (#[trigger] kept[k]).row@,
        kept[k].member_ids@,
        sep,
    ) by {
        let a = al[picks[k]];
        assert(crate::dedup::has_partner(rows, a));
        assert(!crate::dedup::subsumed(cs, picks[k]));
        assert(!crate::dedup::anchor_subsumed_v(rv, a));
    }
    assert forall|k: int| 0 <= k < kept.len() implies crate::dedup::kept_cluster_shape(
        rows,
        (#[trigger] kept[k]).row@,
        kept[k].member_ids@,
        sep,
    ) by {
        let a = al[picks[k]];
        assert(crate::dedup::anchor_kept(rows, a) && crate::dedup::is_anchor_cluster(
            rows,
            a,
            kept[k].row@,
            kept[k].member_ids@,
            sep,
        ));
    }
    assert forall|a: int| #[trigger] crate::dedup::anchor_kept(rows, a)
        implies crate::dedup::lists_anchor(rows, kept, a, sep) by {
        assert(crate::dedup::has_partner_v(rv, a));
        assert(crate::dedup::has_partner(rows, a));
        assert(al.contains(a));
        let j = choose|j: int| 0 <= j < al.len() && al[j] == a;
        assert(!crate::dedup::anchor_subsumed_v(rv, a));
        assert(!crate::dedup::subsumed(cs, j));
        assert(picks.contains(j));
        let k = choose|k: int| 0 <= k < picks.len() && picks[k] == j;
        assert(crate::dedup::is_anchor_cluster(
            rows,
            a,
            kept[k].row@,
            kept[k].member_ids@,
            sep,
        ));
    }
}

/// The detector's outcome at the specification level: every member id
/// names a row, the kept clusters carry pairwise distinct anchor ids,
/// and they are pairwise disjoint exactly when the success condition
/// [`crate::dedup::detector_ok`] holds of the frame.
#[verifier::rlimit(100)]
proof fn lemma_detect_success(
    rows: Seq<Record>,
    cs: Seq<crate::dedup::ClusterRow>,
    kept: Seq<crate::dedup::ClusterRow>,
    picks: Seq<int>,
    sep: char,
)
    requires
        crate::frame::unique_ids(rows),
        cs.len() == crate::dedup::anchor_list(rows, rows.len() as int).len(),
        forall|k: int|
            0 <= k < cs.len() ==> crate::dedup::is_anchor_cluster(
                rows,
                crate::dedup::anchor_list(rows, rows.len() as int)[k],
                (#[trigger] cs[k]).row@,
                cs[k].member_ids@,
                sep,
            ),
        picks.len() == kept.len(),
        forall|k1: int, k2: int| 0 <= k1 < k2 < picks.len() ==> picks[k1] < picks[k2],
        forall|k: int|
            0 <= k < picks.len() ==> 0 <= #[trigger] picks[k] < cs.len() && !crate::dedup::subsumed(
                cs,
                picks[k],
            ) && kept[k].row@ == cs[picks[k]].row@ && kept[k].member_ids@
                == cs[picks[k]].member_ids@,
        forall|a: int|
            0 <= a < cs.len() && !crate::dedup::subsumed(cs, a) ==> picks.contains(a),
    ensures
        forall|k: int, id: i64|
            0 <= k < kept.len() && #[trigger] kept[k].member_ids@.contains(id)
                ==> crate::reconcile::frame_has_id(rows, id),
        (forall|k1: int, k2: int|
            0 <= k1 < kept.len() && 0 <= k2 < kept.len() && k1 != k2
                ==> !#[trigger] crate::reconcile::clusters_overlap(kept, k1, k2))
            <==> crate::dedup::detector_ok(rows),
        forall|k1: int, k2: int|
            0 <= k1 < kept.len() && 0 <= k2 < kept.len() && k1 != k2 ==> (
            #[trigger] kept[k1]).row@.id != (#[trigger] kept[k2]).row@.id,
{
    let n = rows.len() as int;
    let al = crate::dedup::anchor_list(rows, n);
    let rv = rows.map_values(|r: Record| r@);
    crate::dedup::lemma_anchor_list_props(rows, n);
    crate::dedup::lemma_views_bridge(rows);
    // Two kept clusters never share an anchor id.
    assert forall|k1: int, k2: int|
        0 <= k1 < kept.len() && 0 <= k2 < kept.len() && k1 != k2 implies (
    #[trigger] kept[k1]).row@.id != (#[trigger] kept[k2]).row@.id by {
        let a1 = al[picks[k1]];
        let a2 = al[picks[k2]];
        assert(picks[k1] != picks[k2]) by {
            if k1 < k2 {
                assert(picks[k1] < picks[k2]);
            } else {
                assert(picks[k2] < picks[k1]);
            }
        }
        assert(a1 != a2) by {
            if picks[k1] < picks[k2] {
                assert(al[picks[k1]] < al[picks[k2]]);
            } else {
                assert(al[picks[k2]] < al[picks[k1]]);
            }
        }
        assert(kept[k1].row@.id == rows[a1]@.id);
        assert(kept[k2].row@.id == rows[a2]@.id);
    }
    // A member id always names a row of the frame.
    assert forall|k: int, id: i64|
        0 <= k < kept.len() && #[trigger] kept[k].member_ids@.contains(id)
            implies crate::reconcile::frame_has_id(rows, id) by {
        let a = al[picks[k]];
        assert(kept[k].member_ids@ == cs[picks[k]].member_ids@);
        assert(crate::dedup::in_cluster_of(rows, a, id as int));
        if id as int == rows[a]@.id {
            assert((#[trigger] rows[a]).id == id);
        } else {
            let j = choose|j: int|
                crate::dedup::is_pair(rows, a, j) && (#[trigger] rows[j])@.id == id as int;
            assert(rows[j].id == id);
        }
    }
    lemma_subsumed_bridge(rows, cs, sep);
    // Disjointness of what pruning keeps is exactly the success
    // condition on the frame.
    let kept_disjoint = forall|k1: int, k2: int|
        0 <= k1 < kept.len() && 0 <= k2 < kept.len() && k1 != k2
            ==> !#[trigger] crate::reconcile::clusters_overlap(kept, k1, k2);
    assert(kept_disjoint ==> crate::dedup::detector_ok_v(rv)) by {
        if kept_disjoint {
            assert forall|a1: int, a2: int, id: int|
                crate::dedup::anchor_kept_v(rv, a1) && crate::dedup::anchor_kept_v(rv, a2) && a1
                    != a2 implies !(#[trigger] crate::dedup::in_cluster_of_v(rv, a1, id)
                && #[trigger] crate::dedup::in_cluster_of_v(rv, a2, id)) by {
                if crate::dedup::in_cluster_of_v(rv, a1, id) && crate::dedup::in_cluster_of_v(
                    rv,
                    a2,
                    id,
                ) {
                    assert(crate::dedup::has_partner(rows, a1));
                    assert(crate::dedup::has_partner(rows, a2));
                    assert(al.contains(a1));
                    assert(al.contains(a2));
                    let j1 = choose|j1: int| 0 <= j1 < al.len() && al[j1] == a1;
                    let j2 = choose|j2: int| 0 <= j2 < al.len() && al[j2] == a2;
                    assert(j1 != j2);
                    assert(!crate::dedup::subsumed(cs, j1));
                    assert(!crate::dedup::subsumed(cs, j2));
                    assert(picks.contains(j1));
                    assert(picks.contains(j2));
                    let k1 = choose|k1: int| 0 <= k1 < picks.len() && picks[k1] == j1;
                    let k2 = choose|k2: int| 0 <= k2 < picks.len() && picks[k2] == j2;
                    assert(k1 != k2);
                    assert(crate::dedup::in_cluster_of(rows, a1, id));
                    let w = choose|w: int|
                        0 <= w < rows.len() && (#[trigger] rows[w])@.id == id && (id
                            == rows[a1]@.id || crate::dedup::is_pair(rows, a1, w));
                    assert(exists|w2: int|
                        0 <= w2 < rows.len() && (#[trigger] rows[w2])@.id == id) by {
                        if id == rows[a1]@.id {
                            assert(rows[a1]@.id == id);
                        } else {
                            let ww = choose|ww: int|
                                crate::dedup::is_pair(rows, a1, ww) && (#[trigger] rows[ww])@.id
                                    == id;
                            assert(rows[ww]@.id == id && 0 <= ww < rows.len());
                        }
                    }
                    let w2 = choose|w2: int|
                        0 <= w2 < rows.len() && (#[trigger] rows[w2])@.id == id;
                    let v = rows[w2].id;
                    assert(id == v as int);
                    assert(kept[k1].member_ids@.contains(v));
                    assert(kept[k2].member_ids@.contains(v));
                    assert(crate::reconcile::clusters_overlap(kept, k1, k2));
                }
            }
        }
    }
    assert(crate::dedup::detector_ok_v(rv) ==> kept_disjoint) by {
        if crate::dedup::detector_ok_v(rv) {
            assert forall|k1: int, k2: int|
                0 <= k1 < kept.len() && 0 <= k2 < kept.len() && k1 != k2
                    implies !#[trigger] crate::reconcile::clusters_overlap(kept, k1, k2) by {
                if crate::reconcile::clusters_overlap(kept, k1, k2) {
                    let v = choose|v: i64|
                        #[trigger] kept[k1].member_ids@.contains(v)
                            && kept[k2].member_ids@.contains(v);
                    let a1 = al[picks[k1]];
                    let a2 = al[picks[k2]];
                    assert(a1 != a2) by {
                        assert(picks[k1] != picks[k2]) by {
                            if k1 < k2 {
                                assert(picks[k1] < picks[k2]);
                            } else {
                                assert(picks[k2] < picks[k1]);
                            }
                        }
                        if picks[k1] < picks[k2] {
                            assert(al[picks[k1]] < al[picks[k2]]);
                        } else {
                            assert(al[picks[k2]] < al[picks[k1]]);
                        }
                    }
                    assert(crate::dedup::anchor_kept_v(rv, a1)) by {
                        assert(crate::dedup::has_partner(rows, a1));
                        assert(!crate::dedup::subsumed(cs, picks[k1]));
                    }
                    assert(crate::dedup::anchor_kept_v(rv, a2)) by {
                        assert(crate::dedup::has_partner(rows, a2));
                        assert(!crate::dedup::subsumed(cs, picks[k2]));
                    }
                    assert(crate::dedup::in_cluster_of(rows, a1, v as int));
                    assert(crate::dedup::in_cluster_of(rows, a2, v as int));
                    assert(crate::dedup::in_cluster_of_v(rv, a1, v as int));
                    assert(crate::dedup::in_cluster_of_v(rv, a2, v as int));
                    assert(false);
                }
            }
        }
    }
}

/// The ids of a reconciled frame are pairwise distinct, and every
/// unabsorbed input id stands in it as an original row with a null
/// `ids` cell.
proof fn lemma_frame_ids(
    rows: Seq<Record>,
    kept: Seq<crate::dedup::ClusterRow>,
    ab: Seq<i64>,
    fv: Seq<RecordV>,
    anchors: Seq<int>,
    sep: char,
)
    requires
        crate::frame::unique_ids(rows),
        fv == crate::reconcile::survivor_views(rows, ab) + kept.map_values(
            |c: crate::dedup::ClusterRow| c.row@,
        ),
        anchors.len() == kept.len(),
        forall|k1: int, k2: int|
            0 <= k1 < anchors.len() && 0 <= k2 < anchors.len() && k1 != k2 ==> (
            #[trigger] anchors[k1]) != (#[trigger] anchors[k2]),
        forall|k: int|
            0 <= k < kept.len() ==> crate::dedup::is_anchor_cluster(
                rows,
                anchors[k],
                (#[trigger] kept[k]).row@,
                kept[k].member_ids@,
                sep,
            ),
        forall|id: i64|
            #[trigger] ab.contains(id) <==> crate::reconcile::absorbed_in_some(kept, id),
    ensures
        forall|t1: int, t2: int|
            0 <= t1 < t2 < fv.len() ==> (#[trigger] fv[t1]).id != (#[trigger] fv[t2]).id,
        forall|i: int|
            0 <= i < rows.len() && !ab.contains((#[trigger] rows[i]).id) ==> exists|t: int|
                0 <= t < fv.len() && (#[trigger] fv[t]).id == rows[i]@.id && fv[t].ids is None,
{
    let sv = crate::reconcile::survivor_views(rows, ab);
    crate::reconcile::lemma_survivor_views_props(rows, ab);
    assert forall|k: int| 0 <= k < kept.len() implies ab.contains(
        #[trigger] kept[k].row@.id as i64,
    ) by {
        let a = anchors[k];
        assert(kept[k].member_ids@[0] == rows[a]@.id);
        assert(kept[k].member_ids@.contains(kept[k].member_ids@[0]));
        assert(crate::reconcile::absorbed_in_some(kept, kept[k].member_ids@[0]));
        assert(kept[k].row@.id == rows[a]@.id);
        assert(rows[a]@.id == rows[a].id as int);
    }
    assert forall|k1: int, k2: int|
        0 <= k1 < kept.len() && 0 <= k2 < kept.len() && k1 != k2 implies (
    #[trigger] kept[k1]).row@.id != (#[trigger] kept[k2]).row@.id by {
        let a1 = anchors[k1];
        let a2 = anchors[k2];
        assert(rows[a1]@.id != rows[a2]@.id);
    }
    assert forall|t1: int, t2: int| 0 <= t1 < t2 < fv.len() implies (#[trigger] fv[t1]).id != (
    #[trigger] fv[t2]).id by {
        if t2 < sv.len() {
        } else if t1 >= sv.len() {
            assert(fv[t1] == kept[t1 - sv.len()].row@);
            assert(fv[t2] == kept[t2 - sv.len()].row@);
        } else {
            assert(fv[t1] == sv[t1]);
            assert(fv[t2] == kept[t2 - sv.len()].row@);
            let i = choose|i: int|
                0 <= i < rows.len() && (#[trigger] sv[t1]) == crate::reconcile::with_null_ids(
                    rows[i]@,
                ) && !ab.contains(rows[i].id);
            assert(ab.contains(fv[t2].id as i64));
            assert(fv[t1].id == rows[i].id as int);
        }
    }
    assert forall|i: int|
        0 <= i < rows.len() && !ab.contains((#[trigger] rows[i]).id) implies exists|t: int|
        0 <= t < fv.len() && (#[trigger] fv[t]).id == rows[i]@.id && fv[t].ids is None by {
        let t = choose|t: int|
            0 <= t < sv.len() && sv[t] == crate::reconcile::with_null_ids(rows[i]@);
        assert(fv[t] == sv[t]);
        assert(fv[t].id == rows[i]@.id && fv[t].ids is None);
    }
}

/// Runs the duplicate detector and the reconciler over a normalized
/// frame.
///
/// On success, every input id is preserved exactly once: the ids of
/// the output rows are pairwise distinct; an id that was not absorbed
/// stands in the frame as an original row with a null `ids` cell; and
/// an absorbed id lies inside exactly one cluster row's members (the
/// clusters are pairwise disjoint and their union is exactly the
/// absorbed set).  No cluster's id set is contained in another's.  A
/// frame whose candidate clusters overlap is refused with a
/// frame-schema error and yields no output frame: chained matches —
/// one row pairing into two different maximal clusters — end the run
/// rather than being merged, and the success condition
/// [`crate::dedup::detector_ok`] states exactly when that happens.
/// The cluster rows come out sorted by anchor id, and the cancellation
/// flag is observed at the checkpoint between detection and
/// reconciliation.
#[verifier::rlimit(100)]
pub fn deduplicate_frame(rows: &Vec<Record>, sep: char, cancel: &CancelFlag) -> (r: Result<
    DedupOutcome,
    crate::error::Error,
>)
    requires
        crate::frame::unique_ids(rows@),
    ensures
        cancel.spec_raised() ==> (r matches Err(e) && e is Cancelled),
        !cancel.spec_raised() ==> (r is Ok <==> crate::dedup::detector_ok(rows@)),
        !cancel.spec_raised() ==> (r matches Err(e) ==> e is FrameSchemaError),
        r matches Err(e) ==> (e is Cancelled || e is FrameSchemaError),
        r matches Ok(o) ==> {
            &&& crate::reconcile::reconcile_ok(rows@, o.clusters@, o.absorbed@)
            &&& o.frame@.map_values(|rr: Record| rr@) == crate::reconcile::survivor_views(
                rows@,
                o.absorbed@,
            ) + o.clusters@.map_values(|c: crate::dedup::ClusterRow| c.row@)
            &&& forall|k: int|
                0 <= k < o.clusters@.len() ==> crate::dedup::kept_cluster_shape(
                    rows@,
                    (#[trigger] o.clusters@[k]).row@,
                    o.clusters@[k].member_ids@,
                    sep,
                )
            &&& forall|a: int|
                #[trigger] crate::dedup::anchor_kept(rows@, a) ==> crate::dedup::lists_anchor(
                    rows@,
                    o.clusters@,
                    a,
                    sep,
                )
            &&& forall|k1: int, k2: int|
                0 <= k1 < o.clusters@.len() && 0 <= k2 < o.clusters@.len() && k1 != k2 ==> !(
                crate::dedup::subset_ids(
                    (#[trigger] o.clusters@[k1]).member_ids@,
                    (#[trigger] o.clusters@[k2]).member_ids@,
                ) && (o.clusters@[k1].member_ids@.len() < o.clusters@[k2].member_ids@.len() || (
                o.clusters@[k1].member_ids@.len() == o.clusters@[k2].member_ids@.len() && o.clusters@[
                k2].row@.id < o.clusters@[k1].row@.id)))
            &&& forall|k1: int, k2: int|
                0 <= k1 < k2 < o.clusters@.len() ==> (#[trigger] o.clusters@[k1]).row@.id < (
                #[trigger] o.clusters@[k2]).row@.id
            &&& forall|t1: int, t2: int|
                0 <= t1 < t2 < o.frame@.len() ==> (#[trigger] o.frame@[t1])@.id != (
                #[trigger] o.frame@[t2])@.id
            &&& forall|i: int|
                0 <= i < rows@.len() && !o.absorbed@.contains((#[trigger] rows@[i]).id)
                    ==> exists|t: int|
                    0 <= t < o.frame@.len() && (#[trigger] o.frame@[t])@.id == rows@[i]@.id
                        && o.frame@[t]@.ids is None
        },
{
    let cs = crate::dedup::anchor_clusters(rows, sep);
    let pruned = crate::dedup::prune_subsets(&cs);
    let kept = pruned.0;
    let ghost picks = pruned.1@;
    proof {
        crate::dedup::lemma_anchor_list_props(rows@, rows@.len() as int);
        lemma_detect_success(rows@, cs@, kept@, picks, sep);
        lemma_detect_kept_anchors(rows@, cs@, kept@, picks, sep);
    }
    let sorted = crate::dedup::sort_clusters(&kept);
    let clusters = sorted.0;
    let ghost perm = sorted.1@;
    proof {
        // What was proved of the pruned list carries over to its
        // reordering.
        assert forall|k: int, id: i64|
            0 <= k < clusters@.len() && #[trigger] clusters@[k].member_ids@.contains(id)
                implies crate::reconcile::frame_has_id(rows@, id) by {
            assert(clusters@[k].member_ids@ == kept@[perm[k]].member_ids@);
        }
        assert forall|k: int| 0 <= k < clusters@.len() implies crate::dedup::kept_cluster_shape(
            rows@,
            (#[trigger] clusters@[k]).row@,
            clusters@[k].member_ids@,
            sep,
        ) by {
            assert(clusters@[k].row@ == kept@[perm[k]].row@);
            assert(clusters@[k].member_ids@ == kept@[perm[k]].member_ids@);
            assert(crate::dedup::kept_cluster_shape(
                rows@,
                kept@[perm[k]].row@,
                kept@[perm[k]].member_ids@,
                sep,
            ));
        }
        assert forall|a: int| #[trigger] crate::dedup::anchor_kept(rows@, a)
            implies crate::dedup::lists_anchor(rows@, clusters@, a, sep) by {
            assert(crate::dedup::lists_anchor(rows@, kept@, a, sep));
            let j = choose|j: int|
                0 <= j < kept@.len() && crate::dedup::is_anchor_cluster(
                    rows@,
                    a,
                    (#[trigger] kept@[j]).row@,
                    kept@[j].member_ids@,
                    sep,
                );
            assert(perm.contains(j));
            let k = choose|k: int| 0 <= k < perm.len() && perm[k] == j;
            assert(clusters@[k].row@ == kept@[j].row@);
            assert(clusters@[k].member_ids@ == kept@[j].member_ids@);
            assert(crate::dedup::is_anchor_cluster(
                rows@,
                a,
                clusters@[k].row@,
                clusters@[k].member_ids@,
                sep,
            ));
        }
        let kept_disj = forall|k1: int, k2: int|
            0 <= k1 < kept@.len() && 0 <= k2 < kept@.len() && k1 != k2
                ==> !#[trigger] crate::reconcile::clusters_overlap(kept@, k1, k2);
        let cl_disj = forall|k1: int, k2: int|
            0 <= k1 < clusters@.len() && 0 <= k2 < clusters@.len() && k1 != k2
                ==> !#[trigger] crate::reconcile::clusters_overlap(clusters@, k1, k2);
        assert(kept_disj ==> cl_disj) by {
            if kept_disj {
                assert forall|k1: int, k2: int|
                    0 <= k1 < clusters@.len() && 0 <= k2 < clusters@.len() && k1 != k2
                        implies !#[trigger] crate::reconcile::clusters_overlap(
                    clusters@,
                    k1,
                    k2,
                ) by {
                    if crate::reconcile::clusters_overlap(clusters@, k1, k2) {
                        let id = choose|id: i64|
                            #[trigger] clusters@[k1].member_ids@.contains(id) && clusters@[
                        k2].member_ids@.contains(id);
                        assert(kept@[perm[k1]].member_ids@.contains(id));
                        assert(kept@[perm[k2]].member_ids@.contains(id));
                        assert(crate::reconcile::clusters_overlap(kept@, perm[k1], perm[k2]));
                    }
                }
            }
        }
        assert(cl_disj ==> kept_disj) by {
            if cl_disj {
                assert forall|j1: int, j2: int|
                    0 <= j1 < kept@.len() && 0 <= j2 < kept@.len() && j1 != j2
                        implies !#[trigger] crate::reconcile::clusters_overlap(kept@, j1, j2) by {
                    if crate::reconcile::clusters_overlap(kept@, j1, j2) {
                        assert(perm.contains(j1));
                        assert(perm.contains(j2));
                        let k1 = choose|k1: int| 0 <= k1 < perm.len() && perm[k1] == j1;
                        let k2 = choose|k2: int| 0 <= k2 < perm.len() && perm[k2] == j2;
                        assert(k1 != k2);
                        let id = choose|id: i64|
                            #[trigger] kept@[j1].member_ids@.contains(id) && kept@[
                        j2].member_ids@.contains(id);
                        assert(clusters@[k1].member_ids@.contains(id));
                        assert(clusters@[k2].member_ids@.contains(id));
                        assert(crate::reconcile::clusters_overlap(clusters@, k1, k2));
                    }
                }
            }
        }
        assert(cl_disj <==> crate::dedup::detector_ok(rows@));
    }
    let absorbed = crate::dedup::collect_absorbed(&clusters);
    proof {
        // The other two structural conditions always hold, so the
        // reconciler succeeds exactly on the detector's success
        // condition.
        assert forall|id: i64| #[trigger] absorbed@.contains(id)
            <==> crate::reconcile::absorbed_in_some(clusters@, id) by {
            if absorbed@.contains(id) {
                let k = choose|k: int|
                    0 <= k < clusters@.len() && (#[trigger] clusters@[k]).member_ids@.contains(id);
            }
            if crate::reconcile::absorbed_in_some(clusters@, id) {
                let k = choose|k: int|
                    0 <= k < clusters@.len() && (#[trigger] clusters@[k]).member_ids@.contains(id);
            }
        }
        assert(crate::reconcile::reconcile_ok(rows@, clusters@, absorbed@)
            <==> crate::dedup::detector_ok(rows@));
    }
    // The last checkpoint of the run stands between detection and
    // reconciliation.
    if cancel.is_raised() {
        return Err(crate::error::Error::Cancelled);
    }
    match crate::reconcile::reconcile(rows, &clusters, &absorbed) {
        Err(e) => Err(e),
        Ok(frame) => {
            proof {
                let al = crate::dedup::anchor_list(rows@, rows@.len() as int);
                let anchors = Seq::new(perm.len(), |k: int| al[picks[perm[k]]]);
                assert forall|k1: int, k2: int|
                    0 <= k1 < anchors.len() && 0 <= k2 < anchors.len() && k1 != k2 implies (
                #[trigger] anchors[k1]) != (#[trigger] anchors[k2]) by {
                    assert(perm[k1] != perm[k2]);
                    assert(picks[perm[k1]] != picks[perm[k2]]) by {
                        if perm[k1] < perm[k2] {
                            assert(picks[perm[k1]] < picks[perm[k2]]);
                        } else {
                            assert(picks[perm[k2]] < picks[perm[k1]]);
                        }
                    }
                    if picks[perm[k1]] < picks[perm[k2]] {
                        assert(al[picks[perm[k1]]] < al[picks[perm[k2]]]);
                    } else {
                        assert(al[picks[perm[k2]]] < al[picks[perm[k1]]]);
                    }
                }
                assert forall|k: int|
                    0 <= k < clusters@.len() implies crate::dedup::is_anchor_cluster(
                    rows@,
                    anchors[k],
                    (#[trigger] clusters@[k]).row@,
                    clusters@[k].member_ids@,
                    sep,
                ) by {
                    assert(clusters@[k].row@ == kept@[perm[k]].row@);
                    assert(clusters@[k].member_ids@ == kept@[perm[k]].member_ids@);
                    assert(kept@[perm[k]].row@ == cs@[picks[perm[k]]].row@);
                    assert(kept@[perm[k]].member_ids@ == cs@[picks[perm[k]]].member_ids@);
                    assert(crate::dedup::is_anchor_cluster(
                        rows@,
                        al[picks[perm[k]]],
                        cs@[picks[perm[k]]].row@,
                        cs@[picks[perm[k]]].member_ids@,
                        sep,
                    ));
                }
                lemma_frame_ids(
                    rows@,
                    clusters@,
                    absorbed@,
                    frame@.map_values(|rr: Record| rr@),
                    anchors,
                    sep,
                );
                let fv = frame@.map_values(|rr: Record| rr@);
                assert(forall|t: int| 0 <= t < frame@.len() ==> (#[trigger] frame@[t])@ == fv[t]);
            }
            Ok(DedupOutcome { frame, clusters, absorbed })
        },
    }
}

/// Survivors depend on the absorbed ids only as a set.
proof fn lemma_survivors_same_set(rows: Seq<Record>, ab1: Seq<i64>, ab2: Seq<i64>)
    requires
        forall|id: i64| #[trigger] ab1.contains(id) <==> ab2.contains(id),
    ensures
        crate::reconcile::survivor_views(rows, ab1) == crate::reconcile::survivor_views(rows, ab2),
    decreases rows.len(),
{
    if rows.len() > 0 {
        lemma_survivors_same_set(rows.drop_last(), ab1, ab2);
        assert(crate::reconcile::survivor_views(rows, ab1) =~= crate::reconcile::survivor_views(
            rows,
            ab2,
        ));
    } else {
        assert(crate::reconcile::survivor_views(rows, ab1) =~= crate::reconcile::survivor_views(
            rows,
            ab2,
        ));
    }
}

/// For a fixed frame and separator, the engine's successful outcome is
/// fixed: any two cluster lists that meet the detector's contract —
/// sorted by anchor id, one cluster for each kept anchor and nothing
/// else — coincide row for row, their absorbed ids form the same set,
/// and the reconciled frames are equal.
pub proof fn lemma_pipeline_deterministic(
    rows: Seq<Record>,
    sep: char,
    cs1: Seq<crate::dedup::ClusterRow>,
    ab1: Seq<i64>,
    fv1: Seq<RecordV>,
    cs2: Seq<crate::dedup::ClusterRow>,
    ab2: Seq<i64>,
    fv2: Seq<RecordV>,
)
    requires
        crate::frame::unique_ids(rows),
        forall|k1: int, k2: int|
            0 <= k1 < k2 < cs1.len() ==> (#[trigger] cs1[k1]).row@.id < (
            #[trigger] cs1[k2]).row@.id,
        forall|k1: int, k2: int|
            0 <= k1 < k2 < cs2.len() ==> (#[trigger] cs2[k1]).row@.id < (
            #[trigger] cs2[k2]).row@.id,
        forall|k: int|
            0 <= k < cs1.len() ==> crate::dedup::kept_cluster_shape(
                rows,
                (#[trigger] cs1[k]).row@,
                cs1[k].member_ids@,
                sep,
            ),
        forall|k: int|
            0 <= k < cs2.len() ==> crate::dedup::kept_cluster_shape(
                rows,
                (#[trigger] cs2[k]).row@,
                cs2[k].member_ids@,
                sep,
            ),
        forall|a: int|
            #[trigger] crate::dedup::anchor_kept(rows, a) ==> crate::dedup::lists_anchor(
                rows,
                cs1,
                a,
                sep,
            ) && crate::dedup::lists_anchor(rows, cs2, a, sep),
        forall|id: i64|
            #[trigger] ab1.contains(id) <==> crate::reconcile::absorbed_in_some(cs1, id),
        forall|id: i64|
            #[trigger] ab2.contains(id) <==> crate::reconcile::absorbed_in_some(cs2, id),
        fv1 == crate::reconcile::survivor_views(rows, ab1) + cs1.map_values(
            |c: crate::dedup::ClusterRow| c.row@,
        ),
        fv2 == crate::reconcile::survivor_views(rows, ab2) + cs2.map_values(
            |c: crate::dedup::ClusterRow| c.row@,
        ),
    ensures
        cs1.len() == cs2.len(),
        forall|k: int|
            0 <= k < cs1.len() ==> (#[trigger] cs1[k]).row@ == cs2[k].row@ && cs1[k].member_ids@
                == cs2[k].member_ids@,
        forall|id: i64| #[trigger] ab1.contains(id) <==> ab2.contains(id),
        fv1 == fv2,
{
    crate::dedup::lemma_views_bridge(rows);
    // The two anchor-id sequences are strictly sorted and hold the
    // same ids, so they are the same sequence.
    let xs1 = Seq::new(cs1.len(), |k: int| cs1[k].row@.id as i64);
    let xs2 = Seq::new(cs2.len(), |k: int| cs2[k].row@.id as i64);
    assert forall|k: int| 0 <= k < cs1.len() implies exists|a: int|
        #[trigger] crate::dedup::anchor_kept(rows, a) && crate::dedup::is_anchor_cluster(
            rows,
            a,
            (#[trigger] cs1[k]).row@,
            cs1[k].member_ids@,
            sep,
        ) && cs1[k].row@.id == rows[a]@.id by {
        let a = choose|a: int|
            #[trigger] crate::dedup::anchor_kept(rows, a) && crate::dedup::is_anchor_cluster(
                rows,
                a,
                cs1[k].row@,
                cs1[k].member_ids@,
                sep,
            );
    }
    assert forall|k: int| 0 <= k < cs2.len() implies exists|a: int|
        #[trigger] crate::dedup::anchor_kept(rows, a) && crate::dedup::is_anchor_cluster(
            rows,
            a,
            (#[trigger] cs2[k]).row@,
            cs2[k].member_ids@,
            sep,
        ) && cs2[k].row@.id == rows[a]@.id by {
        let a = choose|a: int|
            #[trigger] crate::dedup::anchor_kept(rows, a) && crate::dedup::is_anchor_cluster(
                rows,
                a,
                cs2[k].row@,
                cs2[k].member_ids@,
                sep,
            );
    }
    assert(crate::dedup::sorted_ids(xs1)) by {
        assert forall|k1: int, k2: int| 0 <= k1 < k2 < xs1.len() implies xs1[k1] < xs1[k2] by {
            let a1 = choose|a: int|
                #[trigger] crate::dedup::anchor_kept(rows, a) && crate::dedup::is_anchor_cluster(
                    rows,
                    a,
                    cs1[k1].row@,
                    cs1[k1].member_ids@,
                    sep,
                ) && cs1[k1].row@.id == rows[a]@.id;
            let a2 = choose|a: int|
                #[trigger] crate::dedup::anchor_kept(rows, a) && crate::dedup::is_anchor_cluster(
                    rows,
                    a,
                    cs1[k2].row@,
                    cs1[k2].member_ids@,
                    sep,
                ) && cs1[k2].row@.id == rows[a]@.id;
            assert(xs1[k1] == rows[a1].id && xs1[k2] == rows[a2].id);
        }
    }
    assert(crate::dedup::sorted_ids(xs2)) by {
        assert forall|k1: int, k2: int| 0 <= k1 < k2 < xs2.len() implies xs2[k1] < xs2[k2] by {
            let a1 = choose|a: int|
                #[trigger] crate::dedup::anchor_kept(rows, a) && crate::dedup::is_anchor_cluster(
                    rows,
                    a,
                    cs2[k1].row@,
                    cs2[k1].member_ids@,
                    sep,
                ) && cs2[k1].row@.id == rows[a]@.id;
            let a2 = choose|a: int|
                #[trigger] crate::dedup::anchor_kept(rows, a) && crate::dedup::is_anchor_cluster(
                    rows,
                    a,
                    cs2[k2].row@,
                    cs2[k2].member_ids@,
                    sep,
                ) && cs2[k2].row@.id == rows[a]@.id;
            assert(xs2[k1] == rows[a1].id && xs2[k2] == rows[a2].id);
        }
    }
    assert forall|v: i64| xs1.contains(v) implies xs2.contains(v) by {
        let k = choose|k: int| 0 <= k < xs1.len() && xs1[k] == v;
        let a = choose|a: int|
            #[trigger] crate::dedup::anchor_kept(rows, a) && crate::dedup::is_anchor_cluster(
                rows,
                a,
                cs1[k].row@,
                cs1[k].member_ids@,
                sep,
            ) && cs1[k].row@.id == rows[a]@.id;
        assert(crate::dedup::lists_anchor(rows, cs2, a, sep));
        let k2 = choose|k2: int|
            0 <= k2 < cs2.len() && crate::dedup::is_anchor_cluster(
                rows,
                a,
                (#[trigger] cs2[k2]).row@,
                cs2[k2].member_ids@,
                sep,
            );
        assert(xs2[k2] == v);
    }
    assert forall|v: i64| xs2.contains(v) implies xs1.contains(v) by {
        let k = choose|k: int| 0 <= k < xs2.len() && xs2[k] == v;
        let a = choose|a: int|
            #[trigger] crate::dedup::anchor_kept(rows, a) && crate::dedup::is_anchor_cluster(
                rows,
                a,
                cs2[k].row@,
                cs2[k].member_ids@,
                sep,
            ) && cs2[k].row@.id == rows[a]@.id;
        assert(crate::dedup::lists_anchor(rows, cs1, a, sep));
        let k1 = choose|k1: int|
            0 <= k1 < cs1.len() && crate::dedup::is_anchor_cluster(
                rows,
                a,
                (#[trigger] cs1[k1]).row@,
                cs1[k1].member_ids@,
                sep,
            );
        assert(xs1[k1] == v);
    }
    crate::dedup::lemma_sorted_ids_unique(xs1, xs2);
    assert(cs1.len() == cs2.len());
    // Position by position the anchors coincide, so the clusters do.
    assert forall|k: int| 0 <= k < cs1.len() implies (#[trigger] cs1[k]).row@ == cs2[k].row@
        && cs1[k].member_ids@ == cs2[k].member_ids@ by {
        let a1 = choose|a: int|
            #[trigger] crate::dedup::anchor_kept(rows, a) && crate::dedup::is_anchor_cluster(
                rows,
                a,
                cs1[k].row@,
                cs1[k].member_ids@,
                sep,
            ) && cs1[k].row@.id == rows[a]@.id;
        let a2 = choose|a: int|
            #[trigger] crate::dedup::anchor_kept(rows, a) && crate::dedup::is_anchor_cluster(
                rows,
                a,
                cs2[k].row@,
                cs2[k].member_ids@,
                sep,
            ) && cs2[k].row@.id == rows[a]@.id;
        assert(xs1[k] == xs2[k]);
        assert(rows[a1]@.id == rows[a2]@.id);
        assert(a1 == a2);
        crate::dedup::lemma_cluster_determined(
            rows,
            a1,
            cs1[k].row@,
            cs1[k].member_ids@,
            cs2[k].row@,
            cs2[k].member_ids@,
            sep,
        );
    }
    // The absorbed sets agree, so the whole frames agree.
    assert forall|id: i64| #[trigger] ab1.contains(id) <==> ab2.contains(id) by {
        if crate::reconcile::absorbed_in_some(cs1, id) {
            let k = choose|k: int|
                0 <= k < cs1.len() && (#[trigger] cs1[k]).member_ids@.contains(id);
            assert(cs2[k].member_ids@.contains(id));
        }
        if crate::reconcile::absorbed_in_some(cs2, id) {
            let k = choose|k: int|
                0 <= k < cs2.len() && (#[trigger] cs2[k]).member_ids@.contains(id);
            assert(cs1[k].member_ids@.contains(id));
        }
    }
    lemma_survivors_same_set(rows, ab1, ab2);
    assert(cs1.map_values(|c: crate::dedup::ClusterRow| c.row@) =~= cs2.map_values(
        |c: crate::dedup::ClusterRow| c.row@,
    ));
    assert(fv1 =~= fv2);
}

/// A cooperative cancellation flag, checked between the pipeline's
/// stages.
pub struct CancelFlag {
    raised: bool,
}

impl CancelFlag {
    /// Whether cancellation was requested, as specifications see it.
    pub closed spec fn spec_raised(&self) -> bool {
        self.raised
    }

    /// A fresh, unraised flag.
    pub fn new() -> (c: CancelFlag)
        ensures
            !c.spec_raised(),
    {
        CancelFlag { raised: false }
    }

    /// Requests cancellation.
    pub fn raise(&mut self)
        ensures
            final(self).spec_raised(),
    {
        self.raised = true;
    }

    /// Whether cancellation was requested.
    pub fn is_raised(&self) -> (b: bool)
        ensures
            b == self.spec_raised(),
    {
        self.raised
    }
}

/// What one full batch run yields: the normalized frame and the
/// deduplication outcome computed over it.
pub struct PipelineRun {
    pub normalized: Vec<Record>,
    pub outcome: DedupOutcome,
}

/// Runs one batch: normalizes the frame for the configured dataset,
/// then detects duplicates and reconciles, observing the cancellation
/// flag at the checkpoints between stages.  A raised flag yields the
/// cancelled outcome and no frame.
pub fn run_pipeline(
    rows: &Vec<Record>,
    opts: &crate::config::PipelineOptions,
    cancel: &CancelFlag,
) -> (r: Result<PipelineRun, crate::error::Error>)
    requires
        crate::frame::unique_ids(rows@),
    ensures
        cancel.spec_raised() ==> (r matches Err(e) && e is Cancelled),
        r matches Err(e) && e is Cancelled ==> cancel.spec_raised(),
        r matches Err(e) ==> (e is Cancelled || e is FrameSchemaError),
        !cancel.spec_raised() ==> (r is Ok <==> crate::dedup::detector_ok_v(
            Seq::new(
                rows@.len(),
                |i: int| normalize_record_spec(rows@[i]@, opts.dataset, opts.on_paid_phone),
            ),
        )),
        r matches Ok(p) ==> {
            &&& p.normalized@.len() == rows@.len()
            &&& forall|i: int|
                0 <= i < rows@.len() ==> (#[trigger] p.normalized@[i])@ == normalize_record_spec(
                    rows@[i]@,
                    opts.dataset,
                    opts.on_paid_phone,
                )
            &&& crate::reconcile::reconcile_ok(
                p.normalized@,
                p.outcome.clusters@,
                p.outcome.absorbed@,
            )
            &&& p.outcome.frame@.map_values(|rr: Record| rr@)
                == crate::reconcile::survivor_views(p.normalized@, p.outcome.absorbed@)
                + p.outcome.clusters@.map_values(|c: crate::dedup::ClusterRow| c.row@)
            &&& forall|t1: int, t2: int|
                0 <= t1 < t2 < p.outcome.frame@.len() ==> (#[trigger] p.outcome.frame@[t1])@.id
                    != (#[trigger] p.outcome.frame@[t2])@.id
            &&& forall|i: int|
                0 <= i < p.normalized@.len() && !p.outcome.absorbed@.contains(
                    (#[trigger] p.normalized@[i]).id,
                ) ==> exists|t: int|
                    0 <= t < p.outcome.frame@.len() && (#[trigger] p.outcome.frame@[t])@.id
                        == p.normalized@[i]@.id && p.outcome.frame@[t]@.ids is None
        },
{
    if cancel.is_raised() {
        return Err(crate::error::Error::Cancelled);
    }
    let normalized = normalize_frame(rows, opts.dataset, opts.on_paid_phone);
    proof {
        assert forall|i: int, j: int|
            0 <= i < normalized@.len() && 0 <= j < normalized@.len() && i != j implies (
        #[trigger] normalized@[i])@.id != (#[trigger] normalized@[j])@.id by {
            assert(normalized@[i]@.id == rows@[i]@.id);
            assert(normalized@[j]@.id == rows@[j]@.id);
        }
    }
    proof {
        let nv = Seq::new(
            rows@.len(),
            |i: int| normalize_record_spec(rows@[i]@, opts.dataset, opts.on_paid_phone),
        );
        assert(normalized@.map_values(|r: Record| r@) =~= nv);
        assert(crate::dedup::detector_ok(normalized@) == crate::dedup::detector_ok_v(nv));
    }
    match deduplicate_frame(&normalized, opts.cluster_join_separator, cancel) {
        Err(e) => Err(e),
        Ok(outcome) => Ok(PipelineRun { normalized, outcome }),
    }
}

} // verus!
