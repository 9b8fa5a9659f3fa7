use artemis_rs::config::{apply_transform, PaidPhonePolicy, PipelineOptions, Transform};
use artemis_rs::dedup::{prune_subsets, ClusterRow};
use artemis_rs::error::Error;
use artemis_rs::frame::Record;
use artemis_rs::partition::partition_candidates;
use artemis_rs::pipeline::{deduplicate_frame, normalize_frame, run_pipeline, CancelFlag};
use artemis_rs::reconcile::reconcile;
use artemis_rs::transforms::telephone::transform_telephone_with;
use artemis_rs::schemas::{resolve_field, Field, SchemasEnum};

fn row(id: i64, nom: Option<&str>, prenom: Option<&str>, email: Option<&str>, tel: Option<&str>, siret: Option<&str>) -> Record {
    let mut r = Record::blank(id);
    r.nom = nom.map(|s| s.to_string());
    r.prenom = prenom.map(|s| s.to_string());
    r.email = email.map(|s| s.to_string());
    r.telephone = tel.map(|s| s.to_string());
    r.siret = siret.map(|s| s.to_string());
    r
}

#[test]
fn full_cycle_merges_the_matching_pair_only() {
    // Five normalized rows: only rows 1 and 3 match (same name, a null
    // first name on one side, the same email).
    let rows = vec![
        row(1, Some("MARTIN"), Some("ANNE"), Some("A@X.COM"), None, None),
        row(2, Some("MARTIN"), Some("ANNE"), None, Some("+33 6 58 96 32 47"), None),
        row(3, Some("MARTIN"), None, Some("A@X.COM"), None, None),
        row(4, Some("MARTIN"), Some("JEAN"), None, None, Some("12345678900012")),
        row(5, Some("DUBOIS"), Some("YVES"), None, None, None),
    ];
    let out = deduplicate_frame(&rows, '/', &CancelFlag::new()).unwrap();
    assert_eq!(out.absorbed, vec![1, 3]);
    assert_eq!(out.clusters.len(), 1);
    assert_eq!(out.clusters[0].member_ids, vec![1, 3]);
    assert_eq!(out.clusters[0].row.ids, Some("1/3".to_string()));
    assert_eq!(out.clusters[0].row.nom, Some("MARTIN".to_string()));
    assert_eq!(out.clusters[0].row.email, Some("A@X.COM".to_string()));
    // Survivors 2, 4 and 5 come first, in input order, then the
    // cluster row.
    let ids: Vec<i64> = out.frame.iter().map(|r| r.id).collect();
    assert_eq!(ids, vec![2, 4, 5, 1]);
    assert!(out.frame[0].ids.is_none());
    assert!(out.frame[1].ids.is_none());
    assert!(out.frame[2].ids.is_none());
    assert_eq!(out.frame[3].ids, Some("1/3".to_string()));
}

#[test]
fn a_row_with_a_siret_is_never_absorbed() {
    let rows = vec![
        row(1, Some("MARTIN"), Some("ANNE"), Some("A@X.COM"), None, Some("12345678900012")),
        row(2, Some("MARTIN"), Some("ANNE"), Some("A@X.COM"), None, Some("98765432100011")),
    ];
    let out = deduplicate_frame(&rows, '/', &CancelFlag::new()).unwrap();
    assert!(out.clusters.is_empty());
    assert!(out.absorbed.is_empty());
    assert_eq!(out.frame.len(), 2);
}

fn cluster(anchor: i64, ids: Vec<i64>) -> ClusterRow {
    let mut r = Record::blank(anchor);
    r.nom = Some("MARTIN".to_string());
    ClusterRow {
        row: r,
        member_ids: ids,
    }
}

#[test]
fn subset_pruning_drops_the_contained_cluster() {
    let cs = vec![cluster(1, vec![1, 2, 3]), cluster(1, vec![1, 2])];
    let kept = prune_subsets(&cs).0;
    assert_eq!(kept.len(), 1);
    assert_eq!(kept[0].member_ids, vec![1, 2, 3]);
}

#[test]
fn equal_id_sets_keep_the_smaller_anchor() {
    let cs = vec![cluster(7, vec![5, 7]), cluster(5, vec![5, 7])];
    let kept = prune_subsets(&cs).0;
    assert_eq!(kept.len(), 1);
    assert_eq!(kept[0].row.id, 5);
}

#[test]
fn overlapping_clusters_are_a_frame_schema_error() {
    let rows = vec![
        row(1, Some("MARTIN"), None, None, None, None),
        row(2, Some("MARTIN"), None, None, None, None),
        row(3, Some("MARTIN"), None, None, None, None),
    ];
    let clusters = vec![cluster(1, vec![1, 2]), cluster(2, vec![2, 3])];
    let absorbed = vec![1, 2, 3];
    let r = reconcile(&rows, &clusters, &absorbed);
    assert!(matches!(r, Err(Error::FrameSchemaError)));
}

#[test]
fn partitioner_shards_by_name_and_drops_singletons() {
    let rows = vec![
        row(1, Some("MARTIN"), None, None, None, None),
        row(2, Some("DUBOIS"), None, None, None, None),
        row(3, Some("MARTIN"), None, None, None, None),
        row(4, None, None, None, None, None),
    ];
    let shards = partition_candidates(&rows);
    assert_eq!(shards.len(), 1);
    assert_eq!(shards[0].nom, "MARTIN".to_string());
    let ids: Vec<i64> = shards[0].rows.iter().map(|r| r.id).collect();
    assert_eq!(ids, vec![1, 3]);
}

#[test]
fn chained_matches_are_refused_as_overlapping_clusters() {
    // Row 2 shares an email with row 1 and a telephone with row 3, but
    // rows 1 and 3 do not match: the two maximal clusters overlap on
    // row 2 and the run is refused.
    let rows = vec![
        row(1, Some("MARTIN"), None, Some("A@X.COM"), None, None),
        row(2, Some("MARTIN"), None, Some("A@X.COM"), Some("+33 6 58 96 32 47"), None),
        row(3, Some("MARTIN"), None, None, Some("+33 6 58 96 32 47"), None),
    ];
    let r = deduplicate_frame(&rows, '/', &CancelFlag::new());
    assert!(matches!(r, Err(Error::FrameSchemaError)));
}

#[test]
fn a_raised_flag_cancels_the_run() {
    let rows = vec![row(1, Some("Martin"), None, None, None, None)];
    let opts = PipelineOptions::defaults(SchemasEnum::Hdd);
    let mut cancel = CancelFlag::new();
    cancel.raise();
    let r = run_pipeline(&rows, &opts, &cancel);
    assert!(matches!(r, Err(Error::Cancelled)));
}

#[test]
fn the_pipeline_normalizes_then_reconciles() {
    let rows = vec![
        row(10, Some("martin"), Some("anne"), Some("A@XY.COM"), None, None),
        row(11, Some("Martin"), None, Some("a@xy.com"), None, None),
    ];
    let opts = PipelineOptions::defaults(SchemasEnum::Hdd);
    let cancel = CancelFlag::new();
    let run = run_pipeline(&rows, &opts, &cancel).unwrap();
    assert_eq!(run.normalized[0].nom, Some("MARTIN".to_string()));
    assert_eq!(run.normalized[1].email, Some("A@XY.COM".to_string()));
    assert_eq!(run.outcome.clusters.len(), 1);
    assert_eq!(run.outcome.clusters[0].row.ids, Some("10/11".to_string()));
    assert_eq!(run.outcome.frame.len(), 1);
}

#[test]
fn normalization_keeps_row_order_and_ids() {
    let rows = vec![
        row(3, Some("  zoé  "), None, None, None, None),
        row(1, Some("ALI"), None, None, None, None),
        row(2, None, None, None, None, None),
    ];
    let out = normalize_frame(&rows, SchemasEnum::Jdd, PaidPhonePolicy::Reject);
    let ids: Vec<i64> = out.iter().map(|r| r.id).collect();
    assert_eq!(ids, vec![3, 1, 2]);
    assert_eq!(out[0].nom, Some("ZOE".to_string()));
}

#[test]
fn a_missing_logical_field_is_a_schema_mismatch() {
    assert!(matches!(resolve_field(SchemasEnum::Jdd, Field::Pce), Err(Error::SchemaMismatch)));
    assert!(matches!(
        resolve_field(SchemasEnum::Hdd, Field::Civilite),
        Err(Error::SchemaMismatch)
    ));
    assert_eq!(resolve_field(SchemasEnum::Hdd, Field::Pce).unwrap(), "PCE");
    assert_eq!(resolve_field(SchemasEnum::Jdd, Field::Email).unwrap(), "email");
}

#[test]
fn contexts_refuse_the_root_user() {
    let root = artemis_rs::ctx::Ctx::root_ctx();
    assert_eq!(root.user_id(), 0);
    assert!(root.conv_id().is_none());
    assert!(artemis_rs::ctx::Ctx::new(0).is_err());
    let c = artemis_rs::ctx::Ctx::new(42).unwrap();
    assert_eq!(c.user_id(), 42);
    let c2 = c.add_conv_id(7);
    assert_eq!(c2.conv_id(), Some(7));
    assert_eq!(c2.user_id(), 42);
}

#[test]
fn candidate_pairs_orient_each_match_once() {
    // Rows 20 and 21 match through their PCE; the pair is emitted
    // once, from the smaller id to the larger, whatever the row
    // order.
    let mut a = Record::blank(21);
    a.nom = Some("MARTIN".to_string());
    a.pce = Some("12345".to_string());
    let mut b = Record::blank(20);
    b.nom = Some("MARTIN".to_string());
    b.pce = Some("12345".to_string());
    let rows = vec![a, b];
    let pairs = artemis_rs::dedup::candidate_pairs(&rows);
    assert_eq!(pairs, vec![(1, 0)]);
}

#[test]
fn keep_raw_policy_keeps_paid_service_numbers() {
    let paid = Some("081 6 75 57 98");
    assert_eq!(
        transform_telephone_with(PaidPhonePolicy::Reject, paid),
        None
    );
    assert_eq!(
        transform_telephone_with(PaidPhonePolicy::KeepRaw, paid),
        Some("081 6 75 57 98".to_string())
    );
    assert_eq!(
        transform_telephone_with(PaidPhonePolicy::KeepRaw, Some("085 6 75 57 98")),
        Some("+33 8 56 75 57 98".to_string())
    );
}

#[test]
fn a_configured_separator_joins_cluster_values() {
    let rows = vec![
        row(1, Some("MARTIN"), None, Some("A@X.COM"), None, None),
        row(2, Some("MARTIN"), None, Some("A@X.COM"), None, None),
    ];
    let out = deduplicate_frame(&rows, '|', &CancelFlag::new()).unwrap();
    assert_eq!(out.clusters[0].row.ids, Some("1|2".to_string()));
}

#[test]
fn the_transform_selector_reaches_every_column_rule() {
    assert_eq!(
        apply_transform(Transform::Nom, Some("El Niño")),
        Some("EL NINO".to_string())
    );
    assert_eq!(
        apply_transform(Transform::Siret, Some("443 169 524 00120")),
        Some("44316952400120".to_string())
    );
    assert_eq!(apply_transform(Transform::Pce, Some("GI153780")), Some("153780".to_string()));
    assert_eq!(apply_transform(Transform::Civilite, Some("MISS")), None);
}

#[test]
fn cluster_rows_come_out_sorted_by_anchor_id() {
    let mut a1 = Record::blank(20);
    a1.nom = Some("ALPHA".to_string());
    a1.pce = Some("7".to_string());
    let mut a2 = Record::blank(21);
    a2.nom = Some("ALPHA".to_string());
    a2.pce = Some("7".to_string());
    let mut b1 = Record::blank(10);
    b1.nom = Some("BETA".to_string());
    b1.pce = Some("8".to_string());
    let mut b2 = Record::blank(11);
    b2.nom = Some("BETA".to_string());
    b2.pce = Some("8".to_string());
    // The ALPHA anchor comes first in row order but second by id.
    let rows = vec![a1, a2, b1, b2];
    let out = deduplicate_frame(&rows, '/', &CancelFlag::new()).unwrap();
    let anchors: Vec<i64> = out.clusters.iter().map(|c| c.row.id).collect();
    assert_eq!(anchors, vec![10, 20]);
    assert_eq!(out.clusters[0].row.ids, Some("10/11".to_string()));
    assert_eq!(out.clusters[1].row.ids, Some("20/21".to_string()));
}
