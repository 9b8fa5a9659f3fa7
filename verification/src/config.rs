//! Configuration: the engine's recognized options, the per-column
//! transform selector, and the plain settings the surrounding driver
//! reads from its configuration file.

use vstd::prelude::*;
use crate::schemas::{Field, SchemasEnum};

verus! {

/// The column transforms a pipeline request can name.
#[derive(Clone, Copy)]
pub enum Transform {
    Nom,
    Prenom,
    Civilite,
    Email,
    RaisonSociale,
    Telephone,
    Siret,
    SiretSuccesseur,
    Siren,
    Ape,
    CodeNaf,
    LibeleNaf,
    Pce,
}

/// What to do with a paid-service telephone number.
#[derive(Clone, Copy)]
pub enum PaidPhonePolicy {
    /// Reject the cell to null (the default).
    Reject,
    /// Keep the raw cell untouched.
    KeepRaw,
}

/// The recognized options of one engine run.
pub struct PipelineOptions {
    /// The schema variant the registry answers for.
    pub dataset: SchemasEnum,
    /// The logical field the driver shards candidate rows by when it
    /// parallelizes detection.
    pub partition_field: Field,
    /// The partition worker-pool size the driver should use.
    pub worker_count: usize,
    /// The action on paid-service telephone numbers.
    pub on_paid_phone: PaidPhonePolicy,
    /// The separator joining multi-values on a cluster row.
    pub cluster_join_separator: char,
    /// Whether a missing logical field aborts the pipeline instead of
    /// skipping the transform.
    pub strict_schema: bool,
}

impl PipelineOptions {
    /// The default options for a dataset: shard by last name, one
    /// worker, reject paid-service numbers, join with a slash, skip a
    /// missing field.
    pub fn defaults(dataset: SchemasEnum) -> (o: PipelineOptions)
        ensures
            o.dataset == dataset,
            o.partition_field is Nom,
            o.worker_count == 1,
            o.on_paid_phone is Reject,
            o.cluster_join_separator == '/',
            o.strict_schema == false,
    {
        PipelineOptions {
            dataset,
            partition_field: Field::Nom,
            worker_count: 1,
            on_paid_phone: PaidPhonePolicy::Reject,
            cluster_join_separator: '/',
            strict_schema: false,
        }
    }
}

/// Applies the named column transform to one cell.
pub fn apply_transform(t: Transform, cell: Option<&str>) -> (r: Option<String>)
    ensures
        t is Nom ==> r.deep_view() == crate::transforms::nom::nom_spec(cell.deep_view()),
        t is Prenom ==> r.deep_view() == crate::transforms::prenom::prenom_spec(cell.deep_view()),
        t is Civilite ==> r.deep_view() == crate::transforms::civilite::civilite_spec(
            cell.deep_view(),
        ),
        t is Email ==> r.deep_view() == crate::transforms::email::email_spec(cell.deep_view()),
        t is RaisonSociale ==> r.deep_view()
            == crate::transforms::raison_sociale::raison_sociale_spec(cell.deep_view()),
        t is Telephone ==> r.deep_view() == crate::transforms::telephone::phone_spec(
            cell.deep_view(),
        ),
        (t is Siret || t is SiretSuccesseur) ==> r.deep_view()
            == crate::transforms::siret::siret_spec(cell.deep_view()),
        t is Siren ==> r.deep_view() == crate::transforms::siren::siren_spec(cell.deep_view()),
        (t is Ape || t is CodeNaf || t is LibeleNaf) ==> r.deep_view()
            == crate::transforms::ape::ape_spec(cell.deep_view()),
        t is Pce ==> r.deep_view() == crate::transforms::pce::pce_spec(cell.deep_view()),
{
    match t {
        Transform::Nom => crate::transforms::nom::transform_nom(cell),
        Transform::Prenom => crate::transforms::prenom::transform_prenom(cell),
        Transform::Civilite => crate::transforms::civilite::transform_civilite(cell),
        Transform::Email => crate::transforms::email::transform_email(cell),
        Transform::RaisonSociale => crate::transforms::raison_sociale::transform_raison_sociale(
            cell,
        ),
        Transform::Telephone => crate::transforms::telephone::transform_telephone(cell),
        Transform::Siret => crate::transforms::siret::transform_siret(cell),
        Transform::SiretSuccesseur => crate::transforms::siret::transform_siret(cell),
        Transform::Siren => crate::transforms::siren::transform_siren(cell),
        Transform::Ape => crate::transforms::ape::transform_ape(cell),
        Transform::CodeNaf => crate::transforms::ape::transform_code_naf(cell),
        Transform::LibeleNaf => crate::transforms::ape::transform_libelle_naf(cell),
        Transform::Pce => crate::transforms::pce::transform_pce(cell),
    }
}

/// One message read from or written to the bus.
pub struct KafkaMessage {
    pub key: String,
    pub value: String,
    pub topic: String,
    pub partition: i32,
    pub offset: i64,
}

/// Where the bus lives and which topic the driver uses.
pub struct KafkaConfig {
    pub bootstrap_servers: String,
    pub topic: String,
}

/// Where one flat file lives and which table it feeds.
pub struct CsvConfig {
    pub file_path: String,
    pub table_name: String,
}

/// One document-store target.
pub struct MongoConfig {
    pub database: String,
    pub collection: String,
}

/// The document-store targets of the two datasets.
pub struct MongoListConfig {
    pub jdd: MongoConfig,
    pub hdd: MongoConfig,
}

/// The flat-file sources of the two datasets.
pub struct CsvListConfig {
    pub jdd: CsvConfig,
    pub hdd: CsvConfig,
}

/// Everything the surrounding driver reads from its configuration
/// file.  Loading and parsing the file is the driver's business; the
/// engine only holds the values.
pub struct Config {
    pub kafka: KafkaConfig,
    pub csv: CsvConfig,
    pub mongo: MongoConfig,
}

} // verus!
