//! The schema registry: the logical fields of the two datasets and
//! the physical column label each dataset gives them.  A logical field
//! that the active dataset does not carry is a configuration error.

use vstd::prelude::*;
use crate::error::Error;

pub mod hdd;
pub mod jdd;

verus! {

/// The two dataset variants the pipeline can be bound to.
#[derive(Clone, Copy)]
pub enum SchemasEnum {
    /// The current-customer set.
    Jdd,
    /// The historical-customer set.
    Hdd,
}

/// A column enumeration that knows its physical labels.
pub trait AsString {
    /// The physical column label, as specifications see it.
    spec fn spec_label(&self) -> Seq<char>;

    /// The physical column label.
    fn as_str(&self) -> (s: &'static str)
        ensures
            s@ == self.spec_label(),
    ;
}

/// The logical fields of a record.
#[derive(Clone, Copy)]
pub enum Field {
    Id,
    IdSource,
    Nom,
    Prenom,
    Civilite,
    RaisonSociale,
    Email,
    Telephone,
    Siret,
    SiretSuccesseur,
    Siren,
    Ape,
    CodeNaf,
    LibeleNaf,
    Pce,
    Ids,
}

/// The physical column label the dataset gives a logical field it
/// carries (and the empty label where it carries none).
pub open spec fn field_label(ds: SchemasEnum, f: Field) -> Seq<char> {
    match ds {
        SchemasEnum::Jdd => match f {
            Field::Id => "ID"@,
            Field::RaisonSociale => "RAISON_SOCIALE"@,
            Field::Siret => "SIRET"@,
            Field::Siren => "SIREN"@,
            Field::Ape => "APE"@,
            Field::CodeNaf => "CODE_NAF"@,
            Field::LibeleNaf => "LIBELE_NAF"@,
            Field::Civilite => "CIVILITE"@,
            Field::Nom => "NOM"@,
            Field::Prenom => "PRENOM"@,
            Field::Telephone => "TELEPHONE"@,
            Field::Email => "email"@,
            _ => Seq::empty(),
        },
        SchemasEnum::Hdd => match f {
            Field::Id => "ID"@,
            Field::Pce => "PCE"@,
            Field::IdSource => "Id_source"@,
            Field::RaisonSociale => "Raison_sociale"@,
            Field::Siret => "SIRET"@,
            Field::SiretSuccesseur => "SIRET successeur"@,
            Field::Nom => "Nom"@,
            Field::Prenom => "Prenom"@,
            Field::Telephone => "Telephone"@,
            Field::Email => "Email"@,
            Field::Ids => "IDS"@,
            _ => Seq::empty(),
        },
    }
}

/// Whether the dataset carries the logical field.
pub open spec fn dataset_has_field(ds: SchemasEnum, f: Field) -> bool {
    match ds {
        SchemasEnum::Jdd => !(f is IdSource || f is SiretSuccesseur || f is Pce || f is Ids),
        SchemasEnum::Hdd => !(f is Civilite || f is Siren || f is Ape || f is CodeNaf
            || f is LibeleNaf),
    }
}

/// Resolves a logical field to the physical column label of the
/// active dataset; a field the dataset does not carry is a schema
/// mismatch.
pub fn resolve_field(ds: SchemasEnum, f: Field) -> (r: Result<&'static str, Error>)
    ensures
        r is Ok <==> dataset_has_field(ds, f),
        r matches Ok(l) ==> l@ == field_label(ds, f),
        !dataset_has_field(ds, f) ==> (r matches Err(e) && e is SchemaMismatch),
{
    match ds {
        SchemasEnum::Jdd => match f {
            Field::Id => Ok("ID"),
            Field::RaisonSociale => Ok("RAISON_SOCIALE"),
            Field::Siret => Ok("SIRET"),
            Field::Siren => Ok("SIREN"),
            Field::Ape => Ok("APE"),
            Field::CodeNaf => Ok("CODE_NAF"),
            Field::LibeleNaf => Ok("LIBELE_NAF"),
            Field::Civilite => Ok("CIVILITE"),
            Field::Nom => Ok("NOM"),
            Field::Prenom => Ok("PRENOM"),
            Field::Telephone => Ok("TELEPHONE"),
            Field::Email => Ok("email"),
            _ => Err(Error::SchemaMismatch),
        },
        SchemasEnum::Hdd => match f {
            Field::Id => Ok("ID"),
            Field::Pce => Ok("PCE"),
            Field::IdSource => Ok("Id_source"),
            Field::RaisonSociale => Ok("Raison_sociale"),
            Field::Siret => Ok("SIRET"),
            Field::SiretSuccesseur => Ok("SIRET successeur"),
            Field::Nom => Ok("Nom"),
            Field::Prenom => Ok("Prenom"),
            Field::Telephone => Ok("Telephone"),
            Field::Email => Ok("Email"),
            Field::Ids => Ok("IDS"),
            _ => Err(Error::SchemaMismatch),
        },
    }
}

} // verus!
