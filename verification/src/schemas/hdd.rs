//! The historical-customer dataset: its columns and their physical
//! labels.

use vstd::prelude::*;
use crate::schemas::AsString;

verus! {

/// The columns of the historical-customer set.
#[derive(Clone, Copy)]
pub enum Hdd {
    Table,
    Id,
    Pce,
    IdSource,
    RaisonSociale,
    Siret,
    SiretSuccesseur,
    Nom,
    Prenom,
    Telephone,
    Email,
    Ids,
}

impl AsString for Hdd {
    open spec fn spec_label(&self) -> Seq<char> {
        match self {
            Hdd::Table => "HDD"@,
            Hdd::Id => "ID"@,
            Hdd::Pce => "PCE"@,
            Hdd::IdSource => "Id_source"@,
            Hdd::RaisonSociale => "Raison_sociale"@,
            Hdd::Siret => "SIRET"@,
            Hdd::SiretSuccesseur => "SIRET successeur"@,
            Hdd::Nom => "Nom"@,
            Hdd::Prenom => "Prenom"@,
            Hdd::Telephone => "Telephone"@,
            Hdd::Email => "Email"@,
            Hdd::Ids => "IDS"@,
        }
    }

    fn as_str(&self) -> &'static str {
        match self {
            Hdd::Table => "HDD",
            Hdd::Id => "ID",
            Hdd::Pce => "PCE",
            Hdd::IdSource => "Id_source",
            Hdd::RaisonSociale => "Raison_sociale",
            Hdd::Siret => "SIRET",
            Hdd::SiretSuccesseur => "SIRET successeur",
            Hdd::Nom => "Nom",
            Hdd::Prenom => "Prenom",
            Hdd::Telephone => "Telephone",
            Hdd::Email => "Email",
            Hdd::Ids => "IDS",
        }
    }
}

} // verus!
