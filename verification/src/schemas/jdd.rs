//! The current-customer dataset: its columns and their physical
//! labels.

use vstd::prelude::*;
use crate::schemas::AsString;

verus! {

/// The columns of the current-customer set.
#[derive(Clone, Copy)]
pub enum Jdd {
    Table,
    Id,
    RaisonSociale,
    Siret,
    Siren,
    Ape,
    CodeNaf,
    LibeleNaf,
    Civilite,
    Nom,
    Prenom,
    Telephone,
    Email,
    Address,
    CodePostale,
    Region,
    Pays,
}

impl AsString for Jdd {
    open spec fn spec_label(&self) -> Seq<char> {
        match self {
            Jdd::Table => "JDD"@,
            Jdd::Id => "ID"@,
            Jdd::RaisonSociale => "RAISON_SOCIALE"@,
            Jdd::Siret => "SIRET"@,
            Jdd::Siren => "SIREN"@,
            Jdd::Ape => "APE"@,
            Jdd::CodeNaf => "CODE_NAF"@,
            Jdd::LibeleNaf => "LIBELE_NAF"@,
            Jdd::Civilite => "CIVILITE"@,
            Jdd::Nom => "NOM"@,
            Jdd::Prenom => "PRENOM"@,
            Jdd::Telephone => "TELEPHONE"@,
            Jdd::Email => "email"@,
            Jdd::Address => "address"@,
            Jdd::CodePostale => "CODE POSTALE"@,
            Jdd::Region => "REGION"@,
            Jdd::Pays => "PAYS"@,
        }
    }

    fn as_str(&self) -> &'static str {
        match self {
            Jdd::Table => "JDD",
            Jdd::Id => "ID",
            Jdd::RaisonSociale => "RAISON_SOCIALE",
            Jdd::Siret => "SIRET",
            Jdd::Siren => "SIREN",
            Jdd::Ape => "APE",
            Jdd::CodeNaf => "CODE_NAF",
            Jdd::LibeleNaf => "LIBELE_NAF",
            Jdd::Civilite => "CIVILITE",
            Jdd::Nom => "NOM",
            Jdd::Prenom => "PRENOM",
            Jdd::Telephone => "TELEPHONE",
            Jdd::Email => "email",
            Jdd::Address => "address",
            Jdd::CodePostale => "CODE POSTALE",
            Jdd::Region => "REGION",
            Jdd::Pays => "PAYS",
        }
    }
}

/// One raw row of the current-customer set, as text cells.
pub struct JddSchema {
    pub raison_sociale: Option<String>,
    pub siret: Option<String>,
    pub siren: Option<String>,
    pub ape: Option<String>,
    pub code_naf: Option<String>,
    pub libele_naf: Option<String>,
    pub civilite: Option<String>,
    pub nom: Option<String>,
    pub prenom: Option<String>,
    pub telephone: Option<String>,
    pub email: Option<String>,
    pub address: Option<String>,
    pub code_postale: Option<String>,
    pub region: Option<String>,
    pub pays: Option<String>,
}

impl JddSchema {
    /// Carries the text cells into a record with the given id; the
    /// columns outside the engine's logical fields are left behind.
    pub fn into_record(self, id: i64) -> (r: crate::frame::Record)
        ensures
            r@.id == id as int,
            r@.raison_sociale == self.raison_sociale.deep_view(),
            r@.siret == self.siret.deep_view(),
            r@.siren == self.siren.deep_view(),
            r@.ape == self.ape.deep_view(),
            r@.code_naf == self.code_naf.deep_view(),
            r@.libele_naf == self.libele_naf.deep_view(),
            r@.civilite == self.civilite.deep_view(),
            r@.nom == self.nom.deep_view(),
            r@.prenom == self.prenom.deep_view(),
            r@.telephone == self.telephone.deep_view(),
            r@.email == self.email.deep_view(),
            r@.id_source is None,
            r@.siret_successeur is None,
            r@.pce is None,
            r@.ids is None,
    {
        crate::frame::Record {
            id,
            id_source: None,
            nom: self.nom,
            prenom: self.prenom,
            civilite: self.civilite,
            raison_sociale: self.raison_sociale,
            email: self.email,
            telephone: self.telephone,
            siret: self.siret,
            siret_successeur: None,
            siren: self.siren,
            ape: self.ape,
            code_naf: self.code_naf,
            libele_naf: self.libele_naf,
            pce: None,
            ids: None,
        }
    }
}

} // verus!
