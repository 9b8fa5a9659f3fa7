//! Records and frames.  A record is one row of customer data, known by
//! its `id`; a frame is an ordered sequence of records sharing one
//! schema.  The `ids` field is null on ordinary rows and carries the
//! slash-joined member ids on synthesized cluster rows.

use vstd::prelude::*;

verus! {

/// One row of customer data.
pub struct Record {
    pub id: i64,
    pub id_source: Option<String>,
    pub nom: Option<String>,
    pub prenom: Option<String>,
    pub civilite: Option<String>,
    pub raison_sociale: Option<String>,
    pub email: Option<String>,
    pub telephone: Option<String>,
    pub siret: Option<String>,
    pub siret_successeur: Option<String>,
    pub siren: Option<String>,
    pub ape: Option<String>,
    pub code_naf: Option<String>,
    pub libele_naf: Option<String>,
    pub pce: Option<String>,
    pub ids: Option<String>,
}

/// The mathematical value of a record: every text cell as a character
/// sequence.
#[verifier::ext_equal]
pub ghost struct RecordV {
    pub id: int,
    pub id_source: Option<Seq<char>>,
    pub nom: Option<Seq<char>>,
    pub prenom: Option<Seq<char>>,
    pub civilite: Option<Seq<char>>,
    pub raison_sociale: Option<Seq<char>>,
    pub email: Option<Seq<char>>,
    pub telephone: Option<Seq<char>>,
    pub siret: Option<Seq<char>>,
    pub siret_successeur: Option<Seq<char>>,
    pub siren: Option<Seq<char>>,
    pub ape: Option<Seq<char>>,
    pub code_naf: Option<Seq<char>>,
    pub libele_naf: Option<Seq<char>>,
    pub pce: Option<Seq<char>>,
    pub ids: Option<Seq<char>>,
}

impl View for Record {
    type V = RecordV;

    open spec fn view(&self) -> RecordV {
        RecordV {
            id: self.id as int,
            id_source: self.id_source.deep_view(),
            nom: self.nom.deep_view(),
            prenom: self.prenom.deep_view(),
            civilite: self.civilite.deep_view(),
            raison_sociale: self.raison_sociale.deep_view(),
            email: self.email.deep_view(),
            telephone: self.telephone.deep_view(),
            siret: self.siret.deep_view(),
            siret_successeur: self.siret_successeur.deep_view(),
            siren: self.siren.deep_view(),
            ape: self.ape.deep_view(),
            code_naf: self.code_naf.deep_view(),
            libele_naf: self.libele_naf.deep_view(),
            pce: self.pce.deep_view(),
            ids: self.ids.deep_view(),
        }
    }
}

impl Record {
    /// An empty record carrying only its id.
    pub fn blank(id: i64) -> (r: Record)
        ensures
            r@.id == id as int,
            r@.id_source is None,
            r@.nom is None,
            r@.prenom is None,
            r@.civilite is None,
            r@.raison_sociale is None,
            r@.email is None,
            r@.telephone is None,
            r@.siret is None,
            r@.siret_successeur is None,
            r@.siren is None,
            r@.ape is None,
            r@.code_naf is None,
            r@.libele_naf is None,
            r@.pce is None,
            r@.ids is None,
    {
        Record {
            id,
            id_source: None,
            nom: None,
            prenom: None,
            civilite: None,
            raison_sociale: None,
            email: None,
            telephone: None,
            siret: None,
            siret_successeur: None,
            siren: None,
            ape: None,
            code_naf: None,
            libele_naf: None,
            pce: None,
            ids: None,
        }
    }

    /// A field-for-field copy with the same mathematical value.
    pub fn duplicate(&self) -> (r: Record)
        ensures
            r@ == self@,
    {
        let r = Record {
            id: self.id,
            id_source: clone_cell(&self.id_source),
            nom: clone_cell(&self.nom),
            prenom: clone_cell(&self.prenom),
            civilite: clone_cell(&self.civilite),
            raison_sociale: clone_cell(&self.raison_sociale),
            email: clone_cell(&self.email),
            telephone: clone_cell(&self.telephone),
            siret: clone_cell(&self.siret),
            siret_successeur: clone_cell(&self.siret_successeur),
            siren: clone_cell(&self.siren),
            ape: clone_cell(&self.ape),
            code_naf: clone_cell(&self.code_naf),
            libele_naf: clone_cell(&self.libele_naf),
            pce: clone_cell(&self.pce),
            ids: clone_cell(&self.ids),
        };
        r
    }
}

/// A copy of one optional text cell.
pub fn clone_cell(c: &Option<String>) -> (r: Option<String>)
    ensures
        r.deep_view() == c.deep_view(),
{
    match c {
        None => None,
        Some(s) => Some(s.clone()),
    }
}

/// Two optional cells that are both present and equal.
pub open spec fn cell_eq(a: Option<Seq<char>>, b: Option<Seq<char>>) -> bool {
    a is Some && b is Some && a->0 == b->0
}

/// Whether two text values spell the same characters.
pub fn string_eq(x: &String, y: &String) -> (r: bool)
    ensures
        r == (x@ == y@),
{
    let xc = crate::chars::to_chars(x.as_str());
    crate::seqops::chars_eq(xc.as_slice(), y.as_str())
}

/// Executable test for [`cell_eq`].
pub fn cell_eq_x(a: &Option<String>, b: &Option<String>) -> (r: bool)
    ensures
        r == cell_eq(a.deep_view(), b.deep_view()),
{
    match (a, b) {
        (Some(x), Some(y)) => string_eq(x, y),
        _ => false,
    }
}

/// Every record of the frame carries a distinct id.
pub open spec fn unique_ids(rows: Seq<Record>) -> bool {
    forall|i: int, j: int|
        0 <= i < rows.len() && 0 <= j < rows.len() && i != j ==> (#[trigger] rows[i])@.id != (
        #[trigger] rows[j])@.id
}

} // verus!
