//! The duplicate detector: candidate pairs under the matching
//! predicate, candidate clusters anchored at the pair's left row, and
//! subset pruning down to the maximal clusters.

use vstd::prelude::*;
use crate::chars::to_string;
use crate::frame::{cell_eq, cell_eq_x, Record, RecordV};
use crate::numtext::{dec_str, render_i64};
use crate::seqops::join_char;

verus! {

/// The matching predicate on two record values, left to right: the
/// left row lacks a SIRET, the names agree, the first names agree or
/// one side has none, and at least one contact channel (PCE, email,
/// telephone) agrees with both sides present.
pub open spec fn match_fields(a: RecordV, b: RecordV) -> bool {
    &&& a.siret is None
    &&& cell_eq(a.nom, b.nom)
    &&& (cell_eq(a.prenom, b.prenom) || a.prenom is None || b.prenom is None)
    &&& (cell_eq(a.pce, b.pce) || cell_eq(a.email, b.email) || cell_eq(a.telephone, b.telephone))
}

/// Executable test for [`match_fields`].
pub fn row_match(a: &Record, b: &Record) -> (r: bool)
    ensures
        r == match_fields(a@, b@),
{
    let siret_absent = match &a.siret {
        None => true,
        Some(_) => false,
    };
    siret_absent && cell_eq_x(&a.nom, &b.nom) && (cell_eq_x(&a.prenom, &b.prenom)
        || a.prenom.is_none() || b.prenom.is_none()) && (cell_eq_x(&a.pce, &b.pce) || cell_eq_x(
        &a.email,
        &b.email,
    ) || cell_eq_x(&a.telephone, &b.telephone))
}

/// A candidate duplicate pair: the row with the smaller id on the
/// left, matching the row with the larger id.
pub open spec fn is_pair(rows: Seq<Record>, i: int, j: int) -> bool {
    &&& 0 <= i < rows.len()
    &&& 0 <= j < rows.len()
    &&& rows[i]@.id < rows[j]@.id
    &&& match_fields(rows[i]@, rows[j]@)
}

/// Whether the unordered index pair `{p, q}` has already been visited
/// by a scan standing at `(i, j)`.
pub open spec fn pair_scanned(p: int, q: int, i: int, j: int) -> bool {
    let lo = if p < q {
        p
    } else {
        q
    };
    let hi = if p < q {
        q
    } else {
        p
    };
    lo < i || (lo == i && hi < j)
}

/// Computes every candidate duplicate pair, as index pairs into the
/// frame.  Exactly one ordered pair is emitted for every unordered
/// pair of rows that the predicate accepts, oriented from the smaller
/// id to the larger.
pub fn candidate_pairs(rows: &Vec<Record>) -> (pairs: Vec<(usize, usize)>)
    ensures
        forall|k: int|
            0 <= k < pairs@.len() ==> is_pair(
                rows@,
                (#[trigger] pairs@[k]).0 as int,
                pairs@[k].1 as int,
            ),
        forall|i: int, j: int|
            is_pair(rows@, i, j) ==> pairs@.contains((i as usize, j as usize)),
        forall|k1: int, k2: int|
            0 <= k1 < pairs@.len() && 0 <= k2 < pairs@.len() && k1 != k2 ==> (
            #[trigger] pairs@[k1]) != (#[trigger] pairs@[k2]),
{
    let n = rows.len();
    let mut pairs: Vec<(usize, usize)> = Vec::new();
    let mut i: usize = 0;
    while i < n
        invariant
            i <= n,
            n == rows@.len(),
            forall|k: int|
                0 <= k < pairs@.len() ==> is_pair(
                    rows@,
                    (#[trigger] pairs@[k]).0 as int,
                    pairs@[k].1 as int,
                ),
            forall|p: int, q: int|
                is_pair(rows@, p, q) && pair_scanned(p, q, i as int, i as int + 1)
                    ==> pairs@.contains((p as usize, q as usize)),
            forall|k: int|
                0 <= k < pairs@.len() ==> pair_scanned(
                    (#[trigger] pairs@[k]).0 as int,
                    pairs@[k].1 as int,
                    i as int,
                    i as int + 1,
                ),
            forall|k1: int, k2: int|
                0 <= k1 < pairs@.len() && 0 <= k2 < pairs@.len() && k1 != k2 ==> (
                #[trigger] pairs@[k1]) != (#[trigger] pairs@[k2]),
        decreases n - i,
    {
        let mut j: usize = i + 1;
        while j < n
            invariant
                i < n || j == i + 1,
                i <= n,
                i + 1 <= j <= n || (i + 1 > n && j == i + 1),
                n == rows@.len(),
                forall|k: int|
                    0 <= k < pairs@.len() ==> is_pair(
                        rows@,
                        (#[trigger] pairs@[k]).0 as int,
                        pairs@[k].1 as int,
                    ),
                forall|p: int, q: int|
                    is_pair(rows@, p, q) && pair_scanned(p, q, i as int, j as int)
                        ==> pairs@.contains((p as usize, q as usize)),
                forall|k: int|
                    0 <= k < pairs@.len() ==> pair_scanned(
                        (#[trigger] pairs@[k]).0 as int,
                        pairs@[k].1 as int,
                        i as int,
                        j as int,
                    ),
                forall|k1: int, k2: int|
                    0 <= k1 < pairs@.len() && 0 <= k2 < pairs@.len() && k1 != k2 ==> (
                    #[trigger] pairs@[k1]) != (#[trigger] pairs@[k2]),
            decreases n - j,
        {
            let ghost oldpairs = pairs@;
            if rows[i].id < rows[j].id {
                if row_match(&rows[i], &rows[j]) {
                    pairs.push((i, j));
                }
            } else if rows[j].id < rows[i].id {
                if row_match(&rows[j], &rows[i]) {
                    pairs.push((j, i));
                }
            }
            j = j + 1;
            proof {
                assert forall|p: int, q: int|
                    is_pair(rows@, p, q) && pair_scanned(p, q, i as int, j as int) implies pairs@
                    .contains((p as usize, q as usize)) by {
                    if pair_scanned(p, q, i as int, j as int - 1) {
                        assert(oldpairs.contains((p as usize, q as usize)));
                        let t = choose|t: int|
                            0 <= t < oldpairs.len() && oldpairs[t] == (p as usize, q as usize);
                        assert(pairs@[t] == (p as usize, q as usize));
                    } else {
                        assert((p == i as int && q == j - 1) || (p == j - 1 && q == i as int));
                        assert(pairs@.last() == (p as usize, q as usize));
                    }
                }
            }
        }
        i = i + 1;
        proof {
            assert forall|p: int, q: int|
                is_pair(rows@, p, q) && pair_scanned(p, q, i as int, i as int + 1) implies pairs@
                .contains((p as usize, q as usize)) by {
                assert(pair_scanned(p, q, i as int - 1, n as int));
            }
            assert forall|k: int| 0 <= k < pairs@.len() implies pair_scanned(
                (#[trigger] pairs@[k]).0 as int,
                pairs@[k].1 as int,
                i as int,
                i as int + 1,
            ) by {
                assert(pair_scanned(pairs@[k].0 as int, pairs@[k].1 as int, i as int - 1, n as int));
            }
        }
    }
    proof {
        assert forall|p: int, q: int| is_pair(rows@, p, q) implies pairs@.contains(
            (p as usize, q as usize),
        ) by {
            assert(rows@[p].view().id != rows@[q].view().id);
            assert(p != q);
            assert(pair_scanned(p, q, n as int, n as int + 1));
        }
    }
    pairs
}

/// One synthesized duplicate cluster: the output row and the ids of
/// the merged records, in ascending order.
pub struct ClusterRow {
    pub row: Record,
    pub member_ids: Vec<i64>,
}

/// A strictly ascending id list.
pub open spec fn sorted_ids(s: Seq<i64>) -> bool {
    forall|a: int, b: int| 0 <= a < b < s.len() ==> s[a] < s[b]
}

/// The id belongs to the candidate cluster anchored at row `i`: it is
/// the anchor's own id or the id of a row the anchor pairs with.
pub open spec fn in_cluster_of(rows: Seq<Record>, i: int, id: int) -> bool {
    id == rows[i]@.id || exists|j: int| is_pair(rows, i, j) && (#[trigger] rows[j])@.id == id
}

/// The row has at least one candidate duplicate partner.
pub open spec fn has_partner(rows: Seq<Record>, i: int) -> bool {
    exists|j: int| is_pair(rows, i, j)
}

/// Inserts an id into a strictly ascending list it is not yet part of.
fn insert_sorted(v: &mut Vec<i64>, x: i64)
    requires
        sorted_ids(old(v)@),
        !old(v)@.contains(x),
    ensures
        sorted_ids(final(v)@),
        final(v)@.len() == old(v)@.len() + 1,
        forall|y: i64| final(v)@.contains(y) <==> (old(v)@.contains(y) || y == x),
{
    let mut pos: usize = 0;
    while pos < v.len() && v[pos] < x
        invariant
            pos <= v@.len(),
            forall|t: int| 0 <= t < pos ==> v@[t] < x,
        decreases v@.len() - pos,
    {
        pos = pos + 1;
    }
    proof {
        assert(forall|t: int| pos <= t < v@.len() ==> v@[t] != x);
        assert(forall|t: int| pos <= t < v@.len() ==> x < v@[t] || v@[t] < x);
        assert forall|t: int| pos <= t < v@.len() implies x < v@[t] by {
            if v@[t] < x {
                if t > pos {
                    assert(v@[pos as int] < v@[t]);
                }
            }
        }
    }
    let ghost oldv = v@;
    v.insert(pos, x);
    proof {
        assert forall|y: i64| final(v)@.contains(y) <==> (oldv.contains(y) || y == x) by {
            if final(v)@.contains(y) {
                let t = choose|t: int| 0 <= t < v@.len() && v@[t] == y;
                if t < pos {
                    assert(oldv[t] == y);
                } else if t == pos {
                } else {
                    assert(oldv[t - 1] == y);
                }
            }
            if oldv.contains(y) {
                let t = choose|t: int| 0 <= t < oldv.len() && oldv[t] == y;
                if t < pos {
                    assert(v@[t] == y);
                } else {
                    assert(v@[t + 1] == y);
                }
            }
            if y == x {
                assert(v@[pos as int] == y);
            }
        }
        assert forall|a: int, b: int| 0 <= a < b < v@.len() implies v@[a] < v@[b] by {
            let va = if a < pos {
                oldv[a]
            } else if a == pos {
                x
            } else {
                oldv[a - 1]
            };
            assert(v@[a] == va);
        }
    }
}

/// The multi-valued fields a cluster row merges.
#[derive(Clone, Copy)]
pub enum MergeField {
    Pce,
    Email,
    Telephone,
    Siret,
    SiretSuccesseur,
    RaisonSociale,
    IdSource,
}

/// Reads one mergeable field of a record value.
pub open spec fn get_field(r: RecordV, f: MergeField) -> Option<Seq<char>> {
    match f {
        MergeField::Pce => r.pce,
        MergeField::Email => r.email,
        MergeField::Telephone => r.telephone,
        MergeField::Siret => r.siret,
        MergeField::SiretSuccesseur => r.siret_successeur,
        MergeField::RaisonSociale => r.raison_sociale,
        MergeField::IdSource => r.id_source,
    }
}

/// The distinct present values of a cell sequence, in order of first
/// appearance.
pub open spec fn distinct_present(vals: Seq<Option<Seq<char>>>) -> Seq<Seq<char>>
    decreases vals.len(),
{
    if vals.len() == 0 {
        Seq::empty()
    } else {
        let rest = distinct_present(vals.drop_last());
        match vals.last() {
            None => rest,
            Some(v) => if rest.contains(v) {
                rest
            } else {
                rest.push(v)
            },
        }
    }
}

/// The field values of the given rows, in order.
pub open spec fn field_vals(rows: Seq<Record>, idxs: Seq<int>, f: MergeField) -> Seq<
    Option<Seq<char>>,
> {
    idxs.map_values(|t: int| get_field(rows[t]@, f))
}

/// One merged cell: the distinct present member values joined by the
/// configured separator, or null when no member carries the field.
pub open spec fn merged_cell(rows: Seq<Record>, idxs: Seq<int>, f: MergeField, sep: char) -> Option<
    Seq<char>,
> {
    let d = distinct_present(field_vals(rows, idxs, f));
    if d.len() == 0 {
        None
    } else {
        Some(join_char(sep, d))
    }
}

/// Reads one mergeable field of a record.
fn get_field_x<'a>(r: &'a Record, f: MergeField) -> (c: &'a Option<String>)
    ensures
        c.deep_view() == get_field(r@, f),
{
    match f {
        MergeField::Pce => &r.pce,
        MergeField::Email => &r.email,
        MergeField::Telephone => &r.telephone,
        MergeField::Siret => &r.siret,
        MergeField::SiretSuccesseur => &r.siret_successeur,
        MergeField::RaisonSociale => &r.raison_sociale,
        MergeField::IdSource => &r.id_source,
    }
}

/// Whether the collected values already hold this one.
fn vals_contain(vals: &Vec<String>, x: &String) -> (b: bool)
    ensures
        b == vals.deep_view().contains(x@),
{
    let mut t: usize = 0;
    while t < vals.len()
        invariant
            t <= vals@.len(),
            forall|u: int| 0 <= u < t ==> vals.deep_view()[u] != x@,
        decreases vals@.len() - t,
    {
        if crate::frame::string_eq(&vals[t], x) {
            proof {
                assert(vals.deep_view()[t as int] == x@);
            }
            return true;
        }
        t = t + 1;
    }
    proof {
        if vals.deep_view().contains(x@) {
            let u = choose|u: int|
                0 <= u < vals.deep_view().len() && vals.deep_view()[u] == x@;
        }
    }
    false
}

/// Merges one field over the given member rows: distinct present
/// values, first appearance first, joined by `/`.
fn merge_field(rows: &Vec<Record>, members: &Vec<usize>, f: MergeField, sep: char) -> (c: Option<
    String,
>)
    requires
        forall|t: int| 0 <= t < members@.len() ==> (#[trigger] members@[t]) < rows@.len(),
    ensures
        c.deep_view() == merged_cell(
            rows@,
            members@.map_values(|u: usize| u as int),
            f,
            sep,
        ),
{
    let ghost idxs = members@.map_values(|u: usize| u as int);
    let mut vals: Vec<String> = Vec::new();
    let mut t: usize = 0;
    proof {
        assert(idxs.subrange(0, 0) =~= Seq::<int>::empty());
        assert(field_vals(rows@, idxs.subrange(0, 0), f) =~= Seq::<Option<Seq<char>>>::empty());
    }
    while t < members.len()
        invariant
            t <= members@.len(),
            idxs == members@.map_values(|u: usize| u as int),
            forall|u: int| 0 <= u < members@.len() ==> (#[trigger] members@[u]) < rows@.len(),
            vals.deep_view() == distinct_present(field_vals(rows@, idxs.subrange(0, t as int), f)),
        decreases members@.len() - t,
    {
        let ghost pre = field_vals(rows@, idxs.subrange(0, t as int), f);
        proof {
            let cur = field_vals(rows@, idxs.subrange(0, t as int + 1), f);
            assert(cur.drop_last() =~= pre);
            assert(cur.last() == get_field(rows@[members@[t as int] as int]@, f));
        }
        let m = members[t];
        let cell = get_field_x(&rows[m], f);
        match cell {
            None => {},
            Some(x) => {
                if !vals_contain(&vals, x) {
                    vals.push(x.clone());
                    proof {
                        assert(vals.deep_view() =~~= distinct_present(
                            field_vals(rows@, idxs.subrange(0, t as int + 1), f),
                        ));
                    }
                } else {
                }
            },
        }
        t = t + 1;
        proof {
            assert(vals.deep_view() =~~= distinct_present(
                field_vals(rows@, idxs.subrange(0, t as int), f),
            ));
        }
    }
    proof {
        assert(idxs.subrange(0, idxs.len() as int) =~= idxs);
    }
    if vals.len() == 0 {
        None
    } else {
        let mut out: Vec<char> = Vec::new();
        let mut k: usize = 0;
        let ghost dv = vals.deep_view();
        proof {
            assert(dv.subrange(0, 0) =~= Seq::<Seq<char>>::empty());
        }
        while k < vals.len()
            invariant
                k <= vals@.len(),
                dv == vals.deep_view(),
                out@ == join_char(sep, dv.subrange(0, k as int)),
            decreases vals@.len() - k,
        {
            let ghost pre = dv.subrange(0, k as int);
            proof {
                assert(dv.subrange(0, k as int + 1).drop_last() =~= pre);
                assert(dv.subrange(0, k as int + 1).last() == dv[k as int]);
            }
            if k > 0 {
                out.push(sep);
            }
            let mut piece = crate::chars::to_chars(vals[k].as_str());
            proof {
                assert(piece@ == dv[k as int]);
            }
            out.append(&mut piece);
            k = k + 1;
            proof {
                let cur = dv.subrange(0, k as int);
                if k == 1 {
                    assert(join_char(sep, cur) == dv[0]);
                    assert(out@ =~= join_char(sep, cur));
                } else {
                    assert(join_char(sep, cur) == join_char(sep, pre).push(sep) + dv[k - 1]);
                    assert(out@ =~= join_char(sep, cur));
                }
            }
        }
        proof {
            assert(dv.subrange(0, dv.len() as int) =~= dv);
        }
        Some(to_string(out.as_slice()))
    }
}

/// The indices of the rows the anchor `i` pairs with, among the first
/// `m` rows, in index order.
pub open spec fn partner_idxs(rows: Seq<Record>, i: int, m: int) -> Seq<int>
    decreases m,
{
    if m <= 0 {
        Seq::empty()
    } else {
        partner_idxs(rows, i, m - 1) + (if is_pair(rows, i, m - 1) {
            seq![m - 1]
        } else {
            Seq::empty()
        })
    }
}

/// The member rows of the candidate cluster anchored at `i`: the
/// anchor first, then its partners in index order.
pub open spec fn cluster_idxs(rows: Seq<Record>, i: int) -> Seq<int> {
    seq![i] + partner_idxs(rows, i, rows.len() as int)
}

/// The id belongs to the cluster anchored at `i`, looking only at
/// partners among the first `m` rows.
pub open spec fn in_cluster_upto(rows: Seq<Record>, i: int, m: int, id: int) -> bool {
    id == rows[i]@.id || exists|j: int| 0 <= j < m && is_pair(rows, i, j) && (#[trigger] rows[j])@.id
        == id
}

/// The joined decimal rendering of an id list.
pub open spec fn ids_text(sep: char, s: Seq<i64>) -> Seq<char> {
    join_char(sep, s.map_values(|x: i64| dec_str(x as int)))
}

/// Builds the candidate cluster anchored at row `i`: its sorted member
/// ids, the anchor's name fields, the merged multi-value cells and the
/// slash-joined `ids` cell.
pub fn build_cluster(rows: &Vec<Record>, i: usize, sep: char) -> (c: ClusterRow)
    requires
        crate::frame::unique_ids(rows@),
        i < rows@.len(),
        has_partner(rows@, i as int),
    ensures
        sorted_ids(c.member_ids@),
        forall|id: i64| c.member_ids@.contains(id) <==> in_cluster_of(rows@, i as int, id as int),
        c.member_ids@.len() >= 2,
        c.member_ids@[0] == rows@[i as int]@.id,
        c.row@.id == rows@[i as int]@.id,
        c.row@.nom == rows@[i as int]@.nom,
        c.row@.prenom == rows@[i as int]@.prenom,
        c.row@.civilite is None,
        c.row@.siren is None,
        c.row@.ape is None,
        c.row@.code_naf is None,
        c.row@.libele_naf is None,
        c.row@.ids == Some(ids_text(sep, c.member_ids@)),
        c.row@.pce == merged_cell(rows@, cluster_idxs(rows@, i as int), MergeField::Pce, sep),
        c.row@.email == merged_cell(rows@, cluster_idxs(rows@, i as int), MergeField::Email, sep),
        c.row@.telephone == merged_cell(
            rows@,
            cluster_idxs(rows@, i as int),
            MergeField::Telephone,
            sep,
        ),
        c.row@.siret == merged_cell(rows@, cluster_idxs(rows@, i as int), MergeField::Siret, sep),
        c.row@.siret_successeur == merged_cell(
            rows@,
            cluster_idxs(rows@, i as int),
            MergeField::SiretSuccesseur,
            sep,
        ),
        c.row@.raison_sociale == merged_cell(
            rows@,
            cluster_idxs(rows@, i as int),
            MergeField::RaisonSociale,
            sep,
        ),
        c.row@.id_source == merged_cell(
            rows@,
            cluster_idxs(rows@, i as int),
            MergeField::IdSource,
            sep,
        ),
{
    let n = rows.len();
    let mut members: Vec<usize> = Vec::new();
    members.push(i);
    let mut ids: Vec<i64> = Vec::new();
    ids.push(rows[i].id);
    let mut j: usize = 0;
    proof {
        assert(members@.map_values(|u: usize| u as int) =~= seq![i as int] + partner_idxs(
            rows@,
            i as int,
            0,
        ));
        assert forall|id: i64| ids@.contains(id) <==> in_cluster_upto(
            rows@,
            i as int,
            0,
            id as int,
        ) by {
            if ids@.contains(id) {
                let t = choose|t: int| 0 <= t < ids@.len() && ids@[t] == id;
                assert(t == 0);
            }
            if in_cluster_upto(rows@, i as int, 0, id as int) {
                assert(id as int == rows@[i as int]@.id);
                assert(ids@[0] == id);
            }
        }
    }
    while j < n
        invariant
            j <= n,
            n == rows@.len(),
            i < rows@.len(),
            crate::frame::unique_ids(rows@),
            members@.map_values(|u: usize| u as int) == seq![i as int] + partner_idxs(
                rows@,
                i as int,
                j as int,
            ),
            forall|t: int| 0 <= t < members@.len() ==> (#[trigger] members@[t]) < rows@.len(),
            sorted_ids(ids@),
            forall|id: i64|
                ids@.contains(id) <==> in_cluster_upto(rows@, i as int, j as int, id as int),
        decreases n - j,
    {
        let ghost oldmap = members@.map_values(|u: usize| u as int);
        let ghost oldids = ids@;
        let ghost jj = j as int;
        let matched = rows[i].id < rows[j].id && row_match(&rows[i], &rows[j]);
        proof {
            assert(matched == is_pair(rows@, i as int, jj));
            assert(partner_idxs(rows@, i as int, jj + 1) == partner_idxs(rows@, i as int, jj) + (
            if is_pair(rows@, i as int, jj) {
                seq![jj]
            } else {
                Seq::<int>::empty()
            }));
        }
        if matched {
            members.push(j);
            proof {
                assert(!ids@.contains(rows@[jj].id)) by {
                    if ids@.contains(rows@[jj].id) {
                        assert(in_cluster_upto(rows@, i as int, jj, rows@[jj]@.id));
                        if rows@[jj]@.id != rows@[i as int]@.id {
                            let w = choose|w: int|
                                0 <= w < jj && is_pair(rows@, i as int, w) && (
                                #[trigger] rows@[w])@.id == rows@[jj]@.id;
                        }
                    }
                }
                assert(members@.map_values(|u: usize| u as int) =~= oldmap.push(jj));
                assert(oldmap.push(jj) =~= seq![i as int] + partner_idxs(
                    rows@,
                    i as int,
                    jj + 1,
                ));
            }
            insert_sorted(&mut ids, rows[j].id);
        } else {
            proof {
                assert(members@.map_values(|u: usize| u as int) =~= seq![i as int] + partner_idxs(
                    rows@,
                    i as int,
                    jj + 1,
                ));
            }
        }
        j = j + 1;
        proof {
            assert forall|id: i64| ids@.contains(id) <==> in_cluster_upto(
                rows@,
                i as int,
                j as int,
                id as int,
            ) by {
                if ids@.contains(id) {
                    if oldids.contains(id) {
                        assert(in_cluster_upto(rows@, i as int, jj, id as int));
                        if id as int != rows@[i as int]@.id {
                            let w = choose|w: int|
                                0 <= w < jj && is_pair(rows@, i as int, w) && (
                                #[trigger] rows@[w])@.id == id as int;
                            assert(in_cluster_upto(rows@, i as int, j as int, id as int));
                        }
                    } else {
                        assert(matched && id == rows@[jj].id);
                        assert(is_pair(rows@, i as int, jj) && rows@[jj]@.id == id as int);
                    }
                }
                if in_cluster_upto(rows@, i as int, j as int, id as int) {
                    if id as int == rows@[i as int]@.id {
                        assert(oldids.contains(id));
                    } else {
                        let w = choose|w: int|
                            0 <= w < j as int && is_pair(rows@, i as int, w) && (
                            #[trigger] rows@[w])@.id == id as int;
                        if w < jj {
                            assert(in_cluster_upto(rows@, i as int, jj, id as int));
                            assert(oldids.contains(id));
                        } else {
                            assert(w == jj);
                            assert(matched);
                            assert(id == rows@[jj].id);
                        }
                    }
                }
            }
        }
    }
    let anchor_id = rows[i].id;
    proof {
        assert forall|id: i64| ids@.contains(id) <==> in_cluster_of(
            rows@,
            i as int,
            id as int,
        ) by {
            if in_cluster_of(rows@, i as int, id as int) && id as int != rows@[i as int]@.id {
                let jj = choose|jj: int|
                    is_pair(rows@, i as int, jj) && rows@[jj]@.id == id as int;
                assert(in_cluster_upto(rows@, i as int, n as int, id as int));
            }
        }
        // The anchor's id is the least member id, and a partner gives a
        // second member.
        let jj = choose|jj: int| is_pair(rows@, i as int, jj);
        assert(ids@.contains(rows@[jj]@.id as i64)) by {
            assert(in_cluster_of(rows@, i as int, rows@[jj]@.id));
            assert(rows@[jj]@.id == rows@[jj].id as int);
        }
        assert(ids@.contains(rows@[i as int].id));
        assert(rows@[jj]@.id != rows@[i as int]@.id);
        let t1 = choose|t1: int| 0 <= t1 < ids@.len() && ids@[t1] == rows@[i as int].id;
        let t2 = choose|t2: int| 0 <= t2 < ids@.len() && ids@[t2] == rows@[jj].id;
        assert(t1 != t2);
        assert(ids@.len() >= 2);
        assert forall|t: int| 0 <= t < ids@.len() implies ids@[t] >= rows@[i as int].id by {
            assert(ids@.contains(ids@[t]));
            assert(in_cluster_of(rows@, i as int, ids@[t] as int));
        }
        assert(ids@[0] == rows@[i as int].id) by {
            if ids@[0] != rows@[i as int].id {
                assert(ids@[0] > rows@[i as int].id || ids@[0] < rows@[i as int].id);
                if t1 > 0 {
                    assert(ids@[0] < ids@[t1]);
                }
            }
        }
    }
    // Render the sorted ids as a slash-joined cell.
    let mut idtext: Vec<char> = Vec::new();
    let ghost rendered = ids@.map_values(|x: i64| dec_str(x as int));
    let mut k: usize = 0;
    proof {
        assert(rendered.subrange(0, 0) =~= Seq::<Seq<char>>::empty());
    }
    while k < ids.len()
        invariant
            k <= ids@.len(),
            rendered == ids@.map_values(|x: i64| dec_str(x as int)),
            idtext@ == join_char(sep, rendered.subrange(0, k as int)),
        decreases ids@.len() - k,
    {
        let ghost pre = rendered.subrange(0, k as int);
        proof {
            assert(rendered.subrange(0, k as int + 1).drop_last() =~= pre);
            assert(rendered.subrange(0, k as int + 1).last() == rendered[k as int]);
        }
        if k > 0 {
            idtext.push(sep);
        }
        let mut piece = render_i64(ids[k]);
        idtext.append(&mut piece);
        k = k + 1;
        proof {
            let cur = rendered.subrange(0, k as int);
            if k == 1 {
                assert(join_char(sep, cur) == rendered[0]);
                assert(idtext@ =~= join_char(sep, cur));
            } else {
                assert(join_char(sep, cur) == join_char(sep, pre).push(sep) + rendered[k - 1]);
                assert(idtext@ =~= join_char(sep, cur));
            }
        }
    }
    proof {
        assert(rendered.subrange(0, rendered.len() as int) =~= rendered);
    }
    let row = Record {
        id: anchor_id,
        id_source: merge_field(rows, &members, MergeField::IdSource, sep),
        nom: crate::frame::clone_cell(&rows[i].nom),
        prenom: crate::frame::clone_cell(&rows[i].prenom),
        civilite: None,
        raison_sociale: merge_field(rows, &members, MergeField::RaisonSociale, sep),
        email: merge_field(rows, &members, MergeField::Email, sep),
        telephone: merge_field(rows, &members, MergeField::Telephone, sep),
        siret: merge_field(rows, &members, MergeField::Siret, sep),
        siret_successeur: merge_field(rows, &members, MergeField::SiretSuccesseur, sep),
        siren: None,
        ape: None,
        code_naf: None,
        libele_naf: None,
        pce: merge_field(rows, &members, MergeField::Pce, sep),
        ids: Some(to_string(idtext.as_slice())),
    };
    proof {
        assert(members@.map_values(|u: usize| u as int) == cluster_idxs(rows@, i as int));
    }
    ClusterRow { row, member_ids: ids }
}

/// Everything [`build_cluster`] promises, bundled: the shape of one
/// candidate cluster anchored at row `a`.
pub open spec fn is_anchor_cluster(
    rows: Seq<Record>,
    a: int,
    row: RecordV,
    ids: Seq<i64>,
    sep: char,
) -> bool {
    &&& 0 <= a < rows.len()
    &&& sorted_ids(ids)
    &&& forall|id: i64| ids.contains(id) <==> in_cluster_of(rows, a, id as int)
    &&& ids.len() >= 2
    &&& ids[0] == rows[a]@.id
    &&& row.id == rows[a]@.id
    &&& row.nom == rows[a]@.nom
    &&& row.prenom == rows[a]@.prenom
    &&& row.civilite is None
    &&& row.siren is None
    &&& row.ape is None
    &&& row.code_naf is None
    &&& row.libele_naf is None
    &&& row.ids == Some(ids_text(sep, ids))
    &&& row.pce == merged_cell(rows, cluster_idxs(rows, a), MergeField::Pce, sep)
    &&& row.email == merged_cell(rows, cluster_idxs(rows, a), MergeField::Email, sep)
    &&& row.telephone == merged_cell(rows, cluster_idxs(rows, a), MergeField::Telephone, sep)
    &&& row.siret == merged_cell(rows, cluster_idxs(rows, a), MergeField::Siret, sep)
    &&& row.siret_successeur == merged_cell(
        rows,
        cluster_idxs(rows, a),
        MergeField::SiretSuccesseur,
        sep,
    )
    &&& row.raison_sociale == merged_cell(rows, cluster_idxs(rows, a), MergeField::RaisonSociale, sep)
    &&& row.id_source == merged_cell(rows, cluster_idxs(rows, a), MergeField::IdSource, sep)
}

/// The rows with at least one partner among the first `m`, in row
/// order: the anchors of the candidate clusters.
pub open spec fn anchor_list(rows: Seq<Record>, m: int) -> Seq<int>
    decreases m,
{
    if m <= 0 {
        Seq::empty()
    } else {
        anchor_list(rows, m - 1) + (if has_partner(rows, m - 1) {
            seq![m - 1]
        } else {
            Seq::empty()
        })
    }
}

/// Builds one candidate cluster per row that has a partner, in row
/// order.
pub fn anchor_clusters(rows: &Vec<Record>, sep: char) -> (cs: Vec<ClusterRow>)
    requires
        crate::frame::unique_ids(rows@),
    ensures
        cs@.len() == anchor_list(rows@, rows@.len() as int).len(),
        forall|k: int|
            0 <= k < cs@.len() ==> is_anchor_cluster(
                rows@,
                anchor_list(rows@, rows@.len() as int)[k],
                (#[trigger] cs@[k]).row@,
                cs@[k].member_ids@,
                sep,
            ),
{
    let n = rows.len();
    let mut cs: Vec<ClusterRow> = Vec::new();
    let mut i: usize = 0;
    proof {
        assert(anchor_list(rows@, 0) =~= Seq::<int>::empty());
    }
    while i < n
        invariant
            i <= n,
            n == rows@.len(),
            crate::frame::unique_ids(rows@),
            cs@.len() == anchor_list(rows@, i as int).len(),
            forall|k: int|
                0 <= k < cs@.len() ==> is_anchor_cluster(
                    rows@,
                    anchor_list(rows@, i as int)[k],
                    (#[trigger] cs@[k]).row@,
                    cs@[k].member_ids@,
                    sep,
                ),
        decreases n - i,
    {
        let ghost oldlist = anchor_list(rows@, i as int);
        let mut any: bool = false;
        let mut j: usize = 0;
        while j < n
            invariant
                j <= n,
                n == rows@.len(),
                i < n,
                any == exists|jj: int| 0 <= jj < j && is_pair(rows@, i as int, jj),
            decreases n - j,
        {
            if rows[i].id < rows[j].id && row_match(&rows[i], &rows[j]) {
                proof {
                    assert(is_pair(rows@, i as int, j as int));
                }
                any = true;
            }
            j = j + 1;
        }
        proof {
            assert(any == has_partner(rows@, i as int));
            assert(anchor_list(rows@, i as int + 1) == oldlist + (if has_partner(
                rows@,
                i as int,
            ) {
                seq![i as int]
            } else {
                Seq::<int>::empty()
            }));
        }
        if any {
            let c = build_cluster(rows, i, sep);
            cs.push(c);
            proof {
                assert(anchor_list(rows@, i as int + 1) =~= oldlist.push(i as int));
            }
        } else {
            proof {
                assert(anchor_list(rows@, i as int + 1) =~= oldlist);
            }
        }
        i = i + 1;
    }
    cs
}

/// The anchor list names each partnered row once, in increasing
/// order.
pub proof fn lemma_anchor_list_props(rows: Seq<Record>, m: int)
    ensures
        forall|k: int|
            0 <= k < anchor_list(rows, m).len() ==> 0 <= #[trigger] anchor_list(rows, m)[k] < m
                && has_partner(rows, anchor_list(rows, m)[k]),
        forall|k1: int, k2: int|
            0 <= k1 < k2 < anchor_list(rows, m).len() ==> anchor_list(rows, m)[k1] < anchor_list(
                rows,
                m,
            )[k2],
        forall|i: int| 0 <= i < m && has_partner(rows, i) ==> anchor_list(rows, m).contains(i),
    decreases m,
{
    if m > 0 {
        lemma_anchor_list_props(rows, m - 1);
        let pre = anchor_list(rows, m - 1);
        let cur = anchor_list(rows, m);
        if has_partner(rows, m - 1) {
            assert(cur =~= pre.push(m - 1));
        } else {
            assert(cur =~= pre);
        }
        assert forall|i: int| 0 <= i < m && has_partner(rows, i) implies cur.contains(i) by {
            if i < m - 1 {
                assert(pre.contains(i));
                let k = choose|k: int| 0 <= k < pre.len() && pre[k] == i;
                assert(cur[k] == i);
            } else {
                assert(cur.last() == i);
            }
        }
    }
}

/// Two strictly ascending lists with the same members are the same
/// list.
pub proof fn lemma_sorted_ids_unique(x: Seq<i64>, y: Seq<i64>)
    requires
        sorted_ids(x),
        sorted_ids(y),
        forall|id: i64| x.contains(id) <==> y.contains(id),
    ensures
        x == y,
    decreases x.len(),
{
    if x.len() == 0 {
        if y.len() > 0 {
            assert(y.contains(y[0]));
        }
        assert(x =~= y);
    } else {
        assert(x.contains(x.last()));
        assert(y.len() > 0);
        // The last element of each list is its maximum, so they agree.
        assert forall|id: i64| x.contains(id) implies id <= x.last() by {
            let t = choose|t: int| 0 <= t < x.len() && x[t] == id;
            if t < x.len() - 1 {
                assert(x[t] < x[x.len() - 1]);
            }
        }
        assert forall|id: i64| y.contains(id) implies id <= y.last() by {
            let t = choose|t: int| 0 <= t < y.len() && y[t] == id;
            if t < y.len() - 1 {
                assert(y[t] < y[y.len() - 1]);
            }
        }
        assert(y.contains(x.last()));
        assert(x.contains(y.last()));
        assert(x.last() == y.last());
        let xp = x.drop_last();
        let yp = y.drop_last();
        assert forall|id: i64| xp.contains(id) <==> yp.contains(id) by {
            if xp.contains(id) {
                let t = choose|t: int| 0 <= t < xp.len() && xp[t] == id;
                assert(x[t] == id);
                assert(x.contains(id));
                assert(id < x.last());
                let u = choose|u: int| 0 <= u < y.len() && y[u] == id;
                assert(u < y.len() - 1);
                assert(yp[u] == id);
            }
            if yp.contains(id) {
                let t = choose|t: int| 0 <= t < yp.len() && yp[t] == id;
                assert(y[t] == id);
                assert(y.contains(id));
                assert(id < y.last());
                let u = choose|u: int| 0 <= u < x.len() && x[u] == id;
                assert(u < x.len() - 1);
                assert(xp[u] == id);
            }
        }
        lemma_sorted_ids_unique(xp, yp);
        assert(xp.len() == yp.len());
        assert(x.len() == y.len());
        assert forall|t: int| 0 <= t < x.len() implies x[t] == y[t] by {
            if t < x.len() - 1 {
                assert(x[t] == xp[t] && y[t] == yp[t]);
            }
        }
        assert(x =~= y);
    }
}

/// For a fixed frame and anchor, the candidate cluster is uniquely
/// determined: any two rows and id lists that fit the anchor-cluster
/// shape coincide.  With fixed input, the detector's output is fixed.
pub proof fn lemma_cluster_determined(
    rows: Seq<Record>,
    a: int,
    row1: RecordV,
    ids1: Seq<i64>,
    row2: RecordV,
    ids2: Seq<i64>,
    sep: char,
)
    requires
        is_anchor_cluster(rows, a, row1, ids1, sep),
        is_anchor_cluster(rows, a, row2, ids2, sep),
    ensures
        ids1 == ids2,
        row1 == row2,
{
    assert forall|id: i64| ids1.contains(id) <==> ids2.contains(id) by {
        assert(ids1.contains(id) <==> in_cluster_of(rows, a, id as int));
        assert(ids2.contains(id) <==> in_cluster_of(rows, a, id as int));
    }
    lemma_sorted_ids_unique(ids1, ids2);
    assert(row1 =~= row2);
}

/// A candidate duplicate pair, over record values.
pub open spec fn is_pair_v(rv: Seq<RecordV>, i: int, j: int) -> bool {
    &&& 0 <= i < rv.len()
    &&& 0 <= j < rv.len()
    &&& rv[i].id < rv[j].id
    &&& match_fields(rv[i], rv[j])
}

/// The id belongs to the candidate cluster anchored at row `a`, over
/// record values.
pub open spec fn in_cluster_of_v(rv: Seq<RecordV>, a: int, id: int) -> bool {
    id == rv[a].id || exists|j: int| is_pair_v(rv, a, j) && (#[trigger] rv[j]).id == id
}

/// The row has a candidate duplicate partner, over record values.
pub open spec fn has_partner_v(rv: Seq<RecordV>, a: int) -> bool {
    exists|j: int| is_pair_v(rv, a, j)
}

/// The candidate cluster anchored at `a` is contained in another
/// anchor's cluster, over record values.
pub open spec fn anchor_subsumed_v(rv: Seq<RecordV>, a: int) -> bool {
    exists|b: int|
        0 <= b < rv.len() && b != a && #[trigger] has_partner_v(rv, b) && (forall|id: int|
            in_cluster_of_v(rv, a, id) ==> #[trigger] in_cluster_of_v(rv, b, id))
}

/// The row anchors one of the maximal candidate clusters.
pub open spec fn anchor_kept_v(rv: Seq<RecordV>, a: int) -> bool {
    0 <= a < rv.len() && has_partner_v(rv, a) && !anchor_subsumed_v(rv, a)
}

/// The detector's success condition: the maximal candidate clusters
/// are pairwise disjoint.  A frame where chained matches make two
/// maximal clusters share a record violates it.
pub open spec fn detector_ok_v(rv: Seq<RecordV>) -> bool {
    forall|a1: int, a2: int, id: int|
        anchor_kept_v(rv, a1) && anchor_kept_v(rv, a2) && a1 != a2 ==> !(
        #[trigger] in_cluster_of_v(rv, a1, id) && #[trigger] in_cluster_of_v(rv, a2, id))
}

/// [`anchor_kept_v`] over a frame of records.
pub open spec fn anchor_kept(rows: Seq<Record>, a: int) -> bool {
    anchor_kept_v(rows.map_values(|r: Record| r@), a)
}

/// [`detector_ok_v`] over a frame of records.
pub open spec fn detector_ok(rows: Seq<Record>) -> bool {
    detector_ok_v(rows.map_values(|r: Record| r@))
}

/// The given row and id list form the candidate cluster of one of the
/// frame's kept anchors.
pub open spec fn kept_cluster_shape(
    rows: Seq<Record>,
    row: RecordV,
    ids: Seq<i64>,
    sep: char,
) -> bool {
    exists|a: int| #[trigger] anchor_kept(rows, a) && is_anchor_cluster(rows, a, row, ids, sep)
}

/// Some cluster of the list is the candidate cluster anchored at the
/// given row.
pub open spec fn lists_anchor(
    rows: Seq<Record>,
    kept: Seq<ClusterRow>,
    a: int,
    sep: char,
) -> bool {
    exists|k: int|
        0 <= k < kept.len() && is_anchor_cluster(
            rows,
            a,
            (#[trigger] kept[k]).row@,
            kept[k].member_ids@,
            sep,
        )
}

/// The record-level matching predicates agree with their value-level
/// counterparts on the frame's views.
pub proof fn lemma_views_bridge(rows: Seq<Record>)
    ensures
        forall|i: int, j: int|
            #[trigger] is_pair(rows, i, j) <==> is_pair_v(rows.map_values(|r: Record| r@), i, j),
        forall|a: int, id: int|
            0 <= a < rows.len() ==> ((#[trigger] in_cluster_of(rows, a, id)) <==> in_cluster_of_v(
                rows.map_values(|r: Record| r@),
                a,
                id,
            )),
        forall|a: int|
            #[trigger] has_partner(rows, a) <==> has_partner_v(rows.map_values(|r: Record| r@), a),
{
    let rv = rows.map_values(|r: Record| r@);
    assert(rv.len() == rows.len());
    assert forall|i: int, j: int| #[trigger] is_pair_v(rv, i, j) <==> is_pair(rows, i, j) by {
        if 0 <= i < rows.len() && 0 <= j < rows.len() {
            assert(rv[i] == rows[i]@ && rv[j] == rows[j]@);
        }
    }
    assert forall|a: int| #[trigger] has_partner_v(rv, a) <==> has_partner(rows, a) by {
        if has_partner_v(rv, a) {
            let j = choose|j: int| is_pair_v(rv, a, j);
            assert(is_pair(rows, a, j));
        }
        if has_partner(rows, a) {
            let j = choose|j: int| is_pair(rows, a, j);
            assert(is_pair_v(rv, a, j));
        }
    }
    assert forall|a: int, id: int|
        0 <= a < rows.len() implies ((#[trigger] in_cluster_of(rows, a, id)) <==> in_cluster_of_v(
        rv,
        a,
        id,
    )) by {
        assert(rv[a] == rows[a]@);
        if in_cluster_of_v(rv, a, id) && id != rv[a].id {
            let j = choose|j: int| is_pair_v(rv, a, j) && (#[trigger] rv[j]).id == id;
            assert(is_pair(rows, a, j) && rows[j]@.id == id);
        }
        if in_cluster_of(rows, a, id) && id != rows[a]@.id {
            let j = choose|j: int| is_pair(rows, a, j) && (#[trigger] rows[j])@.id == id;
            assert(is_pair_v(rv, a, j) && rv[j].id == id);
        }
    }
}

/// A strictly ascending list contained in another is no longer, and
/// two of equal length coincide.
pub proof fn lemma_sorted_subset_len(x: Seq<i64>, y: Seq<i64>)
    requires
        sorted_ids(x),
        sorted_ids(y),
        forall|v: i64| x.contains(v) ==> y.contains(v),
    ensures
        x.len() <= y.len(),
        x.len() == y.len() ==> x == y,
    decreases x.len(),
{
    if x.len() == 0 {
        if x.len() == y.len() {
            assert(x =~= y);
        }
    } else {
        assert(x.contains(x.last()));
        assert(y.contains(x.last()));
        let t = choose|t: int| 0 <= t < y.len() && y[t] == x.last();
        let xp = x.drop_last();
        let yp = y.subrange(0, t);
        assert(sorted_ids(xp)) by {
            assert(forall|i: int| 0 <= i < xp.len() ==> xp[i] == x[i]);
        }
        assert(sorted_ids(yp)) by {
            assert(forall|i: int| 0 <= i < yp.len() ==> yp[i] == y[i]);
        }
        assert forall|v: i64| xp.contains(v) implies yp.contains(v) by {
            let i = choose|i: int| 0 <= i < xp.len() && xp[i] == v;
            assert(x[i] == v);
            assert(v < x.last());
            assert(x.contains(v));
            assert(y.contains(v));
            let u = choose|u: int| 0 <= u < y.len() && y[u] == v;
            assert(u < t) by {
                if u > t {
                    assert(y[t] < y[u]);
                }
            }
            assert(yp[u] == v);
        }
        lemma_sorted_subset_len(xp, yp);
        assert(x.len() <= t + 1);
        assert(x.len() <= y.len());
        if x.len() == y.len() {
            assert(t == y.len() - 1) by {
                if t < y.len() - 1 {
                    assert(x.len() - 1 <= t);
                }
            }
            assert(xp.len() == yp.len());
            assert(xp == yp);
            assert forall|i: int| 0 <= i < x.len() implies x[i] == y[i] by {
                if i < x.len() - 1 {
                    assert(x[i] == xp[i] && xp[i] == yp[i] && yp[i] == y[i]);
                } else {
                    assert(x[i] == x.last() && y[i] == y[t]);
                }
            }
            assert(x =~= y);
        }
    }
}

/// One id list is contained in another.
pub open spec fn subset_ids(x: Seq<i64>, y: Seq<i64>) -> bool {
    forall|id: i64| x.contains(id) ==> y.contains(id)
}

/// The candidate cluster at position `a` is subsumed: some other
/// candidate carries all its ids and is either strictly larger or, on
/// an equal id set, has the numerically smaller anchor.
pub open spec fn subsumed(cs: Seq<ClusterRow>, a: int) -> bool {
    exists|b: int|
        0 <= b < cs.len() && b != a && subset_ids(cs[a].member_ids@, (#[trigger] cs[b]).member_ids@)
            && (cs[a].member_ids@.len() < cs[b].member_ids@.len() || (cs[a].member_ids@.len()
            == cs[b].member_ids@.len() && cs[b].row@.id < cs[a].row@.id))
}

/// Whether an id list holds the given id.
pub fn contains_id(v: &Vec<i64>, id: i64) -> (b: bool)
    ensures
        b == v@.contains(id),
{
    let mut t: usize = 0;
    while t < v.len()
        invariant
            t <= v@.len(),
            forall|u: int| 0 <= u < t ==> v@[u] != id,
        decreases v@.len() - t,
    {
        if v[t] == id {
            return true;
        }
        t = t + 1;
    }
    proof {
        if v@.contains(id) {
            let u = choose|u: int| 0 <= u < v@.len() && v@[u] == id;
        }
    }
    false
}

/// Executable test for [`subset_ids`].
pub fn is_subset_ids(x: &Vec<i64>, y: &Vec<i64>) -> (b: bool)
    ensures
        b == subset_ids(x@, y@),
{
    let mut t: usize = 0;
    while t < x.len()
        invariant
            t <= x@.len(),
            forall|u: int| 0 <= u < t ==> y@.contains(#[trigger] x@[u]),
        decreases x@.len() - t,
    {
        if !contains_id(y, x[t]) {
            proof {
                assert(x@.contains(x@[t as int]));
            }
            return false;
        }
        t = t + 1;
    }
    proof {
        assert forall|id: i64| x@.contains(id) implies y@.contains(id) by {
            let u = choose|u: int| 0 <= u < x@.len() && x@[u] == id;
        }
    }
    true
}

/// A copy of an id list.
fn copy_ids(v: &Vec<i64>) -> (r: Vec<i64>)
    ensures
        r@ == v@,
{
    let mut r: Vec<i64> = Vec::new();
    let mut t: usize = 0;
    while t < v.len()
        invariant
            t <= v@.len(),
            r@ == v@.subrange(0, t as int),
        decreases v@.len() - t,
    {
        r.push(v[t]);
        t = t + 1;
        proof {
            assert(r@ =~= v@.subrange(0, t as int));
        }
    }
    proof {
        assert(r@ =~= v@);
    }
    r
}

/// Drops every subsumed candidate cluster.  What remains are the
/// maximal clusters: none of them carries an id set contained in
/// another's, and on equal id sets only the numerically smallest
/// anchor survives.
#[verifier::rlimit(80)]
pub fn prune_subsets(cs: &Vec<ClusterRow>) -> (r: (Vec<ClusterRow>, Ghost<Seq<int>>))
    ensures
        ({
            let kept = r.0;
            let picks = r.1@;
            &&& picks.len() == kept@.len()
            &&& forall|k1: int, k2: int| 0 <= k1 < k2 < picks.len() ==> picks[k1] < picks[k2]
            &&& forall|k: int|
                0 <= k < picks.len() ==> 0 <= #[trigger] picks[k] < cs@.len() && !subsumed(
                    cs@,
                    picks[k],
                ) && kept@[k].row@ == cs@[picks[k]].row@ && kept@[k].member_ids@
                    == cs@[picks[k]].member_ids@
            &&& forall|a: int| 0 <= a < cs@.len() && !subsumed(cs@, a) ==> picks.contains(a)
            &&& forall|k1: int, k2: int|
                0 <= k1 < kept@.len() && 0 <= k2 < kept@.len() && k1 != k2 ==> !(subset_ids(
                    (#[trigger] kept@[k1]).member_ids@,
                    (#[trigger] kept@[k2]).member_ids@,
                ) && (kept@[k1].member_ids@.len() < kept@[k2].member_ids@.len() || (kept@[k1]
                    .member_ids@.len() == kept@[k2].member_ids@.len() && kept@[k2].row@.id < kept@[
                k1].row@.id)))
        }),
{
    let n = cs.len();
    let mut kept: Vec<ClusterRow> = Vec::new();
    let ghost mut picks: Seq<int> = Seq::empty();
    let mut a: usize = 0;
    while a < n
        invariant
            a <= n,
            n == cs@.len(),
            kept@.len() == picks.len(),
            forall|k: int| 0 <= k < picks.len() ==> 0 <= #[trigger] picks[k] < a,
            forall|k1: int, k2: int| 0 <= k1 < k2 < picks.len() ==> picks[k1] < picks[k2],
            forall|k: int|
                0 <= k < picks.len() ==> !subsumed(cs@, picks[k]) && (#[trigger] kept@[k]).row@
                    == cs@[picks[k]].row@ && kept@[k].member_ids@ == cs@[picks[k]].member_ids@,
            forall|b: int| 0 <= b < a && !subsumed(cs@, b) ==> picks.contains(b),
        decreases n - a,
    {
        let ghost oldpicks = picks;
        let mut drop_it: bool = false;
        let mut b: usize = 0;
        while b < n
            invariant
                b <= n,
                n == cs@.len(),
                a < n,
                drop_it ==> subsumed(cs@, a as int),
                !drop_it ==> forall|bb: int|
                    0 <= bb < b && bb != a as int ==> !(subset_ids(
                        cs@[a as int].member_ids@,
                        (#[trigger] cs@[bb]).member_ids@,
                    ) && (cs@[a as int].member_ids@.len() < cs@[bb].member_ids@.len() || (cs@[
                    a as int].member_ids@.len() == cs@[bb].member_ids@.len() && cs@[bb].row@.id
                        < cs@[a as int].row@.id))),
            decreases n - b,
        {
            if b != a && !drop_it {
                let sub = is_subset_ids(&cs[a].member_ids, &cs[b].member_ids);
                let bigger = cs[b].member_ids.len() > cs[a].member_ids.len();
                let tie = cs[b].member_ids.len() == cs[a].member_ids.len() && cs[b].row.id
                    < cs[a].row.id;
                if sub && (bigger || tie) {
                    drop_it = true;
                }
            }
            b = b + 1;
        }
        if !drop_it {
            proof {
                assert(!subsumed(cs@, a as int)) by {
                    if subsumed(cs@, a as int) {
                        let bb = choose|bb: int|
                            0 <= bb < cs@.len() && bb != a as int && subset_ids(
                                cs@[a as int].member_ids@,
                                (#[trigger] cs@[bb]).member_ids@,
                            ) && (cs@[a as int].member_ids@.len() < cs@[bb].member_ids@.len() || (
                            cs@[a as int].member_ids@.len() == cs@[bb].member_ids@.len() && cs@[bb]
                                .row@.id < cs@[a as int].row@.id));
                    }
                }
            }
            let c = ClusterRow {
                row: cs[a].row.duplicate(),
                member_ids: copy_ids(&cs[a].member_ids),
            };
            kept.push(c);
            proof {
                picks = picks.push(a as int);
            }
        }
        a = a + 1;
        proof {
            assert forall|bb: int| 0 <= bb < a && !subsumed(cs@, bb) implies picks.contains(
                bb,
            ) by {
                if bb < a - 1 {
                    assert(oldpicks.contains(bb));
                    let k = choose|k: int| 0 <= k < oldpicks.len() && oldpicks[k] == bb;
                    assert(picks[k] == bb);
                } else {
                    assert(!drop_it);
                    assert(picks.last() == bb);
                }
            }
        }
    }
    proof {
        assert forall|k1: int, k2: int|
            0 <= k1 < kept@.len() && 0 <= k2 < kept@.len() && k1 != k2 implies !(subset_ids(
            (#[trigger] kept@[k1]).member_ids@,
            (#[trigger] kept@[k2]).member_ids@,
        ) && (kept@[k1].member_ids@.len() < kept@[k2].member_ids@.len() || (kept@[k1]
            .member_ids@.len() == kept@[k2].member_ids@.len() && kept@[k2].row@.id < kept@[k1]
            .row@.id))) by {
            let a1 = picks[k1];
            let a2 = picks[k2];
            assert(a1 != a2) by {
                if k1 < k2 {
                    assert(picks[k1] < picks[k2]);
                } else {
                    assert(picks[k2] < picks[k1]);
                }
            }
            if subset_ids(kept@[k1].member_ids@, kept@[k2].member_ids@) && (kept@[k1]
                .member_ids@.len() < kept@[k2].member_ids@.len() || (kept@[k1].member_ids@.len()
                == kept@[k2].member_ids@.len() && kept@[k2].row@.id < kept@[k1].row@.id)) {
                assert(subsumed(cs@, a1));
            }
        }
    }
    (kept, Ghost(picks))
}

/// Orders clusters by their anchor id, ascending.  The returned ghost
/// sequence names, for each output position, the input position it
/// came from: a bijection witnessing that only the order changed.
#[verifier::rlimit(60)]
pub fn sort_clusters(cs: &Vec<ClusterRow>) -> (r: (Vec<ClusterRow>, Ghost<Seq<int>>))
    requires
        forall|k1: int, k2: int|
            0 <= k1 < cs@.len() && 0 <= k2 < cs@.len() && k1 != k2 ==> (
            #[trigger] cs@[k1]).row@.id != (#[trigger] cs@[k2]).row@.id,
    ensures
        ({
            let out = r.0;
            let perm = r.1@;
            &&& out@.len() == cs@.len()
            &&& perm.len() == cs@.len()
            &&& forall|k: int|
                0 <= k < perm.len() ==> 0 <= #[trigger] perm[k] < cs@.len() && out@[k].row@
                    == cs@[perm[k]].row@ && out@[k].member_ids@ == cs@[perm[k]].member_ids@
            &&& forall|k1: int, k2: int|
                0 <= k1 < perm.len() && 0 <= k2 < perm.len() && k1 != k2 ==> (#[trigger] perm[k1])
                    != (#[trigger] perm[k2])
            &&& forall|j: int| 0 <= j < cs@.len() ==> perm.contains(j)
            &&& forall|k1: int, k2: int|
                0 <= k1 < k2 < out@.len() ==> (#[trigger] out@[k1]).row@.id < (
                #[trigger] out@[k2]).row@.id
        }),
{
    let mut out: Vec<ClusterRow> = Vec::new();
    let ghost mut perm: Seq<int> = Seq::empty();
    let mut i: usize = 0;
    while i < cs.len()
        invariant
            i <= cs@.len(),
            forall|k1: int, k2: int|
                0 <= k1 < cs@.len() && 0 <= k2 < cs@.len() && k1 != k2 ==> (
                #[trigger] cs@[k1]).row@.id != (#[trigger] cs@[k2]).row@.id,
            out@.len() == i,
            perm.len() == i,
            forall|k: int|
                0 <= k < perm.len() ==> 0 <= #[trigger] perm[k] < i && out@[k].row@
                    == cs@[perm[k]].row@ && out@[k].member_ids@ == cs@[perm[k]].member_ids@,
            forall|k1: int, k2: int|
                0 <= k1 < perm.len() && 0 <= k2 < perm.len() && k1 != k2 ==> (#[trigger] perm[k1])
                    != (#[trigger] perm[k2]),
            forall|j: int| 0 <= j < i ==> perm.contains(j),
            forall|k1: int, k2: int|
                0 <= k1 < k2 < out@.len() ==> (#[trigger] out@[k1]).row@.id < (
                #[trigger] out@[k2]).row@.id,
        decreases cs@.len() - i,
    {
        let x = ClusterRow { row: cs[i].row.duplicate(), member_ids: copy_ids(&cs[i].member_ids) };
        let mut pos: usize = 0;
        while pos < out.len() && out[pos].row.id < x.row.id
            invariant
                pos <= out@.len(),
                x.row@ == cs@[i as int].row@,
                forall|q: int| 0 <= q < pos ==> (#[trigger] out@[q]).row@.id < x.row@.id,
            decreases out@.len() - pos,
        {
            pos = pos + 1;
        }
        proof {
            // Everything at or after the insertion point is strictly
            // larger: equality is impossible among distinct anchors.
            assert forall|q: int| pos <= q < out@.len() implies x.row@.id < (
            #[trigger] out@[q]).row@.id by {
                assert(out@[q].row@ == cs@[perm[q]].row@);
                assert(perm[q] != i as int);
                assert(cs@[perm[q]].row@.id != cs@[i as int].row@.id);
                if q > pos as int {
                    assert(out@[pos as int].row@.id < out@[q].row@.id);
                    assert(!(out@[pos as int].row@.id < x.row@.id));
                } else {
                    assert(!(out@[q].row@.id < x.row@.id));
                }
            }
        }
        let ghost oldout = out@;
        let ghost oldperm = perm;
        out.insert(pos, x);
        proof {
            perm = perm.insert(pos as int, i as int);
            assert(perm.len() == oldperm.len() + 1);
            assert forall|k: int|
                0 <= k < perm.len() implies 0 <= #[trigger] perm[k] < i + 1 && out@[k].row@
                == cs@[perm[k]].row@ && out@[k].member_ids@ == cs@[perm[k]].member_ids@ by {
                if k < pos {
                    assert(perm[k] == oldperm[k] && out@[k] == oldout[k]);
                } else if k == pos {
                    assert(perm[k] == i as int);
                } else {
                    assert(perm[k] == oldperm[k - 1] && out@[k] == oldout[k - 1]);
                }
            }
            assert forall|k1: int, k2: int|
                0 <= k1 < perm.len() && 0 <= k2 < perm.len() && k1 != k2 implies (
            #[trigger] perm[k1]) != (#[trigger] perm[k2]) by {
                let v1 = if k1 < pos {
                    oldperm[k1]
                } else if k1 == pos {
                    i as int
                } else {
                    oldperm[k1 - 1]
                };
                assert(perm[k1] == v1);
                let v2 = if k2 < pos {
                    oldperm[k2]
                } else if k2 == pos {
                    i as int
                } else {
                    oldperm[k2 - 1]
                };
                assert(perm[k2] == v2);
            }
            assert forall|j: int| 0 <= j < i + 1 implies perm.contains(j) by {
                if j == i as int {
                    assert(perm[pos as int] == j);
                } else {
                    assert(oldperm.contains(j));
                    let k = choose|k: int| 0 <= k < oldperm.len() && oldperm[k] == j;
                    if k < pos {
                        assert(perm[k] == j);
                    } else {
                        assert(perm[k + 1] == j);
                    }
                }
            }
            assert forall|k1: int, k2: int|
                0 <= k1 < k2 < out@.len() implies (#[trigger] out@[k1]).row@.id < (
            #[trigger] out@[k2]).row@.id by {
                let w1 = if k1 < pos {
                    oldout[k1]
                } else if k1 == pos {
                    x
                } else {
                    oldout[k1 - 1]
                };
                assert(out@[k1] == w1);
                let w2 = if k2 < pos {
                    oldout[k2]
                } else if k2 == pos {
                    x
                } else {
                    oldout[k2 - 1]
                };
                assert(out@[k2] == w2);
            }
        }
        i = i + 1;
    }
    (out, Ghost(perm))
}

/// Collects the union of the member ids of the given clusters, first
/// appearance first, without repetition.
pub fn collect_absorbed(kept: &Vec<ClusterRow>) -> (ab: Vec<i64>)
    ensures
        forall|id: i64|
            ab@.contains(id) <==> exists|k: int|
                0 <= k < kept@.len() && (#[trigger] kept@[k]).member_ids@.contains(id),
        forall|t1: int, t2: int| 0 <= t1 < t2 < ab@.len() ==> ab@[t1] != ab@[t2],
{
    let mut ab: Vec<i64> = Vec::new();
    let mut k: usize = 0;
    while k < kept.len()
        invariant
            k <= kept@.len(),
            forall|id: i64|
                ab@.contains(id) <==> exists|kk: int|
                    0 <= kk < k && (#[trigger] kept@[kk]).member_ids@.contains(id),
            forall|t1: int, t2: int| 0 <= t1 < t2 < ab@.len() ==> ab@[t1] != ab@[t2],
        decreases kept@.len() - k,
    {
        let ids = &kept[k].member_ids;
        let mut t: usize = 0;
        while t < ids.len()
            invariant
                t <= ids@.len(),
                ids@ == kept@[k as int].member_ids@,
                k < kept@.len(),
                forall|id: i64|
                    ab@.contains(id) <==> ((exists|kk: int|
                        0 <= kk < k && (#[trigger] kept@[kk]).member_ids@.contains(id)) || (
                    exists|u: int| 0 <= u < t && (#[trigger] ids@[u]) == id)),
                forall|t1: int, t2: int| 0 <= t1 < t2 < ab@.len() ==> ab@[t1] != ab@[t2],
            decreases ids@.len() - t,
        {
            let ghost oldab = ab@;
            if !contains_id(&ab, ids[t]) {
                ab.push(ids[t]);
                proof {
                    assert forall|t1: int, t2: int| 0 <= t1 < t2 < ab@.len() implies ab@[t1]
                        != ab@[t2] by {
                        if t2 == ab@.len() - 1 {
                            assert(oldab.contains(oldab[t1]));
                        }
                    }
                }
            }
            t = t + 1;
            proof {
                assert forall|id: i64| ab@.contains(id) implies ((exists|kk: int|
                    0 <= kk < k && (#[trigger] kept@[kk]).member_ids@.contains(id)) || (
                exists|u: int| 0 <= u < t && (#[trigger] ids@[u]) == id)) by {
                    if oldab.contains(id) {
                    } else {
                        let w = choose|w: int| 0 <= w < ab@.len() && ab@[w] == id;
                        assert(ab@[ab@.len() - 1] == ids@[t - 1]);
                        assert(w == ab@.len() - 1);
                    }
                }
                assert forall|id: i64| ((exists|kk: int|
                    0 <= kk < k && (#[trigger] kept@[kk]).member_ids@.contains(id)) || (
                exists|u: int| 0 <= u < t && (#[trigger] ids@[u]) == id)) implies ab@.contains(
                    id,
                ) by {
                    let grew = ab@.len() > oldab.len();
                    if exists|kk: int|
                        0 <= kk < k && (#[trigger] kept@[kk]).member_ids@.contains(id) {
                        assert(oldab.contains(id));
                        let w = choose|w: int| 0 <= w < oldab.len() && oldab[w] == id;
                        assert(ab@[w] == id);
                    } else {
                        let u = choose|u: int| 0 <= u < t && (#[trigger] ids@[u]) == id;
                        if u < t - 1 {
                            assert(oldab.contains(id));
                            let w = choose|w: int| 0 <= w < oldab.len() && oldab[w] == id;
                            assert(ab@[w] == id);
                        } else {
                            if grew {
                                assert(ab@[ab@.len() - 1] == id);
                            } else {
                                assert(oldab.contains(id));
                                let w = choose|w: int| 0 <= w < oldab.len() && oldab[w] == id;
                                assert(ab@[w] == id);
                            }
                        }
                    }
                }
            }
        }
        k = k + 1;
        proof {
            assert forall|id: i64| ab@.contains(id) implies exists|kk: int|
                0 <= kk < k && (#[trigger] kept@[kk]).member_ids@.contains(id) by {
                assert(ids@ == kept@[k - 1].member_ids@);
            }
            assert forall|id: i64|
                (exists|kk: int| 0 <= kk < k && (#[trigger] kept@[kk]).member_ids@.contains(id))
                    implies ab@.contains(id) by {
                let kk = choose|kk: int|
                    0 <= kk < k && (#[trigger] kept@[kk]).member_ids@.contains(id);
                if kk < k - 1 {
                } else {
                    let u = choose|u: int| 0 <= u < ids@.len() && ids@[u] == id;
                }
            }
        }
    }
    ab
}

} // verus!
