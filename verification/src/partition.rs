//! The partitioner: splits the candidate rows into independent work
//! units keyed by the normalized last name.  A name that occurs only
//! once cannot take part in a duplicate pair, so its row is left out.
//! The matching predicate demands name equality, so no candidate pair
//! crosses a shard.

use vstd::prelude::*;
use crate::dedup::is_pair;
use crate::frame::{cell_eq_x, string_eq, Record, RecordV};

verus! {

/// The rows of the frame carrying exactly this name, in input order,
/// as record values.
pub open spec fn with_nom(rows: Seq<Record>, v: Seq<char>) -> Seq<RecordV>
    decreases rows.len(),
{
    if rows.len() == 0 {
        Seq::empty()
    } else {
        let rest = with_nom(rows.drop_last(), v);
        if rows.last()@.nom == Some(v) {
            rest.push(rows.last()@)
        } else {
            rest
        }
    }
}

/// Every row with this name appears in [`with_nom`].
pub proof fn lemma_with_nom_contains(rows: Seq<Record>, v: Seq<char>, i: int)
    requires
        0 <= i < rows.len(),
        rows[i]@.nom == Some(v),
    ensures
        with_nom(rows, v).contains(rows[i]@),
    decreases rows.len(),
{
    if i == rows.len() - 1 {
        assert(with_nom(rows, v).last() == rows[i]@);
    } else {
        lemma_with_nom_contains(rows.drop_last(), v, i);
        let prev = with_nom(rows.drop_last(), v);
        let t = choose|t: int| 0 <= t < prev.len() && prev[t] == rows.drop_last()[i]@;
        assert(with_nom(rows, v)[t] == prev[t]);
        assert(rows.drop_last()[i] == rows[i]);
    }
}

/// One shard of candidate rows, all carrying the same name.
pub struct Shard {
    pub nom: String,
    pub rows: Vec<Record>,
}

/// Shards the candidate rows by name: one shard per distinct
/// non-null name that at least two rows carry, holding exactly the
/// rows with that name, in input order.
pub fn partition_candidates(rows: &Vec<Record>) -> (shards: Vec<Shard>)
    ensures
        forall|s: int|
            0 <= s < shards@.len() ==> (#[trigger] shards@[s]).rows@.map_values(|r: Record| r@)
                == with_nom(rows@, shards@[s].nom@) && shards@[s].rows@.len() >= 2,
        forall|s1: int, s2: int|
            0 <= s1 < shards@.len() && 0 <= s2 < shards@.len() && s1 != s2 ==> (
            #[trigger] shards@[s1]).nom@ != (#[trigger] shards@[s2]).nom@,
        forall|i: int|
            0 <= i < rows@.len() && (#[trigger] rows@[i])@.nom is Some && with_nom(
                rows@,
                rows@[i]@.nom->0,
            ).len() >= 2 ==> exists|s: int|
                0 <= s < shards@.len() && (#[trigger] shards@[s]).nom@ == rows@[i]@.nom->0,
{
    let n = rows.len();
    let mut shards: Vec<Shard> = Vec::new();
    let mut i: usize = 0;
    while i < n
        invariant
            i <= n,
            n == rows@.len(),
            forall|s: int|
                0 <= s < shards@.len() ==> (#[trigger] shards@[s]).rows@.map_values(
                    |r: Record| r@,
                ) == with_nom(rows@, shards@[s].nom@) && shards@[s].rows@.len() >= 2,
            forall|s1: int, s2: int|
                0 <= s1 < shards@.len() && 0 <= s2 < shards@.len() && s1 != s2 ==> (
                #[trigger] shards@[s1]).nom@ != (#[trigger] shards@[s2]).nom@,
            forall|t: int|
                0 <= t < i && (#[trigger] rows@[t])@.nom is Some && with_nom(
                    rows@,
                    rows@[t]@.nom->0,
                ).len() >= 2 ==> exists|s: int|
                    0 <= s < shards@.len() && (#[trigger] shards@[s]).nom@ == rows@[t]@.nom->0,
        decreases n - i,
    {
        let ghost oldshards = shards@;
        match &rows[i].nom {
            None => {},
            Some(v) => {
                // Has this name been sharded already?
                let mut seen = false;
                let mut s: usize = 0;
                while s < shards.len()
                    invariant
                        s <= shards@.len(),
                        i < n,
                        n == rows@.len(),
                        rows@[i as int]@.nom == Some(v@),
                        seen ==> exists|ss: int|
                            0 <= ss < shards@.len() && (#[trigger] shards@[ss]).nom@ == v@,
                        !seen ==> forall|ss: int|
                            0 <= ss < s ==> (#[trigger] shards@[ss]).nom@ != v@,
                    decreases shards@.len() - s,
                {
                    if string_eq(&shards[s].nom, v) {
                        seen = true;
                    }
                    s = s + 1;
                }
                if !seen {
                    // Collect every row with this name.
                    let mut members: Vec<Record> = Vec::new();
                    let mut j: usize = 0;
                    proof {
                        assert(members@.map_values(|r: Record| r@) =~= with_nom(
                            rows@.subrange(0, 0),
                            v@,
                        ));
                    }
                    while j < n
                        invariant
                            j <= n,
                            n == rows@.len(),
                            i < n,
                            rows@[i as int]@.nom == Some(v@),
                            members@.map_values(|r: Record| r@) == with_nom(
                                rows@.subrange(0, j as int),
                                v@,
                            ),
                        decreases n - j,
                    {
                        let ghost pre = rows@.subrange(0, j as int);
                        proof {
                            assert(rows@.subrange(0, j as int + 1).drop_last() =~= pre);
                            assert(rows@.subrange(0, j as int + 1).last() == rows@[j as int]);
                        }
                        let ghost oldm = members@;
                        if cell_eq_x(&rows[j].nom, &rows[i].nom) {
                            proof {
                                assert(rows@[j as int]@.nom == Some(v@));
                            }
                            members.push(rows[j].duplicate());
                        } else {
                            proof {
                                assert(rows@[j as int]@.nom != Some(v@));
                            }
                        }
                        j = j + 1;
                        proof {
                            assert(members@.map_values(|r: Record| r@) =~= with_nom(
                                rows@.subrange(0, j as int),
                                v@,
                            ));
                        }
                    }
                    proof {
                        assert(rows@.subrange(0, n as int) =~= rows@);
                    }
                    if members.len() >= 2 {
                        let nomcopy = match crate::frame::clone_cell(&rows[i].nom) {
                            Some(x) => x,
                            None => String::new(),
                        };
                        proof {
                            assert(nomcopy@ == v@);
                        }
                        shards.push(Shard { nom: nomcopy, rows: members });
                        proof {
                            assert(shards@.last().nom@ == v@);
                            assert(exists|s: int|
                                0 <= s < shards@.len() && (#[trigger] shards@[s]).nom@ == rows@[
                            i as int]@.nom->0) by {
                                assert(shards@[shards@.len() - 1].nom@ == rows@[i as int]@.nom
                                    ->0);
                            }
                        }
                    } else {
                        proof {
                            assert(members@.map_values(|r: Record| r@).len() == members@.len());
                            assert(with_nom(rows@, rows@[i as int]@.nom->0).len() < 2);
                        }
                    }
                } else {
                    proof {
                        assert(exists|s: int|
                            0 <= s < shards@.len() && (#[trigger] shards@[s]).nom@ == rows@[
                        i as int]@.nom->0) by {
                            let ss = choose|ss: int|
                                0 <= ss < shards@.len() && (#[trigger] shards@[ss]).nom@ == v@;
                        }
                    }
                }
                proof {
                    assert(with_nom(rows@, rows@[i as int]@.nom->0).len() < 2 || exists|s: int|
                        0 <= s < shards@.len() && (#[trigger] shards@[s]).nom@ == rows@[i as int]@.nom
                            ->0);
                }
            },
        }
        i = i + 1;
        proof {
            assert(oldshards.len() <= shards@.len());
            assert(forall|k: int| 0 <= k < oldshards.len() ==> #[trigger] shards@[k] == oldshards[k]);
            assert forall|t: int|
                0 <= t < i && (#[trigger] rows@[t])@.nom is Some && with_nom(
                    rows@,
                    rows@[t]@.nom->0,
                ).len() >= 2 implies exists|s: int|
                0 <= s < shards@.len() && (#[trigger] shards@[s]).nom@ == rows@[t]@.nom->0 by {
                if t < i - 1 {
                    let ss = choose|ss: int|
                        0 <= ss < oldshards.len() && (#[trigger] oldshards[ss]).nom@ == rows@[t]@.nom
                            ->0;
                    assert(shards@[ss].nom@ == rows@[t]@.nom->0);
                }
            }
        }
    }
    shards
}

/// A candidate pair never crosses a shard: both of its rows carry the
/// shard's name and stand in that one shard.
pub proof fn lemma_pair_in_one_shard(
    rows: Seq<Record>,
    shards: Seq<Shard>,
    i: int,
    j: int,
    s: int,
)
    requires
        is_pair(rows, i, j),
        0 <= s < shards.len(),
        shards[s].nom@ == rows[i]@.nom->0,
        shards[s].rows@.map_values(|r: Record| r@) == with_nom(rows, shards[s].nom@),
    ensures
        shards[s].rows@.map_values(|r: Record| r@).contains(rows[i]@),
        shards[s].rows@.map_values(|r: Record| r@).contains(rows[j]@),
{
    let v = shards[s].nom@;
    assert(rows[i]@.nom == Some(v));
    assert(rows[j]@.nom == Some(v));
    lemma_with_nom_contains(rows, v, i);
    lemma_with_nom_contains(rows, v, j);
}

} // verus!
