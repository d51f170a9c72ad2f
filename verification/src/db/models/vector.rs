//! Vector rows: one (word, kind, position, weight) fact per scalar component
//! of an embedding. Rows are write-only: appended in batches that commit or
//! fail as a whole, never updated, and read back ordered by position.

use vstd::prelude::*;
use crate::db::models::kind::Kind;
use crate::db::models::word::Word;
use crate::db::store::Store;
use crate::db::store::StoreModel;
use crate::db::store::VectorModel;
use crate::db::store::insert_sorted;
use crate::db::store::matching;
use crate::db::store::points_of;
use crate::db::store::rows_insertable;
use crate::db::store::same_key;
use crate::db::store::sort_by_pos;
use crate::db::store::spec_add_vectors;
use crate::db::store::spec_rows;
use crate::db::store::vectors_model;
use crate::wordvector::Weight;
use crate::wordvector::weights_of;

verus! {

/// A vector row, keyed by (word, kind, position).
#[derive(Debug, PartialEq)]
pub struct Vector {
    pub word_id: i32,
    pub kind_id: i32,
    pub position: i32,
    pub point: Weight,
}

impl Vector {
    pub open spec fn model(self) -> VectorModel {
        VectorModel {
            word_id: self.word_id as int,
            kind_id: self.kind_id as int,
            position: self.position as int,
            point: self.point@,
        }
    }

    /// One row of one embedding.
    pub fn new(word: &Word, kind: &Kind, position: i32, point: Weight) -> (r: Vector)
        ensures
            r.model() == (VectorModel {
                word_id: word.id as int,
                kind_id: kind.id as int,
                position: position as int,
                point: point@,
            }),
    {
        Vector { word_id: word.id, kind_id: kind.id, position, point }
    }

    /// The rows of a whole embedding: weight k at position k, in source
    /// order.
    pub fn from_vec(word: &Word, kind: &Kind, points: &[Weight]) -> (r: Vec<Vector>)
        requires
            points@.len() <= i32::MAX,
        ensures
            vectors_model(r@) == spec_rows(
                word.id as int,
                kind.id as int,
                weights_of(points@),
            ),
    {
        let ghost expected = spec_rows(
            word.id as int,
            kind.id as int,
            weights_of(points@),
        );
        let mut out: Vec<Vector> = Vec::new();
        let len = points.len();
        let mut i: usize = 0;
        while i < len
            invariant
                0 <= i <= len,
                len == points@.len() <= i32::MAX,
                expected == spec_rows(
                    word.id as int,
                    kind.id as int,
                    weights_of(points@),
                ),
                out@.len() == i,
                forall|k: int| 0 <= k < i ==> out@[k].model() == expected[k],
            decreases len - i,
        {
            let row = Vector {
                word_id: word.id,
                kind_id: kind.id,
                position: i as i32,
                point: points[i].clone(),
            };
            proof {
                assert(weights_of(points@)[i as int] == points@[i as int]@);
            }
            out.push(row);
            i = i + 1;
        }
        proof {
            assert(vectors_model(out@) =~= expected);
        }
        out
    }
}

impl Clone for Vector {
    fn clone(&self) -> (r: Self)
        ensures
            r == *self,
    {
        Vector {
            word_id: self.word_id,
            kind_id: self.kind_id,
            position: self.position,
            point: self.point.clone(),
        }
    }
}

fn keys_equal(a: &Vector, b: &Vector) -> (r: bool)
    ensures
        r == same_key(a.model(), b.model()),
{
    a.word_id == b.word_id && a.kind_id == b.kind_id && a.position == b.position
}

/// Appends a batch of rows as one transaction: every row is inserted and the
/// count returned, unless a composite key collides (within the batch or with
/// a stored row), in which case nothing changes and zero is reported.
pub fn add_vectors(conn: &mut Store, new_vectors: &[Vector]) -> (r: usize)
    requires
        old(conn).wf(),
    ensures
        final(conn).wf(),
        final(conn).model() == spec_add_vectors(
            old(conn).model(),
            vectors_model(new_vectors@),
        ).0,
        r as int == spec_add_vectors(old(conn).model(), vectors_model(new_vectors@)).1,
{
    let ghost em = old(conn).model().vectors;
    let ghost rm = vectors_model(new_vectors@);
    let rows_len = new_vectors.len();
    let existing_len = conn.vectors.len();
    let mut j: usize = 0;
    while j < rows_len
        invariant
            0 <= j <= rows_len,
            rows_len == new_vectors@.len(),
            existing_len == conn.vectors@.len(),
            em == conn.model().vectors,
            rm == vectors_model(new_vectors@),
            old(conn) == conn,
            old(conn).wf(),
            forall|a: int, b: int| 0 <= a < b < j ==> !same_key(rm[a], rm[b]),
            forall|a: int, b: int| 0 <= a < em.len() && 0 <= b < j ==> !same_key(em[a], rm[b]),
        decreases rows_len - j,
    {
        let mut e: usize = 0;
        while e < existing_len
            invariant
                0 <= e <= existing_len,
                existing_len == conn.vectors@.len(),
                em == conn.model().vectors,
                rm == vectors_model(new_vectors@),
                old(conn) == conn,
                old(conn).wf(),
                j < rows_len == new_vectors@.len(),
                forall|a: int| 0 <= a < e ==> !same_key(em[a], rm[j as int]),
            decreases existing_len - e,
        {
            if keys_equal(&conn.vectors[e], &new_vectors[j]) {
                proof {
                    assert(same_key(em[e as int], rm[j as int]));
                    assert(!rows_insertable(em, rm));
                }
                return 0;
            }
            e = e + 1;
        }
        let mut b: usize = 0;
        while b < j
            invariant
                0 <= b <= j < rows_len == new_vectors@.len(),
                rm == vectors_model(new_vectors@),
                old(conn) == conn,
                old(conn).wf(),
                em == conn.model().vectors,
                forall|a: int| 0 <= a < b ==> !same_key(rm[a], rm[j as int]),
            decreases j - b,
        {
            if keys_equal(&new_vectors[b], &new_vectors[j]) {
                proof {
                    assert(same_key(rm[b as int], rm[j as int]));
                    assert(!rows_insertable(em, rm));
                }
                return 0;
            }
            b = b + 1;
        }
        j = j + 1;
    }
    proof {
        assert(rows_insertable(em, rm));
    }
    let mut k: usize = 0;
    while k < rows_len
        invariant
            0 <= k <= rows_len,
            rows_len == new_vectors@.len(),
            rm == vectors_model(new_vectors@),
            rows_insertable(em, rm),
            conn.kinds@ == old(conn).kinds@,
            conn.words@ == old(conn).words@,
            conn.vectors@ == old(conn).vectors@ + new_vectors@.subrange(0, k as int),
            em == old(conn).model().vectors,
        decreases rows_len - k,
    {
        conn.vectors.push(new_vectors[k].clone());
        proof {
            assert(conn.vectors@ =~= old(conn).vectors@ + new_vectors@.subrange(0, k + 1));
        }
        k = k + 1;
    }
    proof {
        assert(conn.vectors@ =~= old(conn).vectors@ + new_vectors@);
        assert(conn.model().vectors =~= em + rm);
        assert(conn.model().kinds =~= old(conn).model().kinds);
        assert(conn.model().words =~= old(conn).model().words);
        assert(conn.model() == spec_add_vectors(old(conn).model(), rm).0);
        assert(conn.wf()) by {
            let vs = conn.model().vectors;
            assert forall|i: int, j2: int| 0 <= i < j2 < vs.len() implies !same_key(
                vs[i],
                vs[j2],
            ) by {
                if j2 < em.len() {
                    assert(vs[i] == em[i] && vs[j2] == em[j2]);
                } else if i < em.len() {
                    assert(vs[i] == em[i] && vs[j2] == rm[j2 - em.len()]);
                } else {
                    assert(vs[i] == rm[i - em.len()] && vs[j2] == rm[j2 - em.len()]);
                }
            }
        }
    }
    rows_len
}

fn insert_row(sorted: Vec<Vector>, v: Vector) -> (r: Vec<Vector>)
    ensures
        vectors_model(r@) == insert_sorted(vectors_model(sorted@), v.model()),
    decreases sorted@.len(),
{
    let ghost sm = vectors_model(sorted@);
    let mut sorted = sorted;
    match sorted.pop() {
        None => {
            proof {
                assert(sm.len() == 0);
            }
            sorted.push(v);
            proof {
                assert(vectors_model(sorted@) =~= insert_sorted(sm, v.model()));
            }
            sorted
        },
        Some(last) => {
            proof {
                assert(sorted@ =~= sorted@.push(last).drop_last());
                assert(sm.drop_last() =~= vectors_model(sorted@));
                assert(sm.last() == last.model());
            }
            if last.position <= v.position {
                sorted.push(last);
                sorted.push(v);
                proof {
                    assert(vectors_model(sorted@) =~= sm.push(v.model()));
                }
                sorted
            } else {
                let mut r = insert_row(sorted, v);
                r.push(last);
                proof {
                    assert(vectors_model(r@) =~= insert_sorted(sm.drop_last(), v.model()).push(
                        last.model(),
                    ));
                }
                r
            }
        },
    }
}

/// Reads one embedding back: the weights of every stored (word, kind) row,
/// ordered by position.
pub fn word_2_vector(conn: &Store, word: &Word, kind: &Kind) -> (r: Option<Vec<Weight>>)
    ensures
        r matches Some(ws) && weights_of(ws@) == points_of(
            sort_by_pos(matching(conn.model().vectors, word.id as int, kind.id as int)),
        ),
{
    let ghost vm = conn.model().vectors;
    let ghost wid = word.id as int;
    let ghost kid = kind.id as int;
    let len = conn.vectors.len();
    let mut rows: Vec<Vector> = Vec::new();
    let mut i: usize = 0;
    proof {
        assert(vm.take(0) =~= Seq::<VectorModel>::empty());
    }
    while i < len
        invariant
            0 <= i <= len,
            len == conn.vectors@.len(),
            vm == conn.model().vectors,
            wid == word.id as int,
            kid == kind.id as int,
            vectors_model(rows@) == matching(vm.take(i as int), wid, kid),
        decreases len - i,
    {
        proof {
            assert(vm.take(i + 1).drop_last() =~= vm.take(i as int));
            assert(vm.take(i + 1).last() == vm[i as int]);
        }
        if conn.vectors[i].word_id == word.id && conn.vectors[i].kind_id == kind.id {
            rows.push(conn.vectors[i].clone());
            proof {
                assert(vectors_model(rows@) =~= matching(vm.take(i as int), wid, kid).push(
                    vm[i as int],
                ));
                assert(matching(vm.take(i + 1), wid, kid) =~= matching(
                    vm.take(i as int),
                    wid,
                    kid,
                ).push(vm[i as int]));
            }
        } else {
            proof {
                assert(matching(vm.take(i + 1), wid, kid) =~= matching(vm.take(i as int), wid, kid)
                    + Seq::<VectorModel>::empty());
                assert(matching(vm.take(i + 1), wid, kid) =~= matching(
                    vm.take(i as int),
                    wid,
                    kid,
                ));
            }
        }
        i = i + 1;
    }
    proof {
        assert(vm.take(len as int) =~= vm);
    }
    let ghost mm = matching(vm, wid, kid);
    let rows_len = rows.len();
    let mut sorted: Vec<Vector> = Vec::new();
    let mut k: usize = 0;
    proof {
        assert(vectors_model(rows@).take(0) =~= Seq::<VectorModel>::empty());
        assert(vectors_model(sorted@) =~= sort_by_pos(vectors_model(rows@).take(0)));
    }
    while k < rows_len
        invariant
            0 <= k <= rows_len,
            rows_len == rows@.len(),
            vectors_model(rows@) == mm,
            vectors_model(sorted@) == sort_by_pos(mm.take(k as int)),
        decreases rows_len - k,
    {
        proof {
            assert(mm.take(k + 1).drop_last() =~= mm.take(k as int));
            assert(mm.take(k + 1).last() == mm[k as int]);
            assert(mm[k as int] == rows@[k as int].model());
        }
        sorted = insert_row(sorted, rows[k].clone());
        k = k + 1;
    }
    proof {
        assert(mm.take(rows_len as int) =~= mm);
    }
    let sorted_len = sorted.len();
    let mut out: Vec<Weight> = Vec::new();
    let mut m: usize = 0;
    while m < sorted_len
        invariant
            0 <= m <= sorted_len,
            sorted_len == sorted@.len(),
            vectors_model(sorted@) == sort_by_pos(mm),
            out@.len() == m,
            forall|a: int| 0 <= a < m ==> out@[a]@ == sort_by_pos(mm)[a].point,
        decreases sorted_len - m,
    {
        proof {
            assert(sort_by_pos(mm)[m as int] == sorted@[m as int].model());
        }
        out.push(sorted[m].point.clone());
        m = m + 1;
    }
    proof {
        assert(weights_of(out@) =~= points_of(sort_by_pos(mm)));
    }
    Some(out)
}

/// No row of `vs` matches the key.
proof fn lemma_matching_none(vs: Seq<VectorModel>, wid: int, kid: int)
    requires
        forall|i: int| 0 <= i < vs.len() ==> !(vs[i].word_id == wid && vs[i].kind_id == kid),
    ensures
        matching(vs, wid, kid) == Seq::<VectorModel>::empty(),
    decreases vs.len(),
{
    if vs.len() > 0 {
        lemma_matching_none(vs.drop_last(), wid, kid);
        assert(matching(vs, wid, kid) =~= Seq::<VectorModel>::empty());
    }
}

/// A freshly inserted embedding is all that matches its key.
proof fn lemma_matching_fresh(existing: Seq<VectorModel>, rows: Seq<VectorModel>, wid: int, kid: int)
    requires
        forall|i: int|
            0 <= i < existing.len() ==> !(existing[i].word_id == wid && existing[i].kind_id
                == kid),
        forall|k: int| 0 <= k < rows.len() ==> rows[k].word_id == wid && rows[k].kind_id == kid,
    ensures
        matching(existing + rows, wid, kid) == rows,
    decreases rows.len(),
{
    if rows.len() == 0 {
        assert(existing + rows =~= existing);
        lemma_matching_none(existing, wid, kid);
        assert(matching(existing + rows, wid, kid) =~= rows);
    } else {
        assert((existing + rows).drop_last() =~= existing + rows.drop_last());
        lemma_matching_fresh(existing, rows.drop_last(), wid, kid);
        assert((existing + rows).last() == rows.last());
        assert(matching(existing + rows, wid, kid) =~= rows);
    }
}

/// Sorting rows whose positions already strictly ascend is the identity.
proof fn lemma_sort_sorted(rows: Seq<VectorModel>)
    requires
        forall|i: int, j: int| 0 <= i < j < rows.len() ==> rows[i].position < rows[j].position,
    ensures
        sort_by_pos(rows) == rows,
    decreases rows.len(),
{
    if rows.len() > 0 {
        lemma_sort_sorted(rows.drop_last());
        if rows.len() == 1 {
            assert(sort_by_pos(rows) =~= rows);
        } else {
            assert(rows.drop_last().last() == rows[rows.len() - 2]);
            assert(rows.drop_last().last().position <= rows.last().position);
            assert(sort_by_pos(rows) =~= rows.drop_last().push(rows.last()));
            assert(rows.drop_last().push(rows.last()) =~= rows);
        }
    }
}

/// Vector round-trip: inserting the rows of an embedding with weights at
/// positions 0..N-1 into a store that holds no rows for that (word, kind)
/// succeeds, and reading the key back ordered by position reproduces the
/// weight sequence exactly.
pub proof fn lemma_vector_round_trip(s: StoreModel, wid: int, kid: int, weights: Seq<Seq<char>>)
    requires
        forall|i: int|
            0 <= i < s.vectors.len() ==> !(s.vectors[i].word_id == wid && s.vectors[i].kind_id
                == kid),
    ensures
        rows_insertable(s.vectors, spec_rows(wid, kid, weights)),
        points_of(
            sort_by_pos(
                matching(spec_add_vectors(s, spec_rows(wid, kid, weights)).0.vectors, wid, kid),
            ),
        ) == weights,
{
    let rows = spec_rows(wid, kid, weights);
    assert(rows_insertable(s.vectors, rows));
    lemma_matching_fresh(s.vectors, rows, wid, kid);
    lemma_sort_sorted(rows);
    assert(points_of(rows) =~= weights);
}

} // verus!
