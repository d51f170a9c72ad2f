//! The relational store and its mathematical model.
//!
//! The store holds the three tables the pipeline writes: kinds, words and
//! vectors. Kinds and words are dimension rows with store-assigned surrogate
//! ids (1-based insertion order) and unique names; vectors are write-only
//! fact rows keyed by (word, kind, position). Every contract below is stated
//! over [`StoreModel`], the plain-value image of the tables.

use vstd::prelude::*;
use crate::db::models::kind::Kind;
use crate::db::models::vector::Vector;
use crate::db::models::word::Word;

verus! {

/// A kind row: a surrogate id and the unique source-family name.
pub struct KindModel {
    pub id: int,
    pub name: Seq<char>,
}

/// A word row: a surrogate id and the unique vocabulary token.
pub struct WordModel {
    pub id: int,
    pub word: Seq<char>,
}

/// A vector row: one scalar component of one embedding.
pub struct VectorModel {
    pub word_id: int,
    pub kind_id: int,
    pub position: int,
    pub point: Seq<char>,
}

/// The plain-value image of the whole store.
pub struct StoreModel {
    pub kinds: Seq<KindModel>,
    pub words: Seq<WordModel>,
    pub vectors: Seq<VectorModel>,
}

/// The index of the first kind row with this name, or -1 when there is none.
pub open spec fn kind_index(kinds: Seq<KindModel>, name: Seq<char>) -> int
    decreases kinds.len(),
{
    if kinds.len() == 0 {
        -1
    } else if kinds[0].name == name {
        0
    } else {
        let r = kind_index(kinds.skip(1), name);
        if r < 0 {
            -1
        } else {
            1 + r
        }
    }
}

pub open spec fn has_kind(kinds: Seq<KindModel>, name: Seq<char>) -> bool {
    kind_index(kinds, name) >= 0
}

/// The index of the first word row with this text, or -1 when there is none.
pub open spec fn word_index(words: Seq<WordModel>, text: Seq<char>) -> int
    decreases words.len(),
{
    if words.len() == 0 {
        -1
    } else if words[0].word == text {
        0
    } else {
        let r = word_index(words.skip(1), text);
        if r < 0 {
            -1
        } else {
            1 + r
        }
    }
}

pub open spec fn has_word(words: Seq<WordModel>, text: Seq<char>) -> bool {
    word_index(words, text) >= 0
}

/// Get-or-create for kinds: an existing name resolves to its stored row and
/// changes nothing; a new name is appended with the next id; the one failure
/// is id exhaustion, which changes nothing and yields no row.
pub open spec fn spec_create_kind(s: StoreModel, name: Seq<char>) -> (StoreModel, Option<
    KindModel,
>) {
    if has_kind(s.kinds, name) {
        (s, Some(s.kinds[kind_index(s.kinds, name)]))
    } else if s.kinds.len() < i32::MAX {
        let k = KindModel { id: s.kinds.len() as int + 1, name };
        (StoreModel { kinds: s.kinds.push(k), words: s.words, vectors: s.vectors }, Some(k))
    } else {
        (s, None)
    }
}

/// Get-or-create for words, exactly as for kinds.
pub open spec fn spec_create_word(s: StoreModel, text: Seq<char>) -> (StoreModel, Option<
    WordModel,
>) {
    if has_word(s.words, text) {
        (s, Some(s.words[word_index(s.words, text)]))
    } else if s.words.len() < i32::MAX {
        let w = WordModel { id: s.words.len() as int + 1, word: text };
        (StoreModel { kinds: s.kinds, words: s.words.push(w), vectors: s.vectors }, Some(w))
    } else {
        (s, None)
    }
}

/// Two vector rows with the same composite identity (word, kind, position).
pub open spec fn same_key(a: VectorModel, b: VectorModel) -> bool {
    a.word_id == b.word_id && a.kind_id == b.kind_id && a.position == b.position
}

/// A batch can be inserted when no key collides, neither within the batch nor
/// with a stored row.
pub open spec fn rows_insertable(existing: Seq<VectorModel>, rows: Seq<VectorModel>) -> bool {
    &&& forall|i: int, j: int| 0 <= i < j < rows.len() ==> !same_key(rows[i], rows[j])
    &&& forall|i: int, j: int|
        0 <= i < existing.len() && 0 <= j < rows.len() ==> !same_key(existing[i], rows[j])
}

/// Appending a batch of vector rows: all or nothing, as one transaction. A
/// key collision fails the whole batch and reports zero rows inserted.
pub open spec fn spec_add_vectors(s: StoreModel, rows: Seq<VectorModel>) -> (StoreModel, int) {
    if rows_insertable(s.vectors, rows) {
        (
            StoreModel { kinds: s.kinds, words: s.words, vectors: s.vectors + rows },
            rows.len() as int,
        )
    } else {
        (s, 0)
    }
}

/// The vector rows of one embedding: weight k at position k.
pub open spec fn spec_rows(wid: int, kid: int, weights: Seq<Seq<char>>) -> Seq<VectorModel> {
    Seq::new(
        weights.len(),
        |k: int| VectorModel { word_id: wid, kind_id: kid, position: k, point: weights[k] },
    )
}

/// The stored rows of one (word, kind) embedding, in insertion order.
pub open spec fn matching(vs: Seq<VectorModel>, wid: int, kid: int) -> Seq<VectorModel>
    decreases vs.len(),
{
    if vs.len() == 0 {
        Seq::empty()
    } else {
        matching(vs.drop_last(), wid, kid) + if vs.last().word_id == wid && vs.last().kind_id
            == kid {
            seq![vs.last()]
        } else {
            Seq::empty()
        }
    }
}

/// Insertion into a position-sorted row sequence, from the right.
pub open spec fn insert_sorted(s: Seq<VectorModel>, v: VectorModel) -> Seq<VectorModel>
    decreases s.len(),
{
    if s.len() == 0 {
        seq![v]
    } else if s.last().position <= v.position {
        s.push(v)
    } else {
        insert_sorted(s.drop_last(), v).push(s.last())
    }
}

/// Sorting rows by position (insertion sort).
pub open spec fn sort_by_pos(s: Seq<VectorModel>) -> Seq<VectorModel>
    decreases s.len(),
{
    if s.len() == 0 {
        Seq::empty()
    } else {
        insert_sorted(sort_by_pos(s.drop_last()), s.last())
    }
}

/// The weights of a row sequence, in its order.
pub open spec fn points_of(rows: Seq<VectorModel>) -> Seq<Seq<char>> {
    rows.map_values(|v: VectorModel| v.point)
}

impl StoreModel {
    /// The invariants the store maintains: ids are 1-based insertion order,
    /// kind names and word texts are unique, and vector keys are unique (the
    /// composite primary key).
    pub open spec fn wf(self) -> bool {
        &&& forall|i: int| 0 <= i < self.kinds.len() ==> (#[trigger] self.kinds[i]).id == i + 1
        &&& forall|i: int, j: int|
            0 <= i < j < self.kinds.len() ==> self.kinds[i].name != self.kinds[j].name
        &&& forall|i: int| 0 <= i < self.words.len() ==> (#[trigger] self.words[i]).id == i + 1
        &&& forall|i: int, j: int|
            0 <= i < j < self.words.len() ==> self.words[i].word != self.words[j].word
        &&& forall|i: int, j: int|
            0 <= i < j < self.vectors.len() ==> !same_key(self.vectors[i], self.vectors[j])
    }

    pub open spec fn empty() -> StoreModel {
        StoreModel { kinds: Seq::empty(), words: Seq::empty(), vectors: Seq::empty() }
    }
}

/// The store: the three tables, exclusively owned by one pipeline for the
/// lifetime of a run.
pub struct Store {
    pub kinds: Vec<Kind>,
    pub words: Vec<Word>,
    pub vectors: Vec<Vector>,
}

/// The model of a kind table.
pub open spec fn kinds_model(ks: Seq<Kind>) -> Seq<KindModel> {
    ks.map_values(|k: Kind| k.model())
}

/// The model of a word table.
pub open spec fn words_model(ws: Seq<Word>) -> Seq<WordModel> {
    ws.map_values(|w: Word| w.model())
}

/// The model of a vector table.
pub open spec fn vectors_model(vs: Seq<Vector>) -> Seq<VectorModel> {
    vs.map_values(|v: Vector| v.model())
}

pub proof fn lemma_kinds_model_push(ks: Seq<Kind>, k: Kind)
    ensures
        kinds_model(ks.push(k)) =~= kinds_model(ks).push(k.model()),
{
    assert forall|i: int| 0 <= i < ks.len() + 1 implies kinds_model(ks.push(k))[i] == kinds_model(
        ks,
    ).push(k.model())[i] by {
        assert(ks.push(k)[i] == if i < ks.len() {
            ks[i]
        } else {
            k
        });
    }
}

pub proof fn lemma_words_model_push(ws: Seq<Word>, w: Word)
    ensures
        words_model(ws.push(w)) =~= words_model(ws).push(w.model()),
{
    assert forall|i: int| 0 <= i < ws.len() + 1 implies words_model(ws.push(w))[i] == words_model(
        ws,
    ).push(w.model())[i] by {
        assert(ws.push(w)[i] == if i < ws.len() {
            ws[i]
        } else {
            w
        });
    }
}

pub proof fn lemma_vectors_model_push(vs: Seq<Vector>, v: Vector)
    ensures
        vectors_model(vs.push(v)) =~= vectors_model(vs).push(v.model()),
{
    assert forall|i: int| 0 <= i < vs.len() + 1 implies vectors_model(vs.push(v))[i]
        == vectors_model(vs).push(v.model())[i] by {
        assert(vs.push(v)[i] == if i < vs.len() {
            vs[i]
        } else {
            v
        });
    }
}

impl Store {
    /// The plain-value image of the tables.
    pub open spec fn model(self) -> StoreModel {
        StoreModel {
            kinds: kinds_model(self.kinds@),
            words: words_model(self.words@),
            vectors: vectors_model(self.vectors@),
        }
    }

    pub open spec fn wf(self) -> bool {
        self.model().wf()
    }

    /// An empty store.
    pub fn new() -> (r: Store)
        ensures
            r.wf(),
            r.model() == StoreModel::empty(),
    {
        let r = Store { kinds: Vec::new(), words: Vec::new(), vectors: Vec::new() };
        proof {
            assert(r.model().kinds =~= StoreModel::empty().kinds);
            assert(r.model().words =~= StoreModel::empty().words);
            assert(r.model().vectors =~= StoreModel::empty().vectors);
        }
        r
    }
}

} // verus!
