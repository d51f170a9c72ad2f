//! Kind rows: the embedding source/family a file is stored under, created
//! once per distinct name and looked up on every later encounter.

use vstd::prelude::*;
use crate::db::store::KindModel;
use crate::db::store::Store;
use crate::db::store::StoreModel;
use crate::db::store::has_kind;
use crate::db::store::kind_index;
use crate::db::store::kinds_model;
use crate::db::store::lemma_kinds_model_push;
use crate::db::store::spec_create_kind;

verus! {

/// A kind row: store-assigned surrogate id and unique name.
#[derive(Debug, PartialEq)]
pub struct Kind {
    pub id: i32,
    pub name: String,
}

impl Kind {
    pub open spec fn model(self) -> KindModel {
        KindModel { id: self.id as int, name: self.name@ }
    }
}

impl Default for Kind {
    fn default() -> (r: Kind)
        ensures
            r.model() == (KindModel { id: 0, name: Seq::<char>::empty() }),
    {
        Kind { id: 0, name: String::new() }
    }
}

impl Clone for Kind {
    fn clone(&self) -> (r: Self)
        ensures
            r == *self,
    {
        Kind { id: self.id, name: self.name.clone() }
    }
}

/// `kind_index` finds a match exactly where one exists: it lands on the first
/// matching index and is -1 only when no row matches.
pub proof fn lemma_kind_index_spec(kinds: Seq<KindModel>, name: Seq<char>)
    ensures
        -1 <= kind_index(kinds, name) < kinds.len(),
        kind_index(kinds, name) >= 0 ==> kinds[kind_index(kinds, name)].name == name,
        kind_index(kinds, name) == -1 ==> forall|m: int|
            0 <= m < kinds.len() ==> kinds[m].name != name,
        forall|m: int| 0 <= m < kind_index(kinds, name) ==> kinds[m].name != name,
    decreases kinds.len(),
{
    if kinds.len() > 0 && kinds[0].name != name {
        lemma_kind_index_spec(kinds.skip(1), name);
        let sub = kinds.skip(1);
        assert(forall|m: int| 0 <= m < sub.len() ==> sub[m] == kinds[m + 1]);
        if kind_index(kinds, name) == -1 {
            assert forall|m: int| 0 <= m < kinds.len() implies kinds[m].name != name by {
                if m >= 1 {
                    assert(sub[m - 1] == kinds[m]);
                }
            }
        }
        assert forall|m: int| 0 <= m < kind_index(kinds, name) implies kinds[m].name
            != name by {
            if m >= 1 {
                assert(sub[m - 1] == kinds[m]);
            }
        }
    }
}

/// Appending a row with an absent name puts its first occurrence at the end.
pub proof fn lemma_kind_index_push(kinds: Seq<KindModel>, k: KindModel)
    requires
        !has_kind(kinds, k.name),
    ensures
        kind_index(kinds.push(k), k.name) == kinds.len(),
    decreases kinds.len(),
{
    lemma_kind_index_spec(kinds, k.name);
    if kinds.len() == 0 {
        assert(kinds.push(k)[0] == k);
    } else {
        assert(kinds.push(k)[0] == kinds[0]);
        assert(kinds.push(k).skip(1) =~= kinds.skip(1).push(k));
        assert(!has_kind(kinds.skip(1), k.name)) by {
            lemma_kind_index_spec(kinds.skip(1), k.name);
            if has_kind(kinds.skip(1), k.name) {
                let r = kind_index(kinds.skip(1), k.name);
                assert(kinds.skip(1)[r].name == k.name);
                assert(kinds.skip(1)[r] == kinds[r + 1]);
            }
        }
        lemma_kind_index_push(kinds.skip(1), k);
    }
}

/// Get-or-create is idempotent: resolving the same name twice returns the
/// same row both times and never adds a second row, whether the first call
/// found the name, created it, or failed for want of ids.
pub proof fn lemma_create_kind_idempotent(s: StoreModel, name: Seq<char>)
    ensures
        spec_create_kind(spec_create_kind(s, name).0, name).0 == spec_create_kind(s, name).0,
        spec_create_kind(spec_create_kind(s, name).0, name).1 == spec_create_kind(s, name).1,
{
    lemma_kind_index_spec(s.kinds, name);
    if !has_kind(s.kinds, name) && s.kinds.len() < i32::MAX {
        let k = KindModel { id: s.kinds.len() as int + 1, name };
        lemma_kind_index_push(s.kinds, k);
        assert(s.kinds.push(k)[kinds_len_int(s.kinds)] == k);
    }
}

spec fn kinds_len_int(kinds: Seq<KindModel>) -> int {
    kinds.len() as int
}

/// Looks a kind up by name; returns the first stored row with that name.
pub fn get_kind<'a>(conn: &Store, n: &'a str) -> (r: Option<Kind>)
    ensures
        !has_kind(conn.model().kinds, n@) ==> r is None,
        has_kind(conn.model().kinds, n@) ==> (r matches Some(k) && k.model()
            == conn.model().kinds[kind_index(conn.model().kinds, n@)]),
{
    let needle = n.to_owned();
    let len = conn.kinds.len();
    let ghost km = conn.model().kinds;
    let mut i: usize = 0;
    while i < len
        invariant
            0 <= i <= len,
            len == conn.kinds@.len(),
            km == conn.model().kinds,
            needle@ == n@,
            forall|m: int| 0 <= m < i ==> km[m].name != n@,
        decreases len - i,
    {
        if conn.kinds[i].name == needle {
            proof {
                assert(km[i as int].name == n@);
                lemma_kind_index_spec(km, n@);
                assert(kind_index(km, n@) == i as int) by {
                    if kind_index(km, n@) != i as int {
                        assert(kind_index(km, n@) < i as int);
                        assert(km[kind_index(km, n@)].name == n@);
                    }
                }
            }
            return Some(conn.kinds[i].clone());
        }
        i = i + 1;
    }
    proof {
        lemma_kind_index_spec(km, n@);
        if has_kind(km, n@) {
            assert(km[kind_index(km, n@)].name == n@);
        }
    }
    None
}

/// Resolves or creates the kind row for this name. An existing name is
/// returned unchanged; a new name is appended under the next id; the one
/// failure, id exhaustion, changes nothing and yields `None`.
pub fn create_kind<'a>(conn: &mut Store, n: &'a str) -> (r: Option<Kind>)
    requires
        old(conn).wf(),
    ensures
        final(conn).wf(),
        final(conn).model() == spec_create_kind(old(conn).model(), n@).0,
        match r {
            Some(k) => spec_create_kind(old(conn).model(), n@).1 == Some(k.model()),
            None => spec_create_kind(old(conn).model(), n@).1 is None,
        },
{
    let ghost s0 = conn.model();
    match get_kind(conn, n) {
        Some(k) => Some(k),
        None => {
            proof {
                lemma_kind_index_spec(s0.kinds, n@);
            }
            if conn.kinds.len() < (i32::MAX as usize) {
                let id = (conn.kinds.len() as i32) + 1;
                let k = Kind { id, name: n.to_owned() };
                let ghost km = k.model();
                proof {
                    lemma_kinds_model_push(conn.kinds@, k);
                }
                conn.kinds.push(k.clone());
                proof {
                    assert(conn.model().kinds =~= s0.kinds.push(km));
                    assert(conn.model().words =~= s0.words);
                    assert(conn.model().vectors =~= s0.vectors);
                    assert(conn.model() == spec_create_kind(s0, n@).0);
                    assert(conn.wf()) by {
                        let ks = conn.model().kinds;
                        assert forall|i: int| 0 <= i < ks.len() implies (#[trigger] ks[i]).id == i
                            + 1 by {
                            if i < s0.kinds.len() {
                                assert(ks[i] == s0.kinds[i]);
                            }
                        }
                        assert forall|i: int, j: int| 0 <= i < j < ks.len() implies ks[i].name
                            != ks[j].name by {
                            if j < s0.kinds.len() {
                                assert(ks[i] == s0.kinds[i] && ks[j] == s0.kinds[j]);
                            } else {
                                assert(ks[i] == s0.kinds[i] && ks[j] == km);
                            }
                        }
                    }
                }
                Some(k)
            } else {
                None
            }
        },
    }
}

/// Every stored kind row, in insertion order.
pub fn kinds_list(conn: &Store) -> (r: Option<Vec<Kind>>)
    ensures
        r matches Some(v) && kinds_model(v@) == conn.model().kinds,
{
    let mut out: Vec<Kind> = Vec::new();
    let len = conn.kinds.len();
    let mut i: usize = 0;
    while i < len
        invariant
            0 <= i <= len,
            len == conn.kinds@.len(),
            out@.len() == i,
            forall|m: int| 0 <= m < i ==> out@[m] == conn.kinds@[m],
        decreases len - i,
    {
        out.push(conn.kinds[i].clone());
        i = i + 1;
    }
    proof {
        assert(kinds_model(out@) =~= conn.model().kinds);
    }
    Some(out)
}

} // verus!
