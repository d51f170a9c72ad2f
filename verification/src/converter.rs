//! The ingestion pipeline: consumes one decoder's record sequence and loads
//! it into the store as normalized rows.
//!
//! For each file the pipeline resolves or creates the Kind once, then
//! iterates records: each record's word is resolved or created, and one
//! vector row per (position, weight) pair is appended in the same step. A
//! record whose word cannot be resolved contributes nothing and never aborts
//! the file. Work is chunked: records are processed in bounded batches and
//! the pipeline loops issuing new chunks until a chunk processes zero
//! records, which signals exhaustion; chunking never changes the final store.

use vstd::prelude::*;
use crate::db::models::kind::create_kind;
use crate::db::models::vector::Vector;
use crate::db::models::vector::add_vectors;
use crate::db::models::word::create_word;
use crate::db::models::word::get_word;
use crate::db::store::KindModel;
use crate::db::store::Store;
use crate::db::store::StoreModel;
use crate::db::store::spec_add_vectors;
use crate::db::store::spec_create_kind;
use crate::db::store::spec_create_word;
use crate::db::store::spec_rows;
use crate::progressbar::IncSignal;
use crate::wordvector::RecordModel;
use crate::wordvector::dataiterator::DataIterator;

verus! {

/// What ingesting one record does to the store: the word row is resolved or
/// created; when that fails the record contributes nothing; otherwise one
/// row per weight is staged and the batch is appended atomically (a key
/// collision, or an embedding too wide for the position column, leaves the
/// facts unchanged).
pub open spec fn spec_ingest_record(s: StoreModel, kind: KindModel, rec: RecordModel) -> StoreModel {
    let c = spec_create_word(s, rec.word);
    match c.1 {
        None => c.0,
        Some(word) => {
            if rec.weights.len() <= i32::MAX {
                spec_add_vectors(c.0, spec_rows(word.id, kind.id, rec.weights)).0
            } else {
                c.0
            }
        },
    }
}

/// Folding a whole record sequence into the store, in order.
pub open spec fn spec_ingest(s: StoreModel, kind: KindModel, records: Seq<RecordModel>) -> StoreModel
    decreases records.len(),
{
    if records.len() == 0 {
        s
    } else {
        spec_ingest(spec_ingest_record(s, kind, records[0]), kind, records.skip(1))
    }
}

/// The pipeline: owns the store for the lifetime of a run and carries the
/// chunk size as explicit configuration.
pub struct Converter {
    store: Store,
    batch_size: usize,
}

impl Converter {
    pub closed spec fn store_model(self) -> StoreModel {
        self.store.model()
    }

    pub closed spec fn batch(self) -> int {
        self.batch_size as int
    }

    pub open spec fn wf(self) -> bool {
        self.store_model().wf()
    }

    /// A pipeline over an empty store. `batch_size` bounds how many records
    /// one transaction chunk processes.
    pub fn new(batch_size: usize) -> (r: Converter)
        ensures
            r.wf(),
            r.store_model() == StoreModel::empty(),
            r.batch() == batch_size as int,
    {
        Converter { store: Store::new(), batch_size }
    }

    /// Read access to the loaded tables.
    pub fn store(&self) -> (r: &Store)
        ensures
            r.model() == self.store_model(),
    {
        &self.store
    }

    /// Ingests one file's record sequence under its kind name. The kind is
    /// resolved or created once, before any record; every record is then
    /// folded into the store in source order, in bounded chunks, until the
    /// sequence is exhausted. The call always succeeds; when even the kind
    /// cannot be created (id exhaustion) the sequence is left untouched.
    pub fn convert<S: IncSignal>(&mut self, data_iterator: &mut DataIterator<S>) -> (r: Result<
        (),
        String,
    >)
        requires
            old(self).wf(),
            old(data_iterator).wf(),
        ensures
            final(self).wf(),
            final(self).batch() == old(self).batch(),
            final(data_iterator).wf(),
            final(data_iterator).kind_view() == old(data_iterator).kind_view(),
            final(data_iterator).max_view() == old(data_iterator).max_view(),
            r is Ok,
            ({
                let c = spec_create_kind(old(self).store_model(), old(data_iterator).kind_view());
                match c.1 {
                    None => final(self).store_model() == c.0 && final(data_iterator).remaining()
                        == old(data_iterator).remaining(),
                    Some(kind) => final(self).store_model() == spec_ingest(
                        c.0,
                        kind,
                        old(data_iterator).remaining(),
                    ) && final(data_iterator).remaining().len() == 0,
                }
            }),
    {
        let ghost rem0 = data_iterator.remaining();
        let kind = match create_kind(&mut self.store, data_iterator.kind()) {
            Some(kind) => kind,
            None => {
                return Ok(());
            },
        };
        let ghost kindm = kind.model();
        let ghost target = spec_ingest(self.store.model(), kindm, rem0);
        let batch_limit = if self.batch_size == 0 {
            1
        } else {
            self.batch_size
        };
        let mut done = false;
        while !done
            invariant
                self.store.wf(),
                data_iterator.wf(),
                batch_limit >= 1,
                kindm == kind.model(),
                self.batch_size == old(self).batch_size,
                data_iterator.kind_view() == old(data_iterator).kind_view(),
                data_iterator.max_view() == old(data_iterator).max_view(),
                spec_ingest(self.store.model(), kindm, data_iterator.remaining()) == target,
                done ==> data_iterator.remaining().len() == 0,
            decreases data_iterator.remaining().len(), (if done {
                0int
            } else {
                1
            }),
        {
            let ghost chunk_start = data_iterator.remaining().len() as int;
            let mut count: usize = 0;
            let ghost mut processed: int = 0;
            let mut exhausted = false;
            while count < batch_limit && !exhausted
                invariant
                    self.store.wf(),
                    data_iterator.wf(),
                    batch_limit >= 1,
                    kindm == kind.model(),
                    self.batch_size == old(self).batch_size,
                    data_iterator.kind_view() == old(data_iterator).kind_view(),
                    data_iterator.max_view() == old(data_iterator).max_view(),
                    spec_ingest(self.store.model(), kindm, data_iterator.remaining()) == target,
                    0 <= count as int <= processed,
                    data_iterator.remaining().len() + processed == chunk_start,
                    exhausted ==> data_iterator.remaining().len() == 0,
                decreases data_iterator.remaining().len(), (if exhausted {
                    0int
                } else {
                    1
                }),
            {
                let ghost rem_pre = data_iterator.remaining();
                let ghost s_pre = self.store.model();
                match data_iterator.iter().next() {
                    None => {
                        exhausted = true;
                    },
                    Some(record) => {
                        let ghost rec_m = record.model();
                        proof {
                            assert(rec_m == rem_pre[0]);
                            assert(data_iterator.remaining() == rem_pre.skip(1));
                        }
                        let word_opt = match get_word(&self.store, record.word.as_str()) {
                            Some(word) => Some(word),
                            None => create_word(&mut self.store, record.word.as_str()),
                        };
                        proof {
                            let c = spec_create_word(s_pre, rec_m.word);
                            assert(self.store.model() == c.0);
                            assert(match word_opt {
                                Some(w) => c.1 == Some(w.model()),
                                None => c.1 is None,
                            });
                        }
                        match word_opt {
                            None => {
                                // the word could not be resolved: this record
                                // contributes nothing and the file goes on
                                proof {
                                    assert(self.store.model() == spec_ingest_record(
                                        s_pre,
                                        kindm,
                                        rec_m,
                                    ));
                                }
                            },
                            Some(word) => {
                                if record.vec.len() <= (i32::MAX as usize) {
                                    let rows = Vector::from_vec(
                                        &word,
                                        &kind,
                                        record.vec.as_slice(),
                                    );
                                    add_vectors(&mut self.store, rows.as_slice());
                                    count = count + 1;
                                } else {
                                    count = count + 1;
                                }
                                proof {
                                    assert(self.store.model() == spec_ingest_record(
                                        s_pre,
                                        kindm,
                                        rec_m,
                                    ));
                                }
                            },
                        }
                        proof {
                            processed = processed + 1;
                            assert(spec_ingest(s_pre, kindm, rem_pre) == spec_ingest(
                                spec_ingest_record(s_pre, kindm, rem_pre[0]),
                                kindm,
                                rem_pre.skip(1),
                            ));
                        }
                    },
                }
            }
            if count == 0 {
                proof {
                    assert(data_iterator.remaining().len() == 0);
                }
                done = true;
            }
        }
        proof {
            assert(spec_ingest(self.store.model(), kindm, data_iterator.remaining())
                == self.store.model());
        }
        Ok(())
    }
}

} // verus!
