//! Uniform handling of heterogeneous decode jobs: each source is dispatched
//! once, by its declared format, into a [`DataIterator`] carrying the kind
//! name for the store, the progress maximum (the source's byte length), and
//! the erased record sequence.

use vstd::prelude::*;
use std::rc::Rc;
use crate::progressbar::IncSignal;
use crate::wordvector::Iter;
use crate::wordvector::RecordModel;
use crate::wordvector::VectorFile;
use crate::wordvector::fasttext::FastText;
use crate::wordvector::gensim::Gensim;
use crate::wordvector::gensim::block_records;
use crate::wordvector::glove::Glove;
use crate::wordvector::line_records;
use crate::wordvector::word2vec::Word2Vec;

verus! {

/// Duplicates a progress handle. Relies on `Rc::clone`: the clone is a
/// second handle to the same shared observer.
#[verifier::external_body]
fn clone_signal<S>(signal: &Option<Rc<S>>) -> (r: Option<Rc<S>>)
    ensures
        r == signal,
{
    signal.clone()
}

/// The kind name a source of this format is stored under.
pub open spec fn file_kind_name(file: VectorFile) -> Seq<char> {
    match file {
        VectorFile::FastText(_) => "fasttext"@,
        VectorFile::Glove(_) => "glove"@,
        VectorFile::Word2Vec(_) => "word2vec"@,
        VectorFile::Gensim(_) => "gensim"@,
        VectorFile::Unknown => Seq::empty(),
    }
}

/// The records a source of this format decodes to: FastText and Word2Vec
/// skip their first line as a header, GloVe and Gensim have none.
pub open spec fn file_records(file: VectorFile, data: Seq<u8>) -> Seq<RecordModel> {
    match file {
        VectorFile::FastText(_) => if data.len() == 0 {
            Seq::empty()
        } else {
            line_records(data).skip(1)
        },
        VectorFile::Glove(_) => line_records(data),
        VectorFile::Word2Vec(_) => if data.len() == 0 {
            Seq::empty()
        } else {
            line_records(data).skip(1)
        },
        VectorFile::Gensim(_) => block_records(data),
        VectorFile::Unknown => Seq::empty(),
    }
}

/// What `make_vec` builds from a source list: one (kind, maximum, records)
/// entry per source whose format is known, in order.
pub open spec fn expected_iterators(sources: Seq<(VectorFile, Seq<u8>)>) -> Seq<
    (Seq<char>, int, Seq<RecordModel>),
>
    decreases sources.len(),
{
    if sources.len() == 0 {
        Seq::empty()
    } else {
        let head = sources[0];
        let rest = expected_iterators(sources.skip(1));
        if head.0 is Unknown {
            rest
        } else {
            seq![(file_kind_name(head.0), head.1.len() as int, file_records(head.0, head.1))]
                + rest
        }
    }
}

/// One file's decode work: the kind name it is stored under, the expected
/// progress maximum, and the lazy record sequence.
pub struct DataIterator<S> {
    kind: String,
    max: u64,
    iterator: Iter<S>,
}

impl<S: IncSignal> DataIterator<S> {
    pub closed spec fn kind_view(self) -> Seq<char> {
        self.kind@
    }

    pub closed spec fn max_view(self) -> int {
        self.max as int
    }

    pub closed spec fn iterator(self) -> Iter<S> {
        self.iterator
    }

    pub open spec fn remaining(self) -> Seq<RecordModel> {
        self.iterator().remaining()
    }

    pub open spec fn wf(self) -> bool {
        self.iterator().wf()
    }

    /// The model of one built entry.
    pub open spec fn entry(self) -> (Seq<char>, int, Seq<RecordModel>) {
        (self.kind_view(), self.max_view(), self.remaining())
    }

    /// Dispatches every known-format source to its decoder, sharing the one
    /// progress handle; sources of unknown format are dropped.
    pub fn make_vec(signal: Option<Rc<S>>, sources: Vec<(VectorFile, Vec<u8>)>) -> (r: Vec<
        DataIterator<S>,
    >)
        ensures
            r@.map_values(|it: DataIterator<S>| it.entry()) == expected_iterators(
                sources@.map_values(|s: (VectorFile, Vec<u8>)| (s.0, s.1@)),
            ),
            forall|i: int| 0 <= i < r@.len() ==> (#[trigger] r@[i]).wf(),
    {
        let ghost all = sources@.map_values(|s: (VectorFile, Vec<u8>)| (s.0, s.1@));
        let mut sources = sources;
        let mut out: Vec<DataIterator<S>> = Vec::new();
        proof {
            assert(sources@.map_values(|s: (VectorFile, Vec<u8>)| (s.0, s.1@)) == all);
            assert(out@.map_values(|it: DataIterator<S>| it.entry()) + expected_iterators(all)
                =~= expected_iterators(all));
        }
        while sources.len() > 0
            invariant
                expected_iterators(all) == out@.map_values(|it: DataIterator<S>| it.entry())
                    + expected_iterators(
                    sources@.map_values(|s: (VectorFile, Vec<u8>)| (s.0, s.1@)),
                ),
                forall|i: int| 0 <= i < out@.len() ==> (#[trigger] out@[i]).wf(),
            decreases sources@.len(),
        {
            let ghost pending = sources@.map_values(|s: (VectorFile, Vec<u8>)| (s.0, s.1@));
            let (file_name, data) = sources.remove(0);
            proof {
                assert(sources@.map_values(|s: (VectorFile, Vec<u8>)| (s.0, s.1@)) =~= pending.skip(
                    1,
                ));
                assert(pending[0] == (file_name, data@));
            }
            let ghost head_data = data@;
            let result: Option<(String, u64, Iter<S>)> = match file_name {
                VectorFile::FastText(_path) => {
                    let max = data.len() as u64;
                    Some(
                        (
                            "fasttext".to_owned(),
                            max,
                            FastText::new(data, clone_signal(&signal)).into_iter(),
                        ),
                    )
                },
                VectorFile::Glove(_path) => {
                    let max = data.len() as u64;
                    Some(
                        (
                            "glove".to_owned(),
                            max,
                            Glove::new(data, clone_signal(&signal)).into_iter(),
                        ),
                    )
                },
                VectorFile::Word2Vec(_path) => {
                    let max = data.len() as u64;
                    Some(
                        (
                            "word2vec".to_owned(),
                            max,
                            Word2Vec::new(data, clone_signal(&signal)).into_iter(),
                        ),
                    )
                },
                VectorFile::Gensim(_path) => {
                    let max = data.len() as u64;
                    Some(
                        (
                            "gensim".to_owned(),
                            max,
                            Gensim::new(data, clone_signal(&signal)).into_iter(),
                        ),
                    )
                },
                VectorFile::Unknown => None,
            };
            match result {
                Some((kind, max, iterator)) => {
                    let it = DataIterator { kind, max, iterator };
                    proof {
                        let f = |it2: DataIterator<S>| it2.entry();
                        assert(it.entry() == expected_iterators(pending)[0]);
                        assert(out@.push(it).map_values(f) =~= out@.map_values(f) + seq![
                            it.entry(),
                        ]);
                        assert(expected_iterators(pending) == seq![it.entry()]
                            + expected_iterators(pending.skip(1)));
                        assert(out@.map_values(f) + expected_iterators(pending) =~= out@.push(
                            it,
                        ).map_values(f) + expected_iterators(pending.skip(1)));
                    }
                    out.push(it);
                },
                None => {
                    proof {
                        assert(expected_iterators(pending) == expected_iterators(pending.skip(1)));
                    }
                },
            }
        }
        proof {
            assert(sources@.map_values(|s: (VectorFile, Vec<u8>)| (s.0, s.1@)) =~= Seq::<
                (VectorFile, Seq<u8>),
            >::empty());
            assert(expected_iterators(all) =~= out@.map_values(
                |it: DataIterator<S>| it.entry(),
            ));
        }
        out
    }

    /// The kind name this file's rows are stored under.
    pub fn kind(&self) -> (r: &str)
        ensures
            r@ == self.kind_view(),
    {
        self.kind.as_str()
    }

    /// The expected progress maximum: the source's byte length.
    pub fn max(&self) -> (r: u64)
        ensures
            r as int == self.max_view(),
    {
        self.max
    }

    /// The record sequence, to be consumed by exactly one pipeline.
    pub fn iter(&mut self) -> (r: &mut Iter<S>)
        ensures
            *r == old(self).iterator(),
            final(self).iterator() == *final(r),
            final(self).kind_view() == old(self).kind_view(),
            final(self).max_view() == old(self).max_view(),
    {
        &mut self.iterator
    }
}

} // verus!
