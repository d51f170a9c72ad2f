//! Decoder for the FastText text format: newline-delimited lines whose first
//! line is a vocabulary-size/dimension header, skipped unconditionally and
//! never emitted as a record; every consumed line reports its raw byte length
//! to the attached signal before parsing is attempted.

use vstd::prelude::*;
use std::rc::Rc;
use crate::io::IteratorWithSignal;
use crate::io::lemma_pieces_step;
use crate::io::piece_bytes;
use crate::io::piece_len;
use crate::io::pieces;
use crate::progressbar::IncSignal;
use crate::wordvector::Iter;
use crate::wordvector::Record;
use crate::wordvector::RecordModel;
use crate::wordvector::lemma_records_of_pieces_skip;
use crate::wordvector::line_records;
use crate::wordvector::parse_record;
use crate::wordvector::records_of_pieces;

verus! {

pub struct FastText<S> {
    iterator: IteratorWithSignal,
    signal: Option<Rc<S>>,
}

impl<S: IncSignal> FastText<S> {
    /// The full byte source handed to the decoder.
    pub closed spec fn data(self) -> Seq<u8> {
        self.iterator.data()
    }

    /// How many bytes have been consumed so far.
    pub closed spec fn pos(self) -> int {
        self.iterator.pos()
    }

    pub closed spec fn wf(self) -> bool {
        self.iterator.wf() && self.iterator.delim() == 10
    }

    /// The records still to be produced, one per remaining line.
    pub closed spec fn remaining(self) -> Seq<RecordModel> {
        records_of_pieces(pieces(self.iterator.rest(), 10))
    }

    /// Builds the decoder and immediately consumes the header line,
    /// reporting its byte length; the header is never emitted as a record.
    pub fn new(reader: Vec<u8>, signal: Option<Rc<S>>) -> (r: FastText<S>)
        ensures
            r.wf(),
            r.data() == reader@,
            reader@.len() == 0 ==> r.remaining() == Seq::<RecordModel>::empty(),
            reader@.len() > 0 ==> r.remaining() == line_records(reader@).skip(1),
    {
        let mut fasttext = FastText { iterator: IteratorWithSignal::new(reader, 10), signal };
        let ghost data = fasttext.iterator.data();
        // skip the first line
        match fasttext.iterator.read_piece() {
            Some((delta, _piece)) => {
                fasttext.inc(delta);
            },
            None => {},
        }
        proof {
            assert(data.skip(0) =~= data);
            if data.len() > 0 {
                lemma_pieces_step(data, 10);
                let plen = piece_len(data, 10);
                assert(fasttext.iterator.rest() =~= data.skip(plen));
                lemma_records_of_pieces_skip(pieces(data, 10), 1);
                assert(line_records(data).skip(1) =~= fasttext.remaining());
            } else {
                assert(fasttext.iterator.rest() =~= data);
                assert(fasttext.remaining() =~= Seq::<RecordModel>::empty());
            }
        }
        fasttext
    }

    fn inc(&self, delta: usize) {
        if let Some(signal) = &self.signal {
            signal.inc(delta as u64);
        }
    }

    /// Produces the record of the next line, reporting the line's raw byte
    /// length before parsing it.
    pub fn next(&mut self) -> (r: Option<Record>)
        requires
            old(self).wf(),
        ensures
            final(self).wf(),
            final(self).data() == old(self).data(),
            r is None ==> old(self).remaining().len() == 0 && final(self).remaining() == old(
                self,
            ).remaining(),
            r matches Some(rec) ==> {
                &&& old(self).remaining().len() > 0
                &&& rec.model() == old(self).remaining()[0]
                &&& final(self).remaining() == old(self).remaining().skip(1)
            },
    {
        let ghost rest0 = self.iterator.rest();
        match self.iterator.read_piece() {
            None => {
                proof {
                    old(self).iterator.lemma_rest_len();
                    assert(rest0.len() == 0);
                }
                None
            },
            Some((delta, piece)) => {
                self.inc(delta);
                proof {
                    old(self).iterator.lemma_rest_len();
                    lemma_pieces_step(rest0, 10);
                    self.iterator.lemma_rest_len();
                    assert(self.iterator.rest() =~= rest0.skip(piece_len(rest0, 10)));
                    lemma_records_of_pieces_skip(pieces(rest0, 10), 1);
                    assert(old(self).remaining().skip(1) =~= self.remaining());
                    assert(old(self).remaining()[0] == crate::wordvector::record_of_line(
                        piece_bytes(rest0, 10),
                    ));
                }
                Some(parse_record(piece.as_slice()))
            },
        }
    }

    /// Erases the concrete decoder behind the closed [`Iter`] union.
    pub fn into_iter(self) -> (r: Iter<S>)
        ensures
            r == Iter::<S>::FastText(self),
    {
        Iter::FastText(self)
    }
}

/// Progress is a pure observer: what remains to be decoded depends only on
/// the bytes and the position, never on whether or which signal is attached.
pub proof fn lemma_signal_independent<S1: IncSignal, S2: IncSignal>(a: FastText<S1>, b: FastText<S2>)
    requires
        a.data() == b.data(),
        a.pos() == b.pos(),
    ensures
        a.remaining() == b.remaining(),
{
    assert(a.iterator.rest() =~= b.iterator.rest());
}

} // verus!
