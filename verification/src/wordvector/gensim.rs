//! Decoder for the Gensim TSV variant: the source is framed on `]` so each
//! piece is one bracketed block. Within a block, the text up to and including
//! the first `[` is the header, whose second whitespace token is the word;
//! the weights are the whitespace tokens that follow the `[`. There is no
//! header block, and every consumed block reports its raw byte length to the
//! attached signal before parsing.

use vstd::prelude::*;
use std::rc::Rc;
use vstd::slice::slice_subrange;
use crate::io::IteratorWithSignal;
use crate::io::lemma_piece_len_found;
use crate::io::lemma_piece_len_not_found;
use crate::io::lemma_pieces_step;
use crate::io::lossy_of;
use crate::io::lossy_string;
use crate::io::piece_bytes;
use crate::io::piece_len;
use crate::io::pieces;
use crate::progressbar::IncSignal;
use crate::wordvector::Iter;
use crate::wordvector::Record;
use crate::wordvector::RecordModel;
use crate::wordvector::Weight;
use crate::wordvector::text::split_ws;
use crate::wordvector::text::tokenize;
use crate::wordvector::weight_views;

verus! {

/// The record decoded from one bracketed block: the word is the second
/// whitespace token of the header (the text up to and including the first
/// `[`, or the whole block when there is none), and the weights are the
/// tokens after the `[`.
pub open spec fn gensim_record(piece: Seq<u8>) -> RecordModel {
    let hl = piece_len(piece, 91);
    let toks = split_ws(piece.take(hl));
    RecordModel {
        word: if toks.len() >= 2 {
            lossy_of(toks[1])
        } else {
            Seq::empty()
        },
        weights: weight_views(split_ws(piece.skip(hl))),
    }
}

/// The records of a sequence of block pieces.
pub open spec fn gensim_records_of_pieces(ps: Seq<Seq<u8>>) -> Seq<RecordModel> {
    ps.map_values(|p: Seq<u8>| gensim_record(p))
}

/// The records of a `]`-framed source, one per block.
pub open spec fn block_records(data: Seq<u8>) -> Seq<RecordModel> {
    gensim_records_of_pieces(pieces(data, 93))
}

/// Dropping leading blocks drops exactly the corresponding records.
pub proof fn lemma_gensim_records_of_pieces_skip(ps: Seq<Seq<u8>>, n: int)
    requires
        0 <= n <= ps.len(),
    ensures
        gensim_records_of_pieces(ps).skip(n) =~= gensim_records_of_pieces(ps.skip(n)),
{
    assert forall|i: int| 0 <= i < ps.len() - n implies gensim_records_of_pieces(ps).skip(n)[i]
        == gensim_records_of_pieces(ps.skip(n))[i] by {
        assert(gensim_records_of_pieces(ps).skip(n)[i] == gensim_records_of_pieces(ps)[n + i]);
        assert(ps.skip(n)[i] == ps[n + i]);
    }
}

pub struct Gensim<S> {
    iterator: IteratorWithSignal,
    signal: Option<Rc<S>>,
}

impl<S: IncSignal> Gensim<S> {
    /// The full byte source handed to the decoder.
    pub closed spec fn data(self) -> Seq<u8> {
        self.iterator.data()
    }

    /// How many bytes have been consumed so far.
    pub closed spec fn pos(self) -> int {
        self.iterator.pos()
    }

    pub closed spec fn wf(self) -> bool {
        self.iterator.wf() && self.iterator.delim() == 93
    }

    /// The records still to be produced, one per remaining block.
    pub closed spec fn remaining(self) -> Seq<RecordModel> {
        gensim_records_of_pieces(pieces(self.iterator.rest(), 93))
    }

    /// Builds the decoder; there is no header block to skip.
    pub fn new(reader: Vec<u8>, signal: Option<Rc<S>>) -> (r: Gensim<S>)
        ensures
            r.wf(),
            r.data() == reader@,
            r.remaining() == block_records(reader@),
    {
        let gensim = Gensim { iterator: IteratorWithSignal::new(reader, 93), signal };
        proof {
            assert(gensim.iterator.rest() =~= reader@);
        }
        gensim
    }

    /// Reads and parses the next block, reporting its raw byte length to the
    /// signal before parsing is attempted.
    fn read_line(&mut self) -> (r: Option<Record>)
        requires
            old(self).wf(),
        ensures
            final(self).wf(),
            final(self).data() == old(self).data(),
            r is None ==> old(self).remaining().len() == 0 && final(self).remaining() == old(
                self,
            ).remaining(),
            r matches Some(rec) ==> {
                &&& old(self).remaining().len() > 0
                &&& rec.model() == old(self).remaining()[0]
                &&& final(self).remaining() == old(self).remaining().skip(1)
            },
    {
        let ghost rest0 = self.iterator.rest();
        match self.iterator.read_piece() {
            None => {
                proof {
                    old(self).iterator.lemma_rest_len();
                    assert(rest0.len() == 0);
                }
                None
            },
            Some((delta, piece)) => {
                self.inc(delta);
                proof {
                    old(self).iterator.lemma_rest_len();
                    lemma_pieces_step(rest0, 93);
                    self.iterator.lemma_rest_len();
                    assert(self.iterator.rest() =~= rest0.skip(piece_len(rest0, 93)));
                    lemma_gensim_records_of_pieces_skip(pieces(rest0, 93), 1);
                    assert(old(self).remaining().skip(1) =~= self.remaining());
                    assert(old(self).remaining()[0] == gensim_record(piece_bytes(rest0, 93)));
                }
                Some(self.parse(piece.as_slice()))
            },
        }
    }

    /// The word of a block: the second whitespace token of its header.
    fn parse_word(&self, header: &[u8]) -> (r: String)
        ensures
            r@ == {
                let toks = split_ws(header@);
                if toks.len() >= 2 {
                    lossy_of(toks[1])
                } else {
                    Seq::<char>::empty()
                }
            },
    {
        let toks = tokenize(header);
        proof {
            assert(toks@.map_values(|t: Vec<u8>| t@) == split_ws(header@));
        }
        if toks.len() >= 2 {
            proof {
                assert(toks@[1]@ == split_ws(header@)[1]);
            }
            lossy_string(toks[1].as_slice())
        } else {
            String::new()
        }
    }

    /// The weights of a block: every whitespace token after the `[`.
    fn parse_weights(&self, tail: &[u8]) -> (r: Vec<Weight>)
        ensures
            r@.map_values(|w: Weight| w@) == weight_views(split_ws(tail@)),
    {
        let ghost toks_spec = split_ws(tail@);
        let toks = tokenize(tail);
        proof {
            assert(toks@.map_values(|t: Vec<u8>| t@) == toks_spec);
        }
        let mut weights: Vec<Weight> = Vec::new();
        let mut i: usize = 0;
        while i < toks.len()
            invariant
                0 <= i <= toks@.len(),
                toks@.map_values(|t: Vec<u8>| t@) == toks_spec,
                toks@.len() == toks_spec.len(),
                weights@.len() == i,
                forall|k: int| 0 <= k < i ==> weights@[k]@ == crate::wordvector::weight_token_view(
                    toks_spec[k],
                ),
            decreases toks@.len() - i,
        {
            proof {
                assert(toks@[i as int]@ == toks_spec[i as int]);
            }
            let w = Weight::from_bytes(toks[i].as_slice());
            weights.push(w);
            i = i + 1;
        }
        proof {
            assert(weights@.map_values(|w: Weight| w@) =~= weight_views(toks_spec));
        }
        weights
    }

    /// Splits a block at its first `[` and decodes word and weights.
    fn parse(&self, line: &[u8]) -> (r: Record)
        ensures
            r.model() == gensim_record(line@),
    {
        let n = line.len();
        let mut i: usize = 0;
        while i < n && line[i] != 91
            invariant
                0 <= i <= n,
                n == line@.len(),
                forall|m: int| 0 <= m < i ==> line@[m] != 91,
            decreases n - i,
        {
            i = i + 1;
        }
        let hl = if i < n {
            i + 1
        } else {
            n
        };
        proof {
            if i < n {
                lemma_piece_len_found(line@, 91, i as int);
            } else {
                lemma_piece_len_not_found(line@, 91);
            }
            assert(piece_len(line@, 91) == hl);
        }
        let header = slice_subrange(line, 0, hl);
        let tail = slice_subrange(line, hl, n);
        proof {
            assert(header@ =~= line@.take(hl as int));
            assert(tail@ =~= line@.skip(hl as int));
        }
        let word = self.parse_word(header);
        let weights = self.parse_weights(tail);
        let r = Record { word, vec: weights };
        proof {
            assert(r.model().word == gensim_record(line@).word);
            assert(r.model().weights == gensim_record(line@).weights);
        }
        r
    }

    fn inc(&self, delta: usize) {
        if let Some(signal) = &self.signal {
            signal.inc(delta as u64);
        }
    }

    /// Erases the concrete decoder behind the closed [`Iter`] union.
    pub fn into_iter(self) -> (r: Iter<S>)
        ensures
            r == Iter::<S>::Gensim(self),
    {
        Iter::Gensim(self)
    }

    /// Produces the record of the next block.
    pub fn next(&mut self) -> (r: Option<Record>)
        requires
            old(self).wf(),
        ensures
            final(self).wf(),
            final(self).data() == old(self).data(),
            r is None ==> old(self).remaining().len() == 0 && final(self).remaining() == old(
                self,
            ).remaining(),
            r matches Some(rec) ==> {
                &&& old(self).remaining().len() > 0
                &&& rec.model() == old(self).remaining()[0]
                &&& final(self).remaining() == old(self).remaining().skip(1)
            },
    {
        self.read_line()
    }
}

/// Progress is a pure observer: what remains to be decoded depends only on
/// the bytes and the position, never on whether or which signal is attached.
pub proof fn lemma_signal_independent<S1: IncSignal, S2: IncSignal>(a: Gensim<S1>, b: Gensim<S2>)
    requires
        a.data() == b.data(),
        a.pos() == b.pos(),
    ensures
        a.remaining() == b.remaining(),
{
    assert(a.iterator.rest() =~= b.iterator.rest());
}

} // verus!
