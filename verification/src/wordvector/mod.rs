//! The format decoders and their common output unit.
//!
//! Each decoder turns a byte source into a lazy, single-pass sequence of
//! [`Record`] values. All four formats share the per-line tokenization
//! implemented here: the first whitespace-delimited token is the word, the
//! remaining tokens are the weights, and a token that is not a float literal
//! becomes the zero weight without aborting the record or truncating the
//! rest of the line.

pub mod dataiterator;
pub mod fasttext;
pub mod gensim;
pub mod glove;
pub mod testing;
pub mod text;
pub mod word2vec;

use vstd::prelude::*;
use vstd::string::StringSliceAdditionalSpecFns;
use crate::io::ascii_chars;
use crate::io::lossy_of;
use crate::io::lossy_string;
use crate::io::pieces;
use crate::wordvector::text::check_float_token;
use crate::wordvector::text::is_float_token;
use crate::wordvector::text::lemma_float_token_ascii;
use crate::wordvector::text::split_ws;
use crate::wordvector::text::tokenize;
use crate::wordvector::fasttext::FastText;
use crate::wordvector::gensim::Gensim;
use crate::wordvector::glove::Glove;
use crate::wordvector::word2vec::Word2Vec;
use crate::progressbar::IncSignal;

verus! {

/// A source file path tagged with its declared format.
#[derive(Clone)]
pub enum VectorFile {
    FastText(String),
    Glove(String),
    Word2Vec(String),
    Gensim(String),
    Unknown,
}

/// The canonical token of one decoded weight: the original token when it is
/// a float literal, the token `0` otherwise.
pub open spec fn weight_token_view(t: Seq<u8>) -> Seq<char> {
    if is_float_token(t) {
        ascii_chars(t)
    } else {
        seq!['0']
    }
}

/// One scalar weight, carried as its canonical decimal token. The numeric
/// meaning of a weight is exactly the float value its token parses to; a
/// malformed source token has already been replaced by `0` here.
#[derive(Debug, PartialEq)]
pub struct Weight {
    token: String,
}

impl View for Weight {
    type V = Seq<char>;

    closed spec fn view(&self) -> Seq<char> {
        self.token@
    }
}

impl Weight {
    /// The weight whose value is exactly zero.
    pub fn zero() -> (w: Weight)
        ensures
            w@ == seq!['0'],
    {
        let z = "0".to_owned();
        proof {
            reveal_strlit("0");
            assert(z@ =~= seq!['0']);
        }
        Weight { token: z }
    }

    /// Decodes one weight token: the token itself when it is a float
    /// literal, the zero weight otherwise.
    pub fn from_bytes(t: &[u8]) -> (w: Weight)
        ensures
            w@ == weight_token_view(t@),
    {
        if check_float_token(t) {
            proof {
                lemma_float_token_ascii(t@);
            }
            Weight { token: lossy_string(t) }
        } else {
            Weight::zero()
        }
    }

    /// Decodes one weight token given as text.
    pub fn new(token: &str) -> (w: Weight)
        ensures
            w@ == weight_token_view(token.spec_bytes()),
    {
        Weight::from_bytes(token.as_bytes())
    }

    /// The canonical token.
    pub fn token(&self) -> (r: &str)
        ensures
            r@ == self@,
    {
        self.token.as_str()
    }
}

impl Clone for Weight {
    fn clone(&self) -> (r: Self)
        ensures
            r == *self,
    {
        Weight { token: self.token.clone() }
    }
}

/// The mathematical value of a decoded record: the word text and the
/// canonical weight tokens, in source order.
pub struct RecordModel {
    pub word: Seq<char>,
    pub weights: Seq<Seq<char>>,
}

/// The decoder output unit: a word token plus its weight vector.
#[derive(Debug, PartialEq)]
pub struct Record {
    pub word: String,
    pub vec: Vec<Weight>,
}

impl Record {
    pub open spec fn model(self) -> RecordModel {
        RecordModel { word: self.word@, weights: weights_of(self.vec@) }
    }

    pub fn new(word: &str, vec: Vec<Weight>) -> (r: Record)
        ensures
            r.word@ == word@,
            r.vec@ == vec@,
    {
        Record { word: word.to_owned(), vec }
    }
}

/// The canonical weight tokens of a token sequence.
pub open spec fn weight_views(toks: Seq<Seq<u8>>) -> Seq<Seq<char>> {
    toks.map_values(|t: Seq<u8>| weight_token_view(t))
}

/// The views of a sequence of weights.
pub open spec fn weights_of(points: Seq<Weight>) -> Seq<Seq<char>> {
    points.map_values(|w: Weight| w@)
}

/// The record decoded from one whitespace-tokenized line: the first token is
/// the word (empty when the line has none), every following token is a
/// weight. A malformed weight token contributes the zero weight and the
/// remaining tokens are still decoded; a line with no weight tokens still
/// yields a record with an empty vector.
pub open spec fn record_of_line(line: Seq<u8>) -> RecordModel {
    let toks = split_ws(line);
    RecordModel {
        word: if toks.len() == 0 {
            Seq::empty()
        } else {
            lossy_of(toks[0])
        },
        weights: if toks.len() == 0 {
            Seq::empty()
        } else {
            weight_views(toks.skip(1))
        },
    }
}

/// The records of a sequence of line pieces.
pub open spec fn records_of_pieces(ps: Seq<Seq<u8>>) -> Seq<RecordModel> {
    ps.map_values(|p: Seq<u8>| record_of_line(p))
}

/// The records of a newline-framed source, one per delimiter-bounded piece.
pub open spec fn line_records(data: Seq<u8>) -> Seq<RecordModel> {
    records_of_pieces(pieces(data, 10))
}

/// Dropping leading pieces drops exactly the corresponding records.
pub proof fn lemma_records_of_pieces_skip(ps: Seq<Seq<u8>>, n: int)
    requires
        0 <= n <= ps.len(),
    ensures
        records_of_pieces(ps).skip(n) =~= records_of_pieces(ps.skip(n)),
{
    assert forall|i: int| 0 <= i < ps.len() - n implies records_of_pieces(ps).skip(n)[i]
        == records_of_pieces(ps.skip(n))[i] by {
        assert(records_of_pieces(ps).skip(n)[i] == records_of_pieces(ps)[n + i]);
        assert(ps.skip(n)[i] == ps[n + i]);
    }
}

/// Tokenizes one raw line and builds its record.
pub fn parse_record(line: &[u8]) -> (r: Record)
    ensures
        r.model() == record_of_line(line@),
{
    let ghost toks_spec = split_ws(line@);
    let toks = tokenize(line);
    proof {
        assert(toks@.map_values(|t: Vec<u8>| t@) == toks_spec);
        assert(toks@.len() == toks_spec.len());
    }
    if toks.len() == 0 {
        let r = Record { word: String::new(), vec: Vec::new() };
        proof {
            assert(r.model().word =~= record_of_line(line@).word);
            assert(r.model().weights =~= record_of_line(line@).weights);
        }
        return r;
    }
    proof {
        assert(toks@[0]@ == toks_spec[0]);
    }
    let word = lossy_string(toks[0].as_slice());
    let mut weights: Vec<Weight> = Vec::new();
    let mut i: usize = 1;
    while i < toks.len()
        invariant
            1 <= i <= toks@.len(),
            toks@.len() == toks_spec.len(),
            toks@.map_values(|t: Vec<u8>| t@) == toks_spec,
            weights@.len() == i - 1,
            forall|k: int| 0 <= k < i - 1 ==> weights@[k]@ == weight_token_view(toks_spec[k + 1]),
        decreases toks@.len() - i,
    {
        proof {
            assert(toks@[i as int]@ == toks_spec[i as int]);
        }
        let w = Weight::from_bytes(toks[i].as_slice());
        weights.push(w);
        i = i + 1;
    }
    let r = Record { word, vec: weights };
    proof {
        let m = r.model();
        let e = record_of_line(line@);
        assert(m.word == e.word);
        assert(m.weights.len() == toks_spec.len() - 1);
        assert(e.weights.len() == toks_spec.skip(1).len());
        assert forall|k: int| 0 <= k < m.weights.len() implies m.weights[k] == e.weights[k] by {
            assert(m.weights[k] == r.vec@[k]@);
            assert(e.weights[k] == weight_views(toks_spec.skip(1))[k]);
            assert(weight_views(toks_spec.skip(1))[k] == weight_token_view(toks_spec.skip(1)[k]));
            assert(toks_spec.skip(1)[k] == toks_spec[k + 1]);
        }
        assert(m.weights =~= e.weights);
    }
    r
}

/// The type-erased record sequence: a closed union over the four decoders,
/// dispatched once per file.
pub enum Iter<S> {
    FastText(FastText<S>),
    Glove(Glove<S>),
    Word2Vec(Word2Vec<S>),
    Gensim(Gensim<S>),
}

impl<S: IncSignal> Iter<S> {
    /// The records still to be produced.
    pub open spec fn remaining(self) -> Seq<RecordModel> {
        match self {
            Iter::FastText(d) => d.remaining(),
            Iter::Glove(d) => d.remaining(),
            Iter::Word2Vec(d) => d.remaining(),
            Iter::Gensim(d) => d.remaining(),
        }
    }

    pub open spec fn wf(self) -> bool {
        match self {
            Iter::FastText(d) => d.wf(),
            Iter::Glove(d) => d.wf(),
            Iter::Word2Vec(d) => d.wf(),
            Iter::Gensim(d) => d.wf(),
        }
    }

    /// Produces the next record of whichever decoder is wrapped.
    pub fn next(&mut self) -> (r: Option<Record>)
        requires
            old(self).wf(),
        ensures
            final(self).wf(),
            r is None ==> old(self).remaining().len() == 0 && final(self).remaining()
                == old(self).remaining(),
            r matches Some(rec) ==> {
                &&& old(self).remaining().len() > 0
                &&& rec.model() == old(self).remaining()[0]
                &&& final(self).remaining() == old(self).remaining().skip(1)
            },
    {
        match self {
            Iter::FastText(d) => d.next(),
            Iter::Glove(d) => d.next(),
            Iter::Word2Vec(d) => d.next(),
            Iter::Gensim(d) => d.next(),
        }
    }
}

} // verus!
