//! Low-level byte-delimiter scanning.
//!
//! [`IteratorWithSignal`] splits a byte sequence on a configurable delimiter
//! byte, strips a trailing delimiter from each returned piece, and reports the
//! raw number of bytes consumed per piece, so that a progress observer can
//! account for every byte of the source even though delimiters are stripped
//! from the returned text.

use vstd::prelude::*;

verus! {

/// The characters produced by decoding a byte sequence as UTF-8 with
/// replacement of invalid sequences. The decoding is a function of the bytes
/// alone; nothing more is assumed of it here beyond what
/// [`lossy_string`] states.
pub uninterp spec fn lossy_of(bytes: Seq<u8>) -> Seq<char>;

/// True when every byte of `bytes` is ASCII.
pub open spec fn all_ascii(bytes: Seq<u8>) -> bool {
    forall|i: int| 0 <= i < bytes.len() ==> bytes[i] < 128
}

/// The characters of an ASCII byte sequence, byte for byte.
pub open spec fn ascii_chars(bytes: Seq<u8>) -> Seq<char> {
    bytes.map_values(|b: u8| b as char)
}

/// Relies on `String::from_utf8_lossy`: the result depends on the bytes alone;
/// valid UTF-8 (in particular ASCII) passes through unchanged, and invalid
/// sequences are replaced, never rejected.
#[verifier::external_body]
pub fn lossy_string(bytes: &[u8]) -> (r: String)
    ensures
        r@ == lossy_of(bytes@),
        all_ascii(bytes@) ==> r@ == ascii_chars(bytes@),
{
    String::from_utf8_lossy(bytes).into_owned()
}

/// The number of bytes consumed when reading one delimiter-bounded piece from
/// the front of `s`: everything up to and including the first occurrence of
/// `d`, or all of `s` when `d` does not occur.
pub open spec fn piece_len(s: Seq<u8>, d: u8) -> int
    decreases s.len(),
{
    if s.len() == 0 {
        0
    } else if s[0] == d {
        1
    } else {
        1 + piece_len(s.skip(1), d)
    }
}

/// The content of the first delimiter-bounded piece of `s`: the consumed bytes
/// with a single trailing delimiter stripped when one is present.
pub open spec fn piece_bytes(s: Seq<u8>, d: u8) -> Seq<u8> {
    let c = s.take(piece_len(s, d));
    if c.len() > 0 && c.last() == d {
        c.drop_last()
    } else {
        c
    }
}

pub proof fn lemma_piece_len_bounds(s: Seq<u8>, d: u8)
    requires
        s.len() > 0,
    ensures
        1 <= piece_len(s, d) <= s.len(),
    decreases s.len(),
{
    if s[0] != d {
        if s.skip(1).len() > 0 {
            lemma_piece_len_bounds(s.skip(1), d);
        } else {
            assert(piece_len(s.skip(1), d) == 0);
        }
    }
}

/// The sequence of piece contents obtained by scanning all of `s`.
pub open spec fn pieces(s: Seq<u8>, d: u8) -> Seq<Seq<u8>>
    decreases s.len(),
{
    if s.len() == 0 {
        Seq::empty()
    } else {
        proof {
            lemma_piece_len_bounds(s, d);
        }
        seq![piece_bytes(s, d)] + pieces(s.skip(piece_len(s, d)), d)
    }
}

/// Scanning a non-empty source yields its first piece and then the pieces of
/// what follows it.
pub proof fn lemma_pieces_step(s: Seq<u8>, d: u8)
    requires
        s.len() > 0,
    ensures
        1 <= piece_len(s, d) <= s.len(),
        pieces(s, d).len() > 0,
        pieces(s, d)[0] == piece_bytes(s, d),
        pieces(s, d).skip(1) =~= pieces(s.skip(piece_len(s, d)), d),
{
    lemma_piece_len_bounds(s, d);
    assert(pieces(s, d) == seq![piece_bytes(s, d)] + pieces(s.skip(piece_len(s, d)), d));
}

/// When the first delimiter occurrence in `s` is at index `j`, exactly
/// `j + 1` bytes are consumed for the first piece.
pub proof fn lemma_piece_len_found(s: Seq<u8>, d: u8, j: int)
    requires
        0 <= j < s.len(),
        s[j] == d,
        forall|m: int| 0 <= m < j ==> s[m] != d,
    ensures
        piece_len(s, d) == j + 1,
    decreases j,
{
    if j > 0 {
        assert(s.skip(1)[j - 1] == d);
        assert(forall|m: int| 0 <= m < j - 1 ==> s.skip(1)[m] != d);
        lemma_piece_len_found(s.skip(1), d, j - 1);
    }
}

/// When `d` does not occur in `s`, the whole of `s` is consumed as one piece.
pub proof fn lemma_piece_len_not_found(s: Seq<u8>, d: u8)
    requires
        forall|m: int| 0 <= m < s.len() ==> s[m] != d,
    ensures
        piece_len(s, d) == s.len(),
    decreases s.len(),
{
    if s.len() > 0 {
        assert(forall|m: int| 0 <= m < s.skip(1).len() ==> s.skip(1)[m] != d);
        lemma_piece_len_not_found(s.skip(1), d);
    }
}

/// The byte counts reported per piece when scanning all of `s`.
pub open spec fn piece_deltas(s: Seq<u8>, d: u8) -> Seq<int>
    decreases s.len(),
{
    if s.len() == 0 {
        Seq::empty()
    } else {
        proof {
            lemma_piece_len_bounds(s, d);
        }
        seq![piece_len(s, d)] + piece_deltas(s.skip(piece_len(s, d)), d)
    }
}

/// The sum of a sequence of counts.
pub open spec fn sum_of(s: Seq<int>) -> int
    decreases s.len(),
{
    if s.len() == 0 {
        0
    } else {
        s[0] + sum_of(s.skip(1))
    }
}

/// Progress accounting is exact: the per-piece byte counts a scan reports,
/// delimiters included, sum to exactly the length of the source, for any
/// delimiter byte.
pub proof fn lemma_consumed_is_length(s: Seq<u8>, d: u8)
    ensures
        sum_of(piece_deltas(s, d)) == s.len(),
    decreases s.len(),
{
    if s.len() > 0 {
        lemma_piece_len_bounds(s, d);
        lemma_consumed_is_length(s.skip(piece_len(s, d)), d);
        assert(piece_deltas(s, d)[0] == piece_len(s, d));
        assert(piece_deltas(s, d).skip(1) =~= piece_deltas(s.skip(piece_len(s, d)), d));
    }
}

/// A scanner over an in-memory byte source. `next` hands out one
/// delimiter-bounded piece at a time together with the raw byte count it
/// consumed, which callers forward to a progress signal.
pub struct IteratorWithSignal {
    data: Vec<u8>,
    pos: usize,
    delimiter: u8,
}

impl IteratorWithSignal {
    /// The full byte source being scanned.
    pub closed spec fn data(self) -> Seq<u8> {
        self.data@
    }

    /// How many bytes have been consumed so far.
    pub closed spec fn pos(self) -> int {
        self.pos as int
    }

    /// The delimiter byte that ends a piece.
    pub closed spec fn delim(self) -> u8 {
        self.delimiter
    }

    pub closed spec fn wf(self) -> bool {
        self.pos <= self.data@.len()
    }

    /// The bytes not yet consumed.
    pub open spec fn rest(self) -> Seq<u8> {
        self.data().skip(self.pos())
    }

    /// A well-formed scanner sits between the start and the end of its data.
    pub proof fn lemma_rest_len(self)
        requires
            self.wf(),
        ensures
            0 <= self.pos() <= self.data().len(),
            self.rest().len() == self.data().len() - self.pos(),
    {
    }

    pub fn new(data: Vec<u8>, delimiter: u8) -> (r: IteratorWithSignal)
        ensures
            r.wf(),
            r.data() == data@,
            r.pos() == 0,
            r.delim() == delimiter,
    {
        IteratorWithSignal { data, pos: 0, delimiter }
    }

    /// Reads the next delimiter-bounded piece as raw bytes. Returns the raw
    /// number of bytes consumed (delimiter included) and the piece with a
    /// single trailing delimiter stripped; returns `None` exactly when the
    /// source is exhausted.
    pub fn read_piece(&mut self) -> (r: Option<(usize, Vec<u8>)>)
        requires
            old(self).wf(),
        ensures
            final(self).wf(),
            final(self).data() == old(self).data(),
            final(self).delim() == old(self).delim(),
            r is None ==> old(self).pos() == old(self).data().len() && final(self).pos()
                == old(self).pos(),
            r matches Some((delta, piece)) ==> {
                let rest = old(self).rest();
                let d = old(self).delim();
                &&& old(self).pos() < old(self).data().len()
                &&& delta == piece_len(rest, d) && piece@ == piece_bytes(rest, d)
                &&& final(self).pos() == old(self).pos() + piece_len(rest, d)
            },
    {
        let n = self.data.len();
        if self.pos == n {
            return None;
        }
        let start = self.pos;
        let ghost rest = self.data@.skip(start as int);
        let ghost d = self.delimiter;
        let mut i = start;
        while i < n && self.data[i] != self.delimiter
            invariant
                start <= i <= n,
                n == self.data@.len(),
                d == self.delimiter,
                rest == self.data@.skip(start as int),
                forall|m: int| start <= m < i ==> self.data@[m] != d,
            decreases n - i,
        {
            i = i + 1;
        }
        let found = i < n;
        proof {
            if found {
                lemma_piece_len_found(rest, d, i - start);
            } else {
                assert(forall|m: int| 0 <= m < rest.len() ==> rest[m] != d);
                lemma_piece_len_not_found(rest, d);
            }
        }
        // `i` is the content end: the delimiter itself, when found, is
        // consumed but stripped from the returned text.
        let delta = if found {
            i + 1 - start
        } else {
            i - start
        };
        let mut content: Vec<u8> = Vec::new();
        let mut k = start;
        while k < i
            invariant
                start <= k <= i <= n,
                n == self.data@.len(),
                content@ == self.data@.subrange(start as int, k as int),
            decreases i - k,
        {
            content.push(self.data[k]);
            k = k + 1;
        }
        proof {
            let plen = piece_len(rest, d);
            let c = rest.take(plen);
            if found {
                assert(c.len() == i - start + 1);
                assert(c.last() == rest[i - start]);
                assert(piece_bytes(rest, d) =~= content@);
            } else {
                assert(c =~= rest);
                assert(rest.len() > 0);
                assert(rest.last() == self.data@[n - 1]);
                assert(piece_bytes(rest, d) =~= content@);
            }
        }
        self.pos = start + delta;
        Some((delta, content))
    }

    /// Reads the next piece decoded as text; byte accounting is unchanged by
    /// the decoding.
    pub fn read_line(&mut self) -> (r: Option<(usize, String)>)
        requires
            old(self).wf(),
        ensures
            final(self).wf(),
            final(self).data() == old(self).data(),
            final(self).delim() == old(self).delim(),
            r is None ==> old(self).pos() == old(self).data().len() && final(self).pos()
                == old(self).pos(),
            r matches Some((delta, line)) ==> {
                let rest = old(self).rest();
                let d = old(self).delim();
                &&& old(self).pos() < old(self).data().len()
                &&& delta == piece_len(rest, d) && line@ == lossy_of(piece_bytes(rest, d))
                &&& final(self).pos() == old(self).pos() + piece_len(rest, d)
            },
    {
        match self.read_piece() {
            None => None,
            Some((delta, piece)) => Some((delta, lossy_string(piece.as_slice()))),
        }
    }

    /// Same as [`Self::read_line`]; the scanner is consumed piece by piece.
    pub fn next(&mut self) -> (r: Option<(usize, String)>)
        requires
            old(self).wf(),
        ensures
            final(self).wf(),
            final(self).data() == old(self).data(),
            final(self).delim() == old(self).delim(),
            r is None ==> old(self).pos() == old(self).data().len() && final(self).pos()
                == old(self).pos(),
            r matches Some((delta, line)) ==> {
                let rest = old(self).rest();
                let d = old(self).delim();
                &&& old(self).pos() < old(self).data().len()
                &&& delta == piece_len(rest, d) && line@ == lossy_of(piece_bytes(rest, d))
                &&& final(self).pos() == old(self).pos() + piece_len(rest, d)
            },
    {
        self.read_line()
    }
}

} // verus!
