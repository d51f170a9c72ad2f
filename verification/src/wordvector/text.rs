//! Byte-level tokenization shared by the format decoders.
//!
//! Lines are split on ASCII whitespace; a weight token is accepted exactly
//! when it matches the grammar of a floating-point literal (an optional sign,
//! then `inf`, `infinity` or `nan` ignoring case, or digits with at most one
//! dot, optionally followed by an exponent marker, an optional sign and
//! digits). Splitting raw bytes commutes with replacement-based text decoding
//! because ASCII whitespace bytes never occur inside a multi-byte sequence.

use vstd::prelude::*;

verus! {

/// ASCII whitespace: space, tab, line feed, vertical tab, form feed,
/// carriage return.
pub open spec fn is_space(b: u8) -> bool {
    b == 32 || (9 <= b && b <= 13)
}

/// The length of the whitespace-free token at the front of `s`.
pub open spec fn token_len(s: Seq<u8>) -> int
    decreases s.len(),
{
    if s.len() == 0 || is_space(s[0]) {
        0
    } else {
        1 + token_len(s.skip(1))
    }
}

pub proof fn lemma_token_len_bounds(s: Seq<u8>)
    ensures
        0 <= token_len(s) <= s.len(),
        s.len() > 0 && !is_space(s[0]) ==> 1 <= token_len(s),
    decreases s.len(),
{
    if s.len() > 0 && !is_space(s[0]) {
        lemma_token_len_bounds(s.skip(1));
    }
}

/// The token at the front of `s` ends exactly at the first whitespace byte.
pub proof fn lemma_token_len_at(s: Seq<u8>, j: int)
    requires
        0 <= j <= s.len(),
        forall|m: int| 0 <= m < j ==> !is_space(s[m]),
        j == s.len() || is_space(s[j]),
    ensures
        token_len(s) == j,
    decreases j,
{
    if j == 0 {
        if s.len() > 0 && !is_space(s[0]) {
            assert(is_space(s[0]));  // contradiction with j == 0 being a boundary
        }
    } else {
        assert(!is_space(s[0]));
        assert(forall|m: int| 0 <= m < j - 1 ==> !is_space(s.skip(1)[m]));
        assert(j - 1 == s.skip(1).len() || is_space(s.skip(1)[j - 1]));
        lemma_token_len_at(s.skip(1), j - 1);
    }
}

/// The whitespace-separated tokens of `s`, in order.
pub open spec fn split_ws(s: Seq<u8>) -> Seq<Seq<u8>>
    decreases s.len(),
{
    if s.len() == 0 {
        Seq::empty()
    } else if is_space(s[0]) {
        split_ws(s.skip(1))
    } else {
        proof {
            lemma_token_len_bounds(s);
        }
        seq![s.take(token_len(s))] + split_ws(s.skip(token_len(s)))
    }
}

fn is_space_b(b: u8) -> (r: bool)
    ensures
        r == is_space(b),
{
    b == 32 || (9 <= b && b <= 13)
}

/// Splits `bytes` on runs of ASCII whitespace.
pub fn tokenize(bytes: &[u8]) -> (r: Vec<Vec<u8>>)
    ensures
        r@.map_values(|t: Vec<u8>| t@) == split_ws(bytes@),
{
    let n = bytes.len();
    let mut toks: Vec<Vec<u8>> = Vec::new();
    let mut i: usize = 0;
    proof {
        assert(bytes@.skip(0) =~= bytes@);
        assert(toks@.map_values(|t: Vec<u8>| t@) + split_ws(bytes@) =~= split_ws(bytes@));
    }
    while i < n
        invariant
            i <= n,
            n == bytes@.len(),
            split_ws(bytes@) == toks@.map_values(|t: Vec<u8>| t@) + split_ws(
                bytes@.skip(i as int),
            ),
        decreases n - i,
    {
        if is_space_b(bytes[i]) {
            proof {
                assert(bytes@.skip(i as int).skip(1) =~= bytes@.skip(i + 1));
            }
            i = i + 1;
        } else {
            let start = i;
            let mut j = i;
            while j < n && !is_space_b(bytes[j])
                invariant
                    start <= j <= n,
                    n == bytes@.len(),
                    forall|m: int| start <= m < j ==> !is_space(bytes@[m]),
                decreases n - j,
            {
                j = j + 1;
            }
            let ghost rest = bytes@.skip(start as int);
            proof {
                assert(forall|m: int| 0 <= m < j - start ==> !is_space(rest[m]));
                if j < n {
                    assert(is_space(rest[j - start]));
                }
                lemma_token_len_at(rest, j - start);
            }
            let mut tok: Vec<u8> = Vec::new();
            let mut k = start;
            while k < j
                invariant
                    start <= k <= j <= n,
                    n == bytes@.len(),
                    tok@ == bytes@.subrange(start as int, k as int),
                decreases j - k,
            {
                tok.push(bytes[k]);
                k = k + 1;
            }
            proof {
                assert(rest.take(j - start) =~= tok@);
                assert(rest.skip(j - start) =~= bytes@.skip(j as int));
                assert(split_ws(rest) == seq![tok@] + split_ws(bytes@.skip(j as int)));
                let f = |t: Vec<u8>| t@;
                assert(toks@.push(tok).map_values(f) =~= toks@.map_values(f) + seq![tok@]);
                assert(toks@.map_values(f) + (seq![tok@] + split_ws(bytes@.skip(j as int)))
                    =~= (toks@.map_values(f) + seq![tok@]) + split_ws(bytes@.skip(j as int)));
            }
            toks.push(tok);
            i = j;
        }
    }
    proof {
        assert(bytes@.skip(n as int) =~= Seq::<u8>::empty());
        assert(toks@.map_values(|t: Vec<u8>| t@) + split_ws(bytes@.skip(n as int)) =~= toks@
            .map_values(|t: Vec<u8>| t@));
    }
    toks
}

/// An ASCII decimal digit.
pub open spec fn is_digit(b: u8) -> bool {
    48 <= b && b <= 57
}

/// ASCII lowercasing of a single byte.
pub open spec fn lower(b: u8) -> u8 {
    if 65 <= b && b <= 90 {
        (b + 32) as u8
    } else {
        b
    }
}

pub open spec fn lower_seq(u: Seq<u8>) -> Seq<u8> {
    u.map_values(|b: u8| lower(b))
}

/// A leading plus or minus.
pub open spec fn is_sign(b: u8) -> bool {
    b == 43 || b == 45
}

pub open spec fn strip_sign(t: Seq<u8>) -> Seq<u8> {
    if t.len() > 0 && is_sign(t[0]) {
        t.skip(1)
    } else {
        t
    }
}

/// `inf`, `infinity` or `nan`, ignoring case.
pub open spec fn is_special(u: Seq<u8>) -> bool {
    ||| lower_seq(u) == seq![105u8, 110u8, 102u8]
    ||| lower_seq(u) == seq![105u8, 110u8, 102u8, 105u8, 110u8, 105u8, 116u8, 121u8]
    ||| lower_seq(u) == seq![110u8, 97u8, 110u8]
}

/// Digits with at most one dot and at least one digit.
pub open spec fn is_mantissa(m: Seq<u8>) -> bool {
    &&& m.len() > 0
    &&& forall|i: int| 0 <= i < m.len() ==> is_digit(m[i]) || m[i] == 46
    &&& forall|i: int, j: int| 0 <= i < j < m.len() ==> !(m[i] == 46 && m[j] == 46)
    &&& exists|i: int| 0 <= i < m.len() && is_digit(m[i])
}

/// What may follow an exponent marker: an optional sign, then digits.
pub open spec fn is_exponent(x: Seq<u8>) -> bool {
    let d = strip_sign(x);
    d.len() > 0 && forall|i: int| 0 <= i < d.len() ==> is_digit(d[i])
}

/// `e` or `E`.
pub open spec fn is_exp_marker(b: u8) -> bool {
    b == 101 || b == 69
}

/// A mantissa, optionally followed by an exponent marker and an exponent.
pub open spec fn is_number(u: Seq<u8>) -> bool {
    ||| is_mantissa(u)
    ||| exists|i: int|
        0 <= i < u.len() && is_exp_marker(u[i]) && is_mantissa(u.take(i)) && is_exponent(
            u.skip(i + 1),
        )
}

/// The grammar accepted by a 32-bit float parse: an optional sign, then a
/// special name or a number.
pub open spec fn is_float_token(t: Seq<u8>) -> bool {
    is_special(strip_sign(t)) || is_number(strip_sign(t))
}

fn lower_b(b: u8) -> (r: u8)
    ensures
        r == lower(b),
{
    if 65 <= b && b <= 90 {
        b + 32
    } else {
        b
    }
}

fn check_mantissa(t: &[u8], lo: usize, hi: usize) -> (b: bool)
    requires
        lo <= hi <= t@.len(),
    ensures
        b == is_mantissa(t@.subrange(lo as int, hi as int)),
{
    let ghost m = t@.subrange(lo as int, hi as int);
    let mut i = lo;
    let mut ok = true;
    let mut digit = false;
    let mut seen_dot = false;
    let mut two_dots = false;
    while i < hi
        invariant
            lo <= i <= hi <= t@.len(),
            m == t@.subrange(lo as int, hi as int),
            ok == (forall|k: int| 0 <= k < i - lo ==> is_digit(m[k]) || m[k] == 46),
            digit == (exists|k: int| 0 <= k < i - lo && is_digit(m[k])),
            seen_dot == (exists|k: int| 0 <= k < i - lo && m[k] == 46),
            two_dots == (exists|k: int, k2: int|
                0 <= k < k2 < i - lo && m[k] == 46 && m[k2] == 46),
        decreases hi - i,
    {
        let c = t[i];
        proof {
            assert(m[i - lo] == c);
        }
        if 48 <= c && c <= 57 {
            digit = true;
        } else if c == 46 {
            if seen_dot {
                two_dots = true;
            }
            seen_dot = true;
        } else {
            ok = false;
        }
        i = i + 1;
    }
    ok && digit && !two_dots && hi > lo
}

fn check_exponent(t: &[u8], lo: usize, hi: usize) -> (b: bool)
    requires
        lo <= hi <= t@.len(),
    ensures
        b == is_exponent(t@.subrange(lo as int, hi as int)),
{
    let ghost x = t@.subrange(lo as int, hi as int);
    let dlo = if lo < hi && (t[lo] == 43 || t[lo] == 45) {
        lo + 1
    } else {
        lo
    };
    proof {
        assert(strip_sign(x) =~= t@.subrange(dlo as int, hi as int));
    }
    let ghost d = strip_sign(x);
    if dlo == hi {
        return false;
    }
    let mut i = dlo;
    let mut ok = true;
    while i < hi
        invariant
            dlo <= i <= hi <= t@.len(),
            d == t@.subrange(dlo as int, hi as int),
            ok == (forall|k: int| 0 <= k < i - dlo ==> is_digit(d[k])),
        decreases hi - i,
    {
        let c = t[i];
        proof {
            assert(d[i - dlo] == c);
        }
        if !(48 <= c && c <= 57) {
            ok = false;
        }
        i = i + 1;
    }
    ok
}

/// Decides membership in the float-literal grammar.
#[verifier::rlimit(50)]
pub fn check_float_token(t: &[u8]) -> (b: bool)
    ensures
        b == is_float_token(t@),
{
    let n = t.len();
    let start: usize = if n > 0 && (t[0] == 43 || t[0] == 45) {
        1
    } else {
        0
    };
    let ghost u = strip_sign(t@);
    proof {
        assert(u =~= t@.subrange(start as int, n as int));
    }
    // special names, ignoring case
    let m = n - start;
    let special = (m == 3 && lower_b(t[start]) == 105 && lower_b(t[start + 1]) == 110 && lower_b(
        t[start + 2],
    ) == 102) || (m == 8 && lower_b(t[start]) == 105 && lower_b(t[start + 1]) == 110 && lower_b(
        t[start + 2],
    ) == 102 && lower_b(t[start + 3]) == 105 && lower_b(t[start + 4]) == 110 && lower_b(
        t[start + 5],
    ) == 105 && lower_b(t[start + 6]) == 116 && lower_b(t[start + 7]) == 121) || (m == 3 && lower_b(
        t[start],
    ) == 110 && lower_b(t[start + 1]) == 97 && lower_b(t[start + 2]) == 110);
    proof {
        assert(lower_seq(u).len() == u.len());
        assert(forall|k: int| 0 <= k < u.len() ==> lower_seq(u)[k] == lower(u[k]));
        assert(forall|k: int| 0 <= k < u.len() ==> u[k] == t@[start + k]);
        if special {
            if m == 3 && lower(t@[start as int]) == 105 {
                assert(lower_seq(u) =~= seq![105u8, 110u8, 102u8]);
            } else if m == 8 {
                assert(lower_seq(u) =~= seq![105u8, 110u8, 102u8, 105u8, 110u8, 105u8, 116u8,
                    121u8]);
            } else {
                assert(lower_seq(u) =~= seq![110u8, 97u8, 110u8]);
            }
            assert(is_special(u));
        } else {
            assert(!is_special(u)) by {
                if is_special(u) {
                    if lower_seq(u) == seq![105u8, 110u8, 102u8] {
                        assert(m == 3 && lower(u[0]) == 105 && lower(u[1]) == 110 && lower(u[2])
                            == 102);
                    } else if lower_seq(u) == seq![105u8, 110u8, 102u8, 105u8, 110u8, 105u8, 116u8,
                        121u8] {
                        assert(m == 8 && lower(u[0]) == 105 && lower(u[1]) == 110 && lower(u[2])
                            == 102 && lower(u[3]) == 105 && lower(u[4]) == 110 && lower(u[5])
                            == 105 && lower(u[6]) == 116 && lower(u[7]) == 121);
                    } else {
                        assert(m == 3 && lower(u[0]) == 110 && lower(u[1]) == 97 && lower(u[2])
                            == 110);
                    }
                }
            }
        }
    }
    if special {
        return true;
    }
    // locate the first exponent marker
    let mut e = start;
    while e < n && t[e] != 101 && t[e] != 69
        invariant
            start <= e <= n,
            n == t@.len(),
            forall|m2: int| start <= m2 < e ==> !is_exp_marker(t@[m2]),
        decreases n - e,
    {
        e = e + 1;
    }
    if e == n {
        // no exponent marker anywhere in `u`
        let mok = check_mantissa(t, start, n);
        proof {
            assert(u =~= t@.subrange(start as int, n as int));
            if !mok {
                assert(!is_number(u)) by {
                    if is_number(u) && !is_mantissa(u) {
                        let i = choose|i: int|
                            0 <= i < u.len() && is_exp_marker(u[i]) && is_mantissa(u.take(i))
                                && is_exponent(u.skip(i + 1));
                        assert(is_exp_marker(t@[start + i]));
                    }
                }
            }
        }
        return mok;
    }
    let mok = check_mantissa(t, start, e);
    let eok = check_exponent(t, e + 1, n);
    proof {
        let i = e - start;
        assert(u.take(i) =~= t@.subrange(start as int, e as int));
        assert(u.skip(i + 1) =~= t@.subrange(e + 1, n as int));
        assert(is_exp_marker(u[i]));
        if mok && eok {
            assert(is_number(u));
        } else {
            assert(!is_mantissa(u)) by {
                if is_mantissa(u) {
                    assert(is_digit(u[i]) || u[i] == 46);
                }
            }
            assert(!is_number(u)) by {
                if is_number(u) {
                    let i2 = choose|i2: int|
                        0 <= i2 < u.len() && is_exp_marker(u[i2]) && is_mantissa(u.take(i2))
                            && is_exponent(u.skip(i2 + 1));
                    if i2 < i {
                        assert(is_exp_marker(t@[start + i2]));
                    } else if i2 > i {
                        assert(u.take(i2)[i] == u[i]);
                        assert(is_digit(u[i]) || u[i] == 46);
                    }
                }
            }
        }
    }
    mok && eok
}

/// Every byte of a float literal is ASCII.
pub proof fn lemma_float_token_ascii(t: Seq<u8>)
    requires
        is_float_token(t),
    ensures
        forall|i: int| 0 <= i < t.len() ==> t[i] < 128,
{
    let u = strip_sign(t);
    let off: int = if t.len() > 0 && is_sign(t[0]) {
        1
    } else {
        0
    };
    assert(forall|k: int| 0 <= k < u.len() ==> u[k] == t[k + off]);
    assert forall|k: int| 0 <= k < u.len() implies u[k] < 128 by {
        if is_special(u) {
            assert(lower_seq(u)[k] == lower(u[k]));
            assert(lower_seq(u).len() == u.len());
            if lower_seq(u) == seq![105u8, 110u8, 102u8] {
                assert(seq![105u8, 110u8, 102u8].len() == 3);
                assert(k == 0 || k == 1 || k == 2);
                assert(seq![105u8, 110u8, 102u8][0] == 105);
                assert(seq![105u8, 110u8, 102u8][1] == 110);
                assert(seq![105u8, 110u8, 102u8][2] == 102);
                assert(lower_seq(u)[k] < 128);
            } else if lower_seq(u) == seq![105u8, 110u8, 102u8, 105u8, 110u8, 105u8, 116u8,
                121u8] {
                let pat = seq![105u8, 110u8, 102u8, 105u8, 110u8, 105u8, 116u8, 121u8];
                assert(pat.len() == 8);
                assert(k == 0 || k == 1 || k == 2 || k == 3 || k == 4 || k == 5 || k == 6 || k
                    == 7);
                assert(pat[0] == 105 && pat[1] == 110 && pat[2] == 102 && pat[3] == 105 && pat[4]
                    == 110 && pat[5] == 105 && pat[6] == 116 && pat[7] == 121);
                assert(lower_seq(u)[k] < 128);
            } else {
                assert(seq![110u8, 97u8, 110u8].len() == 3);
                assert(k == 0 || k == 1 || k == 2);
                assert(seq![110u8, 97u8, 110u8][0] == 110);
                assert(seq![110u8, 97u8, 110u8][1] == 97);
                assert(seq![110u8, 97u8, 110u8][2] == 110);
                assert(lower_seq(u)[k] < 128);
            }
            if u[k] >= 128 {
                assert(lower(u[k]) == u[k]);
                assert(lower_seq(u)[k] >= 128);
            }
        } else {
            if is_mantissa(u) {
                assert(is_digit(u[k]) || u[k] == 46);
            } else {
                let i = choose|i: int|
                    0 <= i < u.len() && is_exp_marker(u[i]) && is_mantissa(u.take(i))
                        && is_exponent(u.skip(i + 1));
                if k < i {
                    assert(u.take(i)[k] == u[k]);
                    assert(is_digit(u[k]) || u[k] == 46);
                } else if k == i {
                } else {
                    let x = u.skip(i + 1);
                    let d = strip_sign(x);
                    let off2: int = if x.len() > 0 && is_sign(x[0]) {
                        1
                    } else {
                        0
                    };
                    assert(x[k - i - 1] == u[k]);
                    if k - i - 1 >= off2 {
                        assert(d[k - i - 1 - off2] == x[k - i - 1]);
                        assert(is_digit(u[k]));
                    } else {
                        assert(is_sign(x[0]));
                    }
                }
            }
        }
    }
    assert forall|i: int| 0 <= i < t.len() implies t[i] < 128 by {
        if i < off {
            assert(is_sign(t[0]));
        } else {
            assert(u[i - off] == t[i]);
        }
    }
}

} // verus!
