//! Byte-string order, and the encodings of keys and timestamps that keep it.

use vstd::prelude::*;

verus! {

/// Strict lexicographic order on byte strings: a proper prefix is smaller,
/// otherwise the first differing byte decides.
pub open spec fn lex_lt(a: Seq<u8>, b: Seq<u8>) -> bool
    decreases a.len(),
{
    if b.len() == 0 {
        false
    } else if a.len() == 0 {
        true
    } else if a[0] != b[0] {
        a[0] < b[0]
    } else {
        lex_lt(a.drop_first(), b.drop_first())
    }
}

/// Non-strict lexicographic order on byte strings.
pub open spec fn lex_le(a: Seq<u8>, b: Seq<u8>) -> bool {
    a == b || lex_lt(a, b)
}

/// `a` is a proper prefix of `b`.
pub open spec fn is_proper_prefix(a: Seq<u8>, b: Seq<u8>) -> bool {
    a.len() < b.len() && b.subrange(0, a.len() as int) == a
}

/// `a` and `b` agree before position `i`, where `a` holds the smaller byte.
pub open spec fn differs_below_at(a: Seq<u8>, b: Seq<u8>, i: int) -> bool {
    &&& 0 <= i < a.len()
    &&& i < b.len()
    &&& a.subrange(0, i) == b.subrange(0, i)
    &&& a[i] < b[i]
}

pub open spec fn zeros(n: nat) -> Seq<u8> {
    Seq::new(n, |i: int| 0u8)
}

pub proof fn lemma_lex_of_proper_prefix(a: Seq<u8>, b: Seq<u8>)
    requires
        is_proper_prefix(a, b),
    ensures
        lex_lt(a, b),
    decreases a.len(),
{
    if a.len() > 0 {
        assert(b.subrange(0, a.len() as int)[0] == b[0]);
        assert(b.drop_first().subrange(0, a.drop_first().len() as int) =~= a.drop_first()) by {
            assert forall|t: int| 0 <= t < a.len() - 1 implies b.drop_first()[t] == a.drop_first()[t] by {
                assert(b.subrange(0, a.len() as int)[t + 1] == b[t + 1]);
            }
        }
        lemma_lex_of_proper_prefix(a.drop_first(), b.drop_first());
    }
}

pub proof fn lemma_lex_of_difference(a: Seq<u8>, b: Seq<u8>, i: int)
    requires
        differs_below_at(a, b, i),
    ensures
        lex_lt(a, b),
    decreases i,
{
    if i > 0 {
        assert(a.subrange(0, i)[0] == b.subrange(0, i)[0]);
        assert(a.drop_first().subrange(0, i - 1) =~= b.drop_first().subrange(0, i - 1)) by {
            assert forall|t: int| 0 <= t < i - 1 implies a.drop_first()[t] == b.drop_first()[t] by {
                assert(a.subrange(0, i)[t + 1] == b.subrange(0, i)[t + 1]);
            }
        }
        lemma_lex_of_difference(a.drop_first(), b.drop_first(), i - 1);
    }
}

/// A strict lexicographic comparison holds by a proper prefix or by a first
/// differing byte.
pub proof fn lemma_lex_cases(a: Seq<u8>, b: Seq<u8>)
    requires
        lex_lt(a, b),
    ensures
        is_proper_prefix(a, b) || exists|i: int| differs_below_at(a, b, i),
    decreases a.len(),
{
    if a.len() == 0 {
        assert(b.subrange(0, 0) =~= a);
    } else if a[0] != b[0] {
        assert(a.subrange(0, 0) =~= b.subrange(0, 0));
        assert(differs_below_at(a, b, 0));
    } else {
        let (a1, b1) = (a.drop_first(), b.drop_first());
        lemma_lex_cases(a1, b1);
        if is_proper_prefix(a1, b1) {
            assert(b.subrange(0, a.len() as int) =~= a) by {
                assert forall|t: int| 1 <= t < a.len() implies b[t] == a[t] by {
                    assert(b1.subrange(0, a1.len() as int)[t - 1] == b1[t - 1]);
                }
            }
        } else {
            let i = choose|i: int| differs_below_at(a1, b1, i);
            assert(a.subrange(0, i + 1) =~= b.subrange(0, i + 1)) by {
                assert forall|t: int| 1 <= t < i + 1 implies a[t] == b[t] by {
                    assert(a1.subrange(0, i)[t - 1] == b1.subrange(0, i)[t - 1]);
                }
            }
            assert(differs_below_at(a, b, i + 1));
        }
    }
}

pub proof fn lemma_lex_irreflexive(a: Seq<u8>)
    ensures
        !lex_lt(a, a),
    decreases a.len(),
{
    if a.len() > 0 {
        lemma_lex_irreflexive(a.drop_first());
    }
}

pub proof fn lemma_lex_total(a: Seq<u8>, b: Seq<u8>)
    ensures
        a == b || lex_lt(a, b) || lex_lt(b, a),
        !(lex_lt(a, b) && lex_lt(b, a)),
    decreases a.len(),
{
    if a.len() > 0 && b.len() > 0 && a[0] == b[0] {
        lemma_lex_total(a.drop_first(), b.drop_first());
        if a.drop_first() == b.drop_first() {
            assert(a =~= seq![a[0]] + a.drop_first());
            assert(b =~= seq![b[0]] + b.drop_first());
        }
    } else if a.len() == 0 && b.len() == 0 {
        assert(a =~= b);
    }
}

pub proof fn lemma_lex_common_prefix(p: Seq<u8>, a: Seq<u8>, b: Seq<u8>)
    ensures
        lex_lt(p + a, p + b) == lex_lt(a, b),
    decreases p.len(),
{
    if p.len() > 0 {
        assert((p + a).drop_first() =~= p.drop_first() + a);
        assert((p + b).drop_first() =~= p.drop_first() + b);
        lemma_lex_common_prefix(p.drop_first(), a, b);
    } else {
        assert(p + a =~= a);
        assert(p + b =~= b);
    }
}

pub proof fn lemma_lex_same_len(a: Seq<u8>, b: Seq<u8>, x: Seq<u8>, y: Seq<u8>)
    requires
        a.len() == b.len(),
        lex_lt(a, b),
    ensures
        lex_lt(a + x, b + y),
    decreases a.len(),
{
    if a.len() > 0 {
        assert((a + x)[0] == a[0]);
        assert((b + y)[0] == b[0]);
        if a[0] == b[0] {
            assert((a + x).drop_first() =~= a.drop_first() + x);
            assert((b + y).drop_first() =~= b.drop_first() + y);
            lemma_lex_same_len(a.drop_first(), b.drop_first(), x, y);
        }
    }
}

pub proof fn lemma_zeros_least(s: Seq<u8>)
    requires
        s != zeros(s.len()),
    ensures
        lex_lt(zeros(s.len()), s),
    decreases s.len(),
{
    let z = zeros(s.len());
    if s.len() > 0 && s[0] == 0 {
        assert(z.drop_first() =~= zeros(s.drop_first().len()));
        if s.drop_first() == zeros(s.drop_first().len()) {
            assert forall|t: int| 0 <= t < s.len() implies s[t] == z[t] by {
                if t > 0 {
                    assert(s[t] == s.drop_first()[t - 1]);
                }
            }
            assert(s =~= z);
        }
        lemma_zeros_least(s.drop_first());
    } else if s.len() == 0 {
        assert(s =~= z);
    }
}

pub proof fn lemma_lex_trans(a: Seq<u8>, b: Seq<u8>, c: Seq<u8>)
    requires
        lex_lt(a, b),
        lex_lt(b, c),
    ensures
        lex_lt(a, c),
    decreases a.len(),
{
    if a.len() > 0 && a[0] == b[0] && b[0] == c[0] {
        lemma_lex_trans(a.drop_first(), b.drop_first(), c.drop_first());
    }
}

/// Whether `a` is lexicographically less than `b`.
pub fn bytes_lt(a: &[u8], b: &[u8]) -> (r: bool)
    ensures
        r == lex_lt(a@, b@),
{
    let mut i: usize = 0;
    proof {
        assert(a@.subrange(0, a@.len() as int) =~= a@);
        assert(b@.subrange(0, b@.len() as int) =~= b@);
    }
    while i < a.len() && i < b.len() && a[i] == b[i]
        invariant
            i <= a@.len(),
            i <= b@.len(),
            lex_lt(a@, b@) == lex_lt(a@.subrange(i as int, a@.len() as int), b@.subrange(i as int, b@.len() as int)),
        decreases a@.len() - i,
    {
        proof {
            let sa = a@.subrange(i as int, a@.len() as int);
            let sb = b@.subrange(i as int, b@.len() as int);
            assert(sa.drop_first() =~= a@.subrange(i + 1, a@.len() as int));
            assert(sb.drop_first() =~= b@.subrange(i + 1, b@.len() as int));
        }
        i += 1;
    }
    if i == b.len() {
        false
    } else if i == a.len() {
        true
    } else {
        a[i] < b[i]
    }
}

/// Whether `a` and `b` hold the same bytes.
pub fn bytes_eq(a: &[u8], b: &[u8]) -> (r: bool)
    ensures
        r == (a@ == b@),
{
    if a.len() != b.len() {
        return false;
    }
    let mut i: usize = 0;
    while i < a.len()
        invariant
            a@.len() == b@.len(),
            i <= a@.len(),
            a@.subrange(0, i as int) == b@.subrange(0, i as int),
        decreases a@.len() - i,
    {
        if a[i] != b[i] {
            return false;
        }
        proof {
            assert(a@.subrange(0, i + 1) =~= a@.subrange(0, i as int).push(a@[i as int]));
            assert(b@.subrange(0, i + 1) =~= b@.subrange(0, i as int).push(b@[i as int]));
        }
        i += 1;
    }
    proof {
        assert(a@.subrange(0, a@.len() as int) =~= a@);
        assert(b@.subrange(0, b@.len() as int) =~= b@);
    }
    true
}

/// Bytes of payload in each group of the memcomparable encoding.
pub const MEMCMP_GROUP_SIZE: usize = 8;

/// Marker byte that closes a group with no padding.
pub const MEMCMP_PAD_MARKER: u8 = 0xff;

/// Why a byte string is not a well-formed encoding.
#[derive(Clone, Copy, Debug, PartialEq, Eq, Structural)]
pub enum CodecError {
    /// The input ends inside a group.
    Truncated,
    /// A group's marker or padding bytes are malformed.
    PaddingError,
}

/// Memcomparable encoding: groups of eight payload bytes, the last one padded
/// with zeros, each followed by a marker `0xFF - padding`. The last group is
/// always padded, so an input whose length is a multiple of eight ends with a
/// group of eight zeros.
pub open spec fn mc_encode(u: Seq<u8>) -> Seq<u8>
    decreases u.len(),
{
    if u.len() >= 8 {
        u.subrange(0, 8).push(0xffu8) + mc_encode(u.subrange(8, u.len() as int))
    } else {
        (u + zeros((8 - u.len()) as nat)).push((0xff - (8 - u.len())) as u8)
    }
}

/// Decodes the first memcomparable-encoded value of `e`, returning it with the
/// number of bytes it took; whatever follows is left alone.
pub open spec fn mc_decode(e: Seq<u8>) -> Result<(Seq<u8>, nat), CodecError>
    decreases e.len(),
{
    if e.len() < 9 {
        Err(CodecError::Truncated)
    } else {
        let pad = 0xff - e[8];
        if pad > 8 {
            Err(CodecError::PaddingError)
        } else if pad == 0 {
            shift_decoded(e.subrange(0, 8), 9, mc_decode(e.subrange(9, e.len() as int)))
        } else if e.subrange(8 - pad, 8) == zeros(pad as nat) {
            Ok((e.subrange(0, 8 - pad), 9))
        } else {
            Err(CodecError::PaddingError)
        }
    }
}

/// A decoding of the rest of an input, seen from `off` bytes earlier where
/// `p` was already decoded.
pub open spec fn shift_decoded(p: Seq<u8>, off: nat, r: Result<(Seq<u8>, nat), CodecError>) -> Result<
    (Seq<u8>, nat),
    CodecError,
> {
    match r {
        Ok((v, c)) => Ok((p + v, c + off)),
        Err(x) => Err(x),
    }
}

/// Length of the memcomparable encoding of `n` bytes.
pub open spec fn spec_encoded_len(n: nat) -> nat {
    (n / 8 + 1) * 9
}

proof fn lemma_shift_compose(p: Seq<u8>, a: nat, q: Seq<u8>, b: nat, r: Result<(Seq<u8>, nat), CodecError>)
    ensures
        shift_decoded(p, a, shift_decoded(q, b, r)) == shift_decoded(p + q, a + b, r),
{
    if let Ok((v, c)) = r {
        assert(p + (q + v) =~= (p + q) + v);
    }
}

proof fn lemma_mc_encode_shape(u: Seq<u8>)
    ensures
        mc_encode(u).len() == spec_encoded_len(u.len()),
        forall|t: int| 0 <= t < 8 && t < u.len() ==> #[trigger] mc_encode(u)[t] == u[t],
        u.len() < 8 ==> mc_encode(u).len() == 9,
        u.len() < 8 ==> forall|t: int| u.len() <= t < 8 ==> #[trigger] mc_encode(u)[t] == 0u8,
        u.len() < 8 ==> mc_encode(u)[8] == (0xff - (8 - u.len())) as u8,
        u.len() >= 8 ==> mc_encode(u)[8] == 0xffu8,
        u.len() >= 8 ==> mc_encode(u).subrange(9, mc_encode(u).len() as int) == mc_encode(
            u.subrange(8, u.len() as int),
        ),
    decreases u.len(),
{
    let e = mc_encode(u);
    if u.len() >= 8 {
        let t = u.subrange(8, u.len() as int);
        lemma_mc_encode_shape(t);
        let h = u.subrange(0, 8).push(0xffu8);
        assert(e.subrange(9, e.len() as int) =~= mc_encode(t));
        assert(t.len() / 8 + 1 == u.len() / 8);
    }
}

/// Decoding the encoding of `u`, followed by anything, gives back `u` and the
/// length of its encoding.
pub proof fn lemma_mc_round_trip(u: Seq<u8>, rest: Seq<u8>)
    ensures
        mc_decode(mc_encode(u) + rest) == Ok::<(Seq<u8>, nat), CodecError>(
            (u, mc_encode(u).len()),
        ),
    decreases u.len(),
{
    lemma_mc_encode_shape(u);
    let e = mc_encode(u) + rest;
    if u.len() >= 8 {
        let t = u.subrange(8, u.len() as int);
        lemma_mc_round_trip(t, rest);
        assert(e.subrange(9, e.len() as int) =~= mc_encode(t) + rest);
        assert(e.subrange(0, 8) =~= u.subrange(0, 8));
        assert(u.subrange(0, 8) + t =~= u);
    } else {
        let pad = 8 - u.len();
        assert(e.subrange(8 - pad, 8) =~= zeros(pad as nat));
        assert(e.subrange(0, 8 - pad) =~= u);
    }
}

proof fn lemma_mc_encode_strict(u1: Seq<u8>, u2: Seq<u8>)
    requires
        lex_lt(u1, u2),
    ensures
        lex_lt(mc_encode(u1), mc_encode(u2)),
    decreases u1.len(),
{
    let e1 = mc_encode(u1);
    let e2 = mc_encode(u2);
    lemma_mc_encode_shape(u1);
    lemma_mc_encode_shape(u2);
    lemma_lex_cases(u1, u2);
    if exists|i: int| differs_below_at(u1, u2, i) {
        let i = choose|i: int| differs_below_at(u1, u2, i);
        if i < 8 {
            assert(e1.subrange(0, i) =~= e2.subrange(0, i)) by {
                assert forall|t: int| 0 <= t < i implies e1[t] == e2[t] by {
                    assert(u1.subrange(0, i)[t] == u2.subrange(0, i)[t]);
                }
            }
            lemma_lex_of_difference(e1, e2, i);
        } else {
            let t1 = u1.subrange(8, u1.len() as int);
            let t2 = u2.subrange(8, u2.len() as int);
            assert(u1.subrange(0, 8) =~= u2.subrange(0, 8)) by {
                assert forall|t: int| 0 <= t < 8 implies u1[t] == u2[t] by {
                    assert(u1.subrange(0, i)[t] == u2.subrange(0, i)[t]);
                }
            }
            assert(t1.subrange(0, i - 8) =~= t2.subrange(0, i - 8)) by {
                assert forall|t: int| 0 <= t < i - 8 implies t1[t] == t2[t] by {
                    assert(u1.subrange(0, i)[t + 8] == u2.subrange(0, i)[t + 8]);
                }
            }
            assert(differs_below_at(t1, t2, i - 8));
            lemma_lex_of_difference(t1, t2, i - 8);
            lemma_mc_encode_strict(t1, t2);
            lemma_lex_common_prefix(u1.subrange(0, 8).push(0xffu8), mc_encode(t1), mc_encode(t2));
        }
    } else {
        let k = u1.len() as int;
        if k >= 8 {
            let t1 = u1.subrange(8, k);
            let t2 = u2.subrange(8, u2.len() as int);
            assert(u1.subrange(0, 8) =~= u2.subrange(0, 8)) by {
                assert forall|t: int| 0 <= t < 8 implies u1[t] == u2[t] by {
                    assert(u2.subrange(0, k)[t] == u2[t]);
                }
            }
            assert(t2.subrange(0, t1.len() as int) =~= t1) by {
                assert forall|t: int| 0 <= t < k - 8 implies t2[t] == t1[t] by {
                    assert(u2.subrange(0, k)[t + 8] == u2[t + 8]);
                }
            }
            lemma_lex_of_proper_prefix(t1, t2);
            lemma_mc_encode_strict(t1, t2);
            lemma_lex_common_prefix(u1.subrange(0, 8).push(0xffu8), mc_encode(t1), mc_encode(t2));
        } else {
            let m1 = e1[8];
            let a = e1.subrange(k, 8);
            let b = e2.subrange(k, 8);
            let r2 = e2.subrange(8, e2.len() as int);
            assert(e2.subrange(0, k) =~= u1) by {
                assert forall|t: int| 0 <= t < k implies e2[t] == u1[t] by {
                    assert(u2.subrange(0, k)[t] == u2[t]);
                }
            }
            assert(e1 =~= u1 + (a + seq![m1]));
            assert(e2 =~= u1 + (b + r2));
            assert(r2[0] > m1);
            if a != b {
                assert(a =~= zeros(b.len()));
                lemma_zeros_least(b);
                lemma_lex_same_len(a, b, seq![m1], r2);
                lemma_lex_common_prefix(u1, a + seq![m1], b + r2);
            } else {
                let h = e1.subrange(0, 8);
                assert(e1 =~= h + seq![m1]);
                assert(e2 =~= h + r2);
                assert(lex_lt(seq![m1], r2));
                lemma_lex_common_prefix(h, seq![m1], r2);
            }
        }
    }
}

/// The memcomparable encoding is one-to-one and keeps the lexicographic order
/// in both directions.
pub proof fn lemma_mc_encode_order(u1: Seq<u8>, u2: Seq<u8>)
    ensures
        lex_lt(u1, u2) <==> lex_lt(mc_encode(u1), mc_encode(u2)),
        lex_le(u1, u2) <==> lex_le(mc_encode(u1), mc_encode(u2)),
        u1 == u2 <==> mc_encode(u1) == mc_encode(u2),
{
    let e1 = mc_encode(u1);
    let e2 = mc_encode(u2);
    lemma_mc_round_trip(u1, Seq::empty());
    lemma_mc_round_trip(u2, Seq::empty());
    assert(e1 + Seq::<u8>::empty() =~= e1);
    assert(e2 + Seq::<u8>::empty() =~= e2);
    lemma_lex_total(u1, u2);
    lemma_lex_total(e1, e2);
    lemma_lex_irreflexive(e1);
    if lex_lt(u1, u2) {
        lemma_mc_encode_strict(u1, u2);
    }
    if lex_lt(u2, u1) {
        lemma_mc_encode_strict(u2, u1);
    }
}

/// Length of the memcomparable encoding of `len` bytes.
pub fn encoded_len(len: usize) -> (r: usize)
    requires
        spec_encoded_len(len as nat) <= usize::MAX,
    ensures
        r == spec_encoded_len(len as nat),
{
    (len / MEMCMP_GROUP_SIZE + 1) * (MEMCMP_GROUP_SIZE + 1)
}

/// Appends the memcomparable encoding of `uk` to `out`.
pub fn write_comparable_bytes(out: &mut Vec<u8>, uk: &[u8])
    ensures
        final(out)@ == old(out)@ + mc_encode(uk@),
{
    let n = uk.len();
    let ghost start = out@;
    let mut i: usize = 0;
    proof {
        assert(uk@.subrange(0, n as int) =~= uk@);
    }
    while n - i >= MEMCMP_GROUP_SIZE
        invariant
            n == uk@.len(),
            i <= n,
            out@ + mc_encode(uk@.subrange(i as int, n as int)) == start + mc_encode(uk@),
        decreases n - i,
    {
        let ghost before = out@;
        let ghost rest = uk@.subrange(i as int, n as int);
        let mut j: usize = 0;
        while j < MEMCMP_GROUP_SIZE
            invariant
                n == uk@.len(),
                i + 8 <= n,
                j <= 8,
                out@ == before + uk@.subrange(i as int, i + j),
            decreases 8 - j,
        {
            out.push(uk[i + j]);
            proof {
                assert(uk@.subrange(i as int, i + j + 1) =~= uk@.subrange(i as int, i + j).push(
                    uk@[i + j],
                ));
            }
            j += 1;
        }
        out.push(MEMCMP_PAD_MARKER);
        proof {
            assert(rest.subrange(0, 8) =~= uk@.subrange(i as int, i + 8));
            assert(rest.subrange(8, rest.len() as int) =~= uk@.subrange(i + 8, n as int));
            assert(out@ + mc_encode(uk@.subrange(i + 8, n as int)) =~= before + mc_encode(rest));
        }
        i += MEMCMP_GROUP_SIZE;
    }
    let ghost before = out@;
    let ghost rest = uk@.subrange(i as int, n as int);
    let mut j: usize = i;
    while j < n
        invariant
            n == uk@.len(),
            i <= j <= n,
            out@ == before + uk@.subrange(i as int, j as int),
        decreases n - j,
    {
        out.push(uk[j]);
        proof {
            assert(uk@.subrange(i as int, j + 1) =~= uk@.subrange(i as int, j as int).push(uk@[j as int]));
        }
        j += 1;
    }
    let pad: usize = MEMCMP_GROUP_SIZE - (n - i);
    let mut k: usize = 0;
    while k < pad
        invariant
            n == uk@.len(),
            pad == 8 - (n - i),
            k <= pad,
            out@ == before + rest + zeros(k as nat),
        decreases pad - k,
    {
        out.push(0);
        proof {
            assert(zeros((k + 1) as nat) =~= zeros(k as nat).push(0u8));
            assert(before + rest + zeros((k + 1) as nat) =~= (before + rest + zeros(k as nat)).push(0u8));
        }
        k += 1;
    }
    out.push(MEMCMP_PAD_MARKER - pad as u8);
    proof {
        assert(out@ =~= before + mc_encode(rest));
    }
}

/// Decodes the first memcomparable-encoded value of `e`: the value and the
/// number of bytes it took, or why `e` does not start with a valid encoding.
pub fn read_comparable_bytes(e: &[u8]) -> (r: Result<(Vec<u8>, usize), CodecError>)
    ensures
        match r {
            Ok((v, c)) => mc_decode(e@) == Ok::<(Seq<u8>, nat), CodecError>((v@, c as nat)),
            Err(x) => mc_decode(e@) == Err::<(Seq<u8>, nat), CodecError>(x),
        },
{
    let n = e.len();
    let mut out: Vec<u8> = Vec::new();
    let mut off: usize = 0;
    proof {
        assert(e@.subrange(0, n as int) =~= e@);
        if let Ok((v, c)) = mc_decode(e@) {
            assert(out@ + v =~= v);
        }
    }
    loop
        invariant
            n == e@.len(),
            off <= n,
            mc_decode(e@) == shift_decoded(out@, off as nat, mc_decode(e@.subrange(off as int, n as int))),
        decreases n - off,
    {
        let ghost s = e@.subrange(off as int, n as int);
        if n - off < MEMCMP_GROUP_SIZE + 1 {
            return Err(CodecError::Truncated);
        }
        let marker = e[off + MEMCMP_GROUP_SIZE];
        let pad: u8 = MEMCMP_PAD_MARKER - marker;
        proof {
            assert(s[8] == marker);
        }
        if pad as usize > MEMCMP_GROUP_SIZE {
            return Err(CodecError::PaddingError);
        }
        let payload: usize = MEMCMP_GROUP_SIZE - pad as usize;
        let ghost before = out@;
        let mut j: usize = 0;
        while j < payload
            invariant
                n == e@.len(),
                off + 9 <= n,
                payload <= 8,
                j <= payload,
                out@ == before + e@.subrange(off as int, off + j),
            decreases payload - j,
        {
            out.push(e[off + j]);
            proof {
                assert(e@.subrange(off as int, off + j + 1) =~= e@.subrange(off as int, off + j).push(
                    e@[off + j],
                ));
            }
            j += 1;
        }
        proof {
            assert(s.subrange(0, payload as int) =~= e@.subrange(off as int, off + payload));
        }
        if pad == 0 {
            proof {
                assert(s.subrange(9, s.len() as int) =~= e@.subrange(off + 9, n as int));
                lemma_shift_compose(before, off as nat, s.subrange(0, 8), 9, mc_decode(e@.subrange(off + 9, n as int)));
            }
            off += MEMCMP_GROUP_SIZE + 1;
        } else {
            let mut k: usize = payload;
            while k < MEMCMP_GROUP_SIZE
                invariant
                    n == e@.len(),
                    off + 9 <= n,
                    payload <= k <= 8,
                    1 <= pad <= 8,
                    payload == 8 - pad,
                    s.len() >= 9,
                    s[8] == marker,
                    pad == 0xff - marker,
                    mc_decode(e@) == shift_decoded(before, off as nat, mc_decode(s)),
                    s == e@.subrange(off as int, n as int),
                    s.subrange(payload as int, k as int) == zeros((k - payload) as nat),
                decreases 8 - k,
            {
                if e[off + k] != 0 {
                    proof {
                        assert(s.subrange(payload as int, 8)[k - payload] == e@[off + k]);
                        assert(zeros(pad as nat)[k - payload] == 0u8);
                        assert(s.subrange(payload as int, 8) != zeros(pad as nat));
                        assert(mc_decode(s) == Err::<(Seq<u8>, nat), CodecError>(CodecError::PaddingError));
                    }
                    return Err(CodecError::PaddingError);
                }
                proof {
                    assert(s.subrange(payload as int, k + 1) =~= zeros((k + 1 - payload) as nat));
                }
                k += 1;
            }
            proof {
                assert(before + s.subrange(0, payload as int) =~= out@);
            }
            return Ok((out, off + MEMCMP_GROUP_SIZE + 1));
        }
    }
}

/// The eight big-endian bytes of `v`.
pub open spec fn u64_be_bytes(v: u64) -> Seq<u8> {
    seq![
        (v >> 56) as u8,
        (v >> 48) as u8,
        (v >> 40) as u8,
        (v >> 32) as u8,
        (v >> 24) as u8,
        (v >> 16) as u8,
        (v >> 8) as u8,
        v as u8,
    ]
}

/// The descending encoding of a timestamp: the big-endian bytes of its
/// bitwise complement, so that a later timestamp sorts first.
pub open spec fn u64_desc_bytes(ts: u64) -> Seq<u8> {
    u64_be_bytes(!ts)
}

/// The value whose big-endian bytes are `b[0..8]`.
pub open spec fn u64_from_be(b: Seq<u8>) -> u64
    recommends
        b.len() >= 8,
{
    ((b[0] as u64) << 56) | ((b[1] as u64) << 48) | ((b[2] as u64) << 40) | ((b[3] as u64) << 32)
        | ((b[4] as u64) << 24) | ((b[5] as u64) << 16) | ((b[6] as u64) << 8) | (b[7] as u64)
}

/// The timestamp whose descending encoding is `b[0..8]`.
pub open spec fn u64_from_desc(b: Seq<u8>) -> u64
    recommends
        b.len() >= 8,
{
    !u64_from_be(b)
}

/// Decoding the descending encoding gives the timestamp back.
pub proof fn lemma_u64_desc_round_trip(ts: u64)
    ensures
        u64_from_desc(u64_desc_bytes(ts)) == ts,
{
    let v = !ts;
    let b = u64_desc_bytes(ts);
    assert(((((v >> 56) as u8) as u64) << 56) | ((((v >> 48) as u8) as u64) << 48) | ((((v >> 40) as u8) as u64) << 40)
        | ((((v >> 32) as u8) as u64) << 32) | ((((v >> 24) as u8) as u64) << 24) | ((((v >> 16) as u8) as u64) << 16)
        | ((((v >> 8) as u8) as u64) << 8) | ((v as u8) as u64) == v) by (bit_vector);
    assert(!!ts == ts) by (bit_vector);
}

/// Big-endian bytes order as the numbers do.
proof fn lemma_u64_be_order(a: u64, b: u64)
    requires
        a < b,
    ensures
        lex_lt(u64_be_bytes(a), u64_be_bytes(b)),
{
    let x = u64_be_bytes(a);
    let y = u64_be_bytes(b);
    if x[0] != y[0] {
        assert(a < b && ((a >> 56u64) as u8) != ((b >> 56u64) as u8) ==> ((a >> 56u64) as u8) < ((b >> 56u64) as u8)) by (bit_vector);
        assert(x.subrange(0, 0) =~= y.subrange(0, 0));
        lemma_lex_of_difference(x, y, 0);
    } else if x[1] != y[1] {
        assert(a < b && ((a >> 56u64) as u8) == ((b >> 56u64) as u8) && ((a >> 48u64) as u8) != ((b >> 48u64) as u8) ==> ((a >> 48u64) as u8) < ((b >> 48u64) as u8)) by (bit_vector);
        assert(x.subrange(0, 1) =~= y.subrange(0, 1));
        lemma_lex_of_difference(x, y, 1);
    } else if x[2] != y[2] {
        assert(a < b && ((a >> 56u64) as u8) == ((b >> 56u64) as u8) && ((a >> 48u64) as u8) == ((b >> 48u64) as u8) && ((a >> 40u64) as u8) != ((b >> 40u64) as u8) ==> ((a >> 40u64) as u8) < ((b >> 40u64) as u8)) by (bit_vector);
        assert(x.subrange(0, 2) =~= y.subrange(0, 2));
        lemma_lex_of_difference(x, y, 2);
    } else if x[3] != y[3] {
        assert(a < b && ((a >> 56u64) as u8) == ((b >> 56u64) as u8) && ((a >> 48u64) as u8) == ((b >> 48u64) as u8) && ((a >> 40u64) as u8) == ((b >> 40u64) as u8) && ((a >> 32u64) as u8) != ((b >> 32u64) as u8) ==> ((a >> 32u64) as u8) < ((b >> 32u64) as u8)) by (bit_vector);
        assert(x.subrange(0, 3) =~= y.subrange(0, 3));
        lemma_lex_of_difference(x, y, 3);
    } else if x[4] != y[4] {
        assert(a < b && ((a >> 56u64) as u8) == ((b >> 56u64) as u8) && ((a >> 48u64) as u8) == ((b >> 48u64) as u8) && ((a >> 40u64) as u8) == ((b >> 40u64) as u8) && ((a >> 32u64) as u8) == ((b >> 32u64) as u8) && ((a >> 24u64) as u8) != ((b >> 24u64) as u8) ==> ((a >> 24u64) as u8) < ((b >> 24u64) as u8)) by (bit_vector);
        assert(x.subrange(0, 4) =~= y.subrange(0, 4));
        lemma_lex_of_difference(x, y, 4);
    } else if x[5] != y[5] {
        assert(a < b && ((a >> 56u64) as u8) == ((b >> 56u64) as u8) && ((a >> 48u64) as u8) == ((b >> 48u64) as u8) && ((a >> 40u64) as u8) == ((b >> 40u64) as u8) && ((a >> 32u64) as u8) == ((b >> 32u64) as u8) && ((a >> 24u64) as u8) == ((b >> 24u64) as u8) && ((a >> 16u64) as u8) != ((b >> 16u64) as u8) ==> ((a >> 16u64) as u8) < ((b >> 16u64) as u8)) by (bit_vector);
        assert(x.subrange(0, 5) =~= y.subrange(0, 5));
        lemma_lex_of_difference(x, y, 5);
    } else if x[6] != y[6] {
        assert(a < b && ((a >> 56u64) as u8) == ((b >> 56u64) as u8) && ((a >> 48u64) as u8) == ((b >> 48u64) as u8) && ((a >> 40u64) as u8) == ((b >> 40u64) as u8) && ((a >> 32u64) as u8) == ((b >> 32u64) as u8) && ((a >> 24u64) as u8) == ((b >> 24u64) as u8) && ((a >> 16u64) as u8) == ((b >> 16u64) as u8) && ((a >> 8u64) as u8) != ((b >> 8u64) as u8) ==> ((a >> 8u64) as u8) < ((b >> 8u64) as u8)) by (bit_vector);
        assert(x.subrange(0, 6) =~= y.subrange(0, 6));
        lemma_lex_of_difference(x, y, 6);
    } else if x[7] != y[7] {
        assert(a < b && ((a >> 56u64) as u8) == ((b >> 56u64) as u8) && ((a >> 48u64) as u8) == ((b >> 48u64) as u8) && ((a >> 40u64) as u8) == ((b >> 40u64) as u8) && ((a >> 32u64) as u8) == ((b >> 32u64) as u8) && ((a >> 24u64) as u8) == ((b >> 24u64) as u8) && ((a >> 16u64) as u8) == ((b >> 16u64) as u8) && ((a >> 8u64) as u8) == ((b >> 8u64) as u8) && (a as u8) != (b as u8) ==> (a as u8) < (b as u8)) by (bit_vector);
        assert(x.subrange(0, 7) =~= y.subrange(0, 7));
        lemma_lex_of_difference(x, y, 7);
    } else {
        assert(((a >> 56u64) as u8) == ((b >> 56u64) as u8) && ((a >> 48u64) as u8) == ((b >> 48u64) as u8) && ((a >> 40u64) as u8) == ((b >> 40u64) as u8) && ((a >> 32u64) as u8) == ((b >> 32u64) as u8) && ((a >> 24u64) as u8) == ((b >> 24u64) as u8) && ((a >> 16u64) as u8) == ((b >> 16u64) as u8) && ((a >> 8u64) as u8) == ((b >> 8u64) as u8) && (a as u8) == (b as u8) ==> a == b) by (bit_vector);
    }
}

/// A key with a later timestamp attached sorts before the same key with an
/// earlier one.
pub proof fn lemma_ts_suffix_orders_descending(k: Seq<u8>, ts1: u64, ts2: u64)
    requires
        ts1 < ts2,
    ensures
        lex_lt(k + u64_desc_bytes(ts2), k + u64_desc_bytes(ts1)),
{
    assert(ts1 < ts2 ==> !ts2 < !ts1) by (bit_vector);
    lemma_u64_be_order(!ts2, !ts1);
    lemma_lex_common_prefix(k, u64_desc_bytes(ts2), u64_desc_bytes(ts1));
}

/// Appends the descending encoding of `ts` to `out`.
pub fn write_u64_desc(out: &mut Vec<u8>, ts: u64)
    ensures
        final(out)@ == old(out)@ + u64_desc_bytes(ts),
{
    let v = !ts;
    out.push((v >> 56) as u8);
    out.push((v >> 48) as u8);
    out.push((v >> 40) as u8);
    out.push((v >> 32) as u8);
    out.push((v >> 24) as u8);
    out.push((v >> 16) as u8);
    out.push((v >> 8) as u8);
    out.push(v as u8);
    proof {
        assert(final(out)@ =~= old(out)@ + u64_desc_bytes(ts));
    }
}

/// Reads a timestamp from its descending encoding in the first eight bytes of `b`.
pub fn read_u64_desc(b: &[u8]) -> (r: u64)
    requires
        b@.len() >= 8,
    ensures
        r == u64_from_desc(b@),
{
    let v = ((b[0] as u64) << 56) | ((b[1] as u64) << 48) | ((b[2] as u64) << 40) | ((b[3] as u64)
        << 32) | ((b[4] as u64) << 24) | ((b[5] as u64) << 16) | ((b[6] as u64) << 8) | (b[7] as u64);
    !v
}

} // verus!
