//! Owned physical keys and borrowed views over them.
//!
//! A physical key is the logical key (here with an empty prefix, so the two
//! coincide) optionally followed by an eight-byte descending timestamp. The
//! logical body of a key built from a user key is the memcomparable encoding
//! of that user key.

use vstd::prelude::*;
use crate::codec::{
    mc_encode, mc_decode, u64_desc_bytes, u64_from_desc, CodecError, write_comparable_bytes,
    write_u64_desc, read_comparable_bytes, read_u64_desc, encoded_len, lemma_u64_desc_round_trip,
};

verus! {

/// The uppercase hexadecimal digit for `d < 16`.
pub open spec fn hex_digit_upper(d: u8) -> char {
    if d < 10 {
        (('0' as u8) + d) as char
    } else {
        (('A' as u8) + (d - 10)) as char
    }
}

/// Two uppercase hexadecimal digits per byte, high nibble first.
pub open spec fn hex_upper_spec(b: Seq<u8>) -> Seq<char> {
    Seq::new(
        2 * b.len(),
        |i: int|
            if i % 2 == 0 {
                hex_digit_upper(b[i / 2] / 16)
            } else {
                hex_digit_upper(b[i / 2] % 16)
            },
    )
}

/// Relies on hex::encode_upper: for each byte, the digit of its high nibble
/// then that of its low nibble, from the table "0123456789ABCDEF".
#[verifier::external_body]
fn encode_hex_upper(b: &[u8]) -> (r: String)
    ensures
        r@ == hex_upper_spec(b@),
{
    hex::encode_upper(b)
}

/// The prefix that every physical key of this kind starts with.
pub open spec fn physical_prefix() -> Seq<u8> {
    Seq::empty()
}

/// Number of bytes of the timestamp suffix.
pub const TS_LEN: usize = 8;

/// A borrowed view of the logical part of a key.
pub struct LogicalKeySlice<'a>(pub &'a [u8]);

impl<'a> View for LogicalKeySlice<'a> {
    type V = Seq<u8>;

    open spec fn view(&self) -> Seq<u8> {
        self.0@
    }
}

impl<'a> LogicalKeySlice<'a> {
    pub fn from_std_slice(s: &'a [u8]) -> (r: LogicalKeySlice<'a>)
        ensures
            r@ == s@,
    {
        LogicalKeySlice(s)
    }

    pub fn as_std_slice(&self) -> (r: &'a [u8])
        ensures
            r@ == self@,
    {
        self.0
    }

    /// The key without its trailing timestamp.
    pub fn as_physical_slice_without_ts(&self) -> (r: LogicalKeySlice<'a>)
        requires
            self@.len() >= TS_LEN,
        ensures
            r@ == self@.subrange(0, self@.len() - 8),
    {
        let s = self.0;
        LogicalKeySlice(vstd::slice::slice_subrange(s, 0, s.len() - TS_LEN))
    }

    /// Decodes the user key that this logical key starts with.
    pub fn alloc_to_user_vec(&self) -> (r: Result<Vec<u8>, CodecError>)
        ensures
            match r {
                Ok(v) => mc_decode(self@) is Ok && v@ == mc_decode(self@)->Ok_0.0,
                Err(e) => mc_decode(self@) == Err::<(Seq<u8>, nat), CodecError>(e),
            },
    {
        match read_comparable_bytes(self.0) {
            Ok((v, _)) => Ok(v),
            Err(e) => Err(e),
        }
    }

    /// The timestamp held by the last eight bytes.
    pub fn get_ts(&self) -> (r: u64)
        requires
            self@.len() >= TS_LEN,
        ensures
            r == u64_from_desc(self@.subrange(self@.len() - 8, self@.len() as int)),
    {
        let s = self.0;
        let t = vstd::slice::slice_subrange(s, s.len() - TS_LEN, s.len());
        read_u64_desc(t)
    }

    /// The bytes as uppercase hexadecimal.
    pub fn to_hex_upper(&self) -> (r: String)
        ensures
            r@ == hex_upper_spec(self@),
    {
        encode_hex_upper(self.0)
    }
}

/// A borrowed view of a whole physical key.
pub struct BasicPhysicalKeySlice<'a>(pub &'a [u8]);

impl<'a> View for BasicPhysicalKeySlice<'a> {
    type V = Seq<u8>;

    open spec fn view(&self) -> Seq<u8> {
        self.0@
    }
}

impl<'a> BasicPhysicalKeySlice<'a> {
    pub fn from_physical_std_slice(s: &'a [u8]) -> (r: BasicPhysicalKeySlice<'a>)
        ensures
            r@ == s@,
    {
        BasicPhysicalKeySlice(s)
    }

    /// With an empty prefix the logical bytes are the physical bytes.
    pub fn from_logical_slice(s: &LogicalKeySlice<'a>) -> (r: BasicPhysicalKeySlice<'a>)
        ensures
            r@ == physical_prefix() + s@,
    {
        proof {
            assert(physical_prefix() + s@ =~= s@);
        }
        BasicPhysicalKeySlice(s.0)
    }

    pub fn as_physical_std_slice(&self) -> (r: &'a [u8])
        ensures
            r@ == self@,
    {
        self.0
    }

    pub fn as_logical_slice(&self) -> (r: LogicalKeySlice<'a>)
        ensures
            r@ == self@.subrange(physical_prefix().len() as int, self@.len() as int),
    {
        proof {
            assert(self@.subrange(0, self@.len() as int) =~= self@);
        }
        LogicalKeySlice(self.0)
    }

    pub fn as_logical_slice_without_ts(&self) -> (r: LogicalKeySlice<'a>)
        requires
            self@.len() >= TS_LEN,
        ensures
            r@ == self@.subrange(0, self@.len() - 8),
    {
        self.as_logical_slice().as_physical_slice_without_ts()
    }

    pub fn as_logical_std_slice(&self) -> (r: &'a [u8])
        ensures
            r@ == self@,
    {
        self.0
    }

    /// The key without its trailing timestamp.
    pub fn as_physical_slice_without_ts(&self) -> (r: BasicPhysicalKeySlice<'a>)
        requires
            self@.len() >= TS_LEN,
        ensures
            r@ == self@.subrange(0, self@.len() - 8),
    {
        let s = self.0;
        BasicPhysicalKeySlice(vstd::slice::slice_subrange(s, 0, s.len() - TS_LEN))
    }

    pub fn alloc_to_physical_key(&self) -> (r: BasicPhysicalKey)
        ensures
            r@ == self@,
    {
        BasicPhysicalKey::alloc_from_physical_slice(self)
    }

    pub fn len(&self) -> (r: usize)
        ensures
            r == self@.len(),
    {
        self.0.len()
    }

    pub fn is_empty(&self) -> (r: bool)
        ensures
            r == (self@.len() == 0),
    {
        self.len() == 0
    }

    /// The timestamp held by the last eight bytes.
    pub fn get_ts(&self) -> (r: u64)
        requires
            self@.len() >= TS_LEN,
        ensures
            r == u64_from_desc(self@.subrange(self@.len() - 8, self@.len() as int)),
    {
        self.as_logical_slice().get_ts()
    }

    /// The bytes as uppercase hexadecimal.
    pub fn to_hex_upper(&self) -> (r: String)
        ensures
            r@ == hex_upper_spec(self@),
    {
        encode_hex_upper(self.0)
    }
}

/// An owned physical key.
pub struct BasicPhysicalKey(pub Vec<u8>);

impl View for BasicPhysicalKey {
    type V = Seq<u8>;

    open spec fn view(&self) -> Seq<u8> {
        self.0@
    }
}

impl BasicPhysicalKey {
    /// Every physical key starts with the physical prefix.
    pub open spec fn wf(&self) -> bool {
        self@.len() >= physical_prefix().len() && self@.subrange(0, physical_prefix().len() as int)
            == physical_prefix()
    }

    pub fn from_physical_vec(pk: Vec<u8>) -> (r: BasicPhysicalKey)
        ensures
            r@ == pk@,
            r.wf(),
    {
        proof {
            assert(pk@.subrange(0, 0) =~= physical_prefix());
        }
        BasicPhysicalKey(pk)
    }

    pub fn into_physical_vec(self) -> (r: Vec<u8>)
        ensures
            r@ == self@,
    {
        self.0
    }

    pub fn as_physical_std_slice(&self) -> (r: &[u8])
        ensures
            r@ == self@,
    {
        self.0.as_slice()
    }

    pub fn as_physical_slice(&self) -> (r: BasicPhysicalKeySlice<'_>)
        ensures
            r@ == self@,
    {
        BasicPhysicalKeySlice(self.0.as_slice())
    }

    pub fn as_physical_slice_without_ts(&self) -> (r: BasicPhysicalKeySlice<'_>)
        requires
            self@.len() >= TS_LEN,
        ensures
            r@ == self@.subrange(0, self@.len() - 8),
    {
        self.as_physical_slice().as_physical_slice_without_ts()
    }

    pub fn as_logical_slice(&self) -> (r: LogicalKeySlice<'_>)
        ensures
            r@ == self@.subrange(physical_prefix().len() as int, self@.len() as int),
    {
        self.as_physical_slice().as_logical_slice()
    }

    pub fn as_logical_slice_without_ts(&self) -> (r: LogicalKeySlice<'_>)
        requires
            self@.len() >= TS_LEN,
        ensures
            r@ == self@.subrange(0, self@.len() - 8),
    {
        self.as_physical_slice().as_logical_slice_without_ts()
    }

    pub fn as_logical_std_slice(&self) -> (r: &[u8])
        ensures
            r@ == self@,
    {
        self.0.as_slice()
    }

    pub fn alloc_from_physical_std_slice(pk: &[u8]) -> (r: BasicPhysicalKey)
        ensures
            r@ == pk@,
            r.wf(),
    {
        let mut v: Vec<u8> = Vec::with_capacity(pk.len().saturating_add(TS_LEN));
        v.extend_from_slice(pk);
        proof {
            assert(v@ =~= pk@);
        }
        BasicPhysicalKey::from_physical_vec(v)
    }

    pub fn alloc_from_physical_slice(pk: &BasicPhysicalKeySlice) -> (r: BasicPhysicalKey)
        ensures
            r@ == pk@,
            r.wf(),
    {
        BasicPhysicalKey::alloc_from_physical_std_slice(pk.as_physical_std_slice())
    }

    /// An empty key (the prefix alone) with room for `capacity` logical bytes
    /// and a timestamp.
    pub fn alloc_with_logical_capacity(capacity: usize) -> (r: BasicPhysicalKey)
        ensures
            r@ == physical_prefix(),
            r.wf(),
    {
        let v: Vec<u8> = Vec::with_capacity(capacity.saturating_add(TS_LEN));
        proof {
            assert(v@ =~= physical_prefix());
            assert(v@.subrange(0, 0) =~= physical_prefix());
        }
        BasicPhysicalKey(v)
    }

    pub fn alloc_new() -> (r: BasicPhysicalKey)
        ensures
            r@ == physical_prefix(),
            r.wf(),
    {
        BasicPhysicalKey::alloc_with_logical_capacity(40)
    }

    pub fn alloc_from_logical_std_slice(lk: &[u8]) -> (r: BasicPhysicalKey)
        ensures
            r@ == physical_prefix() + lk@,
            r.wf(),
    {
        let mut k = BasicPhysicalKey::alloc_with_logical_capacity(lk.len());
        k.0.extend_from_slice(lk);
        proof {
            assert(k@ =~= physical_prefix() + lk@);
            assert(k@.subrange(0, 0) =~= physical_prefix());
        }
        k
    }

    pub fn alloc_from_logical_slice(lk: &LogicalKeySlice) -> (r: BasicPhysicalKey)
        ensures
            r@ == physical_prefix() + lk@,
            r.wf(),
    {
        BasicPhysicalKey::alloc_from_logical_std_slice(lk.as_std_slice())
    }

    /// Takes the logical bytes in `lk` over as a physical key.
    pub fn copy_from_logical_vec(lk: Vec<u8>) -> (r: BasicPhysicalKey)
        ensures
            r@ == physical_prefix() + lk@,
            r.wf(),
    {
        proof {
            assert(physical_prefix() + lk@ =~= lk@);
            assert(lk@.subrange(0, 0) =~= physical_prefix());
        }
        BasicPhysicalKey(lk)
    }

    /// The physical key whose logical body is the memcomparable encoding of
    /// the user key `uk`.
    pub fn alloc_from_user_std_slice(uk: &[u8]) -> (r: BasicPhysicalKey)
        ensures
            r@ == physical_prefix() + mc_encode(uk@),
            r.wf(),
    {
        let cap = if uk.len() <= usize::MAX / 2 {
            encoded_len(uk.len())
        } else {
            uk.len()
        };
        let mut k = BasicPhysicalKey::alloc_with_logical_capacity(cap);
        write_comparable_bytes(&mut k.0, uk);
        proof {
            assert(k@.subrange(0, 0) =~= physical_prefix());
        }
        k
    }

    pub fn alloc_from_user_vec(uk: Vec<u8>) -> (r: BasicPhysicalKey)
        ensures
            r@ == physical_prefix() + mc_encode(uk@),
            r.wf(),
    {
        BasicPhysicalKey::alloc_from_user_std_slice(uk.as_slice())
    }

    pub fn physical_len(&self) -> (r: usize)
        ensures
            r == self@.len(),
    {
        self.0.len()
    }

    pub fn logical_len(&self) -> (r: usize)
        ensures
            r == self@.len() - physical_prefix().len(),
    {
        self.0.len()
    }

    /// Appends the descending encoding of `ts`.
    pub fn append_ts(&mut self, ts: u64)
        ensures
            final(self)@ == old(self)@ + u64_desc_bytes(ts),
            old(self).wf() ==> final(self).wf(),
    {
        write_u64_desc(&mut self.0, ts);
        proof {
            assert(final(self)@.subrange(0, 0) =~= physical_prefix());
        }
    }

    /// Removes the trailing timestamp.
    pub fn shrink_ts(&mut self)
        requires
            old(self)@.len() >= TS_LEN,
        ensures
            final(self)@ == old(self)@.subrange(0, old(self)@.len() - 8),
            old(self).wf() ==> final(self).wf(),
    {
        let len = self.0.len();
        self.0.truncate(len - TS_LEN);
        proof {
            assert(final(self)@ =~= old(self)@.subrange(0, old(self)@.len() - 8));
            assert(final(self)@.subrange(0, 0) =~= physical_prefix());
        }
    }

    /// Runs `f` on this key with the timestamp `ts` appended, then removes
    /// the timestamp again.
    pub fn with_ts_temporarily<R, F: FnOnce(&BasicPhysicalKey) -> R>(&mut self, ts: u64, f: F) -> (r: R)
        requires
            forall|k: BasicPhysicalKey| k@ == old(self)@ + u64_desc_bytes(ts) ==> f.requires((&k,)),
        ensures
            final(self)@ == old(self)@,
            exists|k: BasicPhysicalKey| k@ == old(self)@ + u64_desc_bytes(ts) && f.ensures((&k,), r),
    {
        self.append_ts(ts);
        let r = f(self);
        self.shrink_ts();
        proof {
            assert(final(self)@ =~= old(self)@);
        }
        r
    }

    /// The timestamp held by the last eight bytes.
    pub fn get_ts(&self) -> (r: u64)
        requires
            self@.len() >= TS_LEN,
        ensures
            r == u64_from_desc(self@.subrange(self@.len() - 8, self@.len() as int)),
    {
        self.as_physical_slice().get_ts()
    }

    pub fn reset_from_physical_slice(&mut self, pk: &BasicPhysicalKeySlice)
        ensures
            final(self)@ == pk@,
    {
        self.0.clear();
        self.0.extend_from_slice(pk.as_physical_std_slice());
        proof {
            assert(final(self)@ =~= pk@);
        }
    }

    pub fn reset_from_logical_std_slice(&mut self, lk: &[u8])
        ensures
            final(self)@ == physical_prefix() + lk@,
            final(self).wf(),
    {
        self.0.truncate(0);
        self.0.extend_from_slice(lk);
        proof {
            assert(final(self)@ =~= physical_prefix() + lk@);
            assert(final(self)@.subrange(0, 0) =~= physical_prefix());
        }
    }

    pub fn reset_from_logical_slice(&mut self, lk: &LogicalKeySlice)
        ensures
            final(self)@ == physical_prefix() + lk@,
            final(self).wf(),
    {
        self.reset_from_logical_std_slice(lk.as_std_slice())
    }

    pub fn reset_from_user_std_slice(&mut self, uk: &[u8])
        ensures
            final(self)@ == physical_prefix() + mc_encode(uk@),
            final(self).wf(),
    {
        self.0.truncate(0);
        write_comparable_bytes(&mut self.0, uk);
        proof {
            assert(final(self)@ =~= physical_prefix() + mc_encode(uk@));
            assert(final(self)@.subrange(0, 0) =~= physical_prefix());
        }
    }

    /// The bytes as uppercase hexadecimal.
    pub fn to_hex_upper(&self) -> (r: String)
        ensures
            r@ == hex_upper_spec(self@),
    {
        encode_hex_upper(self.0.as_slice())
    }
}

/// Appending a timestamp and removing it again leaves a key as it was, and
/// the timestamp read back while it is attached is the one appended.
pub proof fn lemma_ts_suffix_round_trip(k: Seq<u8>, ts: u64)
    ensures
        (k + u64_desc_bytes(ts)).subrange(0, k.len() as int) == k,
        (k + u64_desc_bytes(ts)).subrange(k.len() as int, k.len() as int + 8) == u64_desc_bytes(ts),
        u64_from_desc((k + u64_desc_bytes(ts)).subrange(k.len() as int, k.len() as int + 8)) == ts,
{
    assert((k + u64_desc_bytes(ts)).subrange(0, k.len() as int) =~= k);
    assert((k + u64_desc_bytes(ts)).subrange(k.len() as int, k.len() as int + 8) =~= u64_desc_bytes(ts));
    lemma_u64_desc_round_trip(ts);
}

} // verus!
