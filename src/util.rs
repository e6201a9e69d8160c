//! Key-range helpers shared by the request handlers.

use vstd::prelude::*;
use crate::datum::Datum;
use crate::errors::Error;
use crate::dag::Response;
use crate::codec::{
    lex_lt, is_proper_prefix, differs_below_at, lemma_lex_of_proper_prefix,
    lemma_lex_of_difference, lemma_lex_cases,
};

verus! {

/// Every byte of `k` is `0xFF` (vacuously true of the empty string).
pub open spec fn all_ff(k: Seq<u8>) -> bool {
    forall|i: int| 0 <= i < k.len() ==> k[i] == 0xffu8
}

/// Index of the last byte of `k` that is not `0xFF`, or -1 when there is none.
pub open spec fn last_non_ff(k: Seq<u8>) -> int
    decreases k.len(),
{
    if k.len() == 0 {
        -1
    } else if k.last() != 0xffu8 {
        k.len() - 1
    } else {
        last_non_ff(k.drop_last())
    }
}

/// The key that ends a range starting at `k`: the last byte that is not
/// `0xFF` is incremented and the bytes after it become zero; when there is
/// no such byte (an empty key included), a zero byte is appended.
pub open spec fn spec_prefix_next(k: Seq<u8>) -> Seq<u8> {
    let j = last_non_ff(k);
    if j < 0 {
        k.push(0u8)
    } else {
        Seq::new(
            k.len(),
            |i: int|
                if i < j {
                    k[i]
                } else if i == j {
                    (k[j] + 1) as u8
                } else {
                    0u8
                },
        )
    }
}

proof fn lemma_last_non_ff(k: Seq<u8>)
    ensures
        -1 <= last_non_ff(k) < k.len(),
        last_non_ff(k) >= 0 ==> k[last_non_ff(k)] != 0xffu8,
        forall|t: int| last_non_ff(k) < t < k.len() ==> k[t] == 0xffu8,
        last_non_ff(k) < 0 <==> all_ff(k),
    decreases k.len(),
{
    if k.len() > 0 && k.last() == 0xffu8 {
        lemma_last_non_ff(k.drop_last());
        assert forall|t: int| last_non_ff(k) < t < k.len() implies k[t] == 0xffu8 by {
            if t < k.len() - 1 {
                assert(k.drop_last()[t] == k[t]);
            }
        }
        if all_ff(k) {
            assert forall|t: int| 0 <= t < k.drop_last().len() implies k.drop_last()[t]
                == 0xffu8 by {
                assert(k.drop_last()[t] == k[t]);
            }
        }
    }
}

proof fn lemma_last_non_ff_at(k: Seq<u8>, j: int)
    requires
        -1 <= j < k.len(),
        j >= 0 ==> k[j] != 0xffu8,
        forall|t: int| j < t < k.len() ==> k[t] == 0xffu8,
    ensures
        last_non_ff(k) == j,
{
    lemma_last_non_ff(k);
    let l = last_non_ff(k);
    if l < j {
        assert(k[j] == 0xffu8);
    } else if l > j {
        assert(k[l] == 0xffu8);
    }
}

/// The key that ends a range starting at `key`, used as the exclusive end
/// of a scanned range.
pub fn prefix_next(key: &[u8]) -> (r: Vec<u8>)
    ensures
        r@ == spec_prefix_next(key@),
{
    let mut nk = vstd::slice::slice_to_vec(key);
    if nk.len() == 0 {
        nk.push(0);
        proof {
            lemma_last_non_ff(key@);
        }
        return nk;
    }
    let mut i: usize = nk.len() - 1;
    loop
        invariant
            nk@.len() == key@.len(),
            i < key@.len(),
            forall|t: int| 0 <= t <= i ==> nk@[t] == key@[t],
            forall|t: int| i < t < key@.len() ==> nk@[t] == 0u8 && key@[t] == 0xffu8,
        decreases i,
    {
        if nk[i] == 255 {
            nk.set(i, 0);
        } else {
            let b = nk[i] + 1;
            nk.set(i, b);
            proof {
                lemma_last_non_ff_at(key@, i as int);
                assert(nk@ =~= spec_prefix_next(key@));
            }
            return nk;
        }
        if i == 0 {
            let mut nk2 = vstd::slice::slice_to_vec(key);
            nk2.push(0);
            proof {
                lemma_last_non_ff_at(key@, -1);
            }
            return nk2;
        }
        i -= 1;
    }
}

/// A key is strictly less than its prefix-next.
pub proof fn lemma_prefix_next_greater(x: Seq<u8>)
    ensures
        lex_lt(x, spec_prefix_next(x)),
{
    lemma_last_non_ff(x);
    let j = last_non_ff(x);
    let pn = spec_prefix_next(x);
    if j < 0 {
        assert(pn.subrange(0, x.len() as int) =~= x);
        lemma_lex_of_proper_prefix(x, pn);
    } else {
        assert(pn.subrange(0, j) =~= x.subrange(0, j));
        lemma_lex_of_difference(x, pn, j);
    }
}

/// When every byte of `x` is `0xFF` (the empty key included), its prefix-next
/// is `x` followed by one zero byte, and no key lies strictly between the two.
pub proof fn lemma_prefix_next_all_ff_is_successor(x: Seq<u8>, y: Seq<u8>)
    requires
        all_ff(x),
    ensures
        spec_prefix_next(x) == x.push(0u8),
        !(lex_lt(x, y) && lex_lt(y, spec_prefix_next(x))),
{
    lemma_last_non_ff(x);
    let n = x.len() as int;
    let pn = x.push(0u8);
    if lex_lt(x, y) && lex_lt(y, pn) {
        lemma_lex_cases(x, y);
        lemma_lex_cases(y, pn);
        if exists|i: int| differs_below_at(x, y, i) {
            let i = choose|i: int| differs_below_at(x, y, i);
            assert(x[i] == 0xffu8);
        }
        assert(is_proper_prefix(x, y));
        assert(!is_proper_prefix(y, pn));
        let i = choose|i: int| differs_below_at(y, pn, i);
        if i < n {
            assert(y.subrange(0, n)[i] == y[i]);
            assert(pn[i] == x[i]);
            assert(y.subrange(0, i)[i - 1] == y[i - 1] || i == 0);
        }
    }
}

/// Where `x` holds a byte other than `0xFF`, every key that has `x` as a
/// prefix is strictly less than the prefix-next of `x`.
pub proof fn lemma_prefix_next_bounds_extensions(x: Seq<u8>, y: Seq<u8>)
    requires
        !all_ff(x),
        y.len() >= x.len(),
        y.subrange(0, x.len() as int) == x,
    ensures
        lex_lt(y, spec_prefix_next(x)),
{
    lemma_last_non_ff(x);
    let j = last_non_ff(x);
    let pn = spec_prefix_next(x);
    let n = x.len() as int;
    assert forall|t: int| 0 <= t < j implies y[t] == pn[t] by {
        assert(y.subrange(0, n)[t] == y[t]);
    }
    assert(y.subrange(0, j) =~= pn.subrange(0, j));
    assert(y.subrange(0, n)[j] == y[j]);
    assert(differs_below_at(y, pn, j));
    lemma_lex_of_difference(y, pn, j);
}

/// A key range `[start, end)` of a request or of a response.
#[derive(Debug, Clone, PartialEq, Eq)]
pub struct KeyRange {
    pub start: Vec<u8>,
    pub end: Vec<u8>,
}

/// Whether the range holds exactly the keys that have `start` as a prefix
/// and no others, i.e. it stands for a point read.
pub fn is_point(range: &KeyRange) -> (r: bool)
    ensures
        r == (range.end@ == spec_prefix_next(range.start@)),
{
    let next = prefix_next(range.start.as_slice());
    crate::codec::bytes_eq(range.end.as_slice(), next.as_slice())
}

/// Column flag: the column holds no `NULL`.
pub const NOT_NULL_FLAG: u64 = 1;

/// Column flag: the integer column is unsigned.
pub const UNSIGNED_FLAG: u64 = 32;

pub open spec fn has_flag(flag: u64, f: u64) -> bool {
    flag & f != 0
}

/// What a request says of one column of a table.
#[derive(Debug, Clone, PartialEq, Eq)]
pub struct ColumnInfo {
    pub column_id: i64,
    /// The column is the table's integer primary key, held as the row handle.
    pub pk_handle: bool,
    pub flag: u64,
    /// The encoded default value, if the column has one.
    pub default_val: Option<Vec<u8>>,
}

/// The primary-key datum of a row whose handle is `h`: unsigned when the
/// column is flagged so.
pub open spec fn spec_pk(col: ColumnInfo, h: i64) -> Datum {
    if has_flag(col.flag, UNSIGNED_FLAG) {
        Datum::U64(h as u64)
    } else {
        Datum::I64(h)
    }
}

pub fn get_pk(col: &ColumnInfo, h: i64) -> (r: Datum)
    ensures
        r == spec_pk(*col, h),
{
    if col.flag & UNSIGNED_FLAG != 0 {
        Datum::U64(h as u64)
    } else {
        Datum::I64(h)
    }
}

/// A request handler that answers every request with one fixed error.
pub struct ErrorRequestHandler {
    pub error: String,
}

/// The message that an error is reported with.
pub open spec fn error_message(e: Error) -> Seq<char> {
    match e {
        Error::SchedulerBusy(_) => "scheduler is busy"@,
        Error::SchedulerStopped(_) => "scheduler is stopped"@,
        Error::PoolBusy(_) => "pool is busy"@,
        Error::Outdated => "request is outdated"@,
        Error::KeyIsLocked(_) => "key is locked"@,
        Error::Codec(_) => "malformed encoding"@,
        Error::MissingColumn { .. } => "column is missing"@,
        Error::Storage(m) => m@,
        Error::Other(m) => m@,
    }
}

impl ErrorRequestHandler {
    pub fn new(msg: &str) -> (r: ErrorRequestHandler)
        ensures
            r.error@ == msg@,
    {
        ErrorRequestHandler { error: msg.to_owned() }
    }

    /// A handler that answers with the message of `err`.
    pub fn from_error(err: Error) -> (r: ErrorRequestHandler)
        ensures
            r.error@ == error_message(err),
    {
        let error = match err {
            Error::SchedulerBusy(_) => "scheduler is busy".to_owned(),
            Error::SchedulerStopped(_) => "scheduler is stopped".to_owned(),
            Error::PoolBusy(_) => "pool is busy".to_owned(),
            Error::Outdated => "request is outdated".to_owned(),
            Error::KeyIsLocked(_) => "key is locked".to_owned(),
            Error::Codec(_) => "malformed encoding".to_owned(),
            Error::MissingColumn { .. } => "column is missing".to_owned(),
            Error::Storage(m) => m,
            Error::Other(m) => m,
        };
        ErrorRequestHandler { error }
    }

    /// The answer: a response that carries the error in band.
    pub fn handle_request(&self) -> (r: Result<Response, Error>)
        ensures
            r is Ok,
            r->Ok_0.chunks@.len() == 0,
            r->Ok_0.range is None,
            r->Ok_0.other_error matches Some(m) && m@ == self.error@,
    {
        Ok(Response { chunks: Vec::new(), range: None, other_error: Some(self.error.clone()) })
    }
}

} // verus!
