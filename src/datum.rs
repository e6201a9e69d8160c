//! The non-comparable datum encoding used for column values in result rows.

use vstd::prelude::*;

verus! {

/// Flag byte of a `NULL` datum.
pub const NIL_FLAG: u8 = 0;

/// Flag byte of a signed integer datum in variable-length form.
pub const VAR_INT_FLAG: u8 = 8;

/// Flag byte of an unsigned integer datum in variable-length form.
pub const VAR_UINT_FLAG: u8 = 9;

/// Variable-length unsigned integer: seven bits per byte, least significant
/// group first, the high bit set on every byte but the last.
pub open spec fn varint_u64(v: u64) -> Seq<u8>
    decreases v,
{
    if v < 128 {
        seq![v as u8]
    } else {
        seq![(v % 128 + 128) as u8] + varint_u64(v / 128)
    }
}

/// Zig-zag form of a signed integer: `2v` for `v >= 0`, `-2v - 1` otherwise.
pub open spec fn zigzag(v: i64) -> u64 {
    if v >= 0 {
        (2 * v) as u64
    } else {
        (-2 * v - 1) as u64
    }
}

/// A datum: `NULL`, a signed or an unsigned integer.
#[derive(Debug, Clone, Copy, PartialEq, Eq, Structural)]
pub enum Datum {
    Null,
    I64(i64),
    U64(u64),
}

/// The encoding of one datum.
pub open spec fn datum_bytes(d: Datum) -> Seq<u8> {
    match d {
        Datum::Null => seq![NIL_FLAG],
        Datum::I64(v) => seq![VAR_INT_FLAG] + varint_u64(zigzag(v)),
        Datum::U64(v) => seq![VAR_UINT_FLAG] + varint_u64(v),
    }
}

/// Appends the variable-length form of `v`.
pub fn write_var_u64(out: &mut Vec<u8>, v: u64)
    ensures
        final(out)@ == old(out)@ + varint_u64(v),
{
    let mut x = v;
    let ghost start = old(out)@;
    while x >= 128
        invariant
            out@ + varint_u64(x) == start + varint_u64(v),
        decreases x,
    {
        let b: u8 = (x % 128 + 128) as u8;
        let ghost before = out@;
        out.push(b);
        proof {
            assert(out@ + varint_u64(x / 128) =~= before + varint_u64(x));
        }
        x = x / 128;
    }
    let ghost before = out@;
    out.push(x as u8);
    proof {
        assert(out@ =~= before + varint_u64(x));
    }
}

/// Appends the encoding of `d`.
pub fn write_datum(out: &mut Vec<u8>, d: Datum)
    ensures
        final(out)@ == old(out)@ + datum_bytes(d),
{
    let ghost start = old(out)@;
    match d {
        Datum::Null => {
            out.push(NIL_FLAG);
            proof {
                assert(out@ =~= start + datum_bytes(d));
            }
        },
        Datum::I64(v) => {
            out.push(VAR_INT_FLAG);
            let z: u64 = if v >= 0 {
                (v as u64) * 2
            } else {
                ((-(v + 1)) as u64) * 2 + 1
            };
            write_var_u64(out, z);
            proof {
                assert(out@ =~= start + datum_bytes(d));
            }
        },
        Datum::U64(v) => {
            out.push(VAR_UINT_FLAG);
            write_var_u64(out, v);
            proof {
                assert(out@ =~= start + datum_bytes(d));
            }
        },
    }
}

} // verus!
