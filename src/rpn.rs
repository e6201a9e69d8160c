//! Scalar functions of the expression evaluator on nullable integers, where
//! `None` stands for SQL `NULL` and booleans are `0` and `1`. Integers are
//! compared as signed values, or, through `call_typed`, with the signedness
//! of each side given.

use vstd::prelude::*;
use crate::errors::Error;

verus! {

/// The SQL truth value of a boolean: `1` for true, `0` for false.
pub open spec fn sql_bool(b: bool) -> i64 {
    if b {
        1
    } else {
        0
    }
}

/// How the bits of an integer argument are read.
#[derive(Debug, Clone, Copy, PartialEq, Eq, Structural)]
pub enum Signedness {
    Signed,
    Unsigned,
}

/// The number an argument stands for.
pub open spec fn int_value(v: i64, s: Signedness) -> int {
    match s {
        Signedness::Signed => v as int,
        Signedness::Unsigned => (v as u64) as int,
    }
}

/// Orders two integers read with the same signedness: -1, 0 or 1.
fn compare_same_signedness(x: i64, y: i64, s: Signedness) -> (r: i8)
    ensures
        r == if int_value(x, s) < int_value(y, s) {
            -1i8
        } else if int_value(x, s) == int_value(y, s) {
            0i8
        } else {
            1i8
        },
{
    match s {
        Signedness::Signed => if x < y {
            -1
        } else if x == y {
            0
        } else {
            1
        },
        Signedness::Unsigned => {
            let (a, b) = (x as u64, y as u64);
            if a < b {
                -1
            } else if a == b {
                0
            } else {
                1
            }
        },
    }
}

/// Compares two nullable integers whose signedness is given: `NULL` when
/// either is `NULL`, otherwise whether their order is `want` (-1 for less,
/// 1 for greater) or, when `or_equal`, equality. Integers of different
/// signedness are not compared.
fn compare_typed(
    arg0: &Option<i64>,
    s0: Signedness,
    arg1: &Option<i64>,
    s1: Signedness,
    want: i8,
    or_equal: bool,
) -> (r: Result<Option<i64>, Error>)
    ensures
        s0 != s1 ==> r is Err && r->Err_0 is Other,
        s0 == s1 ==> r == Ok::<Option<i64>, Error>(
            match (*arg0, *arg1) {
                (Some(x), Some(y)) => Some(
                    sql_bool(
                        (want < 0 && int_value(x, s0) < int_value(y, s0)) || (want > 0 && int_value(
                            x,
                            s0,
                        ) > int_value(y, s0)) || (or_equal && int_value(x, s0) == int_value(y, s0)),
                    ),
                ),
                _ => None,
            },
        ),
{
    if s0 != s1 {
        return Err(Error::Other("comparison of signed and unsigned integers".to_owned()));
    }
    match (arg0, arg1) {
        (Some(x), Some(y)) => {
            let c = compare_same_signedness(*x, *y, s0);
            let hit = (want < 0 && c < 0) || (want > 0 && c > 0) || (or_equal && c == 0);
            Ok(
                Some(
                    if hit {
                        1
                    } else {
                        0
                    },
                ),
            )
        },
        _ => Ok(None),
    }
}

/// `x = y`, `NULL` when either side is `NULL`.
#[derive(Debug, Clone, Copy)]
pub struct RpnFnEQInt;

impl RpnFnEQInt {
    pub fn call(arg0: &Option<i64>, arg1: &Option<i64>) -> (r: Result<Option<i64>, Error>)
        ensures
            r == Ok::<Option<i64>, Error>(
                match (*arg0, *arg1) {
                    (Some(x), Some(y)) => Some(sql_bool(x == y)),
                    _ => None,
                },
            ),
    {
        Ok(
            match (arg0, arg1) {
                (Some(x), Some(y)) => Some(
                    if *x == *y {
                        1
                    } else {
                        0
                    },
                ),
                _ => None,
            },
        )
    }

    /// `x = y` on integers read as `s0` and `s1`; mixed signedness is refused.
    pub fn call_typed(arg0: &Option<i64>, s0: Signedness, arg1: &Option<i64>, s1: Signedness) -> (r: Result<
        Option<i64>,
        Error,
    >)
        ensures
            s0 != s1 ==> r is Err && r->Err_0 is Other,
            s0 == s1 ==> r == Ok::<Option<i64>, Error>(
                match (*arg0, *arg1) {
                    (Some(x), Some(y)) => Some(sql_bool(int_value(x, s0) == int_value(y, s0))),
                    _ => None,
                },
            ),
    {
        compare_typed(arg0, s0, arg1, s1, 0, true)
    }
}

/// `x > y`, `NULL` when either side is `NULL`.
#[derive(Debug, Clone, Copy)]
pub struct RpnFnGTInt;

impl RpnFnGTInt {
    pub fn call(arg0: &Option<i64>, arg1: &Option<i64>) -> (r: Result<Option<i64>, Error>)
        ensures
            r == Ok::<Option<i64>, Error>(
                match (*arg0, *arg1) {
                    (Some(x), Some(y)) => Some(sql_bool(x > y)),
                    _ => None,
                },
            ),
    {
        Ok(
            match (arg0, arg1) {
                (Some(x), Some(y)) => Some(
                    if *x > *y {
                        1
                    } else {
                        0
                    },
                ),
                _ => None,
            },
        )
    }

    /// `x > y` on integers read as `s0` and `s1`; mixed signedness is refused.
    pub fn call_typed(arg0: &Option<i64>, s0: Signedness, arg1: &Option<i64>, s1: Signedness) -> (r: Result<
        Option<i64>,
        Error,
    >)
        ensures
            s0 != s1 ==> r is Err && r->Err_0 is Other,
            s0 == s1 ==> r == Ok::<Option<i64>, Error>(
                match (*arg0, *arg1) {
                    (Some(x), Some(y)) => Some(sql_bool(int_value(x, s0) > int_value(y, s0))),
                    _ => None,
                },
            ),
    {
        compare_typed(arg0, s0, arg1, s1, 1, false)
    }
}

/// `x < y`, `NULL` when either side is `NULL`.
#[derive(Debug, Clone, Copy)]
pub struct RpnFnLTInt;

impl RpnFnLTInt {
    pub fn call(arg0: &Option<i64>, arg1: &Option<i64>) -> (r: Result<Option<i64>, Error>)
        ensures
            r == Ok::<Option<i64>, Error>(
                match (*arg0, *arg1) {
                    (Some(x), Some(y)) => Some(sql_bool(x < y)),
                    _ => None,
                },
            ),
    {
        Ok(
            match (arg0, arg1) {
                (Some(x), Some(y)) => Some(
                    if *x < *y {
                        1
                    } else {
                        0
                    },
                ),
                _ => None,
            },
        )
    }

    /// `x < y` on integers read as `s0` and `s1`; mixed signedness is refused.
    pub fn call_typed(arg0: &Option<i64>, s0: Signedness, arg1: &Option<i64>, s1: Signedness) -> (r: Result<
        Option<i64>,
        Error,
    >)
        ensures
            s0 != s1 ==> r is Err && r->Err_0 is Other,
            s0 == s1 ==> r == Ok::<Option<i64>, Error>(
                match (*arg0, *arg1) {
                    (Some(x), Some(y)) => Some(sql_bool(int_value(x, s0) < int_value(y, s0))),
                    _ => None,
                },
            ),
    {
        compare_typed(arg0, s0, arg1, s1, -1, false)
    }
}

/// Three-valued `AND`: false when either side is false, otherwise `NULL`
/// when either side is `NULL`, otherwise true.
#[derive(Debug, Clone, Copy)]
pub struct RpnFnLogicalAnd;

impl RpnFnLogicalAnd {
    pub fn call(arg0: &Option<i64>, arg1: &Option<i64>) -> (r: Result<Option<i64>, Error>)
        ensures
            r == Ok::<Option<i64>, Error>(
                if *arg0 == Some(0i64) || *arg1 == Some(0i64) {
                    Some(0)
                } else if arg0.is_none() || arg1.is_none() {
                    None
                } else {
                    Some(1)
                },
            ),
    {
        Ok(
            match arg0 {
                None => match arg1 {
                    Some(0) => Some(0),
                    _ => None,
                },
                Some(0) => Some(0),
                Some(_) => match arg1 {
                    None => None,
                    Some(0) => Some(0),
                    Some(_) => Some(1),
                },
            },
        )
    }
}

/// Three-valued `OR`: true when either side is true (non-zero), otherwise
/// `NULL` when either side is `NULL`, otherwise false.
#[derive(Debug, Clone, Copy)]
pub struct RpnFnLogicalOr;

impl RpnFnLogicalOr {
    pub fn call(arg0: &Option<i64>, arg1: &Option<i64>) -> (r: Result<Option<i64>, Error>)
        ensures
            r == Ok::<Option<i64>, Error>(
                if (arg0.is_some() && arg0.unwrap() != 0) || (arg1.is_some() && arg1.unwrap()
                    != 0) {
                    Some(1)
                } else if arg0.is_none() || arg1.is_none() {
                    None
                } else {
                    Some(0)
                },
            ),
    {
        Ok(
            match arg0 {
                None => match arg1 {
                    None => None,
                    Some(0) => None,
                    Some(_) => Some(1),
                },
                Some(0) => match arg1 {
                    None => None,
                    Some(0) => Some(0),
                    Some(_) => Some(1),
                },
                Some(_) => Some(1),
            },
        )
    }
}

/// `x IS NULL`.
#[derive(Debug, Clone, Copy)]
pub struct RpnFnIntIsNull;

impl RpnFnIntIsNull {
    pub fn call(arg0: &Option<i64>) -> (r: Result<Option<i64>, Error>)
        ensures
            r == Ok::<Option<i64>, Error>(Some(sql_bool(arg0.is_none()))),
    {
        Ok(
            Some(
                if arg0.is_none() {
                    1
                } else {
                    0
                },
            ),
        )
    }
}

/// `NOT x`, `NULL` when `x` is `NULL`.
#[derive(Debug, Clone, Copy)]
pub struct RpnFnUnaryNot;

impl RpnFnUnaryNot {
    pub fn call(arg0: &Option<i64>) -> (r: Result<Option<i64>, Error>)
        ensures
            r == Ok::<Option<i64>, Error>(
                match *arg0 {
                    Some(x) => Some(sql_bool(x == 0)),
                    None => None,
                },
            ),
    {
        Ok(
            match arg0 {
                Some(x) => Some(
                    if *x == 0 {
                        1
                    } else {
                        0
                    },
                ),
                None => None,
            },
        )
    }
}

} // verus!
