use grpcworker::perf_context::{PerfStatisticsFields, PerfStatisticsInstant};
use grpcworker::rpn::{
    RpnFnEQInt, RpnFnGTInt, RpnFnIntIsNull, RpnFnLTInt, RpnFnLogicalAnd, RpnFnLogicalOr,
    RpnFnUnaryNot, Signedness,
};

#[test]
fn integer_comparisons() {
    assert_eq!(RpnFnEQInt::call(&Some(3), &Some(3)), Ok(Some(1)));
    assert_eq!(RpnFnEQInt::call(&Some(3), &Some(-3)), Ok(Some(0)));
    assert_eq!(RpnFnEQInt::call(&None, &Some(3)), Ok(None));
    assert_eq!(RpnFnGTInt::call(&Some(4), &Some(3)), Ok(Some(1)));
    assert_eq!(RpnFnGTInt::call(&Some(-4), &Some(3)), Ok(Some(0)));
    assert_eq!(RpnFnGTInt::call(&Some(4), &None), Ok(None));
    assert_eq!(RpnFnLTInt::call(&Some(i64::MIN), &Some(i64::MAX)), Ok(Some(1)));
    assert_eq!(RpnFnLTInt::call(&Some(5), &Some(5)), Ok(Some(0)));
    assert_eq!(RpnFnLTInt::call(&None, &None), Ok(None));
}

#[test]
fn three_valued_and() {
    let cases = [
        (None, None, None),
        (None, Some(0), Some(0)),
        (None, Some(7), None),
        (Some(0), None, Some(0)),
        (Some(0), Some(0), Some(0)),
        (Some(0), Some(7), Some(0)),
        (Some(7), None, None),
        (Some(7), Some(0), Some(0)),
        (Some(7), Some(-1), Some(1)),
    ];
    for (a, b, want) in cases {
        assert_eq!(RpnFnLogicalAnd::call(&a, &b), Ok(want));
    }
}

#[test]
fn three_valued_or() {
    let cases = [
        (None, None, None),
        (None, Some(0), None),
        (None, Some(7), Some(1)),
        (Some(0), None, None),
        (Some(0), Some(0), Some(0)),
        (Some(0), Some(7), Some(1)),
        (Some(7), None, Some(1)),
        (Some(7), Some(0), Some(1)),
        (Some(-2), Some(5), Some(1)),
    ];
    for (a, b, want) in cases {
        assert_eq!(RpnFnLogicalOr::call(&a, &b), Ok(want));
    }
}

#[test]
fn is_null_and_not() {
    assert_eq!(RpnFnIntIsNull::call(&None), Ok(Some(1)));
    assert_eq!(RpnFnIntIsNull::call(&Some(0)), Ok(Some(0)));
    assert_eq!(RpnFnUnaryNot::call(&Some(0)), Ok(Some(1)));
    assert_eq!(RpnFnUnaryNot::call(&Some(9)), Ok(Some(0)));
    assert_eq!(RpnFnUnaryNot::call(&None), Ok(None));
}

#[test]
fn perf_delta_subtracts_each_counter() {
    let mut a = PerfStatisticsFields::default();
    a.block_read_count = 4;
    a.internal_key_skipped_count = 1;
    let mut b = a;
    b.block_read_count = 11;
    b.internal_key_skipped_count = 3;
    b.env_new_logger_nanos = 5;
    assert!(a.le(&b));
    assert!(!b.le(&a));
    let d = PerfStatisticsInstant(a).delta(&PerfStatisticsInstant(b));
    assert_eq!(d.0.block_read_count, 7);
    assert_eq!(d.0.internal_key_skipped_count, 2);
    assert_eq!(d.0.env_new_logger_nanos, 5);
    assert_eq!(d.0.block_cache_hit_count, 0);
}

#[test]
fn comparisons_with_signedness() {
    let (s, u) = (Signedness::Signed, Signedness::Unsigned);
    assert_eq!(RpnFnGTInt::call_typed(&Some(-1), s, &Some(1), s), Ok(Some(0)));
    assert_eq!(RpnFnGTInt::call_typed(&Some(-1), u, &Some(1), u), Ok(Some(1)));
    assert_eq!(RpnFnLTInt::call_typed(&Some(-1), u, &Some(1), u), Ok(Some(0)));
    assert_eq!(RpnFnLTInt::call_typed(&Some(-1), s, &Some(1), s), Ok(Some(1)));
    assert_eq!(RpnFnEQInt::call_typed(&Some(-1), u, &Some(-1), u), Ok(Some(1)));
    assert_eq!(RpnFnEQInt::call_typed(&Some(3), s, &None, s), Ok(None));
    assert!(RpnFnEQInt::call_typed(&Some(1), s, &Some(1), u).is_err());
    assert!(RpnFnGTInt::call_typed(&None, u, &Some(1), s).is_err());
}
