use grpcworker::dag::{inflate_cols, Chunk, DAGContext, Executor, ReqContext, Response, Row};
use grpcworker::errors::Error;
use grpcworker::storage::{IntervalRange, SnapshotStore};
use grpcworker::storage_impl::TiKVStorage;
use grpcworker::util::{prefix_next, ColumnInfo, ErrorRequestHandler, KeyRange, NOT_NULL_FLAG, UNSIGNED_FLAG};

fn five_rows() -> Vec<Row> {
    let mut s = SnapshotStore::new(100);
    for i in 1..=5u8 {
        s.put(vec![b'k', b'0' + i], 10, vec![b'v', b'0' + i]);
    }
    let mut st = TiKVStorage::new(s);
    st.begin_scan(false, false, IntervalRange { lower_inclusive: b"k1".to_vec(), upper_exclusive: b"k6".to_vec() })
        .unwrap();
    let mut rows = Vec::new();
    let mut handle = 0;
    while let Some((key, value)) = st.scan_next().unwrap() {
        handle += 1;
        rows.push(Row { handle, key, value, cols: vec![] });
    }
    rows
}

const NO_DEADLINE: ReqContext = ReqContext { deadline_ms: u64::MAX };
const NOW: u64 = 1_000;

fn aggr_context(rows: Vec<Row>, error: Option<Error>, batch_row_limit: usize, chunks_per_stream: usize) -> DAGContext {
    DAGContext::new(vec![], true, Executor::new(rows, error), vec![], batch_row_limit, chunks_per_stream, NO_DEADLINE).unwrap()
}

fn frame(chunks: &[&[u8]], range: Option<(&[u8], Vec<u8>)>) -> Response {
    Response {
        chunks: chunks.iter().map(|c| Chunk { rows_data: c.to_vec() }).collect(),
        range: range.map(|(s, e)| KeyRange { start: s.to_vec(), end: e }),
        other_error: None,
    }
}

#[test]
fn dag_single_range_in_one_response() {
    let mut ctx = aggr_context(five_rows(), None, 10, 1);
    let (resp, remain) = ctx.handle_request(false, NOW).unwrap();
    assert!(!remain);
    assert_eq!(resp, frame(&[b"v1v2v3v4v5"], Some((b"k1", prefix_next(b"k5")))));
    assert_eq!(resp.range.unwrap().end, b"k6".to_vec());
}

#[test]
fn dag_non_streaming_splits_chunks() {
    let mut ctx = aggr_context(five_rows(), None, 2, 1);
    let (resp, remain) = ctx.handle_request(false, NOW).unwrap();
    assert!(!remain);
    assert_eq!(resp, frame(&[b"v1v2", b"v3v4", b"v5"], Some((b"k1", b"k6".to_vec()))));
}

#[test]
fn dag_streaming_split() {
    let mut ctx = aggr_context(five_rows(), None, 2, 1);
    let mut frames = Vec::new();
    loop {
        let (resp, remain) = ctx.handle_request(true, NOW).unwrap();
        frames.push((resp, remain));
        if !remain {
            break;
        }
    }
    assert_eq!(frames.len(), 4);
    assert_eq!(frames[0], (frame(&[b"v1v2"], Some((b"k1", prefix_next(b"k2")))), true));
    assert_eq!(frames[1], (frame(&[b"v3v4"], Some((b"k3", prefix_next(b"k4")))), true));
    assert_eq!(frames[2], (frame(&[b"v5"], Some((b"k5", prefix_next(b"k5")))), true));
    assert_eq!(frames[3], (frame(&[], None), false));
    for w in frames.windows(2) {
        if let (Some(a), Some(b)) = (&w[0].0.range, &w[1].0.range) {
            assert!(a.end <= b.start);
        }
    }
}

#[test]
fn dag_backward_scan_range_is_swapped() {
    let mut rows = five_rows();
    rows.reverse();
    let mut ctx = aggr_context(rows, None, 10, 1);
    let (resp, _) = ctx.handle_request(false, NOW).unwrap();
    assert_eq!(resp.range, Some(KeyRange { start: b"k1".to_vec(), end: b"k6".to_vec() }));
}

#[test]
fn dag_other_error_is_in_band() {
    let mut ctx = aggr_context(five_rows(), Some(Error::Other("boom".to_string())), 2, 1);
    let (resp, remain) = ctx.handle_request(false, NOW).unwrap();
    assert!(!remain);
    assert_eq!(resp, Response { chunks: vec![], range: None, other_error: Some("boom".to_string()) });
}

#[test]
fn dag_storage_error_fails_request() {
    let mut ctx = aggr_context(five_rows(), Some(Error::Storage("corrupt".to_string())), 2, 1);
    assert_eq!(ctx.handle_request(false, NOW), Err(Error::Storage("corrupt".to_string())));
}

#[test]
fn dag_rejects_offset_without_column() {
    assert!(DAGContext::new(vec![], false, Executor::new(vec![], None), vec![0], 1, 1, NO_DEADLINE).is_err());
}

#[test]
fn dag_zero_batch_limit_gives_one_row_per_chunk() {
    let mut ctx = DAGContext::new(vec![], true, Executor::new(five_rows(), None), vec![], 0, 0, NO_DEADLINE).unwrap();
    let (resp, remain) = ctx.handle_request(false, NOW).unwrap();
    assert!(!remain);
    assert_eq!(resp, frame(&[b"v1", b"v2", b"v3", b"v4", b"v5"], Some((b"k1", b"k6".to_vec()))));
}

#[test]
fn dag_past_deadline_is_outdated() {
    let deadline = ReqContext { deadline_ms: 500 };
    let mut ctx = DAGContext::new(vec![], true, Executor::new(five_rows(), None), vec![], 2, 1, deadline).unwrap();
    assert_eq!(ctx.handle_request(true, 500), Err(Error::Outdated));
    let mut empty = DAGContext::new(vec![], true, Executor::new(vec![], None), vec![], 2, 1, deadline).unwrap();
    assert_eq!(empty.handle_request(false, 900), Ok((frame(&[], None), false)));
    let mut in_time = DAGContext::new(vec![], true, Executor::new(five_rows(), None), vec![], 10, 1, deadline).unwrap();
    assert!(in_time.handle_request(false, 499).is_ok());
}

fn col(id: i64, pk: bool, flag: u64, default_val: Option<&[u8]>) -> ColumnInfo {
    ColumnInfo { column_id: id, pk_handle: pk, flag, default_val: default_val.map(|d| d.to_vec()) }
}

#[test]
fn column_inflation() {
    let cols = vec![
        col(1, false, 0, None),
        col(2, true, 0, None),
        col(3, false, 0, Some(b"D")),
        col(4, false, 0, None),
        col(5, true, UNSIGNED_FLAG, None),
    ];
    let row = Row { handle: -3, key: b"r".to_vec(), value: vec![], cols: vec![(1, b"x".to_vec())] };
    assert_eq!(inflate_cols(&row, &cols, &vec![0, 1, 2, 3]), Ok(vec![b'x', 8, 5, b'D', 0]));
    let big = Row { handle: 300, key: b"r".to_vec(), value: vec![], cols: vec![] };
    assert_eq!(inflate_cols(&big, &cols, &vec![1]), Ok(vec![8, 216, 4]));
    let neg = Row { handle: -1, key: b"r".to_vec(), value: vec![], cols: vec![] };
    assert_eq!(
        inflate_cols(&neg, &cols, &vec![4]),
        Ok(vec![9, 0xff, 0xff, 0xff, 0xff, 0xff, 0xff, 0xff, 0xff, 0xff, 0x01])
    );
}

#[test]
fn missing_not_null_column_fails() {
    let cols = vec![col(1, false, NOT_NULL_FLAG, None)];
    let row = Row { handle: 7, key: b"r".to_vec(), value: vec![], cols: vec![(2, b"y".to_vec())] };
    assert_eq!(inflate_cols(&row, &cols, &vec![0]), Err(Error::MissingColumn { col_id: 1, handle: 7 }));
    let mut ctx = DAGContext::new(cols, false, Executor::new(vec![row], None), vec![0], 10, 1, NO_DEADLINE).unwrap();
    assert_eq!(ctx.handle_request(false, NOW), Err(Error::MissingColumn { col_id: 1, handle: 7 }));
}

#[test]
fn error_request_handler_answers_in_band() {
    let h = ErrorRequestHandler::new("bad request");
    let resp = h.handle_request().unwrap();
    assert_eq!(resp.other_error, Some("bad request".to_string()));
    let h2 = ErrorRequestHandler::from_error(Error::PoolBusy(3));
    assert_eq!(h2.error, "pool is busy");
    let h3 = ErrorRequestHandler::from_error(Error::Other("x".to_string()));
    assert_eq!(h3.error, "x");
}

#[test]
fn request_outdated_at_deadline() {
    let ctx = ReqContext { deadline_ms: 1000 };
    assert_eq!(ctx.check_if_outdated(999), Ok(()));
    assert_eq!(ctx.check_if_outdated(1000), Err(Error::Outdated));
}
