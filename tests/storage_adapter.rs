use grpcworker::errors::Error;
use grpcworker::storage::{IntervalRange, SnapshotStore, Statistics};
use grpcworker::storage_impl::TiKVStorage;

fn range(lo: &[u8], hi: &[u8]) -> IntervalRange {
    IntervalRange { lower_inclusive: lo.to_vec(), upper_exclusive: hi.to_vec() }
}

fn store() -> SnapshotStore {
    let mut s = SnapshotStore::new(100);
    s.put(b"k3".to_vec(), 30, b"v3".to_vec());
    s.put(b"k1".to_vec(), 10, b"v1".to_vec());
    s.put(b"k2".to_vec(), 200, b"v2".to_vec());
    s.put(b"k4".to_vec(), 40, b"v4".to_vec());
    s
}

#[test]
fn point_get_sees_committed_before_start_ts() {
    let mut st = TiKVStorage::new(store());
    assert_eq!(st.get(false, b"k1".to_vec()), Ok(Some((b"k1".to_vec(), b"v1".to_vec()))));
    assert_eq!(st.get(false, b"k2".to_vec()), Ok(None));
    assert_eq!(st.get(false, b"zz".to_vec()), Ok(None));
    let mut stats = Statistics::new();
    st.collect_statistics(&mut stats);
    assert_eq!(stats.get, 3);
}

#[test]
fn put_replaces_a_key() {
    let mut s = store();
    s.put(b"k1".to_vec(), 20, b"new".to_vec());
    assert_eq!(s.get_at(b"k1", 100), Some(b"new".to_vec()));
    assert_eq!(s.get_at(b"k1", 15), None);
}

#[test]
fn forward_and_backward_scans() {
    let mut st = TiKVStorage::new(store());
    st.begin_scan(false, false, range(b"k1", b"k4")).unwrap();
    assert_eq!(st.scan_next(), Ok(Some((b"k1".to_vec(), b"v1".to_vec()))));
    assert_eq!(st.scan_next(), Ok(Some((b"k3".to_vec(), b"v3".to_vec()))));
    assert_eq!(st.scan_next(), Ok(None));
    st.begin_scan(true, true, range(b"k", b"l")).unwrap();
    assert_eq!(st.scan_next(), Ok(Some((b"k4".to_vec(), vec![]))));
    assert_eq!(st.scan_next(), Ok(Some((b"k3".to_vec(), vec![]))));
    assert_eq!(st.scan_next(), Ok(Some((b"k1".to_vec(), vec![]))));
    assert_eq!(st.scan_next(), Ok(None));
}

#[test]
fn batched_range_scan() {
    let mut st = TiKVStorage::new(store());
    st.begin_range_scan(false, range(b"k", b"l")).unwrap();
    let mut keys = Vec::new();
    let mut values = Vec::new();
    assert_eq!(st.range_scan_next_batch(2, &mut keys, &mut values), Ok(2));
    assert_eq!(st.range_scan_next_batch(2, &mut keys, &mut values), Ok(1));
    assert_eq!(st.range_scan_next_batch(2, &mut keys, &mut values), Ok(0));
    assert_eq!(keys, vec![b"k1".to_vec(), b"k3".to_vec(), b"k4".to_vec()]);
    assert_eq!(values, vec![b"v1".to_vec(), b"v3".to_vec(), b"v4".to_vec()]);
}

#[test]
fn range_scan_surfaces_first_lock() {
    let mut s = store();
    s.put_lock(b"a".to_vec(), 50);
    s.put_lock(b"k3".to_vec(), 500);
    s.put_lock(b"k2".to_vec(), 90);
    s.put_lock(b"k4".to_vec(), 95);
    let mut st = TiKVStorage::new(s);
    assert_eq!(
        st.begin_range_scan(false, range(b"k", b"l")),
        Err(Error::KeyIsLocked(b"k2".to_vec()))
    );
    assert_eq!(st.begin_range_scan(false, range(b"k3", b"k4")), Ok(()));
}

#[test]
fn statistics_are_drained_once() {
    let mut st = TiKVStorage::new(store());
    st.begin_scan(false, false, range(b"k", b"l")).unwrap();
    st.scan_next().unwrap();
    st.scan_next().unwrap();
    st.begin_scan(false, false, range(b"k", b"l")).unwrap();
    st.scan_next().unwrap();
    let _ = st.get(true, b"k1".to_vec());
    let mut stats = Statistics::new();
    st.collect_statistics(&mut stats);
    assert_eq!(stats, Statistics { get: 1, seek: 2, next: 3, processed: 3 });
    st.collect_statistics(&mut stats);
    assert_eq!(stats, Statistics { get: 1, seek: 2, next: 3, processed: 3 });
}

#[test]
fn statistics_add_saturates() {
    let mut a = Statistics { get: usize::MAX - 1, seek: 1, next: 2, processed: 3 };
    a.add(&Statistics { get: 5, seek: 1, next: 1, processed: 1 });
    assert_eq!(a, Statistics { get: usize::MAX, seek: 2, next: 3, processed: 4 });
}
