use txkv::BatchOperations;
use txkv::IterDirection;
use txkv::KeyValueStore;
use txkv::MemoryStore;
use txkv::WriteOperation;

#[test]
fn put_then_get_returns_value() {
    let mut st = MemoryStore::new();
    assert_eq!(st.put(b"alpha", 3, vec![1, 2, 3]), Ok(None));
    assert_eq!(st.get(b"alpha", 3), Ok(Some(vec![1, 2, 3])));
}

#[test]
fn put_returns_prior_value_and_overwrites() {
    let mut st = MemoryStore::new();
    assert_eq!(st.put(b"k", 0, vec![1]), Ok(None));
    assert_eq!(st.put(b"k", 0, vec![2]), Ok(Some(vec![1])));
    assert_eq!(st.get(b"k", 0), Ok(Some(vec![2])));
}

#[test]
fn delete_then_get_absent() {
    let mut st = MemoryStore::new();
    assert_eq!(st.put(b"k", 0, vec![9]), Ok(None));
    assert_eq!(st.delete(b"k", 0), Ok(Some(vec![9])));
    assert_eq!(st.get(b"k", 0), Ok(None));
}

#[test]
fn delete_twice_is_idempotent() {
    let mut st = MemoryStore::new();
    assert_eq!(st.put(b"k", 0, vec![9]), Ok(None));
    assert_eq!(st.put(b"other", 0, vec![7]), Ok(None));
    assert_eq!(st.delete(b"k", 0), Ok(Some(vec![9])));
    assert_eq!(st.delete(b"k", 0), Ok(None));
    assert_eq!(st.get(b"k", 0), Ok(None));
    assert_eq!(st.get(b"other", 0), Ok(Some(vec![7])));
}

#[test]
fn exists_matches_get_presence() {
    let mut st = MemoryStore::new();
    assert_eq!(st.exists_key(b"k", 0), Ok(false));
    assert_eq!(st.put(b"k", 0, vec![1]), Ok(None));
    assert_eq!(st.exists_key(b"k", 0), Ok(true));
    assert_eq!(st.get(b"k", 0).unwrap().is_some(), true);
    assert_eq!(st.delete(b"k", 0), Ok(Some(vec![1])));
    assert_eq!(st.exists_key(b"k", 0), Ok(false));
    assert_eq!(st.get(b"k", 0).unwrap().is_some(), false);
}

#[test]
fn columns_partition_the_key_space() {
    let mut st = MemoryStore::new();
    assert_eq!(st.put(b"k", 1, vec![1]), Ok(None));
    assert_eq!(st.put(b"k", 2, vec![2]), Ok(None));
    assert_eq!(st.get(b"k", 1), Ok(Some(vec![1])));
    assert_eq!(st.get(b"k", 2), Ok(Some(vec![2])));
    assert_eq!(st.get(b"k", 3), Ok(None));
    assert_eq!(st.delete(b"k", 1), Ok(Some(vec![1])));
    assert_eq!(st.get(b"k", 2), Ok(Some(vec![2])));
}

#[test]
fn iterate_forward_ascending() {
    let mut st = MemoryStore::new();
    assert_eq!(st.put(b"b", 0, vec![2]), Ok(None));
    assert_eq!(st.put(b"c", 0, vec![3]), Ok(None));
    assert_eq!(st.put(b"a", 0, vec![1]), Ok(None));
    let got = st.iter_all(0, None, None, IterDirection::Forward).unwrap();
    assert_eq!(
        got,
        vec![
            (b"a".to_vec(), vec![1]),
            (b"b".to_vec(), vec![2]),
            (b"c".to_vec(), vec![3]),
        ]
    );
}

#[test]
fn iterate_reverse_descending() {
    let mut st = MemoryStore::new();
    assert_eq!(st.put(b"b", 0, vec![2]), Ok(None));
    assert_eq!(st.put(b"a", 0, vec![1]), Ok(None));
    assert_eq!(st.put(b"c", 0, vec![3]), Ok(None));
    let got = st.iter_all(0, None, None, IterDirection::Reverse).unwrap();
    assert_eq!(
        got,
        vec![
            (b"c".to_vec(), vec![3]),
            (b"b".to_vec(), vec![2]),
            (b"a".to_vec(), vec![1]),
        ]
    );
}

#[test]
fn iterate_prefix_restricts_keys() {
    let mut st = MemoryStore::new();
    assert_eq!(st.put(b"ab", 0, vec![1]), Ok(None));
    assert_eq!(st.put(b"ac", 0, vec![2]), Ok(None));
    assert_eq!(st.put(b"b", 0, vec![3]), Ok(None));
    assert_eq!(st.put(b"a", 0, vec![4]), Ok(None));
    let got = st
        .iter_all(0, Some(b"a".to_vec()), None, IterDirection::Forward)
        .unwrap();
    assert_eq!(
        got,
        vec![
            (b"a".to_vec(), vec![4]),
            (b"ab".to_vec(), vec![1]),
            (b"ac".to_vec(), vec![2]),
        ]
    );
}

#[test]
fn iterate_start_bounds_forward_and_reverse() {
    let mut st = MemoryStore::new();
    assert_eq!(st.put(b"a", 0, vec![1]), Ok(None));
    assert_eq!(st.put(b"b", 0, vec![2]), Ok(None));
    assert_eq!(st.put(b"c", 0, vec![3]), Ok(None));
    let fwd = st
        .iter_all(0, None, Some(b"b".to_vec()), IterDirection::Forward)
        .unwrap();
    assert_eq!(fwd, vec![(b"b".to_vec(), vec![2]), (b"c".to_vec(), vec![3])]);
    let rev = st
        .iter_all(0, None, Some(b"b".to_vec()), IterDirection::Reverse)
        .unwrap();
    assert_eq!(rev, vec![(b"b".to_vec(), vec![2]), (b"a".to_vec(), vec![1])]);
}

#[test]
fn iterate_is_column_scoped() {
    let mut st = MemoryStore::new();
    assert_eq!(st.put(b"a", 1, vec![1]), Ok(None));
    assert_eq!(st.put(b"b", 2, vec![2]), Ok(None));
    let got = st.iter_all(1, None, None, IterDirection::Forward).unwrap();
    assert_eq!(got, vec![(b"a".to_vec(), vec![1])]);
}

#[test]
fn iterate_empty_store_yields_nothing() {
    let st = MemoryStore::new();
    let got = st.iter_all(0, None, None, IterDirection::Forward).unwrap();
    assert_eq!(got, Vec::<(Vec<u8>, Vec<u8>)>::new());
}

#[test]
fn default_direction_is_forward() {
    assert_eq!(IterDirection::default(), IterDirection::Forward);
}

#[test]
fn batch_write_applies_entries_in_order() {
    let mut st = MemoryStore::new();
    let entries = vec![
        WriteOperation::Insert(b"a".to_vec(), 0, vec![1]),
        WriteOperation::Insert(b"b".to_vec(), 0, vec![2]),
        WriteOperation::Insert(b"a".to_vec(), 0, vec![3]),
        WriteOperation::Remove(b"b".to_vec(), 0),
    ];
    assert_eq!(st.batch_write(&entries), Ok(()));
    assert_eq!(st.get(b"a", 0), Ok(Some(vec![3])));
    assert_eq!(st.get(b"b", 0), Ok(None));
}

#[test]
fn snapshot_is_independent() {
    let mut st = MemoryStore::new();
    assert_eq!(st.put(b"a", 0, vec![1]), Ok(None));
    let mut copy = st.snapshot();
    assert_eq!(copy.get(b"a", 0), Ok(Some(vec![1])));
    assert_eq!(copy.put(b"a", 0, vec![9]), Ok(Some(vec![1])));
    assert_eq!(st.get(b"a", 0), Ok(Some(vec![1])));
}

#[test]
fn batch_write_empty_batch_succeeds() {
    let mut st = MemoryStore::new();
    assert_eq!(st.put(b"a", 0, vec![1]), Ok(None));
    assert_eq!(st.batch_write(&Vec::new()), Ok(()));
    assert_eq!(st.get(b"a", 0), Ok(Some(vec![1])));
}
