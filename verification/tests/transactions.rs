use txkv::BatchOperations;
use txkv::KeyValueStore;
use txkv::MemoryStore;
use txkv::MemoryTransactionView;
use txkv::Transaction;
use txkv::TransactionError;
use txkv::TransactionResult;
use txkv::WriteOperation;

#[test]
fn committed_transaction_is_visible() {
    let mut st = MemoryStore::new();
    let r = st.transaction(|mut v: MemoryTransactionView| {
        let _ = v.put(b"a", 0, vec![1]);
        (v, Ok::<u32, TransactionError>(42))
    });
    assert_eq!(r, Ok(42));
    assert_eq!(st.get(b"a", 0), Ok(Some(vec![1])));
}

#[test]
fn failed_transaction_discards_writes() {
    let mut st = MemoryStore::new();
    let r = st.transaction(|mut v: MemoryTransactionView| {
        let _ = v.put(b"a", 0, vec![1]);
        (v, Err::<u32, TransactionError>(TransactionError::Aborted))
    });
    assert!(matches!(r, Err(TransactionError::Aborted)));
    assert_eq!(st.get(b"a", 0), Ok(None));
}

#[test]
fn inner_commit_subsumed_by_outer_abort() {
    let mut st = MemoryStore::new();
    let r = st.transaction(|mut v: MemoryTransactionView| {
        let inner: TransactionResult<u8> = v.transaction(|mut c: MemoryTransactionView| {
            let _ = c.put(b"x", 0, vec![9]);
            (c, Ok(1))
        });
        assert_eq!(inner, Ok(1));
        assert_eq!(v.get(b"x", 0), Ok(Some(vec![9])));
        (v, Err::<u8, TransactionError>(TransactionError::Aborted))
    });
    assert!(matches!(r, Err(TransactionError::Aborted)));
    assert_eq!(st.get(b"x", 0), Ok(None));
}

#[test]
fn inner_commit_kept_by_outer_commit() {
    let mut st = MemoryStore::new();
    let r = st.transaction(|mut v: MemoryTransactionView| {
        let inner: TransactionResult<u8> = v.transaction(|mut c: MemoryTransactionView| {
            let _ = c.put(b"x", 0, vec![9]);
            (c, Ok(1))
        });
        assert_eq!(inner, Ok(1));
        (v, Ok::<u8, TransactionError>(2))
    });
    assert_eq!(r, Ok(2));
    assert_eq!(st.get(b"x", 0), Ok(Some(vec![9])));
}

#[test]
fn inner_abort_keeps_outer_writes() {
    let mut st = MemoryStore::new();
    let r = st.transaction(|mut v: MemoryTransactionView| {
        let _ = v.put(b"kept", 0, vec![1]);
        let inner: TransactionResult<u8> = v.transaction(|mut c: MemoryTransactionView| {
            let _ = c.put(b"dropped", 0, vec![2]);
            (c, Err(TransactionError::Aborted))
        });
        assert!(matches!(inner, Err(TransactionError::Aborted)));
        assert_eq!(v.get(b"dropped", 0), Ok(None));
        (v, Ok::<u8, TransactionError>(0))
    });
    assert_eq!(r, Ok(0));
    assert_eq!(st.get(b"kept", 0), Ok(Some(vec![1])));
    assert_eq!(st.get(b"dropped", 0), Ok(None));
}

#[test]
fn two_transactions_with_disjoint_keys_both_commit() {
    let mut st = MemoryStore::new();
    let r1 = st.transaction(|mut v: MemoryTransactionView| {
        let _ = v.put(b"a", 0, vec![1]);
        (v, Ok::<u8, TransactionError>(0))
    });
    let r2 = st.transaction(|mut v: MemoryTransactionView| {
        let _ = v.put(b"b", 0, vec![2]);
        (v, Ok::<u8, TransactionError>(0))
    });
    assert_eq!(r1, Ok(0));
    assert_eq!(r2, Ok(0));
    assert_eq!(st.get(b"a", 0), Ok(Some(vec![1])));
    assert_eq!(st.get(b"b", 0), Ok(Some(vec![2])));
}

#[test]
fn overlay_reads_its_own_writes() {
    let mut st = MemoryStore::new();
    assert_eq!(st.put(b"base", 0, vec![1]), Ok(None));
    let mut v = MemoryTransactionView::new(st.snapshot());
    assert_eq!(v.get(b"base", 0), Ok(Some(vec![1])));
    assert_eq!(v.put(b"pending", 0, vec![2]), Ok(None));
    assert_eq!(v.get(b"pending", 0), Ok(Some(vec![2])));
    assert_eq!(v.exists_key(b"pending", 0), Ok(true));
    assert_eq!(st.get(b"pending", 0), Ok(None));
}

#[test]
fn overlay_put_reports_prior_value_through_layers() {
    let mut st = MemoryStore::new();
    assert_eq!(st.put(b"k", 0, vec![1]), Ok(None));
    let mut v = MemoryTransactionView::new(st.snapshot());
    assert_eq!(v.put(b"k", 0, vec![2]), Ok(Some(vec![1])));
    assert_eq!(v.put(b"k", 0, vec![3]), Ok(Some(vec![2])));
}

#[test]
fn overlay_delete_shadows_base_entry() {
    let mut st = MemoryStore::new();
    assert_eq!(st.put(b"k", 0, vec![1]), Ok(None));
    let mut v = MemoryTransactionView::new(st.snapshot());
    assert_eq!(v.delete(b"k", 0), Ok(Some(vec![1])));
    assert_eq!(v.get(b"k", 0), Ok(None));
    assert_eq!(v.exists_key(b"k", 0), Ok(false));
    assert_eq!(st.get(b"k", 0), Ok(Some(vec![1])));
}

#[test]
fn overlay_iteration_merges_pending_writes() {
    let mut st = MemoryStore::new();
    assert_eq!(st.put(b"a", 0, vec![1]), Ok(None));
    assert_eq!(st.put(b"c", 0, vec![3]), Ok(None));
    let mut v = MemoryTransactionView::new(st.snapshot());
    assert_eq!(v.put(b"b", 0, vec![2]), Ok(None));
    assert_eq!(v.delete(b"c", 0), Ok(Some(vec![3])));
    let got = v
        .iter_all(0, None, None, txkv::IterDirection::Forward)
        .unwrap();
    assert_eq!(
        got,
        vec![(b"a".to_vec(), vec![1]), (b"b".to_vec(), vec![2])]
    );
}

#[test]
fn overlay_batch_write_goes_into_the_buffer() {
    let mut st = MemoryStore::new();
    assert_eq!(st.put(b"gone", 0, vec![1]), Ok(None));
    let mut v = MemoryTransactionView::new(st.snapshot());
    let entries = vec![
        WriteOperation::Insert(b"new".to_vec(), 0, vec![2]),
        WriteOperation::Remove(b"gone".to_vec(), 0),
    ];
    assert_eq!(v.batch_write(&entries), Ok(()));
    assert_eq!(v.get(b"new", 0), Ok(Some(vec![2])));
    assert_eq!(v.get(b"gone", 0), Ok(None));
    assert_eq!(st.get(b"new", 0), Ok(None));
    assert_eq!(st.get(b"gone", 0), Ok(Some(vec![1])));
}
