use txkv::IterDirection;
use txkv::KeyValueStore;
use txkv::MemoryStore;
use txkv::MultiKey;

#[test]
fn composite_key_is_exact_concatenation() {
    let k = MultiKey::new(&(b"left".to_vec(), b"right".to_vec()));
    assert_eq!(k.as_bytes(), b"leftright");
    assert_eq!(k.into_vec(), b"leftright".to_vec());
}

#[test]
fn composite_key_with_empty_parts() {
    let empty_first = MultiKey::new(&(Vec::new(), b"x".to_vec()));
    assert_eq!(empty_first.as_bytes(), b"x");
    let empty_second = MultiKey::new(&(b"x".to_vec(), Vec::new()));
    assert_eq!(empty_second.as_bytes(), b"x");
    let both_empty = MultiKey::new(&(Vec::new(), Vec::new()));
    assert_eq!(both_empty.as_bytes(), b"");
}

#[test]
fn composite_key_default_is_empty() {
    let k = MultiKey::default();
    assert_eq!(k.as_bytes(), b"");
}

#[test]
fn composite_key_orders_by_first_then_second_part() {
    // With a fixed-width first part, the encoded keys sort by
    // (first part, then second part).
    let mut st = MemoryStore::new();
    let keys = [
        (vec![2u8, 0], vec![1u8]),
        (vec![1u8, 9], vec![0u8]),
        (vec![1u8, 9], vec![2u8]),
        (vec![0u8, 5], vec![9u8]),
    ];
    for (k1, k2) in keys.iter() {
        let mk = MultiKey::new(&(k1.clone(), k2.clone()));
        assert_eq!(st.put(mk.as_bytes(), 0, vec![0]), Ok(None));
    }
    let got = st.iter_all(0, None, None, IterDirection::Forward).unwrap();
    let got_keys: Vec<Vec<u8>> = got.into_iter().map(|(k, _)| k).collect();
    assert_eq!(
        got_keys,
        vec![
            vec![0u8, 5, 9],
            vec![1u8, 9, 0],
            vec![1u8, 9, 2],
            vec![2u8, 0, 1],
        ]
    );
}

#[test]
fn prefix_scan_returns_exactly_one_first_part_block() {
    // Fixed-width first parts: scanning with prefix = bytes(k1) returns
    // exactly the composite keys whose first part is k1, contiguously.
    let mut st = MemoryStore::new();
    let entries = [
        (vec![1u8, 1], vec![0u8], vec![10u8]),
        (vec![1u8, 2], vec![0u8], vec![20u8]),
        (vec![1u8, 2], vec![7u8], vec![21u8]),
        (vec![1u8, 3], vec![0u8], vec![30u8]),
    ];
    for (k1, k2, v) in entries.iter() {
        let mk = MultiKey::new(&(k1.clone(), k2.clone()));
        assert_eq!(st.put(mk.as_bytes(), 0, v.clone()), Ok(None));
    }
    let got = st
        .iter_all(0, Some(vec![1u8, 2]), None, IterDirection::Forward)
        .unwrap();
    assert_eq!(
        got,
        vec![
            (vec![1u8, 2, 0], vec![20u8]),
            (vec![1u8, 2, 7], vec![21u8]),
        ]
    );
}
