use logindex::codec::{bytes_to_u32, bytes_to_u64, u32_to_bytes, u64_to_bytes};
use logindex::vector::{check_artifacts_present, reset_needed, IndexError, VectorIndex};

/// Order-preserving map from a float distance to an integer key: for any
/// two finite floats `a <= b`, `key(a) <= key(b)`.
fn distance_key(d: f32) -> u64 {
    let b = d.to_bits();
    if d.is_sign_negative() {
        (!b) as u64
    } else {
        (b | 0x8000_0000) as u64
    }
}

fn bits(v: &[f32]) -> Vec<u32> {
    v.iter().map(|x| x.to_bits()).collect()
}

fn dot(a: &[f32], b: &[f32]) -> f32 {
    a.iter().zip(b.iter()).map(|(x, y)| x * y).sum()
}

fn keys_for(index: &VectorIndex, query: &[f32]) -> Vec<u64> {
    let dims = index.dimensions();
    let comps: Vec<f32> = index.vectors().iter().map(|b| f32::from_bits(*b)).collect();
    let mut keys = Vec::new();
    for i in 0..index.len() {
        let stored = &comps[i * dims..(i + 1) * dims];
        keys.push(distance_key(1.0 - dot(query, stored)));
    }
    keys
}

#[test]
fn dedup_idempotence() {
    let mut ix = VectorIndex::new(4);
    let e = bits(&[1.0, 0.0, 0.0, 0.0]);
    assert!(ix.add(7, &e).is_ok());
    assert!(ix.contains(7));
    assert_eq!(ix.len(), 1);
    assert!(ix.add(7, &e).is_ok());
    assert!(ix.contains(7));
    assert_eq!(ix.len(), 1);
    assert_eq!(ix.vectors().len(), 4);
}

#[test]
fn dimension_guard_add() {
    let mut ix = VectorIndex::new(4);
    assert!(ix.add(1, &bits(&[0.0, 1.0, 0.0, 0.0])).is_ok());
    let wrong = bits(&[1.0, 0.0, 0.0]);
    let r = ix.add(2, &wrong);
    assert_eq!(r, Err(IndexError::DimensionMismatch { expected: 4, got: 3 }));
    assert_eq!(ix.len(), 1);
    assert!(!ix.contains(2));
    assert_eq!(ix.vectors().len(), 4);
}

#[test]
fn dimension_guard_search() {
    let mut ix = VectorIndex::new(4);
    assert!(ix.add(1, &bits(&[0.0, 1.0, 0.0, 0.0])).is_ok());
    let keys = vec![0u64];
    let r = ix.search(3, &keys, 1);
    assert_eq!(r, Err(IndexError::DimensionMismatch { expected: 4, got: 3 }));
}

#[test]
fn search_empty_index() {
    let ix = VectorIndex::new(4);
    let r = ix.search(4, &Vec::new(), 5).unwrap();
    assert!(r.is_empty());
}

#[test]
fn round_trip_artifacts() {
    let mut ix = VectorIndex::new(2);
    assert!(ix.add(10, &bits(&[1.0, 0.0])).is_ok());
    assert!(ix.add(20, &bits(&[0.0, 1.0])).is_ok());
    assert!(ix.add(30, &bits(&[0.6, 0.8])).is_ok());
    let ids = ix.ids_bytes();
    let vecs = ix.vectors_bytes();
    let reopened = VectorIndex::from_artifacts(2, &ids, &vecs).unwrap();
    assert_eq!(reopened.doc_ids(), ix.doc_ids());
    assert_eq!(reopened.vectors(), ix.vectors());
    assert_eq!(reopened.dimensions(), 2);
    assert!(reopened.contains(20));
    assert!(!reopened.contains(40));
}

#[test]
fn knn_exactness() {
    let mut ix = VectorIndex::new(4);
    let stored = [
        (1u64, [1.0f32, 0.0, 0.0, 0.0]),
        (2, [0.0, 1.0, 0.0, 0.0]),
        (3, [0.0, 0.0, 1.0, 0.0]),
        (4, [0.0, 0.0, 0.0, 1.0]),
        (5, [0.6, 0.8, 0.0, 0.0]),
    ];
    for (id, v) in stored.iter() {
        assert!(ix.add(*id, &bits(v)).is_ok());
    }
    let query = [1.0f32, 0.0, 0.0, 0.0];
    let keys = keys_for(&ix, &query);
    for limit in 1..=5usize {
        let r = ix.search(4, &keys, limit).unwrap();
        assert_eq!(r.len(), limit);
        for w in r.windows(2) {
            assert!(w[0].1 <= w[1].1);
        }
        let max_kept = r.last().unwrap().1;
        let kept: Vec<u64> = r.iter().map(|p| p.0).collect();
        for (i, (id, _)) in stored.iter().enumerate() {
            if !kept.contains(id) {
                assert!(keys[i] >= max_kept);
            }
        }
    }
    let r = ix.search(4, &keys, 2).unwrap();
    assert_eq!(r[0].0, 1);
    assert_eq!(r[1].0, 5);
}

#[test]
fn nearest_single_result_scenario() {
    let mut ix = VectorIndex::new(4);
    assert!(ix.add(1, &bits(&[0.0, 1.0, 0.0, 0.0])).is_ok());
    assert!(ix.add(2, &bits(&[1.0, 0.0, 0.0, 0.0])).is_ok());
    assert!(ix.add(3, &bits(&[0.0, 0.0, 1.0, 0.0])).is_ok());
    let query = [1.0f32, 0.0, 0.0, 0.0];
    let keys = keys_for(&ix, &query);
    let r = ix.search(4, &keys, 1).unwrap();
    assert_eq!(r.len(), 1);
    assert_eq!(r[0].0, 2);
    assert_eq!(r[0].1, distance_key(0.0));
}

#[test]
fn dimension_change_reset_decision() {
    assert!(reset_needed(Some(3), 4));
    assert!(!reset_needed(Some(4), 4));
    assert!(!reset_needed(None, 4));
    let fresh = VectorIndex::new(4);
    assert_eq!(fresh.len(), 0);
    assert_eq!(fresh.dimensions(), 4);
    assert!(fresh.ids_bytes().is_empty());
    assert!(fresh.vectors_bytes().is_empty());
}

#[test]
fn corrupt_pair_detected() {
    let ids = u64_to_bytes(&vec![1u64]);
    let vecs: Vec<u8> = Vec::new();
    let r = VectorIndex::from_artifacts(4, &ids, &vecs);
    assert!(matches!(r, Err(IndexError::IndexCorrupt)));
}

#[test]
fn strict_open_requires_all_artifacts() {
    assert!(check_artifacts_present(true, true, true).is_ok());
    assert_eq!(
        check_artifacts_present(true, false, true),
        Err(IndexError::IndexNotFound)
    );
    assert_eq!(
        check_artifacts_present(false, true, true),
        Err(IndexError::IndexNotFound)
    );
    assert_eq!(
        check_artifacts_present(true, true, false),
        Err(IndexError::IndexNotFound)
    );
}

#[test]
fn u64_codec_little_endian() {
    let vals = vec![0x0102030405060708u64, 0xffffffffffffffffu64, 0u64];
    let b = u64_to_bytes(&vals);
    assert_eq!(b.len(), 24);
    assert_eq!(&b[0..8], &[8, 7, 6, 5, 4, 3, 2, 1]);
    assert_eq!(&b[8..16], &[255; 8]);
    assert_eq!(bytes_to_u64(&b), vals);
}

#[test]
fn u32_codec_little_endian() {
    let vals = vec![0x01020304u32, 1.5f32.to_bits()];
    let b = u32_to_bytes(&vals);
    assert_eq!(b.len(), 8);
    assert_eq!(&b[0..4], &[4, 3, 2, 1]);
    assert_eq!(bytes_to_u32(&b), vals);
    assert_eq!(f32::from_bits(bytes_to_u32(&b)[1]), 1.5f32);
}

#[test]
fn codec_ignores_trailing_partial_chunk() {
    let mut b = u64_to_bytes(&vec![42u64]);
    b.push(9);
    b.push(9);
    assert_eq!(bytes_to_u64(&b), vec![42u64]);
}
