use snapshot_backup::hash::HashValue;
use snapshot_backup::record::{copy_bytes, in_key_order, key_less, same_bytes, StateRecord};

fn record(key: &[u8]) -> StateRecord {
    StateRecord { key: key.to_vec(), value: vec![0xAA], proof: vec![] }
}

#[test]
fn key_order_is_lexicographic() {
    assert!(key_less(&vec![1], &vec![2]));
    assert!(!key_less(&vec![2], &vec![1]));
    assert!(key_less(&vec![1, 255], &vec![2, 0]));
    assert!(key_less(&vec![1, 2, 3], &vec![1, 2, 4]));
    assert!(!key_less(&vec![1, 2, 4], &vec![1, 2, 3]));
    assert!(key_less(&vec![0, 255, 255], &vec![1]));
}

#[test]
fn a_proper_prefix_comes_first() {
    assert!(key_less(&vec![], &vec![0]));
    assert!(key_less(&vec![1], &vec![1, 0]));
    assert!(!key_less(&vec![1, 0], &vec![1]));
    assert!(!key_less(&vec![0], &vec![]));
}

#[test]
fn no_key_is_below_itself() {
    assert!(!key_less(&vec![], &vec![]));
    assert!(!key_less(&vec![7, 7, 7], &vec![7, 7, 7]));
}

#[test]
fn key_order_is_total_and_transitive_on_samples() {
    let keys: Vec<Vec<u8>> = vec![
        vec![],
        vec![0],
        vec![0, 0],
        vec![0, 1],
        vec![1],
        vec![1, 0, 0],
        vec![1, 1],
        vec![255],
        vec![255, 255],
    ];
    for (i, a) in keys.iter().enumerate() {
        for (j, b) in keys.iter().enumerate() {
            assert_eq!(key_less(a, b), i < j);
            for c in keys.iter() {
                if key_less(a, b) && key_less(b, c) {
                    assert!(key_less(a, c));
                }
            }
        }
    }
}

#[test]
fn key_order_agrees_with_slice_order() {
    let mut seed = 0x1234_5678_9abc_def0u64;
    let mut keys: Vec<Vec<u8>> = Vec::new();
    for _ in 0..60 {
        seed ^= seed << 13;
        seed ^= seed >> 7;
        seed ^= seed << 17;
        let len = (seed % 4) as usize;
        keys.push(seed.to_le_bytes()[..len].to_vec());
    }
    for a in keys.iter() {
        for b in keys.iter() {
            assert_eq!(key_less(a, b), a < b);
        }
    }
}

#[test]
fn records_in_key_order() {
    assert!(in_key_order(&vec![]));
    assert!(in_key_order(&vec![record(&[5])]));
    assert!(in_key_order(&vec![record(&[1]), record(&[2]), record(&[2, 0]), record(&[3])]));
}

#[test]
fn records_out_of_key_order() {
    assert!(!in_key_order(&vec![record(&[2]), record(&[1])]));
    assert!(!in_key_order(&vec![record(&[1]), record(&[3]), record(&[2])]));
}

#[test]
fn a_key_twice_is_out_of_order() {
    assert!(!in_key_order(&vec![record(&[1]), record(&[1])]));
    assert!(!in_key_order(&vec![record(&[1]), record(&[2]), record(&[2])]));
}

#[test]
fn copies_and_comparisons_of_bytes() {
    let b = vec![1u8, 2, 3];
    assert_eq!(copy_bytes(&b), b);
    assert_eq!(copy_bytes(&vec![]), Vec::<u8>::new());
    assert!(same_bytes(&b, &vec![1, 2, 3]));
    assert!(!same_bytes(&b, &vec![1, 2]));
    assert!(!same_bytes(&b, &vec![1, 2, 4]));
    assert!(same_bytes(&vec![], &vec![]));
}

#[test]
fn a_record_is_duplicated_whole() {
    let r = StateRecord { key: vec![1, 2], value: vec![3, 4, 5], proof: vec![6] };
    assert_eq!(r.duplicate(), r);
}

#[test]
fn digests_compare_by_bytes() {
    let mut a = [0u8; 32];
    a[31] = 1;
    let x = HashValue::new(a);
    let y = HashValue::new(a);
    let z = HashValue::new([0u8; 32]);
    assert!(x.same(&y));
    assert!(!x.same(&z));
    assert_eq!(x, y);
    assert_ne!(x, z);
}

#[test]
fn digests_from_and_to_bytes() {
    let bytes: Vec<u8> = (0u8..32).collect();
    let h = HashValue::from_slice(&bytes).unwrap();
    assert_eq!(h.to_vec(), bytes);
    assert_eq!(h.bytes[5], 5);
    assert_eq!(HashValue::from_slice(&bytes[..31]), None);
    let mut long = bytes.clone();
    long.push(0);
    assert_eq!(HashValue::from_slice(&long), None);
    assert_eq!(HashValue::from_slice(&[]), None);
}
