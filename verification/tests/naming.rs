use snapshot_backup::naming::{make_chunk_identifier, make_manifest_identifier, put_decimal};

fn text(bytes: Vec<u8>) -> String {
    String::from_utf8(bytes).unwrap()
}

#[test]
fn decimal_digits() {
    for n in [0u64, 1, 9, 10, 11, 99, 100, 101, 12345, u64::MAX - 1, u64::MAX] {
        let mut out = vec![b'#'];
        put_decimal(&mut out, n);
        assert_eq!(text(out), format!("#{}", n));
    }
}

#[test]
fn chunk_identifiers() {
    assert_eq!(text(make_chunk_identifier(0, 0, 0)), "chunks/0/0/0");
    assert_eq!(text(make_chunk_identifier(17, 2, 340)), "chunks/17/2/340");
    assert_eq!(
        text(make_chunk_identifier(u64::MAX, u64::MAX, u64::MAX)),
        "chunks/18446744073709551615/18446744073709551615/18446744073709551615"
    );
}

#[test]
fn manifest_identifiers() {
    assert_eq!(text(make_manifest_identifier(0)), "manifests/0");
    assert_eq!(text(make_manifest_identifier(4711)), "manifests/4711");
    assert_eq!(text(make_manifest_identifier(u64::MAX)), "manifests/18446744073709551615");
}

#[test]
fn identifiers_of_one_attempt_differ() {
    let mut seen: Vec<Vec<u8>> = Vec::new();
    for index in 0..200u64 {
        let id = make_chunk_identifier(5, 1, index);
        assert!(!seen.contains(&id));
        seen.push(id);
    }
    assert!(!seen.contains(&make_manifest_identifier(5)));
}
