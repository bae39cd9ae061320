use snippet_stage::content::{bytes_equal, digest, normalize, strip_trailing_blanks, ContentStore, StoreError};

#[test]
fn digest_known_values() {
    assert_eq!(digest(&Vec::new()), 0xcbf29ce484222325);
    assert_eq!(digest(&b"a".to_vec()), 0xaf63dc4c8601ec8c);
    assert_eq!(digest(&b"foobar".to_vec()), 0x85944171f73967e8);
}

#[test]
fn normalize_drops_carriage_returns_and_trailing_blanks() {
    let src = b"fn main() {\r\n    x();\r\n}\r\n\r\n  \t".to_vec();
    assert_eq!(normalize(&src), b"fn main() {\n    x();\n}".to_vec());
    assert_eq!(normalize(&Vec::new()), Vec::<u8>::new());
    assert_eq!(normalize(&b" \n\t".to_vec()), Vec::<u8>::new());
}

#[test]
fn normalize_keeps_inner_blanks() {
    let src = b"a  b\n\nc".to_vec();
    assert_eq!(normalize(&src), src);
}

#[test]
fn strip_trailing_blanks_cuts_only_the_end() {
    let mut v = b" x y \n".to_vec();
    strip_trailing_blanks(&mut v);
    assert_eq!(v, b" x y".to_vec());
}

#[test]
fn bytes_equal_compares_contents() {
    assert!(bytes_equal(&b"abc".to_vec(), &b"abc".to_vec()));
    assert!(!bytes_equal(&b"abc".to_vec(), &b"abd".to_vec()));
    assert!(!bytes_equal(&b"abc".to_vec(), &b"ab".to_vec()));
    assert!(bytes_equal(&Vec::new(), &Vec::new()));
}

#[test]
fn store_twice_returns_same_hash() {
    let mut s = ContentStore::new();
    let b = b"fn main() {}".to_vec();
    let h1 = s.store(&b).unwrap();
    assert_eq!(h1, digest(&b));
    let h2 = s.store(&b).unwrap();
    assert_eq!(h1, h2);
    assert_eq!(s.len(), 1);
}

#[test]
fn store_distinct_bodies() {
    let mut s = ContentStore::new();
    let h1 = s.store(&b"one".to_vec()).unwrap();
    let h2 = s.store(&b"two".to_vec()).unwrap();
    assert_ne!(h1, h2);
    assert_eq!(s.len(), 2);
    assert_eq!(s.fetch(h1), Some(b"one".to_vec()));
    assert_eq!(s.fetch(h2), Some(b"two".to_vec()));
}

#[test]
fn fetch_unknown_hash() {
    let s = ContentStore::new();
    assert_eq!(s.fetch(42), None);
}

#[test]
fn store_error_carries_hash() {
    let e = StoreError::HashCollision { hash: 9 };
    assert_eq!(e, StoreError::HashCollision { hash: 9 });
}

#[test]
fn normalize_twice_changes_nothing() {
    for src in [b"a\r\nb \r\n\r\n".to_vec(), b"\r\r \n".to_vec(), b"x\ry".to_vec(), Vec::new()] {
        let once = normalize(&src);
        assert_eq!(normalize(&once), once);
    }
    assert_eq!(normalize(&b"x\ry".to_vec()), b"xy".to_vec());
}
