use cacheproxy::fingerprint::rq_hash_string;

#[test]
fn fingerprint_is_deterministic() {
    let body = b"some request body".to_vec();
    let a = rq_hash_string("/api/data?x=1", &body);
    let b = rq_hash_string("/api/data?x=1", &body);
    assert_eq!(a, b);
}

#[test]
fn fingerprint_has_fixed_length() {
    let a = rq_hash_string("/", &Vec::new());
    assert_eq!(a.len(), 64);
    let b = rq_hash_string("/long/path/with?query=string", &b"payload".to_vec());
    assert_eq!(b.len(), 64);
}

#[test]
fn fingerprint_differs_on_path() {
    let body = b"same body".to_vec();
    let a = rq_hash_string("/api/one", &body);
    let b = rq_hash_string("/api/two", &body);
    assert_ne!(a, b);
}

#[test]
fn fingerprint_differs_on_body() {
    let a = rq_hash_string("/api/data", &b"body one".to_vec());
    let b = rq_hash_string("/api/data", &b"body two".to_vec());
    assert_ne!(a, b);
}

#[test]
fn fingerprint_empty_body_is_valid() {
    let a = rq_hash_string("/api/data", &Vec::new());
    let b = rq_hash_string("/api/other", &Vec::new());
    assert_eq!(a.len(), 64);
    assert_ne!(a, b);
}
