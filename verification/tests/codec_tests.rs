use cacheproxy::codec::decode_entry;
use cacheproxy::codec::encode_entry;
use cacheproxy::entry::CacheEntry;

fn sample_entry() -> CacheEntry {
    CacheEntry {
        status: 200,
        headers: vec![
            (b"content-type".to_vec(), b"application/json".to_vec()),
            (b"x-private".to_vec(), b"secret".to_vec()),
        ],
        body: b"hello world".to_vec(),
        created_at: 1_700_000_000,
    }
}

#[test]
fn encode_decode_round_trip() {
    let e = sample_entry();
    let bytes = encode_entry(&e);
    let d = decode_entry(&bytes).expect("a fresh encoding must decode");
    assert_eq!(d.status, 200);
    assert_eq!(d.created_at, 1_700_000_000);
    assert_eq!(d.body, b"hello world".to_vec());
    assert_eq!(d.headers.len(), 2);
    assert_eq!(d.headers[0].0, b"content-type".to_vec());
    assert_eq!(d.headers[0].1, b"application/json".to_vec());
    assert_eq!(d.headers[1].0, b"x-private".to_vec());
    assert_eq!(d.headers[1].1, b"secret".to_vec());
}

#[test]
fn encode_decode_round_trip_empty() {
    let e = CacheEntry { status: 404, headers: Vec::new(), body: Vec::new(), created_at: 0 };
    let bytes = encode_entry(&e);
    let d = decode_entry(&bytes).expect("a fresh encoding must decode");
    assert_eq!(d.status, 404);
    assert_eq!(d.created_at, 0);
    assert!(d.body.is_empty());
    assert!(d.headers.is_empty());
}

#[test]
fn decode_rejects_garbage() {
    assert!(decode_entry(&b"not an encoded record".to_vec()).is_none());
    assert!(decode_entry(&Vec::new()).is_none());
    assert!(decode_entry(&vec![0u8; 23]).is_none());
}

#[test]
fn decode_rejects_truncated_encoding() {
    let e = sample_entry();
    let mut bytes = encode_entry(&e);
    bytes.pop();
    assert!(decode_entry(&bytes).is_none());
}

#[test]
fn decode_rejects_trailing_bytes() {
    let e = sample_entry();
    let mut bytes = encode_entry(&e);
    bytes.push(0);
    assert!(decode_entry(&bytes).is_none());
}
