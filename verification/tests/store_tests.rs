use cacheproxy::entry::CacheEntry;
use cacheproxy::entry::CacheResponse;
use cacheproxy::store::CacheConfig;
use cacheproxy::store::CacheError;
use cacheproxy::store::DataCache;
use cacheproxy::store::evaluate_lookup;

fn unique_path(name: &str) -> String {
    let nanos = std::time::SystemTime::now()
        .duration_since(std::time::UNIX_EPOCH)
        .expect("the clock is past the epoch")
        .as_nanos();
    format!("/tmp/cacheproxy_test_{}_{}", name, nanos)
}

struct TestCfg {
    path: String,
    ttl: i64,
}

impl CacheConfig for TestCfg {
    fn get_db_path(&self) -> String {
        self.path.clone()
    }

    fn get_ttl(&self) -> i64 {
        self.ttl
    }
}

fn open_cache(name: &str, ttl: i64) -> DataCache {
    let cfg = TestCfg { path: unique_path(name), ttl };
    DataCache::new(&cfg).expect("opening the store must succeed")
}

fn sample_response() -> CacheResponse {
    CacheResponse {
        status: 200,
        headers: vec![
            (b"content-type".to_vec(), b"text/plain".to_vec()),
            (b"access-control-allow-origin".to_vec(), b"*".to_vec()),
            (b"x-private".to_vec(), b"secret".to_vec()),
        ],
        body: b"cached payload".to_vec(),
    }
}

fn header_value(resp: &CacheResponse, name: &[u8]) -> Option<Vec<u8>> {
    resp.headers.iter().rev().find(|p| p.0 == name).map(|p| p.1.clone())
}

#[test]
fn insert_then_get_round_trip() {
    let cache = open_cache("round_trip", 3600);
    let resp = sample_response();
    cache.insert_at("key_round_trip", &resp, 1000).expect("insert must succeed");
    let got = cache
        .get_at("key_round_trip", 1000)
        .expect("read must succeed")
        .expect("a fresh entry must hit");
    assert_eq!(got.status, 200);
    assert_eq!(got.body, b"cached payload".to_vec());
    // the synthetic server-identity header comes first
    assert_eq!(got.headers[0].0, b"server".to_vec());
    assert_eq!(got.headers[0].1, b"cacheproxy/0.1".to_vec());
    // allow-listed headers survive the round trip
    assert_eq!(header_value(&got, b"content-type"), Some(b"text/plain".to_vec()));
    assert_eq!(header_value(&got, b"access-control-allow-origin"), Some(b"*".to_vec()));
    // a header outside the allow-list is dropped
    assert_eq!(header_value(&got, b"x-private"), None);
}

#[test]
fn ttl_boundary_exact() {
    let cache = open_cache("ttl_boundary", 3600);
    let resp = sample_response();
    cache.insert_at("key_ttl", &resp, 1000).expect("insert must succeed");
    // age == ttl: still a hit
    let hit = cache.get_at("key_ttl", 1000 + 3600).expect("read must succeed");
    assert!(hit.is_some());
    // age == ttl + 1: a miss
    let miss = cache.get_at("key_ttl", 1000 + 3601).expect("read must succeed");
    assert!(miss.is_none());
}

#[test]
fn absent_key_is_a_miss() {
    let cache = open_cache("absent", 3600);
    let r = cache.get_at("key_never_inserted", 1000).expect("read must succeed");
    assert!(r.is_none());
}

#[test]
fn empty_body_is_never_served() {
    let cache = open_cache("empty_body", 3600);
    let resp = CacheResponse {
        status: 200,
        headers: vec![(b"content-type".to_vec(), b"text/plain".to_vec())],
        body: Vec::new(),
    };
    cache.insert_at("key_empty", &resp, 1000).expect("insert must succeed");
    let r = cache.get_at("key_empty", 1000).expect("read must succeed");
    assert!(r.is_none());
}

#[test]
fn corrupt_bytes_are_an_error() {
    let cache = open_cache("corrupt", 3600);
    // write bytes that are no valid record, straight through the engine
    cache.db.insert("key_corrupt", b"garbage".to_vec()).expect("raw insert must succeed");
    let r = cache.get_at("key_corrupt", 1000);
    assert!(matches!(r, Err(CacheError::CorruptEntry)));
}

#[test]
fn same_key_last_write_wins() {
    let cache = open_cache("last_write", 3600);
    let first = CacheResponse { status: 200, headers: Vec::new(), body: b"first value".to_vec() };
    let second = CacheResponse { status: 200, headers: Vec::new(), body: b"second value".to_vec() };
    cache.insert_at("key_race", &first, 1000).expect("insert must succeed");
    cache.insert_at("key_race", &second, 1001).expect("insert must succeed");
    let got = cache
        .get_at("key_race", 1001)
        .expect("read must succeed")
        .expect("a fresh entry must hit");
    assert_eq!(got.body, b"second value".to_vec());
}

#[test]
fn clock_based_insert_and_get() {
    let cache = open_cache("clock", 3600);
    let resp = sample_response();
    cache.insert("key_clock", &resp).expect("insert must succeed");
    let got = cache
        .get("key_clock")
        .expect("read must succeed")
        .expect("an entry inserted a moment ago must hit");
    assert_eq!(got.body, b"cached payload".to_vec());
}

#[test]
fn evaluate_lookup_absent_is_miss() {
    assert!(matches!(evaluate_lookup(None, 1000, 3600), Ok(None)));
}

#[test]
fn evaluate_lookup_garbage_is_corrupt() {
    let r = evaluate_lookup(Some(b"junk".to_vec()), 1000, 3600);
    assert!(matches!(r, Err(CacheError::CorruptEntry)));
}

#[test]
fn to_response_keeps_allow_list_order() {
    let e = CacheEntry {
        status: 201,
        headers: vec![
            (b"x-content-type-options".to_vec(), b"nosniff".to_vec()),
            (b"content-type".to_vec(), b"text/html".to_vec()),
            (b"cookie".to_vec(), b"dropped".to_vec()),
        ],
        body: b"page".to_vec(),
        created_at: 5,
    };
    let r = e.to_response();
    assert_eq!(r.status, 201);
    assert_eq!(r.body, b"page".to_vec());
    let names: Vec<Vec<u8>> = r.headers.iter().map(|p| p.0.clone()).collect();
    assert_eq!(
        names,
        vec![
            b"server".to_vec(),
            b"content-type".to_vec(),
            b"x-content-type-options".to_vec(),
        ]
    );
}

#[test]
fn header_lookup_last_occurrence_wins() {
    let e = CacheEntry {
        status: 200,
        headers: vec![
            (b"content-type".to_vec(), b"text/plain".to_vec()),
            (b"content-type".to_vec(), b"application/json".to_vec()),
        ],
        body: b"x".to_vec(),
        created_at: 5,
    };
    let r = e.to_response();
    assert_eq!(r.headers.len(), 2);
    assert_eq!(r.headers[1].0, b"content-type".to_vec());
    assert_eq!(r.headers[1].1, b"application/json".to_vec());
}
