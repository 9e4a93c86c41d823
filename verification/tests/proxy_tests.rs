use cacheproxy::entry::CacheResponse;
use cacheproxy::proxy::CacheProxy;
use cacheproxy::proxy::ProxyConfig;
use cacheproxy::proxy::RequestMethod;
use cacheproxy::proxy::StoreOutcome;
use cacheproxy::store::CacheConfig;
use cacheproxy::store::DataCache;

fn unique_path(name: &str) -> String {
    let nanos = std::time::SystemTime::now()
        .duration_since(std::time::UNIX_EPOCH)
        .expect("the clock is past the epoch")
        .as_nanos();
    format!("/tmp/cacheproxy_test_{}_{}", name, nanos)
}

struct TestCfg {
    path: String,
    filters: Vec<Option<String>>,
}

impl CacheConfig for TestCfg {
    fn get_db_path(&self) -> String {
        self.path.clone()
    }
}

impl ProxyConfig for TestCfg {
    fn get_proxy_address(&self) -> String {
        "http://upstream.example".to_string()
    }

    fn get_host(&self) -> String {
        "front.example".to_string()
    }

    fn get_filter_include(&self) -> Vec<Option<String>> {
        self.filters.clone()
    }
}

fn open_proxy(name: &str, filters: Vec<Option<String>>) -> CacheProxy {
    let cfg = TestCfg { path: unique_path(name), filters };
    let cache = DataCache::new(&cfg).expect("opening the store must succeed");
    CacheProxy::new(cache, &cfg)
}

fn ok_response(body: &[u8]) -> CacheResponse {
    CacheResponse {
        status: 200,
        headers: vec![(b"content-type".to_vec(), b"text/plain".to_vec())],
        body: body.to_vec(),
    }
}

#[test]
fn magic_prefix_is_stored() {
    let proxy = open_proxy("magic", vec![Some("MAGIC_ABCDEF".to_string())]);
    let resp = ok_response(b"MAGIC_ABCDEF and the rest of the payload");
    let d = proxy.finish_request_at("key_magic", &resp, 1000);
    assert_eq!(d, StoreOutcome::Stored);
    let plan = proxy.begin_request_at("/p", &RequestMethod::Get, &Vec::new(), 1000);
    // the plan's own hash differs from "key_magic"; look up directly
    let got = proxy
        .cache
        .get_at("key_magic", 1000)
        .expect("read must succeed")
        .expect("a stored response must hit");
    assert_eq!(got.body, resp.body);
    assert_eq!(plan.hash.len(), 64);
}

#[test]
fn other_prefix_is_not_stored() {
    let proxy = open_proxy("other_prefix", vec![Some("MAGIC_ABCDEF".to_string())]);
    let resp = ok_response(b"OTHER_PREFIX and the rest of the payload");
    let d = proxy.finish_request_at("key_other", &resp, 1000);
    assert_eq!(d, StoreOutcome::SkippedFilter);
    let r = proxy.cache.get_at("key_other", 1000).expect("read must succeed");
    assert!(r.is_none());
    // the response itself is untouched
    assert_eq!(resp.status, 200);
    assert_eq!(resp.body, b"OTHER_PREFIX and the rest of the payload".to_vec());
}

#[test]
fn short_body_is_not_stored_under_filter() {
    let proxy = open_proxy("short_body", vec![Some("MAGIC_ABCDEF".to_string())]);
    let resp = ok_response(b"MAGIC");
    let d = proxy.finish_request_at("key_short", &resp, 1000);
    assert_eq!(d, StoreOutcome::SkippedFilter);
    assert!(proxy.cache.get_at("key_short", 1000).expect("read must succeed").is_none());
}

#[test]
fn wildcard_pattern_matches_long_bodies() {
    let proxy = open_proxy("wildcard", vec![None]);
    let long = ok_response(b"whatever prefix this body has");
    assert_eq!(proxy.finish_request_at("key_wild_long", &long, 1000), StoreOutcome::Stored);
    // even a wildcard does not pass a body shorter than the inspected prefix
    let short = ok_response(b"tiny");
    assert_eq!(proxy.finish_request_at("key_wild_short", &short, 1000), StoreOutcome::SkippedFilter);
}

#[test]
fn empty_filter_set_passes_everything() {
    let proxy = open_proxy("no_filter", Vec::new());
    let resp = ok_response(b"x");
    assert_eq!(proxy.finish_request_at("key_any", &resp, 1000), StoreOutcome::Stored);
}

#[test]
fn non_ok_status_is_never_stored() {
    let proxy = open_proxy("non_ok", Vec::new());
    let resp = CacheResponse { status: 404, headers: Vec::new(), body: b"not found page".to_vec() };
    let d = proxy.finish_request_at("key_404", &resp, 1000);
    assert_eq!(d, StoreOutcome::SkippedStatus);
    // a later request with the same fingerprint still misses
    let r = proxy.cache.get_at("key_404", 1000).expect("read must succeed");
    assert!(r.is_none());
    // the response is returned as-is
    assert_eq!(resp.status, 404);
    assert_eq!(resp.body, b"not found page".to_vec());
}

#[test]
fn store_outcome_leaves_response_unchanged() {
    let proxy = open_proxy("unchanged", Vec::new());
    let resp = ok_response(b"the body handed back to the caller");
    let status_before = resp.status;
    let headers_before = resp.headers.clone();
    let body_before = resp.body.clone();
    let _ = proxy.finish_request_at("key_unchanged", &resp, 1000);
    assert_eq!(resp.status, status_before);
    assert_eq!(resp.headers, headers_before);
    assert_eq!(resp.body, body_before);
}

#[test]
fn begin_request_hits_after_store() {
    let proxy = open_proxy("hit", Vec::new());
    let body = b"request body".to_vec();
    let plan = proxy.begin_request_at("/api/data?x=1", &RequestMethod::Get, &body, 1000);
    assert!(plan.cached.is_none());
    let upstream = ok_response(b"upstream answer");
    assert_eq!(proxy.finish_request_at(&plan.hash, &upstream, 1000), StoreOutcome::Stored);
    let plan2 = proxy.begin_request_at("/api/data?x=1", &RequestMethod::Get, &body, 1000);
    assert_eq!(plan2.hash, plan.hash);
    let hit = plan2.cached.expect("the stored response must hit");
    assert_eq!(hit.status, 200);
    assert_eq!(hit.body, b"upstream answer".to_vec());
}

#[test]
fn non_cacheable_method_bypasses_lookup() {
    let proxy = open_proxy("bypass", Vec::new());
    let body = b"request body".to_vec();
    let plan = proxy.begin_request_at("/api/data", &RequestMethod::Get, &body, 1000);
    let upstream = ok_response(b"upstream answer");
    assert_eq!(proxy.finish_request_at(&plan.hash, &upstream, 1000), StoreOutcome::Stored);
    // same request, non-read-style method: the cache is bypassed
    let plan2 = proxy.begin_request_at("/api/data", &RequestMethod::Other, &body, 1000);
    assert_eq!(plan2.hash, plan.hash);
    assert!(plan2.cached.is_none());
    // a read-style method still hits
    let plan3 = proxy.begin_request_at("/api/data", &RequestMethod::Post, &body, 1000);
    assert!(plan3.cached.is_some());
}

#[test]
fn capture_decision_follows_config_and_body() {
    let mut proxy = open_proxy("capture", Vec::new());
    assert!(!proxy.should_capture_body(&b"data".to_vec()));
    proxy.rq_save_path = Some("/tmp/cacheproxy_test_capture_dir".to_string());
    assert!(proxy.should_capture_body(&b"data".to_vec()));
    assert!(!proxy.should_capture_body(&Vec::new()));
    let plan = proxy.begin_request_at("/p", &RequestMethod::Get, &b"data".to_vec(), 1000);
    assert!(plan.capture_body);
    let plan2 = proxy.begin_request_at("/p", &RequestMethod::Get, &Vec::new(), 1000);
    assert!(!plan2.capture_body);
}

#[test]
fn clock_based_begin_and_finish() {
    let proxy = open_proxy("clock_phases", Vec::new());
    let body = b"request body".to_vec();
    let plan = proxy.begin_request("/api/live", &RequestMethod::Get, &body);
    assert_eq!(plan.hash.len(), 64);
    assert!(plan.cached.is_none());
    let upstream = ok_response(b"live answer");
    assert_eq!(proxy.finish_request(&plan.hash, &upstream), StoreOutcome::Stored);
    let plan2 = proxy.begin_request("/api/live", &RequestMethod::Get, &body);
    let hit = plan2.cached.expect("an entry stored a moment ago must hit");
    assert_eq!(hit.body, b"live answer".to_vec());
}

#[test]
fn expired_entry_misses_through_begin_request() {
    let proxy = open_proxy("expired", Vec::new());
    let body = b"request body".to_vec();
    let plan = proxy.begin_request_at("/api/slow", &RequestMethod::Get, &body, 1000);
    let upstream = ok_response(b"upstream answer");
    assert_eq!(proxy.finish_request_at(&plan.hash, &upstream, 1000), StoreOutcome::Stored);
    // default time-to-live is 3600 seconds
    let within = proxy.begin_request_at("/api/slow", &RequestMethod::Get, &body, 1000 + 3600);
    assert!(within.cached.is_some());
    let beyond = proxy.begin_request_at("/api/slow", &RequestMethod::Get, &body, 1000 + 3601);
    assert!(beyond.cached.is_none());
}
