//! The cache-aside orchestrator.
//!
//! A request is handled in two verified phases around the one operation
//! this crate cannot perform, the forward to the upstream service:
//! `begin_request` fingerprints the request, decides whether to capture
//! the body, and attempts the cache lookup; on a miss the embedding
//! program forwards the request and hands the forwarded response to
//! `finish_request`, which decides whether it is stored. Caching is
//! best-effort: a lookup error degrades to a miss, and a store failure
//! never touches the response already owed to the caller.

use crate::bytesutil::matches_prefix;
use crate::entry::CacheResponse;
use crate::fingerprint::fingerprint_of;
use crate::fingerprint::rq_hash_string;
use crate::store::DataCache;
use crate::store::now_seconds;
use crate::store::served_from_entry;
use vstd::prelude::*;
use vstd::string::StrSliceExecFns;

verus! {

/// How many leading body bytes the store filter inspects.
pub const MAGIC_LEN: usize = 12;

/// The status code of a storable upstream response.
pub const OK_STATUS: u16 = 200;

/// The request methods the orchestrator distinguishes.
#[derive(Clone, Copy, Debug, PartialEq, Eq, Structural)]
pub enum RequestMethod {
    Get,
    Post,
    /// Any method other than the two read-style ones.
    Other,
}

impl RequestMethod {
    /// Read-style methods, the only ones a cache lookup is attempted
    /// for; all others always bypass the cache.
    pub open spec fn spec_cacheable(self) -> bool {
        self is Get || self is Post
    }

    pub fn cacheable(&self) -> (r: bool)
        ensures
            r == self.spec_cacheable(),
    {
        match self {
            RequestMethod::Get => true,
            RequestMethod::Post => true,
            RequestMethod::Other => false,
        }
    }
}

/// Configured patterns as byte sequences.
pub open spec fn filters_view(fs: Seq<Option<Vec<u8>>>) -> Seq<Option<Seq<u8>>> {
    fs.map_values(
        |f: Option<Vec<u8>>|
            match f {
                Some(v) => Some(v@),
                None => None,
            },
    )
}

/// One configured pattern against a body: a wildcard always matches, a
/// byte pattern must equal the body's first `MAGIC_LEN` bytes exactly.
pub open spec fn pattern_matches(f: Option<Seq<u8>>, body: Seq<u8>) -> bool {
    match f {
        None => true,
        Some(p) => p == body.subrange(0, MAGIC_LEN as int),
    }
}

/// The body filter: an empty filter set passes everything; under a
/// non-empty set a body shorter than `MAGIC_LEN` bytes never passes,
/// and otherwise some configured pattern must match.
pub open spec fn passes_filter(filters: Seq<Option<Seq<u8>>>, body: Seq<u8>) -> bool {
    if filters.len() == 0 {
        true
    } else if body.len() < MAGIC_LEN {
        false
    } else {
        exists|i: int| 0 <= i < filters.len() && pattern_matches(#[trigger] filters[i], body)
    }
}

/// Configuration capability for the orchestrator, implemented by the
/// embedding program.
pub trait ProxyConfig {
    /// Address of the upstream service.
    fn get_proxy_address(&self) -> String;

    /// The value the request's Host header is rewritten to.
    fn get_host(&self) -> String {
        String::new()
    }

    /// Base path prepended when forwarding.
    fn get_base_path(&self) -> String {
        String::new()
    }

    /// Where raw request bodies are captured for debugging, if anywhere.
    fn get_rq_save_path(&self) -> Option<String> {
        None
    }

    /// Accepted body-prefix patterns; `None` is a wildcard.
    fn get_filter_include(&self) -> Vec<Option<String>> {
        Vec::new()
    }
}

/// The cache-aside orchestrator: one store handle and the forwarding
/// configuration, held for its whole lifetime.
pub struct CacheProxy {
    pub cache: DataCache,
    pub proxy_address: String,
    pub host: String,
    pub base_path: String,
    pub rq_save_path: Option<String>,
    pub filter_include: Vec<Option<Vec<u8>>>,
}

/// What `begin_request` decided.
pub struct RequestPlan {
    /// The request's fingerprint, the store key.
    pub hash: String,
    /// Whether the raw request body should be captured for debugging.
    pub capture_body: bool,
    /// The response served from the cache, when the lookup hit.
    pub cached: Option<CacheResponse>,
}

/// What `finish_request` decided about a forwarded response.
#[derive(Clone, Copy, Debug, PartialEq, Eq, Structural)]
pub enum StoreOutcome {
    /// The response was written to the cache.
    Stored,
    /// The engine refused the write; the response is unaffected.
    StoreFailed,
    /// The status was not the storable success code; nothing written.
    SkippedStatus,
    /// The body failed the prefix filter; nothing written.
    SkippedFilter,
}

impl CacheProxy {
    /// Builds the orchestrator from an opened store and the
    /// configuration capability. Configured string patterns take part
    /// in the filter as their bytes.
    pub fn new<T: ProxyConfig>(cache: DataCache, config: &T) -> (r: CacheProxy)
        ensures
            r.cache == cache,
    {
        let patterns = convert_patterns(config.get_filter_include());
        CacheProxy {
            cache,
            proxy_address: config.get_proxy_address(),
            host: config.get_host(),
            base_path: config.get_base_path(),
            rq_save_path: config.get_rq_save_path(),
            filter_include: patterns,
        }
    }

    /// Whether the raw request body is captured: only when a capture
    /// location is configured and the body is non-empty.
    pub fn should_capture_body(&self, body: &Vec<u8>) -> (r: bool)
        ensures
            r == (self.rq_save_path is Some && body@.len() > 0),
    {
        match &self.rq_save_path {
            Some(_) => body.len() > 0,
            None => false,
        }
    }

    /// Whether a storable response's body passes the configured filter.
    pub fn filter_body(&self, body: &Vec<u8>) -> (r: bool)
        ensures
            r == passes_filter(filters_view(self.filter_include@), body@),
    {
        let ghost fv = filters_view(self.filter_include@);
        if self.filter_include.len() == 0 {
            return true;
        }
        if body.len() < MAGIC_LEN {
            return false;
        }
        let mut i: usize = 0;
        while i < self.filter_include.len()
            invariant
                i <= self.filter_include@.len(),
                fv == filters_view(self.filter_include@),
                self.filter_include@.len() > 0,
                MAGIC_LEN <= body@.len(),
                forall|j: int| 0 <= j < i ==> !pattern_matches(#[trigger] fv[j], body@),
            decreases self.filter_include@.len() - i,
        {
            match &self.filter_include[i] {
                None => {
                    proof {
                        assert(fv[i as int] is None);
                        assert(pattern_matches(fv[i as int], body@));
                    }
                    return true;
                },
                Some(p) => {
                    if matches_prefix(p, body, MAGIC_LEN) {
                        proof {
                            assert(fv[i as int] == Some(p@));
                            assert(pattern_matches(fv[i as int], body@));
                        }
                        return true;
                    }
                    proof {
                        assert(fv[i as int] == Some(p@));
                    }
                },
            }
            i = i + 1;
        }
        proof {
            assert(forall|j: int| 0 <= j < fv.len() ==> !pattern_matches(#[trigger] fv[j], body@));
        }
        false
    }

    /// The first phase of a request: fingerprint it, decide whether to
    /// capture the body, and attempt the cache lookup at the injected
    /// time `now`. Lookup errors degrade to a miss: caching never fails
    /// a request. On a hit the embedding program returns the cached
    /// response without forwarding.
    pub fn begin_request_at(
        &self,
        path_and_query: &str,
        method: &RequestMethod,
        body: &Vec<u8>,
        now: i64,
    ) -> (r: RequestPlan)
        ensures
            r.hash@ == fingerprint_of(path_and_query@, body@),
            r.capture_body == (self.rq_save_path is Some && body@.len() > 0),
            !method.spec_cacheable() ==> r.cached is None,
            r.cached matches Some(resp) ==> method.spec_cacheable() && served_from_entry(
                resp@,
                now,
                self.cache.ttl,
            ),
    {
        let hash = rq_hash_string(path_and_query, body);
        let capture_body = self.should_capture_body(body);
        let cached = if method.cacheable() {
            match self.cache.get_at(hash.as_str(), now) {
                Ok(found) => found,
                Err(_) => None,
            }
        } else {
            None
        };
        RequestPlan { hash, capture_body, cached }
    }

    /// The first phase at the current clock time.
    pub fn begin_request(&self, path_and_query: &str, method: &RequestMethod, body: &Vec<u8>) -> (r:
        RequestPlan)
        ensures
            r.hash@ == fingerprint_of(path_and_query@, body@),
            r.capture_body == (self.rq_save_path is Some && body@.len() > 0),
            !method.spec_cacheable() ==> r.cached is None,
            r.cached matches Some(resp) ==> method.spec_cacheable() && exists|t: i64|
                #![auto]
                served_from_entry(resp@, t, self.cache.ttl),
    {
        let now = now_seconds();
        let r = self.begin_request_at(path_and_query, method, body, now);
        proof {
            if let Some(resp) = &r.cached {
                assert(served_from_entry(resp@, now, self.cache.ttl));
            }
        }
        r
    }

    /// The second phase of a request: decide whether the forwarded
    /// response is stored under `hash`, stamped with the injected time
    /// `now`. Only a response with the success status is a candidate;
    /// candidates must pass the body filter; and a store failure is
    /// reported in the outcome alone. The response itself is taken by
    /// shared reference: whatever the outcome, it reaches the caller
    /// unchanged.
    pub fn finish_request_at(&self, hash: &str, response: &CacheResponse, now: i64) -> (d:
        StoreOutcome)
        requires
            0 <= now,
        ensures
            (d == StoreOutcome::SkippedStatus) <==> response@.status != OK_STATUS,
            (d == StoreOutcome::SkippedFilter) <==> (response@.status == OK_STATUS
                && !passes_filter(filters_view(self.filter_include@), response@.body)),
            (d == StoreOutcome::Stored || d == StoreOutcome::StoreFailed) <==> (response@.status
                == OK_STATUS && passes_filter(filters_view(self.filter_include@), response@.body)),
    {
        if response.status != OK_STATUS {
            return StoreOutcome::SkippedStatus;
        }
        if !self.filter_body(&response.body) {
            return StoreOutcome::SkippedFilter;
        }
        match self.cache.insert_at(hash, response, now) {
            Ok(_) => StoreOutcome::Stored,
            Err(_) => StoreOutcome::StoreFailed,
        }
    }

    /// The second phase at the current clock time.
    pub fn finish_request(&self, hash: &str, response: &CacheResponse) -> (d: StoreOutcome)
        ensures
            (d == StoreOutcome::SkippedStatus) <==> response@.status != OK_STATUS,
            (d == StoreOutcome::SkippedFilter) <==> (response@.status == OK_STATUS
                && !passes_filter(filters_view(self.filter_include@), response@.body)),
            (d == StoreOutcome::Stored || d == StoreOutcome::StoreFailed) <==> (response@.status
                == OK_STATUS && passes_filter(filters_view(self.filter_include@), response@.body)),
    {
        let mut now = now_seconds();
        if now < 0 {
            now = 0;
        }
        self.finish_request_at(hash, response, now)
    }
}

/// Configured string patterns as byte patterns, wildcards kept.
pub fn convert_patterns(ps: Vec<Option<String>>) -> (r: Vec<Option<Vec<u8>>>)
    ensures
        r@.len() == ps@.len(),
        forall|i: int| 0 <= i < ps@.len() ==> ((#[trigger] r@[i]) is Some <==> ps@[i] is Some),
{
    let mut r: Vec<Option<Vec<u8>>> = Vec::new();
    let mut i: usize = 0;
    while i < ps.len()
        invariant
            i <= ps@.len(),
            r@.len() == i,
            forall|k: int| 0 <= k < i ==> ((#[trigger] r@[k]) is Some <==> ps@[k] is Some),
        decreases ps@.len() - i,
    {
        match &ps[i] {
            Some(s) => {
                let b = s.as_str().as_bytes_vec();
                r.push(Some(b));
            },
            None => {
                r.push(None);
            },
        }
        i = i + 1;
    }
    r
}

} // verus!
