//! The cache store: persisted response records behind an embedded
//! key-value engine, with freshness judged at read time.
//!
//! The engine is shared and internally synchronized; nothing is promised
//! about what a read returns under concurrent writes. What the store
//! guarantees is the read policy: whatever is served was a record that
//! decoded, was fresh at the read time, and had a non-empty body.

use crate::codec::decode_entry;
use crate::codec::encode_entry;
use crate::codec::lemma_decode_encode;
use crate::codec::spec_decode;
use crate::codec::spec_encode;
use crate::entry::CacheEntry;
use crate::entry::CacheResponse;
use crate::entry::EntryView;
use crate::entry::ResponseView;
use crate::entry::allowed_names;
use crate::entry::kept_headers_upto;
use crate::entry::reconstruct;
use crate::entry::server_header;
use vstd::prelude::*;

verus! {

/// Configuration capability for the store, implemented by the embedding
/// program.
pub trait CacheConfig {
    /// Filesystem location of the key-value engine.
    fn get_db_path(&self) -> String;

    /// Time-to-live of an entry, in seconds.
    fn get_ttl(&self) -> i64 {
        3600
    }
}

/// A cache-layer failure.
#[derive(Clone, Copy, Debug, PartialEq, Eq, Structural)]
pub enum CacheError {
    /// Stored bytes did not decode: the record is corrupt.
    CorruptEntry,
    /// The key-value engine failed.
    StorageFailed,
}

/// Declares sled::Db, the engine handle, as an opaque outside type.
#[verifier::external_type_specification]
#[verifier::external_body]
pub struct ExSledDb(sled::Db);

/// Declares sled::Error, the engine's error, as an opaque outside type.
#[verifier::external_type_specification]
#[verifier::external_body]
pub struct ExSledError(sled::Error);

/// Relies on sled::Config::open: opens (or creates) the storage tree at
/// `path` and returns a handle, or the engine's error.
#[verifier::external_body]
fn sled_open(path: &str) -> (r: Result<sled::Db, sled::Error>) {
    sled::Config::default().path(path).mode(sled::Mode::HighThroughput).flush_every_ms(
        Some(1000),
    ).open()
}

/// Relies on sled::Db::get: returns the value stored under `key`, if
/// any. The store is shared, so nothing is promised about the bytes.
#[verifier::external_body]
fn sled_get(db: &sled::Db, key: &str) -> (r: Result<Option<Vec<u8>>, sled::Error>) {
    match db.get(key) {
        Ok(Some(v)) => Ok(Some(v.to_vec())),
        Ok(None) => Ok(None),
        Err(e) => Err(e),
    }
}

/// Relies on sled::Db::insert: atomically stores `value` under `key`;
/// under same-key races the last write wins.
#[verifier::external_body]
fn sled_insert(db: &sled::Db, key: &str, value: Vec<u8>) -> (r: Result<(), sled::Error>) {
    match db.insert(key, value) {
        Ok(_) => Ok(()),
        Err(e) => Err(e),
    }
}

/// Relies on chrono::Utc::now: seconds since the epoch, from the system
/// clock; nothing is promised of the value.
#[verifier::external_body]
pub(crate) fn now_seconds() -> (r: i64) {
    chrono::Utc::now().timestamp()
}

/// An entry created at `created_at` is still fresh at `now`: its age
/// does not exceed the time-to-live. An entry exactly as old as the
/// time-to-live is still fresh.
pub open spec fn fresh_at(created_at: i64, now: i64, ttl: i64) -> bool {
    now - created_at <= ttl
}

/// What a lookup comes to.
pub enum LookupView {
    /// No fresh, non-empty entry: the caller must forward.
    Miss,
    /// A reconstructed response is served.
    Hit(ResponseView),
    /// Stored bytes did not decode.
    Corrupt,
}

/// The read policy over raw engine bytes: absent is a miss; bytes that
/// do not decode are corrupt; a stale or empty-bodied record is a miss;
/// otherwise the reconstructed response is served.
pub open spec fn spec_evaluate(raw: Option<Seq<u8>>, now: i64, ttl: i64) -> LookupView {
    match raw {
        None => LookupView::Miss,
        Some(b) => match spec_decode(b) {
            None => LookupView::Corrupt,
            Some(e) => if !fresh_at(e.created_at, now, ttl) {
                LookupView::Miss
            } else if e.body.len() == 0 {
                LookupView::Miss
            } else {
                LookupView::Hit(reconstruct(e))
            },
        },
    }
}

/// What the engine returned, as a byte sequence.
pub open spec fn opt_bytes_view(o: Option<Vec<u8>>) -> Option<Seq<u8>> {
    match o {
        Some(v) => Some(v@),
        None => None,
    }
}

/// A lookup result as what it comes to.
pub open spec fn lookup_view_of(r: Result<Option<CacheResponse>, CacheError>) -> LookupView {
    match r {
        Ok(None) => LookupView::Miss,
        Ok(Some(resp)) => LookupView::Hit(resp@),
        Err(_) => LookupView::Corrupt,
    }
}

/// Applies the read policy to what the engine returned for a key.
pub fn evaluate_lookup(raw: Option<Vec<u8>>, now: i64, ttl: i64) -> (r: Result<
    Option<CacheResponse>,
    CacheError,
>)
    ensures
        lookup_view_of(r) == spec_evaluate(opt_bytes_view(raw), now, ttl),
        r matches Err(e) ==> e == CacheError::CorruptEntry,
{
    match raw {
        None => Ok(None),
        Some(bytes) => match decode_entry(&bytes) {
            None => Err(CacheError::CorruptEntry),
            Some(e) => {
                if (now as i128) - (e.created_at as i128) > (ttl as i128) {
                    Ok(None)
                } else if e.body.len() == 0 {
                    Ok(None)
                } else {
                    Ok(Some(e.to_response()))
                }
            },
        },
    }
}

/// The response served on a hit is the reconstruction of some record
/// that was fresh at `now` and had a non-empty body.
pub open spec fn served_from_entry(rv: ResponseView, now: i64, ttl: i64) -> bool {
    exists|e: EntryView|
        #![auto]
        fresh_at(e.created_at, now, ttl) && e.body.len() > 0 && rv == reconstruct(e)
}

/// The response cache: an engine handle and the configured time-to-live.
pub struct DataCache {
    pub db: sled::Db,
    pub ttl: i64,
}

impl DataCache {
    /// Opens the configured storage location.
    pub fn new<T: CacheConfig>(config: &T) -> (r: Result<DataCache, CacheError>)
        ensures
            r matches Err(e) ==> e == CacheError::StorageFailed,
    {
        let path = config.get_db_path();
        let ttl = config.get_ttl();
        match sled_open(path.as_str()) {
            Ok(db) => Ok(DataCache { db, ttl }),
            Err(_) => Err(CacheError::StorageFailed),
        }
    }

    /// Looks up `hash`, judging freshness at the injected time `now`.
    /// An absent, stale or empty-bodied record is a miss, not an error;
    /// bytes that do not decode are a `CorruptEntry` error; an engine
    /// read failure is a `StorageFailed` error.
    pub fn get_at(&self, hash: &str, now: i64) -> (r: Result<Option<CacheResponse>, CacheError>)
        ensures
            r matches Ok(Some(resp)) ==> served_from_entry(resp@, now, self.ttl),
    {
        match sled_get(&self.db, hash) {
            Ok(raw) => {
                let ghost rawv = opt_bytes_view(raw);
                let r = evaluate_lookup(raw, now, self.ttl);
                proof {
                    if let Ok(opt0) = &r {
                        if let Some(resp) = opt0 {
                            match rawv {
                                Some(bytes) => {
                                    match spec_decode(bytes) {
                                        Some(e) => {
                                            assert(fresh_at(e.created_at, now, self.ttl)
                                                && e.body.len() > 0 && resp@ == reconstruct(e));
                                        },
                                        None => {},
                                    }
                                },
                                None => {},
                            }
                        }
                    }
                }
                r
            },
            Err(_) => Err(CacheError::StorageFailed),
        }
    }

    /// Looks up `hash` at the current clock time.
    pub fn get(&self, hash: &str) -> (r: Result<Option<CacheResponse>, CacheError>)
        ensures
            r matches Ok(Some(resp)) ==> exists|t: i64|
                #![auto]
                served_from_entry(resp@, t, self.ttl),
    {
        let now = now_seconds();
        let r = self.get_at(hash, now);
        proof {
            if let Ok(opt0) = &r {
                if let Some(resp) = opt0 {
                    assert(served_from_entry(resp@, now, self.ttl));
                }
            }
        }
        r
    }

    /// Serializes `response` stamped with the injected time `now` and
    /// writes it under `hash`; a full replacement, never partial. Only
    /// the engine can refuse; its failure is `StorageFailed`.
    pub fn insert_at(&self, hash: &str, response: &CacheResponse, now: i64) -> (r: Result<
        (),
        CacheError,
    >)
        requires
            0 <= now,
        ensures
            r matches Err(e) ==> e == CacheError::StorageFailed,
    {
        let entry = CacheEntry::from_response(response, now);
        let bytes = encode_entry(&entry);
        match sled_insert(&self.db, hash, bytes) {
            Ok(_) => Ok(()),
            Err(_) => Err(CacheError::StorageFailed),
        }
    }

    /// Stores `response` under `hash`, stamped with the current clock
    /// time.
    pub fn insert(&self, hash: &str, response: &CacheResponse) -> (r: Result<(), CacheError>)
        ensures
            r matches Err(e) ==> e == CacheError::StorageFailed,
    {
        let mut now = now_seconds();
        if now < 0 {
            now = 0;
        }
        self.insert_at(hash, response, now)
    }
}

/// The record `insert_at` persists for a response at time `now`.
pub open spec fn stored_record(rv: ResponseView, now: i64) -> EntryView {
    EntryView { status: rv.status, headers: rv.headers, body: rv.body, created_at: now }
}

/// Round trip: a record read back within its time-to-live is served
/// with the original status, the allow-listed headers behind the
/// server-identity header, and the body byte-identical.
#[verifier::rlimit(100)]
pub proof fn lemma_insert_then_get_hits(e: EntryView, now: i64, ttl: i64)
    requires
        e.wf(),
        e.body.len() > 0,
        fresh_at(e.created_at, now, ttl),
    ensures
        spec_evaluate(Some(spec_encode(e)), now, ttl) == LookupView::Hit(reconstruct(e)),
        reconstruct(e).status == e.status,
        reconstruct(e).body == e.body,
        reconstruct(e).headers == seq![server_header()] + kept_headers_upto(
            e.headers,
            allowed_names().len() as int,
        ),
{
    lemma_decode_encode(e);
}

/// Round trip over a response: the record stored for a non-empty
/// response at time `now` and read back at any time within the
/// time-to-live is served with the original status, the allow-listed
/// headers behind the server-identity header, and the body
/// byte-identical.
pub proof fn lemma_response_round_trip(rv: ResponseView, now: i64, read_at: i64, ttl: i64)
    requires
        rv.wf(),
        0 <= now,
        rv.body.len() > 0,
        read_at - now <= ttl,
    ensures
        spec_evaluate(Some(spec_encode(stored_record(rv, now))), read_at, ttl)
            == LookupView::Hit(reconstruct(stored_record(rv, now))),
        reconstruct(stored_record(rv, now)).status == rv.status,
        reconstruct(stored_record(rv, now)).body == rv.body,
        reconstruct(stored_record(rv, now)).headers == seq![server_header()] + kept_headers_upto(
            rv.headers,
            allowed_names().len() as int,
        ),
{
    lemma_insert_then_get_hits(stored_record(rv, now), read_at, ttl);
}

/// Time-to-live boundary: a record whose age exceeds the time-to-live
/// is a miss; one within it (and non-empty) is a hit.
#[verifier::rlimit(100)]
pub proof fn lemma_ttl_boundary(e: EntryView, now: i64, ttl: i64)
    requires
        e.wf(),
    ensures
        now - e.created_at > ttl ==> spec_evaluate(Some(spec_encode(e)), now, ttl)
            == LookupView::Miss,
        now - e.created_at <= ttl && e.body.len() > 0 ==> spec_evaluate(
            Some(spec_encode(e)),
            now,
            ttl,
        ) == LookupView::Hit(reconstruct(e)),
{
    lemma_decode_encode(e);
}

/// An empty-bodied record is never served, however fresh.
#[verifier::rlimit(100)]
pub proof fn lemma_empty_body_is_miss(e: EntryView, now: i64, ttl: i64)
    requires
        e.wf(),
        e.body.len() == 0,
    ensures
        spec_evaluate(Some(spec_encode(e)), now, ttl) == LookupView::Miss,
{
    lemma_decode_encode(e);
}

} // verus!
