//! The persisted cache record and the response rebuilt from it.
//!
//! Header names and values are byte strings, as the serving layer hands
//! them over (names in lower case). A record is immutable once written;
//! freshness is judged at read time from `created_at`.

use crate::bytesutil::bytes_eq;
use crate::bytesutil::clone_bytes;
use vstd::prelude::*;
use vstd::string::StrSliceExecFns;
use vstd::string::StringSliceAdditionalSpecFns;

verus! {

/// A response header: name and value.
pub type HeaderPair = (Vec<u8>, Vec<u8>);

/// A persisted cache record: the outcome of one upstream response.
pub struct CacheEntry {
    /// Numeric outcome code of the original response.
    pub status: u16,
    /// Header mapping; a name may occur more than once, the last
    /// occurrence wins on lookup.
    pub headers: Vec<HeaderPair>,
    /// Raw body bytes; may be empty.
    pub body: Vec<u8>,
    /// Seconds since the epoch at insertion time; never mutated.
    pub created_at: i64,
}

/// Mathematical model of a `CacheEntry`.
pub struct EntryView {
    pub status: u16,
    pub headers: Seq<(Seq<u8>, Seq<u8>)>,
    pub body: Seq<u8>,
    pub created_at: i64,
}

/// A response handed back to the serving layer.
pub struct CacheResponse {
    pub status: u16,
    pub headers: Vec<HeaderPair>,
    pub body: Vec<u8>,
}

/// Mathematical model of a `CacheResponse`.
pub struct ResponseView {
    pub status: u16,
    pub headers: Seq<(Seq<u8>, Seq<u8>)>,
    pub body: Seq<u8>,
}

/// A header list as sequences of bytes.
pub open spec fn headers_view(h: Seq<HeaderPair>) -> Seq<(Seq<u8>, Seq<u8>)> {
    h.map_values(|p: HeaderPair| (p.0@, p.1@))
}

impl View for CacheEntry {
    type V = EntryView;

    open spec fn view(&self) -> EntryView {
        EntryView {
            status: self.status,
            headers: headers_view(self.headers@),
            body: self.body@,
            created_at: self.created_at,
        }
    }
}

impl View for CacheResponse {
    type V = ResponseView;

    open spec fn view(&self) -> ResponseView {
        ResponseView {
            status: self.status,
            headers: headers_view(self.headers@),
            body: self.body@,
        }
    }
}

impl EntryView {
    /// Well-formedness: the timestamp is non-negative and every length
    /// fits the on-disk 64-bit length fields.
    pub open spec fn wf(self) -> bool {
        &&& 0 <= self.created_at
        &&& self.headers.len() <= u64::MAX
        &&& forall|i: int|
            0 <= i < self.headers.len() ==> (#[trigger] self.headers[i]).0.len() <= u64::MAX
                && self.headers[i].1.len() <= u64::MAX
        &&& self.body.len() <= u64::MAX
    }
}

impl ResponseView {
    /// Well-formedness: every length fits the on-disk 64-bit length
    /// fields. Every `CacheResponse` satisfies it; see
    /// `lemma_response_wf`.
    pub open spec fn wf(self) -> bool {
        &&& self.headers.len() <= u64::MAX
        &&& forall|i: int|
            0 <= i < self.headers.len() ==> (#[trigger] self.headers[i]).0.len() <= u64::MAX
                && self.headers[i].1.len() <= u64::MAX
        &&& self.body.len() <= u64::MAX
    }
}

/// Every `CacheEntry` built from vectors is well formed, given a
/// non-negative timestamp: vector lengths fit the 64-bit length fields.
pub proof fn lemma_entry_wf(e: CacheEntry)
    requires
        0 <= e.created_at,
    ensures
        e@.wf(),
{
    assert forall|i: int| 0 <= i < e@.headers.len() implies (#[trigger] e@.headers[i]).0.len()
        <= u64::MAX && e@.headers[i].1.len() <= u64::MAX by {
        assert(e@.headers[i] == (e.headers@[i].0@, e.headers@[i].1@));
        assert(e.headers@[i].0.len() == e.headers@[i].0@.len());
        assert(e.headers@[i].1.len() == e.headers@[i].1@.len());
    }
    assert(e.body.len() == e.body@.len());
    assert(e.headers.len() == e.headers@.len());
}

/// Every `CacheResponse` built from vectors is well formed: vector
/// lengths fit the 64-bit length fields, so the laws' well-formedness
/// premises exclude no real value.
pub proof fn lemma_response_wf(r: CacheResponse)
    ensures
        r@.wf(),
{
    assert forall|i: int| 0 <= i < r@.headers.len() implies (#[trigger] r@.headers[i]).0.len()
        <= u64::MAX && r@.headers[i].1.len() <= u64::MAX by {
        assert(r@.headers[i] == (r.headers@[i].0@, r.headers@[i].1@));
        assert(r.headers@[i].0.len() == r.headers@[i].0@.len());
        assert(r.headers@[i].1.len() == r.headers@[i].1@.len());
    }
    assert(r.body.len() == r.body@.len());
    assert(r.headers.len() == r.headers@.len());
}

/// The stored value for a header name: the last occurrence wins.
pub open spec fn header_lookup(h: Seq<(Seq<u8>, Seq<u8>)>, name: Seq<u8>) -> Option<Seq<u8>>
    decreases h.len(),
{
    if h.len() == 0 {
        None
    } else if h.last().0 == name {
        Some(h.last().1)
    } else {
        header_lookup(h.drop_last(), name)
    }
}

/// Finds the value stored under `name`, latest occurrence first.
pub fn find_header(headers: &Vec<HeaderPair>, name: &Vec<u8>) -> (r: Option<Vec<u8>>)
    ensures
        match r {
            Some(v) => header_lookup(headers_view(headers@), name@) == Some(v@),
            None => header_lookup(headers_view(headers@), name@) is None,
        },
{
    let ghost hv = headers_view(headers@);
    let mut i: usize = headers.len();
    proof {
        assert(hv.take(i as int) =~= hv);
    }
    while i > 0
        invariant
            i <= headers@.len(),
            hv == headers_view(headers@),
            header_lookup(hv, name@) == header_lookup(hv.take(i as int), name@),
        decreases i,
    {
        i = i - 1;
        if bytes_eq(&headers[i].0, name) {
            proof {
                assert(hv.take(i as int + 1).last() == hv[i as int]);
                assert(hv[i as int].0 == name@);
            }
            let v = clone_bytes(&headers[i].1);
            proof {
                assert(header_lookup(hv.take(i as int + 1), name@) == Some(hv[i as int].1));
            }
            return Some(v);
        }
        proof {
            assert(hv.take(i as int + 1).last() == hv[i as int]);
            assert(hv.take(i as int + 1).drop_last() =~= hv.take(i as int));
        }
    }
    proof {
        assert(hv.take(0).len() == 0);
    }
    None
}

/// The fixed allow-list: the header names a cache hit carries over.
pub open spec fn allowed_names() -> Seq<Seq<u8>> {
    seq![
        "access-control-allow-headers".spec_bytes(),
        "access-control-allow-origin".spec_bytes(),
        "access-control-allow-methods".spec_bytes(),
        "content-type".spec_bytes(),
        "strict-transport-security".spec_bytes(),
        "content-security-policy".spec_bytes(),
        "referrer-policy".spec_bytes(),
        "x-xss-protection".spec_bytes(),
        "x-content-type-options".spec_bytes(),
    ]
}

/// The allow-list as vectors, in the order of `allowed_names`.
pub fn allowed_header_names() -> (r: Vec<Vec<u8>>)
    ensures
        r.deep_view() == allowed_names(),
{
    let mut r: Vec<Vec<u8>> = Vec::new();
    r.push("access-control-allow-headers".as_bytes_vec());
    r.push("access-control-allow-origin".as_bytes_vec());
    r.push("access-control-allow-methods".as_bytes_vec());
    r.push("content-type".as_bytes_vec());
    r.push("strict-transport-security".as_bytes_vec());
    r.push("content-security-policy".as_bytes_vec());
    r.push("referrer-policy".as_bytes_vec());
    r.push("x-xss-protection".as_bytes_vec());
    r.push("x-content-type-options".as_bytes_vec());
    proof {
        assert(r.deep_view() =~~= allowed_names());
    }
    r
}

/// The synthetic server-identity header attached to every cache hit.
pub open spec fn server_header() -> (Seq<u8>, Seq<u8>) {
    ("server".spec_bytes(), "cacheproxy/0.1".spec_bytes())
}

/// The allow-listed headers of `h`, restricted to the first `n` names of
/// the allow-list, in allow-list order.
pub open spec fn kept_headers_upto(h: Seq<(Seq<u8>, Seq<u8>)>, n: int) -> Seq<(Seq<u8>, Seq<u8>)>
    decreases n,
{
    if n <= 0 {
        Seq::empty()
    } else {
        let prefix = kept_headers_upto(h, n - 1);
        match header_lookup(h, allowed_names()[n - 1]) {
            Some(v) => prefix.push((allowed_names()[n - 1], v)),
            None => prefix,
        }
    }
}

/// The response a fresh, non-empty entry is served as: original status,
/// the server-identity header, the allow-listed stored headers, and the
/// body verbatim.
pub open spec fn reconstruct(e: EntryView) -> ResponseView {
    ResponseView {
        status: e.status,
        headers: seq![server_header()] + kept_headers_upto(e.headers, allowed_names().len() as int),
        body: e.body,
    }
}

impl CacheEntry {
    /// Rebuilds the response served on a cache hit.
    pub fn to_response(&self) -> (r: CacheResponse)
        ensures
            r@ == reconstruct(self@),
    {
        let ghost hs = headers_view(self.headers@);
        let mut headers: Vec<HeaderPair> = Vec::new();
        headers.push(("server".as_bytes_vec(), "cacheproxy/0.1".as_bytes_vec()));
        proof {
            assert(headers_view(headers@) =~= seq![server_header()]);
        }
        let names = allowed_header_names();
        proof {
            assert(names@.len() == allowed_names().len());
        }
        let mut i: usize = 0;
        while i < names.len()
            invariant
                i <= names@.len(),
                names.deep_view() == allowed_names(),
                names@.len() == allowed_names().len(),
                hs == headers_view(self.headers@),
                headers@.len() == 1 + kept_headers_upto(hs, i as int).len(),
                headers_view(headers@) == seq![server_header()] + kept_headers_upto(hs, i as int),
            decreases names@.len() - i,
        {
            proof {
                assert(names@[i as int]@ == allowed_names()[i as int]);
            }
            match find_header(&self.headers, &names[i]) {
                Some(v) => {
                    let name = clone_bytes(&names[i]);
                    let ghost before = headers@;
                    headers.push((name, v));
                    proof {
                        let target = seq![server_header()] + kept_headers_upto(hs, i as int + 1);
                        assert(kept_headers_upto(hs, i as int + 1) == kept_headers_upto(
                            hs,
                            i as int,
                        ).push((allowed_names()[i as int], v@)));
                        assert forall|k: int|
                            0 <= k < headers@.len() implies headers_view(headers@)[k]
                            == target[k] by {
                            if k < before.len() {
                                assert(headers@[k] == before[k]);
                                assert(headers_view(before)[k] == (before[k].0@, before[k].1@));
                                assert(headers_view(before)[k] == (seq![server_header()]
                                    + kept_headers_upto(hs, i as int))[k]);
                            } else {
                                assert(headers@[k] == (name, v));
                            }
                        }
                        assert(headers_view(headers@) =~= target);
                    }
                },
                None => {
                    proof {
                        assert(kept_headers_upto(hs, i as int + 1) == kept_headers_upto(
                            hs,
                            i as int,
                        ));
                    }
                },
            }
            i = i + 1;
        }
        let r = CacheResponse { status: self.status, headers, body: clone_bytes(&self.body) };
        proof {
            assert(r@ =~~= reconstruct(self@));
        }
        r
    }

    /// Builds the record persisted for a forwarded response, stamped with
    /// the insertion time.
    pub fn from_response(response: &CacheResponse, now: i64) -> (r: CacheEntry)
        ensures
            r@.status == response@.status,
            r@.headers == response@.headers,
            r@.body == response@.body,
            r@.created_at == now,
    {
        let headers = clone_headers(&response.headers);
        CacheEntry {
            status: response.status,
            headers,
            body: clone_bytes(&response.body),
            created_at: now,
        }
    }
}

/// Copies a header list, preserving order and contents.
pub fn clone_headers(headers: &Vec<HeaderPair>) -> (r: Vec<HeaderPair>)
    ensures
        headers_view(r@) == headers_view(headers@),
{
    let mut r: Vec<HeaderPair> = Vec::new();
    let mut i: usize = 0;
    while i < headers.len()
        invariant
            i <= headers@.len(),
            r@.len() == i,
            forall|k: int|
                0 <= k < i ==> (#[trigger] r@[k]).0@ == headers@[k].0@ && r@[k].1@
                    == headers@[k].1@,
        decreases headers@.len() - i,
    {
        let name = clone_bytes(&headers[i].0);
        let value = clone_bytes(&headers[i].1);
        r.push((name, value));
        i = i + 1;
    }
    proof {
        assert forall|k: int|
            0 <= k < headers@.len() implies headers_view(r@)[k] == headers_view(headers@)[k] by {
            assert(r@[k].0@ == headers@[k].0@);
        }
        assert(headers_view(r@) =~= headers_view(headers@));
    }
    r
}

} // verus!
