//! Binary layout of the persisted record.
//!
//! A record is laid out as fixed 64-bit little-endian fields: status,
//! creation time, header count, then each header as length-prefixed name
//! and value bytes, then the length-prefixed body. The layout is internal
//! to this crate; decoding accepts exactly the encodings.

use crate::bytesutil::copy_range;
use crate::bytesutil::lemma_u64_le_round_trip;
use crate::bytesutil::push_bytes;
use crate::bytesutil::push_u64_le;
use crate::bytesutil::read_u64_le;
use crate::bytesutil::u64_from_le;
use crate::bytesutil::u64_le_bytes;
use crate::entry::CacheEntry;
use crate::entry::EntryView;
use crate::entry::HeaderPair;
use crate::entry::headers_view;
use vstd::prelude::*;

verus! {

/// One encoded header: length-prefixed name, length-prefixed value.
pub open spec fn spec_encode_header(p: (Seq<u8>, Seq<u8>)) -> Seq<u8> {
    u64_le_bytes(p.0.len() as u64) + p.0 + u64_le_bytes(p.1.len() as u64) + p.1
}

/// The concatenated encodings of a header list.
pub open spec fn spec_encode_headers(hs: Seq<(Seq<u8>, Seq<u8>)>) -> Seq<u8>
    decreases hs.len(),
{
    if hs.len() == 0 {
        Seq::empty()
    } else {
        spec_encode_header(hs[0]) + spec_encode_headers(hs.drop_first())
    }
}

/// The full encoding of a record.
pub open spec fn spec_encode(e: EntryView) -> Seq<u8> {
    u64_le_bytes(e.status as u64) + u64_le_bytes(e.created_at as u64) + u64_le_bytes(
        e.headers.len() as u64,
    ) + spec_encode_headers(e.headers) + u64_le_bytes(e.body.len() as u64) + e.body
}

/// Parses `n` encoded headers of `b` starting at `i`; yields the headers
/// and the offset of the first byte after them.
pub open spec fn parse_headers(b: Seq<u8>, i: int, n: int) -> Option<(Seq<(Seq<u8>, Seq<u8>)>, int)>
    decreases n,
{
    if n <= 0 {
        Some((Seq::empty(), i))
    } else if i + 8 > b.len() {
        None
    } else {
        let nlen = u64_from_le(b.subrange(i, i + 8)) as int;
        if i + 8 + nlen + 8 > b.len() {
            None
        } else {
            let name = b.subrange(i + 8, i + 8 + nlen);
            let vlen = u64_from_le(b.subrange(i + 8 + nlen, i + 16 + nlen)) as int;
            if i + 16 + nlen + vlen > b.len() {
                None
            } else {
                let value = b.subrange(i + 16 + nlen, i + 16 + nlen + vlen);
                match parse_headers(b, i + 16 + nlen + vlen, n - 1) {
                    Some(rest) => Some((seq![(name, value)] + rest.0, rest.1)),
                    None => None,
                }
            }
        }
    }
}

/// The record encoded in `b`, if `b` is exactly one valid encoding.
pub open spec fn spec_decode(b: Seq<u8>) -> Option<EntryView> {
    if b.len() < 24 {
        None
    } else {
        let status = u64_from_le(b.subrange(0, 8));
        let created = u64_from_le(b.subrange(8, 16));
        let hcount = u64_from_le(b.subrange(16, 24));
        if status > u16::MAX as u64 || created > i64::MAX as u64 {
            None
        } else {
            match parse_headers(b, 24, hcount as int) {
                Some(hs) => {
                    if hs.1 + 8 > b.len() {
                        None
                    } else {
                        let blen = u64_from_le(b.subrange(hs.1, hs.1 + 8)) as int;
                        if hs.1 + 8 + blen != b.len() {
                            None
                        } else {
                            Some(
                                EntryView {
                                    status: status as u16,
                                    headers: hs.0,
                                    body: b.subrange(hs.1 + 8, b.len() as int),
                                    created_at: created as i64,
                                },
                            )
                        }
                    }
                },
                None => None,
            }
        }
    }
}

/// Encoding distributes over concatenation of header lists.
proof fn lemma_encode_headers_concat(s1: Seq<(Seq<u8>, Seq<u8>)>, s2: Seq<(Seq<u8>, Seq<u8>)>)
    ensures
        spec_encode_headers(s1 + s2) == spec_encode_headers(s1) + spec_encode_headers(s2),
    decreases s1.len(),
{
    if s1.len() == 0 {
        assert(s1 + s2 =~= s2);
        assert(spec_encode_headers(s1) + spec_encode_headers(s2) =~= spec_encode_headers(s2));
    } else {
        assert((s1 + s2).len() > 0);
        assert((s1 + s2)[0] == s1[0]);
        assert((s1 + s2).drop_first() =~= s1.drop_first() + s2);
        lemma_encode_headers_concat(s1.drop_first(), s2);
        assert(spec_encode_header(s1[0]) + (spec_encode_headers(s1.drop_first())
            + spec_encode_headers(s2)) =~= (spec_encode_header(s1[0]) + spec_encode_headers(
            s1.drop_first(),
        )) + spec_encode_headers(s2));
    }
}

/// Appending one header appends its encoding.
proof fn lemma_encode_headers_snoc(hs: Seq<(Seq<u8>, Seq<u8>)>, i: int)
    requires
        0 <= i < hs.len(),
    ensures
        spec_encode_headers(hs.take(i + 1)) == spec_encode_headers(hs.take(i))
            + spec_encode_header(hs[i]),
{
    let single = seq![hs[i]];
    assert(hs.take(i + 1) =~= hs.take(i) + single);
    lemma_encode_headers_concat(hs.take(i), single);
    assert(single.drop_first() =~= Seq::<(Seq<u8>, Seq<u8>)>::empty());
    assert(spec_encode_headers(Seq::<(Seq<u8>, Seq<u8>)>::empty()) == Seq::<u8>::empty());
    assert(single.len() == 1);
    assert(single[0] == hs[i]);
    assert(spec_encode_headers(single) == spec_encode_header(hs[i]) + spec_encode_headers(
        single.drop_first(),
    ));
    assert(spec_encode_header(hs[i]) + Seq::<u8>::empty() =~= spec_encode_header(hs[i]));
}

/// A window of an embedded slice equals the matching window of the slice.
proof fn lemma_sub_embedded(b: Seq<u8>, i: int, s: Seq<u8>, lo: int, hi: int)
    requires
        0 <= i,
        i + s.len() <= b.len(),
        b.subrange(i, i + s.len() as int) == s,
        0 <= lo <= hi <= s.len(),
    ensures
        b.subrange(i + lo, i + hi) == s.subrange(lo, hi),
{
    assert forall|k: int| 0 <= k < hi - lo implies b.subrange(i + lo, i + hi)[k] == s.subrange(
        lo,
        hi,
    )[k] by {
        assert(b.subrange(i, i + s.len() as int)[lo + k] == b[i + lo + k]);
    }
    assert(b.subrange(i + lo, i + hi) =~= s.subrange(lo, hi));
}

/// Parsing finds an encoded header list embedded at offset `i`.
#[verifier::rlimit(100)]
proof fn lemma_parse_encoded_headers(b: Seq<u8>, i: int, hs: Seq<(Seq<u8>, Seq<u8>)>)
    requires
        0 <= i,
        forall|k: int|
            0 <= k < hs.len() ==> (#[trigger] hs[k]).0.len() <= u64::MAX && hs[k].1.len()
                <= u64::MAX,
        i + spec_encode_headers(hs).len() <= b.len(),
        b.subrange(i, i + spec_encode_headers(hs).len() as int) == spec_encode_headers(hs),
    ensures
        parse_headers(b, i, hs.len() as int) == Some(
            (hs, i + spec_encode_headers(hs).len() as int),
        ),
    decreases hs.len(),
{
    if hs.len() == 0 {
        assert(hs =~= Seq::<(Seq<u8>, Seq<u8>)>::empty());
    } else {
        let h0 = hs[0];
        let nl = h0.0.len() as u64;
        let vl = h0.1.len() as u64;
        let enc0 = spec_encode_header(h0);
        let rest_enc = spec_encode_headers(hs.drop_first());
        let enc = spec_encode_headers(hs);
        assert(enc == enc0 + rest_enc);
        assert(enc0.len() == 16 + h0.0.len() + h0.1.len());

        // the four pieces of the first encoded header
        assert(enc0.subrange(0, 8) =~= u64_le_bytes(nl));
        assert(enc0.subrange(8, 8 + h0.0.len() as int) =~= h0.0);
        assert(enc0.subrange(8 + h0.0.len() as int, 16 + h0.0.len() as int) =~= u64_le_bytes(vl));
        assert(enc0.subrange(16 + h0.0.len() as int, enc0.len() as int) =~= h0.1);

        // enc0 is embedded at i
        lemma_sub_embedded(b, i, enc, 0, enc0.len() as int);
        assert(enc.subrange(0, enc0.len() as int) =~= enc0);
        assert(b.subrange(i, i + enc0.len() as int) == enc0);

        lemma_sub_embedded(b, i, enc0, 0, 8);
        lemma_u64_le_round_trip(nl);
        assert(u64_from_le(b.subrange(i, i + 8)) == nl);
        let nlen = h0.0.len() as int;
        assert(nl as int == nlen);

        lemma_sub_embedded(b, i, enc0, 8, 8 + nlen);
        assert(b.subrange(i + 8, i + 8 + nlen) == h0.0);

        lemma_sub_embedded(b, i, enc0, 8 + nlen, 16 + nlen);
        lemma_u64_le_round_trip(vl);
        assert(u64_from_le(b.subrange(i + 8 + nlen, i + 16 + nlen)) == vl);
        let vlen = h0.1.len() as int;
        assert(vl as int == vlen);

        lemma_sub_embedded(b, i, enc0, 16 + nlen, enc0.len() as int);
        assert(b.subrange(i + 16 + nlen, i + 16 + nlen + vlen) == h0.1);

        // the rest is embedded after enc0
        lemma_sub_embedded(b, i, enc, enc0.len() as int, enc.len() as int);
        assert(enc.subrange(enc0.len() as int, enc.len() as int) =~= rest_enc);
        let i2 = i + 16 + nlen + vlen;
        assert(i2 == i + enc0.len());
        assert(b.subrange(i2, i2 + rest_enc.len() as int) == rest_enc);
        assert forall|k: int| 0 <= k < hs.drop_first().len() implies (#[trigger] hs.drop_first()[
            k
        ]).0.len() <= u64::MAX && hs.drop_first()[k].1.len() <= u64::MAX by {
            assert(hs.drop_first()[k] == hs[k + 1]);
        }
        lemma_parse_encoded_headers(b, i2, hs.drop_first());
        assert(parse_headers(b, i2, hs.drop_first().len() as int) == Some(
            (hs.drop_first(), i2 + rest_enc.len() as int),
        ));
        assert(hs.drop_first().len() as int == hs.len() as int - 1);
        assert(seq![(h0.0, h0.1)] + hs.drop_first() =~= hs);
        assert(parse_headers(b, i, hs.len() as int) == Some(
            (hs, i + spec_encode_headers(hs).len() as int),
        ));
    }
}

/// Decoding inverts encoding: every well-formed record is recovered
/// exactly from its own encoding.
#[verifier::rlimit(100)]
pub proof fn lemma_decode_encode(e: EntryView)
    requires
        e.wf(),
    ensures
        spec_decode(spec_encode(e)) == Some(e),
{
    let enc = spec_encode(e);
    let status64 = e.status as u64;
    let created64 = e.created_at as u64;
    let hcount64 = e.headers.len() as u64;
    let henc = spec_encode_headers(e.headers);
    let blen64 = e.body.len() as u64;
    assert(enc.len() == 24 + henc.len() + 8 + e.body.len());

    assert(enc.subrange(0, enc.len() as int) =~= enc);

    assert(enc.subrange(0, 8) =~= u64_le_bytes(status64));
    lemma_u64_le_round_trip(status64);
    assert(u64_from_le(enc.subrange(0, 8)) == status64);
    assert(status64 <= u16::MAX as u64);
    assert(status64 as u16 == e.status);

    assert(enc.subrange(8, 16) =~= u64_le_bytes(created64));
    lemma_u64_le_round_trip(created64);
    assert(u64_from_le(enc.subrange(8, 16)) == created64);
    assert(created64 <= i64::MAX as u64);
    assert(created64 as i64 == e.created_at);

    assert(enc.subrange(16, 24) =~= u64_le_bytes(hcount64));
    lemma_u64_le_round_trip(hcount64);
    assert(u64_from_le(enc.subrange(16, 24)) == hcount64);
    assert(hcount64 as int == e.headers.len() as int);

    assert(enc.subrange(24, 24 + henc.len() as int) =~= henc);
    lemma_parse_encoded_headers(enc, 24, e.headers);
    let j = 24 + henc.len() as int;
    assert(parse_headers(enc, 24, e.headers.len() as int) == Some((e.headers, j)));

    assert(enc.subrange(j, j + 8) =~= u64_le_bytes(blen64));
    lemma_u64_le_round_trip(blen64);
    assert(u64_from_le(enc.subrange(j, j + 8)) == blen64);
    assert(blen64 as int == e.body.len() as int);
    assert(j + 8 + e.body.len() == enc.len());

    assert(enc.subrange(j + 8, enc.len() as int) =~= e.body);

    assert(spec_decode(enc) == Some(e));
}

/// Serializes a record.
pub fn encode_entry(e: &CacheEntry) -> (r: Vec<u8>)
    requires
        0 <= e.created_at,
    ensures
        r@ == spec_encode(e@),
{
    let ghost hs = headers_view(e.headers@);
    let mut out: Vec<u8> = Vec::new();
    push_u64_le(&mut out, e.status as u64);
    push_u64_le(&mut out, e.created_at as u64);
    push_u64_le(&mut out, e.headers.len() as u64);
    let ghost prefix = out@;
    let mut i: usize = 0;
    while i < e.headers.len()
        invariant
            i <= e.headers@.len(),
            hs == headers_view(e.headers@),
            prefix.len() == 24,
            out@ == prefix + spec_encode_headers(hs.take(i as int)),
        decreases e.headers@.len() - i,
    {
        push_u64_le(&mut out, e.headers[i].0.len() as u64);
        push_bytes(&mut out, &e.headers[i].0);
        push_u64_le(&mut out, e.headers[i].1.len() as u64);
        push_bytes(&mut out, &e.headers[i].1);
        proof {
            lemma_encode_headers_snoc(hs, i as int);
            assert(hs[i as int] == (e.headers@[i as int].0@, e.headers@[i as int].1@));
            assert(spec_encode_header(hs[i as int]) == u64_le_bytes(
                e.headers@[i as int].0@.len() as u64,
            ) + e.headers@[i as int].0@ + u64_le_bytes(e.headers@[i as int].1@.len() as u64)
                + e.headers@[i as int].1@);
            assert(out@ =~= prefix + spec_encode_headers(hs.take(i as int + 1)));
        }
        i = i + 1;
    }
    proof {
        assert(hs.take(i as int) =~= hs);
    }
    push_u64_le(&mut out, e.body.len() as u64);
    push_bytes(&mut out, &e.body);
    proof {
        assert(out@ =~= spec_encode(e@));
    }
    out
}

/// Deserializes a record; yields nothing when `b` is not a valid
/// encoding, which the read path treats as corruption.
pub fn decode_entry(b: &Vec<u8>) -> (r: Option<CacheEntry>)
    ensures
        match r {
            Some(e) => spec_decode(b@) == Some(e@),
            None => spec_decode(b@) is None,
        },
{
    proof {
        assert(b.len() == b@.len());
    }
    if b.len() < 24 {
        return None;
    }
    let status_u = read_u64_le(b, 0);
    let created_u = read_u64_le(b, 8);
    let hcount = read_u64_le(b, 16);
    if status_u > 0xffff {
        return None;
    }
    if created_u > 0x7fff_ffff_ffff_ffff {
        return None;
    }
    let ghost n_total = hcount as int;
    let mut i: usize = 24;
    let mut headers: Vec<HeaderPair> = Vec::new();
    let mut k: u64 = 0;
    while k < hcount
        invariant
            24 <= i <= b@.len(),
            b@.len() == b.len(),
            k <= hcount,
            n_total == hcount as int,
            status_u == u64_from_le(b@.subrange(0, 8)),
            status_u <= 0xffff,
            created_u == u64_from_le(b@.subrange(8, 16)),
            created_u <= 0x7fff_ffff_ffff_ffff,
            hcount == u64_from_le(b@.subrange(16, 24)),
            parse_headers(b@, 24, n_total) == (match parse_headers(
                b@,
                i as int,
                n_total - k as int,
            ) {
                Some(rest) => Some((headers_view(headers@) + rest.0, rest.1)),
                None => None,
            }),
        decreases hcount - k,
    {
        let ghost m = n_total - k as int;
        if b.len() - i < 8 {
            proof {
                assert(parse_headers(b@, i as int, m) is None);
                assert(parse_headers(b@, 24, n_total) is None);
                assert(spec_decode(b@) is None);
            }
            return None;
        }
        let nlen_u = read_u64_le(b, i);
        let rem = b.len() - (i + 8);
        if rem < 8 || nlen_u > (rem - 8) as u64 {
            proof {
                assert(parse_headers(b@, i as int, m) is None);
                assert(parse_headers(b@, 24, n_total) is None);
                assert(spec_decode(b@) is None);
            }
            return None;
        }
        let nlen = nlen_u as usize;
        let name = copy_range(b, i + 8, i + 8 + nlen);
        let i2 = i + 8 + nlen;
        let vlen_u = read_u64_le(b, i2);
        let rem2 = b.len() - (i2 + 8);
        if vlen_u > rem2 as u64 {
            proof {
                assert(parse_headers(b@, i as int, m) is None);
                assert(parse_headers(b@, 24, n_total) is None);
                assert(spec_decode(b@) is None);
            }
            return None;
        }
        let vlen = vlen_u as usize;
        let value = copy_range(b, i2 + 8, i2 + 8 + vlen);
        let ghost before = headers@;
        headers.push((name, value));
        proof {
            let i_new = i2 as int + 8 + vlen as int;
            match parse_headers(b@, i_new, m - 1) {
                Some(rest2) => {
                    assert(parse_headers(b@, i as int, m) == Some(
                        (seq![(name@, value@)] + rest2.0, rest2.1),
                    ));
                    assert(headers_view(before) + (seq![(name@, value@)] + rest2.0)
                        =~= headers_view(headers@) + rest2.0);
                },
                None => {
                    assert(parse_headers(b@, i as int, m) is None);
                },
            }
        }
        i = i2 + 8 + vlen;
        k = k + 1;
    }
    proof {
        assert(parse_headers(b@, i as int, 0) == Some(
            (Seq::<(Seq<u8>, Seq<u8>)>::empty(), i as int),
        ));
        assert(headers_view(headers@) + Seq::<(Seq<u8>, Seq<u8>)>::empty() =~= headers_view(
            headers@,
        ));
        assert(parse_headers(b@, 24, n_total) == Some((headers_view(headers@), i as int)));
    }
    if b.len() - i < 8 {
        return None;
    }
    let blen_u = read_u64_le(b, i);
    let rem3 = b.len() - (i + 8);
    if blen_u != rem3 as u64 {
        return None;
    }
    let body = copy_range(b, i + 8, b.len());
    let e = CacheEntry {
        status: status_u as u16,
        headers,
        body,
        created_at: created_u as i64,
    };
    proof {
        assert(spec_decode(b@) == Some(e@));
    }
    Some(e)
}

} // verus!
