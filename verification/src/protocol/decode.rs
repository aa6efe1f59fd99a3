//! Reading the onion wire format back: a reader for each framing and the
//! laws that every payload and every layer reads back as what was written,
//! field by field and in declaration order, with nothing left over.
use vstd::prelude::*;
use vstd::bytes::{spec_u32_from_le_bytes, spec_u32_to_le_bytes, spec_u64_from_le_bytes, spec_u64_to_le_bytes};
use vstd::utf8::{decode_utf8, encode_utf8};
use crate::protocol::onion::{layer_wire, payload_wire, wire_bytes, wire_pairs, wire_pairs_body, wire_str, FinalPayload, OnionLayer};

verus! {

/// The first `n` bytes of `b` and the rest.
pub open spec fn read_fixed(b: Seq<u8>, n: nat) -> Option<(Seq<u8>, Seq<u8>)> {
    if n <= b.len() {
        Some((b.subrange(0, n as int), b.subrange(n as int, b.len() as int)))
    } else {
        None
    }
}

/// An eight-byte little-endian number and the rest.
pub open spec fn read_u64(b: Seq<u8>) -> Option<(u64, Seq<u8>)> {
    match read_fixed(b, 8) {
        Some((x, rest)) => Some((spec_u64_from_le_bytes(x), rest)),
        None => None,
    }
}

/// A four-byte little-endian number and the rest.
pub open spec fn read_u32(b: Seq<u8>) -> Option<(u32, Seq<u8>)> {
    match read_fixed(b, 4) {
        Some((x, rest)) => Some((spec_u32_from_le_bytes(x), rest)),
        None => None,
    }
}

/// A length-prefixed byte string and the rest.
pub open spec fn read_bytes(b: Seq<u8>) -> Option<(Seq<u8>, Seq<u8>)> {
    match read_u64(b) {
        Some((n, rest)) => read_fixed(rest, n as nat),
        None => None,
    }
}

/// A length-prefixed UTF-8 string and the rest.
pub open spec fn read_str(b: Seq<u8>) -> Option<(Seq<char>, Seq<u8>)> {
    match read_bytes(b) {
        Some((x, rest)) => Some((decode_utf8(x), rest)),
        None => None,
    }
}

/// `n` pairs of strings, one after the other, and the rest.
pub open spec fn read_pairs_body(b: Seq<u8>, n: nat) -> Option<(Seq<(Seq<char>, Seq<char>)>, Seq<u8>)>
    decreases n,
{
    if n == 0 {
        Some((Seq::empty(), b))
    } else {
        match read_pairs_body(b, (n - 1) as nat) {
            Some((ps, r)) => match read_str(r) {
                Some((k, r1)) => match read_str(r1) {
                    Some((v, r2)) => Some((ps.push((k, v)), r2)),
                    None => None,
                },
                None => None,
            },
            None => None,
        }
    }
}

/// A counted list of string pairs and the rest.
pub open spec fn read_pairs(b: Seq<u8>) -> Option<(Seq<(Seq<char>, Seq<char>)>, Seq<u8>)> {
    match read_u64(b) {
        Some((n, rest)) => read_pairs_body(rest, n as nat),
        None => None,
    }
}

/// A final payload with its fields as plain values.
pub enum PayloadFields {
    HttpRequest {
        method: Seq<char>,
        path: Seq<char>,
        headers: Seq<(Seq<char>, Seq<char>)>,
        body: Seq<u8>,
        target_hash: Seq<u8>,
    },
    StoreRequest { fragment_hash: Seq<u8>, fragment_data: Seq<u8>, ttl: u32 },
    RetrieveRequest { name: Seq<char>, expected_hash: Seq<u8> },
    CoverTraffic { nonce: Seq<u8>, padding: Seq<u8> },
}

/// The texts of a header list.
pub open spec fn pair_texts(h: Seq<(String, String)>) -> Seq<(Seq<char>, Seq<char>)> {
    h.map_values(|e: (String, String)| (e.0@, e.1@))
}

/// The fields of a payload as plain values.
pub open spec fn payload_fields(p: FinalPayload) -> PayloadFields {
    match p {
        FinalPayload::HttpRequest { method, path, headers, body, target_hash } => PayloadFields::HttpRequest {
            method: method@,
            path: path@,
            headers: pair_texts(headers@),
            body: body@,
            target_hash: target_hash@,
        },
        FinalPayload::StoreRequest { fragment_hash, fragment_data, ttl } => PayloadFields::StoreRequest {
            fragment_hash: fragment_hash@,
            fragment_data: fragment_data@,
            ttl,
        },
        FinalPayload::RetrieveRequest { name, expected_hash } => PayloadFields::RetrieveRequest {
            name: name@,
            expected_hash: expected_hash@,
        },
        FinalPayload::CoverTraffic { nonce, padding } => PayloadFields::CoverTraffic {
            nonce: nonce@,
            padding: padding@,
        },
    }
}

/// Reads a whole final payload: the variant's name, then its fields; `None`
/// when the bytes are no payload or something is left over.
pub open spec fn read_payload(b: Seq<u8>) -> Option<PayloadFields> {
    match read_str(b) {
        Some((tag, r)) => if tag == "http_request"@ {
            match read_str(r) {
                Some((method, r1)) => match read_str(r1) {
                    Some((path, r2)) => match read_pairs(r2) {
                        Some((headers, r3)) => match read_bytes(r3) {
                            Some((body, r4)) => match read_fixed(r4, 32) {
                                Some((target_hash, r5)) => if r5.len() == 0 {
                                    Some(PayloadFields::HttpRequest { method, path, headers, body, target_hash })
                                } else {
                                    None
                                },
                                None => None,
                            },
                            None => None,
                        },
                        None => None,
                    },
                    None => None,
                },
                None => None,
            }
        } else if tag == "store_request"@ {
            match read_fixed(r, 32) {
                Some((fragment_hash, r1)) => match read_bytes(r1) {
                    Some((fragment_data, r2)) => match read_u32(r2) {
                        Some((ttl, r3)) => if r3.len() == 0 {
                            Some(PayloadFields::StoreRequest { fragment_hash, fragment_data, ttl })
                        } else {
                            None
                        },
                        None => None,
                    },
                    None => None,
                },
                None => None,
            }
        } else if tag == "retrieve_request"@ {
            match read_str(r) {
                Some((name, r1)) => match read_fixed(r1, 32) {
                    Some((expected_hash, r2)) => if r2.len() == 0 {
                        Some(PayloadFields::RetrieveRequest { name, expected_hash })
                    } else {
                        None
                    },
                    None => None,
                },
                None => None,
            }
        } else if tag == "cover_traffic"@ {
            match read_fixed(r, 32) {
                Some((nonce, r1)) => match read_bytes(r1) {
                    Some((padding, r2)) => if r2.len() == 0 {
                        Some(PayloadFields::CoverTraffic { nonce, padding })
                    } else {
                        None
                    },
                    None => None,
                },
                None => None,
            }
        } else {
            None
        },
        None => None,
    }
}

/// A layer with its fields as plain values.
pub struct LayerFields {
    pub next_hop: Seq<char>,
    pub nonce: Seq<u8>,
    pub padding: Seq<u8>,
    pub encrypted_payload: Seq<u8>,
}

/// Reads a whole layer: next hop, twelve nonce bytes, padding, sealed
/// payload; `None` when something is missing or left over.
pub open spec fn read_layer(b: Seq<u8>) -> Option<LayerFields> {
    match read_str(b) {
        Some((next_hop, r1)) => match read_fixed(r1, 12) {
            Some((nonce, r2)) => match read_bytes(r2) {
                Some((padding, r3)) => match read_bytes(r3) {
                    Some((encrypted_payload, r4)) => if r4.len() == 0 {
                        Some(LayerFields { next_hop, nonce, padding, encrypted_payload })
                    } else {
                        None
                    },
                    None => None,
                },
                None => None,
            },
            None => None,
        },
        None => None,
    }
}

proof fn lemma_read_fixed(x: Seq<u8>, y: Seq<u8>)
    ensures
        read_fixed(x + y, x.len()) == Some((x, y)),
{
    assert((x + y).subrange(0, x.len() as int) =~= x);
    assert((x + y).subrange(x.len() as int, (x + y).len() as int) =~= y);
}

proof fn lemma_read_u64(n: u64, y: Seq<u8>)
    ensures
        read_u64(spec_u64_to_le_bytes(n) + y) == Some((n, y)),
{
    vstd::bytes::lemma_auto_spec_u64_to_from_le_bytes();
    lemma_read_fixed(spec_u64_to_le_bytes(n), y);
}

proof fn lemma_read_u32(n: u32, y: Seq<u8>)
    ensures
        read_u32(spec_u32_to_le_bytes(n) + y) == Some((n, y)),
{
    vstd::bytes::lemma_auto_spec_u32_to_from_le_bytes();
    lemma_read_fixed(spec_u32_to_le_bytes(n), y);
}

proof fn lemma_read_bytes(x: Seq<u8>, y: Seq<u8>)
    requires
        x.len() <= u64::MAX,
    ensures
        read_bytes(wire_bytes(x) + y) == Some((x, y)),
{
    let n = x.len() as u64;
    assert(wire_bytes(x) + y =~= spec_u64_to_le_bytes(n) + (x + y));
    lemma_read_u64(n, x + y);
    lemma_read_fixed(x, y);
}

proof fn lemma_read_str(s: Seq<char>, y: Seq<u8>)
    requires
        encode_utf8(s).len() <= u64::MAX,
    ensures
        read_str(wire_str(s) + y) == Some((s, y)),
{
    lemma_read_bytes(encode_utf8(s), y);
    vstd::utf8::encode_utf8_decode_utf8(s);
}

proof fn lemma_read_pairs_body(h: Seq<(String, String)>, y: Seq<u8>)
    requires
        wire_pairs_body(h).len() <= u64::MAX,
    ensures
        read_pairs_body(wire_pairs_body(h) + y, h.len()) == Some((pair_texts(h), y)),
    decreases h.len(),
{
    if h.len() > 0 {
        let front = h.drop_last();
        let k = h.last().0@;
        let v = h.last().1@;
        let tail = wire_str(k) + wire_str(v) + y;
        assert(wire_pairs_body(h) + y =~= wire_pairs_body(front) + tail);
        lemma_read_pairs_body(front, tail);
        lemma_read_str(k, wire_str(v) + y);
        assert(tail =~= wire_str(k) + (wire_str(v) + y));
        lemma_read_str(v, y);
        assert(pair_texts(h) =~= pair_texts(front).push((k, v)));
    } else {
        assert(pair_texts(h) =~= Seq::<(Seq<char>, Seq<char>)>::empty());
        assert(wire_pairs_body(h) + y =~= y);
    }
}

proof fn lemma_read_pairs(h: Seq<(String, String)>, y: Seq<u8>)
    requires
        wire_pairs(h).len() <= u64::MAX,
    ensures
        read_pairs(wire_pairs(h) + y) == Some((pair_texts(h), y)),
{
    assert(wire_pairs(h) + y =~= spec_u64_to_le_bytes(h.len() as u64) + (wire_pairs_body(h) + y));
    lemma_read_u64(h.len() as u64, wire_pairs_body(h) + y);
    vstd::bytes::lemma_auto_spec_u64_to_from_le_bytes();
    lemma_pairs_count_fits(h);
    lemma_read_pairs_body(h, y);
}

proof fn lemma_pairs_count_fits(h: Seq<(String, String)>)
    ensures
        h.len() <= wire_pairs_body(h).len(),
    decreases h.len(),
{
    if h.len() > 0 {
        lemma_pairs_count_fits(h.drop_last());
        vstd::bytes::lemma_auto_spec_u64_to_from_le_bytes();
    }
}

/// Every payload reads back from its wire bytes as the payload that was
/// written, field by field in declaration order, with nothing left over.
/// (The lengths on the wire are 64-bit, so the bytes must fit that count.)
pub proof fn law_payload_reads_back(p: FinalPayload)
    requires
        payload_wire(p).len() <= u64::MAX,
    ensures
        read_payload(payload_wire(p)) == Some(payload_fields(p)),
{
    vstd::bytes::lemma_auto_spec_u64_to_from_le_bytes();
    vstd::bytes::lemma_auto_spec_u32_to_from_le_bytes();
    reveal_strlit("http_request");
    reveal_strlit("store_request");
    reveal_strlit("retrieve_request");
    reveal_strlit("cover_traffic");
    let e = Seq::<u8>::empty();
    match p {
        FinalPayload::HttpRequest { method, path, headers, body, target_hash } => {
            let tag = "http_request"@;
            let r4 = target_hash@ + e;
            let r3 = wire_bytes(body@) + r4;
            let r2 = wire_pairs(headers@) + r3;
            let r1 = wire_str(path@) + r2;
            let r = wire_str(method@) + r1;
            assert(payload_wire(p) =~= wire_str(tag) + r);
            lemma_read_str(tag, r);
            lemma_read_str(method@, r1);
            lemma_read_str(path@, r2);
            lemma_read_pairs(headers@, r3);
            lemma_read_bytes(body@, r4);
            lemma_read_fixed(target_hash@, e);
        },
        FinalPayload::StoreRequest { fragment_hash, fragment_data, ttl } => {
            let tag = "store_request"@;
            let r2 = spec_u32_to_le_bytes(ttl) + e;
            let r1 = wire_bytes(fragment_data@) + r2;
            let r = fragment_hash@ + r1;
            assert(payload_wire(p) =~= wire_str(tag) + r);
            lemma_read_str(tag, r);
            lemma_read_fixed(fragment_hash@, r1);
            lemma_read_bytes(fragment_data@, r2);
            lemma_read_u32(ttl, e);
        },
        FinalPayload::RetrieveRequest { name, expected_hash } => {
            let tag = "retrieve_request"@;
            let r1 = expected_hash@ + e;
            let r = wire_str(name@) + r1;
            assert(payload_wire(p) =~= wire_str(tag) + r);
            lemma_read_str(tag, r);
            lemma_read_str(name@, r1);
            lemma_read_fixed(expected_hash@, e);
        },
        FinalPayload::CoverTraffic { nonce, padding } => {
            let tag = "cover_traffic"@;
            let r1 = wire_bytes(padding@) + e;
            let r = nonce@ + r1;
            assert(payload_wire(p) =~= wire_str(tag) + r);
            lemma_read_str(tag, r);
            lemma_read_fixed(nonce@, r1);
            lemma_read_bytes(padding@, e);
        },
    }
}

/// The fields of a layer as plain values.
pub open spec fn layer_fields(l: OnionLayer) -> LayerFields {
    LayerFields {
        next_hop: l.header.next_hop@,
        nonce: l.header.nonce@,
        padding: l.header.padding@,
        encrypted_payload: l.encrypted_payload@,
    }
}

/// Every layer reads back from its wire bytes as the layer that was
/// written: next hop, nonce, padding and sealed payload in that order, with
/// nothing left over.
pub proof fn law_layer_reads_back(l: OnionLayer)
    requires
        layer_wire(l).len() <= u64::MAX,
    ensures
        read_layer(layer_wire(l)) == Some(layer_fields(l)),
{
    vstd::bytes::lemma_auto_spec_u64_to_from_le_bytes();
    let e = Seq::<u8>::empty();
    let r3 = wire_bytes(l.encrypted_payload@) + e;
    let r2 = wire_bytes(l.header.padding@) + r3;
    let r1 = l.header.nonce@ + r2;
    assert(layer_wire(l) =~= wire_str(l.header.next_hop@) + r1);
    lemma_read_str(l.header.next_hop@, r1);
    lemma_read_fixed(l.header.nonce@, r2);
    lemma_read_bytes(l.header.padding@, r3);
    lemma_read_bytes(l.encrypted_payload@, e);
}

} // verus!
