//! Onion packets: three layers, each sealed with ChaCha20-Poly1305 under the
//! key shared with one hop and padded towards a fixed cell size. Payloads
//! and layers are framed in the bincode wire format (little-endian, 64-bit
//! lengths, enum variants tagged by their snake-case name).
use vstd::prelude::*;
use vstd::bytes::{spec_u32_to_le_bytes, spec_u64_to_le_bytes, u32_to_le_bytes, u64_to_le_bytes};
use vstd::utf8::encode_utf8;
use crate::bytes::{append_bytes, zeros};
use crate::error::AbyssError;
use crate::primitives::{aead_error_text, chacha20poly1305_seal, chacha20poly1305_sealed, random_bytes_12, unix_time_secs};

verus! {

pub const ONION_LAYER_SIZE: usize = 1024;
pub const MAX_LAYERS: usize = 3;

/// Bytes of a cell that are reserved beside the sealed payload and padding.
pub const LAYER_OVERHEAD: usize = 100;

/// The largest sealed payload that still leaves room for its padding.
pub const MAX_SEALED_LEN: usize = 924;

/// The largest plaintext a layer can seal (the seal adds a 16-byte tag).
pub const MAX_LAYER_PLAINTEXT: usize = 908;

pub struct OnionLayerHeader {
    pub next_hop: String,
    pub nonce: [u8; 12],
    pub padding: Vec<u8>,
}

pub struct OnionLayer {
    pub header: OnionLayerHeader,
    pub encrypted_payload: Vec<u8>,
}

pub struct OnionPacket {
    pub layers: Vec<OnionLayer>,
    pub created_at: u64,
    pub ttl: u8,
}

pub enum FinalPayload {
    HttpRequest {
        method: String,
        path: String,
        headers: Vec<(String, String)>,
        body: Vec<u8>,
        target_hash: [u8; 32],
    },
    StoreRequest { fragment_hash: [u8; 32], fragment_data: Vec<u8>, ttl: u32 },
    RetrieveRequest { name: String, expected_hash: [u8; 32] },
    CoverTraffic { nonce: [u8; 32], padding: Vec<u8> },
}

pub enum FinalResponse {
    HttpResponse { status: u16, headers: Vec<(String, String)>, body: Vec<u8> },
    StoreAck { fragment_hash: [u8; 32], stored_by: Vec<String> },
    CoverAck { nonce: [u8; 32] },
}

// ------------------------------------------------------------ wire format

/// A byte string on the wire: its length as eight little-endian bytes, then
/// the bytes.
pub open spec fn wire_bytes(b: Seq<u8>) -> Seq<u8> {
    spec_u64_to_le_bytes(b.len() as u64) + b
}

/// A string on the wire: its UTF-8 bytes, framed as a byte string.
pub open spec fn wire_str(s: Seq<char>) -> Seq<u8> {
    wire_bytes(encode_utf8(s))
}

/// The pairs of a header list, one after the other.
pub open spec fn wire_pairs_body(h: Seq<(String, String)>) -> Seq<u8>
    decreases h.len(),
{
    if h.len() == 0 {
        Seq::empty()
    } else {
        wire_pairs_body(h.drop_last()) + wire_str(h.last().0@) + wire_str(h.last().1@)
    }
}

/// A header list on the wire: its length, then the pairs.
pub open spec fn wire_pairs(h: Seq<(String, String)>) -> Seq<u8> {
    spec_u64_to_le_bytes(h.len() as u64) + wire_pairs_body(h)
}

/// A final payload on the wire: the variant's name, then its fields in
/// order (digests as 32 raw bytes).
pub open spec fn payload_wire(p: FinalPayload) -> Seq<u8> {
    match p {
        FinalPayload::HttpRequest { method, path, headers, body, target_hash } =>
            wire_str("http_request"@) + wire_str(method@) + wire_str(path@) + wire_pairs(headers@)
                + wire_bytes(body@) + target_hash@,
        FinalPayload::StoreRequest { fragment_hash, fragment_data, ttl } =>
            wire_str("store_request"@) + fragment_hash@ + wire_bytes(fragment_data@) + spec_u32_to_le_bytes(ttl),
        FinalPayload::RetrieveRequest { name, expected_hash } =>
            wire_str("retrieve_request"@) + wire_str(name@) + expected_hash@,
        FinalPayload::CoverTraffic { nonce, padding } =>
            wire_str("cover_traffic"@) + nonce@ + wire_bytes(padding@),
    }
}

/// A layer on the wire: next hop, the twelve nonce bytes, padding, sealed
/// payload.
pub open spec fn layer_wire(l: OnionLayer) -> Seq<u8> {
    wire_str(l.header.next_hop@) + l.header.nonce@ + wire_bytes(l.header.padding@) + wire_bytes(l.encrypted_payload@)
}

fn put_u64(out: &mut Vec<u8>, x: u64)
    ensures
        final(out)@ == old(out)@ + spec_u64_to_le_bytes(x),
{
    let b = u64_to_le_bytes(x);
    append_bytes(out, b.as_slice());
}

fn put_bytes(out: &mut Vec<u8>, b: &[u8])
    ensures
        final(out)@ == old(out)@ + wire_bytes(b@),
{
    let ghost start = out@;
    put_u64(out, b.len() as u64);
    append_bytes(out, b);
    assert(out@ =~= start + wire_bytes(b@));
}

fn put_str(out: &mut Vec<u8>, s: &str)
    ensures
        final(out)@ == old(out)@ + wire_str(s@),
{
    put_bytes(out, s.as_bytes());
}

fn put_pairs(out: &mut Vec<u8>, h: &Vec<(String, String)>)
    ensures
        final(out)@ == old(out)@ + wire_pairs(h@),
{
    let ghost start = out@;
    put_u64(out, h.len() as u64);
    let ghost after_len = out@;
    let mut i: usize = 0;
    while i < h.len()
        invariant
            i <= h@.len(),
            out@ == after_len + wire_pairs_body(h@.subrange(0, i as int)),
        decreases h@.len() - i,
    {
        let ghost before = out@;
        put_str(out, h[i].0.as_str());
        put_str(out, h[i].1.as_str());
        assert(h@.subrange(0, i + 1).drop_last() =~= h@.subrange(0, i as int));
        assert(h@.subrange(0, i + 1).last() == h@[i as int]);
        assert(out@ =~= after_len + wire_pairs_body(h@.subrange(0, i + 1)));
        i = i + 1;
    }
    assert(h@.subrange(0, h@.len() as int) =~= h@);
    assert(out@ =~= start + wire_pairs(h@));
}

/// The wire bytes of a final payload.
pub fn encode_payload(p: &FinalPayload) -> (out: Vec<u8>)
    ensures
        out@ == payload_wire(*p),
{
    let mut out: Vec<u8> = Vec::new();
    match p {
        FinalPayload::HttpRequest { method, path, headers, body, target_hash } => {
            put_str(&mut out, "http_request");
            put_str(&mut out, method.as_str());
            put_str(&mut out, path.as_str());
            put_pairs(&mut out, headers);
            put_bytes(&mut out, body.as_slice());
            append_bytes(&mut out, target_hash);
        },
        FinalPayload::StoreRequest { fragment_hash, fragment_data, ttl } => {
            put_str(&mut out, "store_request");
            append_bytes(&mut out, fragment_hash);
            put_bytes(&mut out, fragment_data.as_slice());
            let t = u32_to_le_bytes(*ttl);
            append_bytes(&mut out, t.as_slice());
        },
        FinalPayload::RetrieveRequest { name, expected_hash } => {
            put_str(&mut out, "retrieve_request");
            put_str(&mut out, name.as_str());
            append_bytes(&mut out, expected_hash);
        },
        FinalPayload::CoverTraffic { nonce, padding } => {
            put_str(&mut out, "cover_traffic");
            append_bytes(&mut out, nonce);
            put_bytes(&mut out, padding.as_slice());
        },
    }
    assert(out@ =~= payload_wire(*p));
    out
}

/// The wire bytes of a layer.
pub fn encode_layer(l: &OnionLayer) -> (out: Vec<u8>)
    ensures
        out@ == layer_wire(*l),
{
    let mut out: Vec<u8> = Vec::new();
    put_str(&mut out, l.header.next_hop.as_str());
    append_bytes(&mut out, &l.header.nonce);
    put_bytes(&mut out, l.header.padding.as_slice());
    put_bytes(&mut out, l.encrypted_payload.as_slice());
    assert(out@ =~= layer_wire(*l));
    out
}

// ------------------------------------------------------------------ nonces

/// The nonce made from a counter value and twelve random bytes: the
/// counter's little-endian bytes and the first eight random bytes are
/// combined by exclusive or; the last four random bytes are combined with
/// themselves, so the last four nonce bytes are zero.
pub open spec fn mixed_nonce(counter: u64, random: Seq<u8>) -> Seq<u8> {
    Seq::new(12, |i: int| if i < 8 { spec_u64_to_le_bytes(counter)[i] ^ random[i] } else { 0u8 })
}

/// `nonce` was made from `counter` and some twelve random bytes.
pub open spec fn nonce_from_counter(nonce: Seq<u8>, counter: u64) -> bool {
    exists|random: Seq<u8>| random.len() == 12 && nonce == #[trigger] mixed_nonce(counter, random)
}

/// Mixes a counter value into twelve random bytes (see `mixed_nonce`).
pub fn mix_nonce(counter: u64, random: &[u8; 12]) -> (nonce: [u8; 12])
    ensures
        nonce@ == mixed_nonce(counter, random@),
{
    let counter_bytes = u64_to_le_bytes(counter);
    let mut staged: Vec<u8> = Vec::new();
    let mut i: usize = 0;
    while i < 12
        invariant
            i <= 12,
            counter_bytes@ == spec_u64_to_le_bytes(counter),
            counter_bytes@.len() == 8,
            staged@.len() == i,
            forall|k: int| 0 <= k < i ==> #[trigger] staged@[k] == (if k < 8 { counter_bytes@[k] } else { random@[k] }),
        decreases 12 - i,
    {
        if i < 8 {
            staged.push(counter_bytes[i]);
        } else {
            staged.push(random[i]);
        }
        i = i + 1;
    }
    let mut mixed: Vec<u8> = Vec::new();
    let mut j: usize = 0;
    while j < 12
        invariant
            j <= 12,
            staged@.len() == 12,
            counter_bytes@ == spec_u64_to_le_bytes(counter),
            forall|k: int| 0 <= k < 12 ==> #[trigger] staged@[k] == (if k < 8 { counter_bytes@[k] } else { random@[k] }),
            mixed@.len() == j,
            forall|k: int| 0 <= k < j ==> #[trigger] mixed@[k] == mixed_nonce(counter, random@)[k],
        decreases 12 - j,
    {
        let b = staged[j] ^ random[j];
        proof {
            let r = random@[j as int];
            assert(r ^ r == 0u8) by (bit_vector);
        }
        mixed.push(b);
        j = j + 1;
    }
    let nonce: [u8; 12] = [
        mixed[0], mixed[1], mixed[2], mixed[3], mixed[4], mixed[5],
        mixed[6], mixed[7], mixed[8], mixed[9], mixed[10], mixed[11],
    ];
    assert(nonce@ =~= mixed_nonce(counter, random@));
    nonce
}

/// The counter that every layer nonce is made from; it counts up by one per
/// nonce and wraps around.
pub struct NonceSource {
    pub counter: u64,
}

impl NonceSource {
    pub fn new() -> (s: Self)
        ensures
            s.counter == 0,
    {
        NonceSource { counter: 0 }
    }

    /// A fresh nonce: the current counter mixed into random bytes; the
    /// counter moves on by one (wrapping).
    pub fn next_nonce(&mut self) -> (nonce: [u8; 12])
        ensures
            nonce_from_counter(nonce@, old(self).counter),
            final(self).counter == (if old(self).counter == u64::MAX { 0 } else { old(self).counter + 1 }),
    {
        let counter = self.counter;
        self.counter = if counter == u64::MAX { 0 } else { counter + 1 };
        let random = random_bytes_12();
        let nonce = mix_nonce(counter, &random);
        assert(random@.len() == 12);
        nonce
    }
}

// ------------------------------------------------------------------ layers

/// Length on the wire of a layer addressed to `next_hop`: the padding tops
/// the sealed payload up to a fixed size, so only the hop name varies.
pub open spec fn layer_wire_len(next_hop: Seq<char>) -> int {
    8 + encode_utf8(next_hop).len() + 12 + 8 + 8 + MAX_SEALED_LEN
}

/// The counter value after one nonce is drawn: one up, wrapping.
pub open spec fn counter_after(c: u64) -> u64 {
    if c == u64::MAX { 0 } else { (c + 1) as u64 }
}

/// The error text for a layer whose sealed payload leaves no room for its
/// padding in the cell.
pub open spec fn layer_too_large_text() -> Seq<char> {
    "onion layer exceeds the cell size"@
}

impl OnionPacket {
    /// Seals `payload` for one hop under `shared_key` with a fresh nonce and
    /// pads the sealed bytes to `MAX_SEALED_LEN`. A payload whose sealing is
    /// longer than that leaves no room for padding in the cell and is
    /// refused with an encryption error.
    pub fn build_layer(
        current_hop: &str,
        next_hop: &str,
        shared_key: &[u8; 32],
        payload: &[u8],
        nonces: &mut NonceSource,
    ) -> (r: Result<OnionLayer, AbyssError>)
        ensures
            final(nonces).counter == counter_after(old(nonces).counter),
            r is Ok <==> payload@.len() <= MAX_LAYER_PLAINTEXT,
            r is Err ==> r matches Err(AbyssError::Encryption(_)),
            payload@.len() > MAX_LAYER_PLAINTEXT && payload@.len() / 64 < u32::MAX
                ==> (r matches Err(AbyssError::Encryption(e)) && e@ == layer_too_large_text()),
            r matches Ok(l) ==> {
                &&& l.header.next_hop@ == next_hop@
                &&& nonce_from_counter(l.header.nonce@, old(nonces).counter)
                &&& l.encrypted_payload@ == chacha20poly1305_sealed(shared_key@, l.header.nonce@, payload@)
                &&& l.encrypted_payload@.len() == payload@.len() + 16
                &&& l.header.padding@ == Seq::new((MAX_SEALED_LEN - l.encrypted_payload@.len()) as nat, |_i: int| 0u8)
                &&& layer_wire(l).len() == layer_wire_len(next_hop@)
            },
    {
        let nonce = nonces.next_nonce();
        let sealed = match chacha20poly1305_seal(shared_key, &nonce, payload) {
            Ok(c) => c,
            Err(e) => { return Err(AbyssError::Encryption(aead_error_text(&e))); },
        };
        if sealed.len() > MAX_SEALED_LEN {
            proof {
                reveal_strlit("onion layer exceeds the cell size");
            }
            return Err(AbyssError::Encryption(String::from_str("onion layer exceeds the cell size")));
        }
        let padding = zeros(ONION_LAYER_SIZE - LAYER_OVERHEAD - sealed.len());
        let layer = OnionLayer {
            header: OnionLayerHeader { next_hop: next_hop.to_owned(), nonce, padding },
            encrypted_payload: sealed,
        };
        assert(layer.header.nonce@.len() == 12);
        proof {
            vstd::bytes::lemma_auto_spec_u64_to_from_le_bytes();
        }
        Ok(layer)
    }

    /// Builds a three-hop packet around `payload`: the innermost layer is
    /// addressed to the exit, each outer layer seals the wire bytes of the
    /// layer inside it. It succeeds exactly when each of the three layers
    /// fits its cell; a layer that does not fit gives an encryption error.
    /// The wire bytes of a padded layer are longer than a layer may seal, so
    /// the middle layer never fits. The nonce counter moves on once per
    /// layer that was sealed or tried.
    pub fn build(
        hop1_id: &str,
        hop2_id: &str,
        hop3_id: &str,
        shared_keys: &[[u8; 32]; 3],
        payload: &FinalPayload,
        nonces: &mut NonceSource,
    ) -> (r: Result<Self, AbyssError>)
        ensures
            r is Ok <==> (payload_wire(*payload).len() <= MAX_LAYER_PLAINTEXT
                && layer_wire_len("EXIT"@) <= MAX_LAYER_PLAINTEXT
                && layer_wire_len(hop3_id@) <= MAX_LAYER_PLAINTEXT),
            r is Err ==> r matches Err(AbyssError::Encryption(_)),
            final(nonces).counter == (if payload_wire(*payload).len() > MAX_LAYER_PLAINTEXT {
                counter_after(old(nonces).counter)
            } else if layer_wire_len("EXIT"@) > MAX_LAYER_PLAINTEXT {
                counter_after(counter_after(old(nonces).counter))
            } else {
                counter_after(counter_after(counter_after(old(nonces).counter)))
            }),
            r matches Ok(p) ==> {
                &&& p.layers@.len() == 3
                &&& p.ttl == 3
                &&& p.layers@[2].header.next_hop@ == "EXIT"@
                &&& p.layers@[1].header.next_hop@ == hop3_id@
                &&& p.layers@[0].header.next_hop@ == hop2_id@
                &&& p.layers@[2].encrypted_payload@
                    == chacha20poly1305_sealed(shared_keys[2]@, p.layers@[2].header.nonce@, payload_wire(*payload))
                &&& p.layers@[1].encrypted_payload@
                    == chacha20poly1305_sealed(shared_keys[1]@, p.layers@[1].header.nonce@, layer_wire(p.layers@[2]))
                &&& p.layers@[0].encrypted_payload@
                    == chacha20poly1305_sealed(shared_keys[0]@, p.layers@[0].header.nonce@, layer_wire(p.layers@[1]))
            },
    {
        proof {
            reveal_strlit("EXIT");
        }
        let payload_bytes = encode_payload(payload);
        let layer3 = match Self::build_layer(hop3_id, "EXIT", &shared_keys[2], payload_bytes.as_slice(), nonces) {
            Ok(l) => l,
            Err(e) => { return Err(e); },
        };
        let layer2_bytes = encode_layer(&layer3);
        let layer2 = match Self::build_layer(hop2_id, hop3_id, &shared_keys[1], layer2_bytes.as_slice(), nonces) {
            Ok(l) => l,
            Err(e) => { return Err(e); },
        };
        let layer1_bytes = encode_layer(&layer2);
        let layer1 = match Self::build_layer(hop1_id, hop2_id, &shared_keys[0], layer1_bytes.as_slice(), nonces) {
            Ok(l) => l,
            Err(e) => { return Err(e); },
        };
        let now = unix_time_secs();
        let mut layers: Vec<OnionLayer> = Vec::new();
        layers.push(layer1);
        layers.push(layer2);
        layers.push(layer3);
        Ok(OnionPacket { layers, created_at: now, ttl: MAX_LAYERS as u8 })
    }
}

/// The cover-traffic payload: a random nonce and 900 zero bytes of padding.
pub fn cover_payload(nonce: [u8; 32]) -> (p: FinalPayload)
    ensures
        p matches FinalPayload::CoverTraffic { nonce: n, padding } && n == nonce
            && padding@ == Seq::new(900, |_i: int| 0u8),
{
    FinalPayload::CoverTraffic { nonce, padding: zeros(900) }
}

/// Every layer nonce ends in four zero bytes: whatever the counter and the
/// random bytes, the last four random bytes cancel out.
pub proof fn law_nonce_tail_zero(counter: u64, random: Seq<u8>)
    ensures
        mixed_nonce(counter, random).subrange(8, 12) == Seq::new(4, |_i: int| 0u8),
{
    assert(mixed_nonce(counter, random).subrange(8, 12) =~= Seq::new(4, |_i: int| 0u8));
}

/// Padding makes layers addressed to the same hop equally long on the wire,
/// whatever they carry: a layer whose padding tops its sealed payload up to
/// `MAX_SEALED_LEN` (as `build_layer` makes it) has the length that
/// `layer_wire_len` gives for its hop.
pub proof fn law_layer_size_uniform(a: OnionLayer, b: OnionLayer)
    requires
        a.header.padding@.len() + a.encrypted_payload@.len() == MAX_SEALED_LEN,
        b.header.padding@.len() + b.encrypted_payload@.len() == MAX_SEALED_LEN,
        a.header.nonce@.len() == 12,
        b.header.nonce@.len() == 12,
        a.header.next_hop@ == b.header.next_hop@,
    ensures
        layer_wire(a).len() == layer_wire(b).len(),
        layer_wire(a).len() == layer_wire_len(a.header.next_hop@),
{
    vstd::bytes::lemma_auto_spec_u64_to_from_le_bytes();
}

} // verus!
