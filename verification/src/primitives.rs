//! The calls into outside crates that the verified code makes, each behind a
//! trusted item whose contract states what the outside source shows.
use vstd::prelude::*;
use ed25519_dalek::Signer;
use chacha20poly1305::aead::{Aead, KeyInit};

verus! {

/// The BLAKE3 digest (32 bytes, default output length) of `data`.
pub uninterp spec fn blake3_digest(data: Seq<u8>) -> Seq<u8>;

/// Calls `blake3::hash`. Trusted: the result is the BLAKE3 digest of `data`,
/// a function of `data` alone, 32 bytes long.
#[verifier::external_body]
pub(crate) fn blake3_hash(data: &[u8]) -> (out: [u8; 32])
    ensures
        out@ == blake3_digest(data@),
{
    blake3::hash(data).into()
}

// ------------------------------------------------------- clock and chance

/// Reads the system clock as whole seconds since the Unix epoch, or 0 when
/// the clock stands before the epoch. Trusted: nothing is claimed of the
/// value, which depends on the time.
#[verifier::external_body]
pub(crate) fn unix_time_secs() -> (secs: u64) {
    match std::time::SystemTime::now().duration_since(std::time::UNIX_EPOCH) {
        Ok(d) => d.as_secs(),
        Err(_) => 0,
    }
}

/// Calls `rand::random::<u64>()`. Nothing is claimed of the value.
#[verifier::external_body]
pub(crate) fn random_u64() -> (x: u64) {
    rand::random::<u64>()
}

/// Calls `rand::random::<usize>()`. Nothing is claimed of the value.
#[verifier::external_body]
pub(crate) fn random_usize() -> (x: usize) {
    rand::random::<usize>()
}

/// Calls `rand::random::<[u8; 12]>()`. Nothing is claimed of the bytes.
#[verifier::external_body]
pub(crate) fn random_bytes_12() -> (x: [u8; 12]) {
    rand::random::<[u8; 12]>()
}

// -------------------------------------------------------------------- hex

/// The lowercase hexadecimal digit for a value below 16.
pub open spec fn hex_digit(n: u8) -> char {
    if n < 10 {
        (48 + n) as char
    } else {
        (87 + n) as char
    }
}

/// Lowercase hexadecimal text of `bytes`: two digits per byte, the high
/// nibble first.
pub open spec fn hex_lower(bytes: Seq<u8>) -> Seq<char>
    decreases bytes.len(),
{
    if bytes.len() == 0 {
        Seq::empty()
    } else {
        hex_lower(bytes.drop_last()) + seq![hex_digit(bytes.last() >> 4u8), hex_digit(bytes.last() & 15u8)]
    }
}

/// Calls `hex::encode`. Trusted: the result is the lowercase hexadecimal
/// text of `data`, two digits per byte, high nibble first.
#[verifier::external_body]
pub(crate) fn hex_encode(data: &[u8]) -> (text: String)
    ensures
        text@ == hex_lower(data@),
{
    hex::encode(data)
}

// ---------------------------------------------------------------- ed25519

/// The Ed25519 public key (32 bytes) derived from a 32-byte secret key.
pub uninterp spec fn ed25519_public(secret: Seq<u8>) -> Seq<u8>;

/// The Ed25519 signature (64 bytes) of `msg` under a 32-byte secret key.
pub uninterp spec fn ed25519_signature(secret: Seq<u8>, msg: Seq<u8>) -> Seq<u8>;

/// Calls `ed25519_dalek::SigningKey::generate` with the operating system's
/// random source and returns the secret key bytes. Trusted: nothing is
/// claimed of the bytes, which are random.
#[verifier::external_body]
pub(crate) fn ed25519_random_secret() -> (secret: [u8; 32]) {
    ed25519_dalek::SigningKey::generate(&mut rand::rngs::OsRng).to_bytes()
}

/// Calls `ed25519_dalek::SigningKey::verifying_key` on the key made from
/// `secret`. Trusted: the result is the public key of `secret`, a function
/// of `secret` alone.
#[verifier::external_body]
pub(crate) fn ed25519_public_key(secret: &[u8; 32]) -> (public: [u8; 32])
    ensures
        public@ == ed25519_public(secret@),
{
    ed25519_dalek::SigningKey::from_bytes(secret).verifying_key().to_bytes()
}

/// Calls `ed25519_dalek::Signer::sign` on the key made from `secret`.
/// Trusted: Ed25519 signing is deterministic, so the signature is a
/// function of the secret and the message.
#[verifier::external_body]
pub(crate) fn ed25519_sign(secret: &[u8; 32], msg: &[u8]) -> (sig: [u8; 64])
    ensures
        sig@ == ed25519_signature(secret@, msg@),
{
    ed25519_dalek::SigningKey::from_bytes(secret).sign(msg).to_bytes()
}

// -------------------------------------------------------- ChaCha20-Poly1305

#[verifier::external_type_specification]
#[verifier::external_body]
pub struct ExAeadError(chacha20poly1305::Error);

/// The ChaCha20-Poly1305 sealing (ciphertext followed by the 16-byte tag)
/// of `plaintext` under `key` and `nonce`, with no associated data.
pub uninterp spec fn chacha20poly1305_sealed(key: Seq<u8>, nonce: Seq<u8>, plaintext: Seq<u8>) -> Seq<u8>;

/// Calls `Aead::encrypt` of `chacha20poly1305::ChaCha20Poly1305` made from
/// `key`. Trusted, from the crates' source: it fails exactly when the
/// plaintext holds `u32::MAX` or more 64-byte blocks; otherwise the result
/// is the sealing of the plaintext, a function of key, nonce and plaintext,
/// sixteen bytes longer than the plaintext.
#[verifier::external_body]
pub(crate) fn chacha20poly1305_seal(key: &[u8; 32], nonce: &[u8; 12], plaintext: &[u8]) -> (r: Result<Vec<u8>, chacha20poly1305::Error>)
    ensures
        r is Ok <==> plaintext@.len() / 64 < u32::MAX,
        r matches Ok(c) ==> c@ == chacha20poly1305_sealed(key@, nonce@, plaintext@) && c@.len() == plaintext@.len() + 16,
{
    let cipher = chacha20poly1305::ChaCha20Poly1305::new(chacha20poly1305::Key::from_slice(key));
    cipher.encrypt(chacha20poly1305::Nonce::from_slice(nonce), plaintext)
}

/// Calls `ToString::to_string` on an AEAD error (its `Display`). Nothing is
/// claimed of the text.
#[verifier::external_body]
pub(crate) fn aead_error_text(e: &chacha20poly1305::Error) -> String {
    e.to_string()
}

// ----------------------------------------------------------------- x25519

/// The X25519 public key (32 bytes) of a 32-byte static secret.
pub uninterp spec fn x25519_public(secret: Seq<u8>) -> Seq<u8>;

/// Calls `x25519_dalek::StaticSecret::random_from_rng` with the operating
/// system's random source and returns the secret's bytes. Nothing is
/// claimed of the bytes, which are random.
#[verifier::external_body]
pub(crate) fn x25519_random_secret() -> (secret: [u8; 32]) {
    x25519_dalek::StaticSecret::random_from_rng(rand::rngs::OsRng).to_bytes()
}

/// Calls `x25519_dalek::PublicKey::from` on the static secret made from
/// `secret`. Trusted: the result is the public key of `secret`, a function
/// of `secret` alone.
#[verifier::external_body]
pub(crate) fn x25519_public_key(secret: &[u8; 32]) -> (public: [u8; 32])
    ensures
        public@ == x25519_public(secret@),
{
    x25519_dalek::PublicKey::from(&x25519_dalek::StaticSecret::from(*secret)).to_bytes()
}

// ---------------------------------------------------------- Reed-Solomon

/// Holds a `reed_solomon_erasure::galois_8::ReedSolomon`, the codec over
/// GF(2^8). Its contents are opaque; `RsCodec` keeps the shard counts that
/// the codec was made with beside it.
#[verifier::external_body]
pub struct RsEngine {
    codec: reed_solomon_erasure::galois_8::ReedSolomon,
}

#[verifier::external_type_specification]
#[verifier::external_body]
pub struct ExRsError(reed_solomon_erasure::Error);

/// A Reed-Solomon codec over GF(2^8) together with the shard counts that it
/// was made with.
pub struct RsCodec {
    engine: RsEngine,
    data_shards: usize,
    parity_shards: usize,
}

impl RsCodec {
    /// The number of data shards.
    pub closed spec fn data_count(&self) -> nat {
        self.data_shards as nat
    }

    /// The number of parity shards.
    pub closed spec fn parity_count(&self) -> nat {
        self.parity_shards as nat
    }
}

/// The parity shards that the codec with `data.len()` data shards and
/// `parity` parity shards computes from the data shards `data`.
pub uninterp spec fn rs_parity_shards(data: Seq<Seq<u8>>, parity: nat) -> Seq<Seq<u8>>;

/// The shards, missing ones filled in, that reconstruction with `data`
/// data shards and `parity` parity shards computes from `shards`.
pub uninterp spec fn rs_recovered_shards(shards: Seq<Option<Seq<u8>>>, data: nat, parity: nat) -> Seq<Seq<u8>>;

/// Byte views of a list of shards.
pub open spec fn shard_views(s: Seq<Vec<u8>>) -> Seq<Seq<u8>> {
    s.map_values(|v: Vec<u8>| v@)
}

/// Byte views of a list of optional shards.
pub open spec fn opt_shard_views(s: Seq<Option<Vec<u8>>>) -> Seq<Option<Seq<u8>>> {
    s.map_values(|v: Option<Vec<u8>>| match v { Some(x) => Some(x@), None => None })
}

/// The number of present shards among the first `n`.
pub open spec fn count_present(s: Seq<Option<Seq<u8>>>, n: int) -> nat
    decreases n,
{
    if n <= 0 {
        0
    } else {
        count_present(s, n - 1) + if s[n - 1] is Some { 1nat } else { 0nat }
    }
}

/// The reconstruction preconditions that `ReedSolomon::reconstruct` checks:
/// one slot per shard, every present shard non-empty and of one length, and
/// at least as many present as there are data shards.
pub open spec fn rs_reconstructible(s: Seq<Option<Seq<u8>>>, data: nat, parity: nat) -> bool {
    &&& s.len() == data + parity
    &&& forall|i: int| 0 <= i < s.len() && #[trigger] s[i] is Some ==> s[i].unwrap().len() > 0
    &&& forall|i: int, j: int| 0 <= i < s.len() && 0 <= j < s.len() && #[trigger] s[i] is Some
        && #[trigger] s[j] is Some ==> s[i].unwrap().len() == s[j].unwrap().len()
    &&& count_present(s, s.len() as int) >= data
}

/// All slots hold a shard.
pub open spec fn all_present(s: Seq<Option<Seq<u8>>>) -> bool {
    forall|i: int| 0 <= i < s.len() ==> #[trigger] s[i] is Some
}

/// The shards after a successful reconstruction: unchanged when all were
/// present (the codec returns early), otherwise the recovered shards.
pub open spec fn rs_after_reconstruct(s: Seq<Option<Seq<u8>>>, data: nat, parity: nat) -> Seq<Seq<u8>> {
    if all_present(s) {
        s.map_values(|o: Option<Seq<u8>>| o.unwrap())
    } else {
        rs_recovered_shards(s, data, parity)
    }
}

/// The present slots of `s` hold the shards of an encoding: the data shards
/// `d`, all of one non-zero length, followed by the `parity` parity shards
/// that encoding computes for them.
pub open spec fn rs_consistent(s: Seq<Option<Seq<u8>>>, d: Seq<Seq<u8>>, parity: nat) -> bool {
    let e = d + rs_parity_shards(d, parity);
    &&& s.len() == d.len() + parity
    &&& d.len() > 0
    &&& d[0].len() > 0
    &&& forall|i: int| 0 <= i < d.len() ==> (#[trigger] d[i]).len() == d[0].len()
    &&& forall|i: int| 0 <= i < s.len() && #[trigger] s[i] is Some ==> s[i] == Some(e[i])
}

/// Calls `reed_solomon_erasure::galois_8::ReedSolomon::new`. Trusted: it
/// fails exactly when a count is zero or the total exceeds the field order
/// (256), and otherwise keeps the counts it was given. The total is summed
/// without a check, so it must fit a `usize`.
#[verifier::external_body]
pub(crate) fn rs_codec_new(data_shards: usize, parity_shards: usize) -> (r: Result<RsCodec, reed_solomon_erasure::Error>)
    requires
        data_shards + parity_shards <= usize::MAX,
    ensures
        r is Ok <==> (data_shards > 0 && parity_shards > 0 && data_shards + parity_shards <= 256),
        r matches Ok(c) ==> c.data_count() == data_shards && c.parity_count() == parity_shards,
{
    match reed_solomon_erasure::galois_8::ReedSolomon::new(data_shards, parity_shards) {
        Ok(codec) => Ok(RsCodec { engine: RsEngine { codec }, data_shards, parity_shards }),
        Err(e) => Err(e),
    }
}

/// The text of the codec's error for shards whose first one is empty.
pub open spec fn rs_empty_shard_text() -> Seq<char> {
    "The first shard provided is of zero length"@
}

/// Calls `ReedSolomon::encode` and gives a failure as the error's `Display`
/// text. Trusted, from the crate's source: it checks the shard count, then
/// that the first shard is not empty (else `EmptyShard`, whose text is
/// `rs_empty_shard_text`), then that all shards have its length, before it
/// touches anything; on success the data shards are unchanged and the
/// parity slots hold the parity of the data shards, of the same length.
#[verifier::external_body]
pub(crate) fn rs_encode(codec: &RsCodec, shards: &mut Vec<Vec<u8>>) -> (r: Result<(), String>)
    ensures
        r is Ok <==> (old(shards)@.len() == codec.data_count() + codec.parity_count()
            && old(shards)@[0]@.len() > 0
            && forall|i: int| 0 <= i < old(shards)@.len() ==> #[trigger] old(shards)@[i]@.len() == old(shards)@[0]@.len()),
        old(shards)@.len() == codec.data_count() + codec.parity_count() && old(shards)@[0]@.len() == 0
            ==> (r matches Err(t) && t@ == rs_empty_shard_text()),
        r is Err ==> shard_views(final(shards)@) == shard_views(old(shards)@),
        final(shards)@.len() == old(shards)@.len(),
        r is Ok ==> shard_views(final(shards)@) == shard_views(old(shards)@).subrange(0, codec.data_count() as int)
            + rs_parity_shards(shard_views(old(shards)@).subrange(0, codec.data_count() as int), codec.parity_count()),
        r is Ok ==> forall|i: int| 0 <= i < final(shards)@.len() ==> #[trigger] final(shards)@[i]@.len() == old(shards)@[0]@.len(),
{
    codec.engine.codec.encode(shards).map_err(|e| e.to_string())
}

/// Calls `ReedSolomon::reconstruct`. Trusted, from the crate's source: it
/// succeeds exactly under `rs_reconstructible`, touches nothing when it
/// fails, and on success every slot holds a shard: all unchanged when all
/// were present, otherwise the present ones unchanged and the missing ones
/// recovered, all of one length. When the present shards are those of an
/// encoding (`rs_consistent`), the result is that whole encoding: this is
/// what erasure coding is for, and the crate's README shows it (two of five
/// encoded shards removed, `reconstruct` gives back the encoded copy).
#[verifier::external_body]
pub(crate) fn rs_reconstruct(codec: &RsCodec, shards: &mut Vec<Option<Vec<u8>>>) -> (r: Result<(), reed_solomon_erasure::Error>)
    ensures
        r is Ok <==> rs_reconstructible(opt_shard_views(old(shards)@), codec.data_count(), codec.parity_count()),
        r is Err ==> opt_shard_views(final(shards)@) == opt_shard_views(old(shards)@),
        final(shards)@.len() == old(shards)@.len(),
        r is Ok ==> all_present(opt_shard_views(final(shards)@)),
        r is Ok && all_present(opt_shard_views(old(shards)@)) ==> opt_shard_views(final(shards)@) == opt_shard_views(old(shards)@),
        r is Ok && !all_present(opt_shard_views(old(shards)@)) ==> opt_shard_views(final(shards)@).map_values(|o: Option<Seq<u8>>| o.unwrap())
            == rs_recovered_shards(opt_shard_views(old(shards)@), codec.data_count(), codec.parity_count()),
        forall|d: Seq<Seq<u8>>| r is Ok && d.len() == codec.data_count()
            && #[trigger] rs_consistent(opt_shard_views(old(shards)@), d, codec.parity_count())
            ==> opt_shard_views(final(shards)@).map_values(|o: Option<Seq<u8>>| o.unwrap())
                == d + rs_parity_shards(d, codec.parity_count()),
{
    codec.engine.codec.reconstruct(shards)
}

/// Calls `ToString::to_string` on a Reed-Solomon error (its `Display`).
/// Nothing is claimed of the text.
#[verifier::external_body]
pub(crate) fn rs_error_text(e: &reed_solomon_erasure::Error) -> String {
    e.to_string()
}

// -------------------------------------------------------------- multiaddr

/// What parsing `text` as a libp2p multiaddress gives: its binary encoding
/// together with the bytes of the peer id that ends it (when its last
/// component is `/p2p/<peer id>`), or the parser's error text.
pub uninterp spec fn multiaddr_parsed(text: Seq<char>) -> Result<(Seq<u8>, Option<Seq<u8>>), Seq<char>>;

/// Calls `<libp2p::Multiaddr as FromStr>::from_str` on `text`; on success
/// takes the address's bytes (`Multiaddr::to_vec`) and, when its last
/// component is `Protocol::P2p`, the peer id's bytes (`PeerId::to_bytes`);
/// on failure the error's `Display` text. Trusted: parsing is a function of
/// the text alone.
#[verifier::external_body]
pub(crate) fn parse_multiaddr(text: &str) -> (r: Result<(Vec<u8>, Option<Vec<u8>>), String>)
    ensures
        match r {
            Ok((a, p)) => multiaddr_parsed(text@) == Ok::<(Seq<u8>, Option<Seq<u8>>), Seq<char>>((a@, match p {
                Some(x) => Some(x@),
                None => None,
            })),
            Err(e) => multiaddr_parsed(text@) == Err::<(Seq<u8>, Option<Seq<u8>>), Seq<char>>(e@),
        },
{
    match text.parse::<libp2p::Multiaddr>() {
        Ok(addr) => {
            let peer = match addr.iter().last() {
                Some(libp2p::multiaddr::Protocol::P2p(id)) => Some(id.to_bytes()),
                _ => None,
            };
            Ok((addr.to_vec(), peer))
        },
        Err(e) => Err(e.to_string()),
    }
}

} // verus!
