//! Long-lived node identity (Ed25519) and short-lived per-tab identities
//! (X25519).
use vstd::prelude::*;
use crate::text::{decimal, decimal_text};
use crate::primitives::{
    ed25519_public, ed25519_public_key, ed25519_random_secret, ed25519_sign, ed25519_signature,
    hex_encode, hex_lower, unix_time_secs, x25519_public, x25519_public_key, x25519_random_secret,
};

verus! {

/// Seconds for which an ephemeral identity is suggested to live.
pub const EPHEMERAL_LIFETIME_SECS: u64 = 600;

/// The expiry suggested for an identity prolonged at `now`.
pub open spec fn expiry_after(now: u64) -> int {
    now + EPHEMERAL_LIFETIME_SECS
}

/// The node's long-lived identity. `ed25519_keypair` holds the 32-byte
/// Ed25519 secret key from which the signing key pair is derived; the peer
/// id is the hexadecimal text of the public key.
pub struct NodeIdentity {
    pub ed25519_keypair: [u8; 32],
    pub peer_id: String,
}

/// Bytes written as a list of decimals separated by ", ".
pub open spec fn byte_list(bytes: Seq<u8>) -> Seq<char>
    decreases bytes.len(),
{
    if bytes.len() == 0 {
        Seq::empty()
    } else if bytes.len() == 1 {
        decimal(bytes[0] as nat)
    } else {
        byte_list(bytes.drop_last()) + ", "@ + decimal(bytes.last() as nat)
    }
}

/// The debug rendering of an ephemeral identity with public key `public`,
/// created at `created_at`, used by `circuits` circuits; the public key
/// appears as the X25519 crate renders it (its bytes as decimals).
pub open spec fn describe_text(public: Seq<u8>, created_at: u64, circuits: usize) -> Seq<char> {
    "EphemeralIdentity { x25519_public: PublicKey(MontgomeryPoint(["@ + byte_list(public)
        + "])), created_at: "@ + decimal(created_at as nat)
        + ", active_circuits: "@ + decimal(circuits as nat) + " }"@
}

/// A short-lived X25519 identity.
pub struct EphemeralIdentity {
    pub x25519_secret: [u8; 32],
    pub x25519_public: [u8; 32],
    pub created_at: u64,
    pub suggested_expires_at: u64,
    pub active_circuits: usize,
}

pub struct IdentityWallet {
    pub tab_id: u64,
    pub ephemeral: EphemeralIdentity,
    pub pseudonym: String,
}

impl NodeIdentity {
    /// The identity of a given secret key.
    pub fn from_secret(secret: [u8; 32]) -> (id: Self)
        ensures
            id.ed25519_keypair == secret,
            id.peer_id@ == hex_lower(ed25519_public(secret@)),
    {
        let public = ed25519_public_key(&secret);
        let peer_id = hex_encode(&public);
        NodeIdentity { ed25519_keypair: secret, peer_id }
    }

    /// A fresh identity with a random secret key.
    pub fn generate() -> (id: Self)
        ensures
            id.peer_id@ == hex_lower(ed25519_public(id.ed25519_keypair@)),
    {
        let secret = ed25519_random_secret();
        Self::from_secret(secret)
    }

    /// Signs `message` with the node's key.
    pub fn sign(&self, message: &[u8]) -> (sig: [u8; 64])
        ensures
            sig@ == ed25519_signature(self.ed25519_keypair@, message@),
    {
        ed25519_sign(&self.ed25519_keypair, message)
    }
}

impl EphemeralIdentity {
    /// The identity of a given secret, created at `now`, suggested to expire
    /// ten minutes later, with no active circuit.
    pub fn from_secret_at(secret: [u8; 32], now: u64) -> (id: Self)
        requires
            now + EPHEMERAL_LIFETIME_SECS <= u64::MAX,
        ensures
            id.x25519_secret == secret,
            id.x25519_public@ == x25519_public(secret@),
            id.created_at == now,
            id.suggested_expires_at == now + EPHEMERAL_LIFETIME_SECS,
            id.active_circuits == 0,
    {
        let public = x25519_public_key(&secret);
        EphemeralIdentity {
            x25519_secret: secret,
            x25519_public: public,
            created_at: now,
            suggested_expires_at: now + EPHEMERAL_LIFETIME_SECS,
            active_circuits: 0,
        }
    }

    /// A fresh identity with a random secret, created now. A clock reading
    /// within ten minutes of `u64::MAX` (where the expiry would overflow) is
    /// taken as `u64::MAX - 600`.
    pub fn generate() -> (id: Self)
        ensures
            id.x25519_public@ == x25519_public(id.x25519_secret@),
            id.suggested_expires_at == id.created_at + EPHEMERAL_LIFETIME_SECS,
            id.active_circuits == 0,
    {
        let secret = x25519_random_secret();
        let clock = unix_time_secs();
        let now = if clock > u64::MAX - EPHEMERAL_LIFETIME_SECS { u64::MAX - EPHEMERAL_LIFETIME_SECS } else { clock };
        Self::from_secret_at(secret, now)
    }

    /// The debug rendering: the public key, the creation time and the
    /// number of active circuits. The secret is left out: the text depends
    /// on those three fields alone.
    pub fn describe(&self) -> (text: String)
        ensures
            text@ == describe_text(self.x25519_public@, self.created_at, self.active_circuits),
    {
        let mut text = String::from_str("EphemeralIdentity { x25519_public: PublicKey(MontgomeryPoint([");
        let ghost start = text@;
        let mut i: usize = 0;
        while i < 32
            invariant
                i <= 32,
                text@ == start + byte_list(self.x25519_public@.subrange(0, i as int)),
            decreases 32 - i,
        {
            let ghost before = text@;
            if i > 0 {
                text.append(", ");
            }
            let d = decimal_text(self.x25519_public[i] as u64);
            text.append(d.as_str());
            proof {
                reveal_strlit(", ");
                let pre = self.x25519_public@.subrange(0, i + 1);
                assert(pre.drop_last() =~= self.x25519_public@.subrange(0, i as int));
                assert(pre.last() == self.x25519_public@[i as int]);
                if i == 0 {
                    assert(byte_list(self.x25519_public@.subrange(0, 0)) =~= Seq::<char>::empty());
                    assert(text@ =~= start + byte_list(pre));
                } else {
                    assert(text@ =~= start + byte_list(pre));
                }
            }
            i = i + 1;
        }
        assert(self.x25519_public@.subrange(0, 32) =~= self.x25519_public@);
        text.append("])), created_at: ");
        let created = decimal_text(self.created_at);
        text.append(created.as_str());
        text.append(", active_circuits: ");
        let circuits = decimal_text(self.active_circuits as u64);
        text.append(circuits.as_str());
        text.append(" }");
        proof {
            reveal_strlit("EphemeralIdentity { x25519_public: PublicKey(MontgomeryPoint([");
            reveal_strlit("])), created_at: ");
            reveal_strlit(", active_circuits: ");
            reveal_strlit(" }");
        }
        assert(text@ =~= describe_text(self.x25519_public@, self.created_at, self.active_circuits));
        text
    }

    /// An identity can expire once no circuit uses it.
    pub fn can_expire(&self) -> (b: bool)
        ensures
            b == (self.active_circuits == 0),
    {
        self.active_circuits == 0
    }

    /// While circuits use the identity, moves its suggested expiry to ten
    /// minutes after `now`; otherwise leaves it unchanged.
    pub fn prolong_at(&mut self, now: u64)
        requires
            now + EPHEMERAL_LIFETIME_SECS <= u64::MAX,
        ensures
            final(self).suggested_expires_at == (if old(self).active_circuits > 0 {
                now + EPHEMERAL_LIFETIME_SECS
            } else {
                old(self).suggested_expires_at as int
            }),
            final(self).x25519_secret == old(self).x25519_secret,
            final(self).x25519_public == old(self).x25519_public,
            final(self).created_at == old(self).created_at,
            final(self).active_circuits == old(self).active_circuits,
    {
        if self.active_circuits > 0 {
            self.suggested_expires_at = now + EPHEMERAL_LIFETIME_SECS;
        }
    }

    /// `prolong_at` with the current time (read only when circuits are
    /// active; a reading within ten minutes of `u64::MAX` is taken as
    /// `u64::MAX - 600`).
    pub fn prolong_if_needed(&mut self)
        ensures
            old(self).active_circuits == 0 ==> final(self).suggested_expires_at == old(self).suggested_expires_at,
            old(self).active_circuits > 0 ==> exists|now: u64| now + EPHEMERAL_LIFETIME_SECS <= u64::MAX
                && final(self).suggested_expires_at == #[trigger] expiry_after(now),
            final(self).x25519_secret == old(self).x25519_secret,
            final(self).x25519_public == old(self).x25519_public,
            final(self).created_at == old(self).created_at,
            final(self).active_circuits == old(self).active_circuits,
    {
        if self.active_circuits > 0 {
            let clock = unix_time_secs();
            let now = if clock > u64::MAX - EPHEMERAL_LIFETIME_SECS { u64::MAX - EPHEMERAL_LIFETIME_SECS } else { clock };
            self.prolong_at(now);
            assert(self.suggested_expires_at == expiry_after(now));
        }
    }
}

proof fn lemma_hex_len(bytes: Seq<u8>)
    ensures
        hex_lower(bytes).len() == 2 * bytes.len(),
    decreases bytes.len(),
{
    if bytes.len() > 0 {
        lemma_hex_len(bytes.drop_last());
    }
}

/// A peer id is the 64 hexadecimal digits of a 32-byte public key.
pub proof fn law_peer_id_length(public: Seq<u8>)
    requires
        public.len() == 32,
    ensures
        hex_lower(public).len() == 64,
{
    lemma_hex_len(public);
}

} // verus!
