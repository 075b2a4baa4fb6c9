//! Shared-key derivation for private channels: a deterministic secret from
//! the local identity key and a counterparty public key.

use vstd::prelude::*;

verus! {

/// X-only public key bytes of the identity behind a secret key.
pub uninterp spec fn pub_of(sk: Seq<u8>) -> Seq<u8>;

/// Whether 32 bytes are a valid secret key: the curve library accepts
/// exactly the scalars in range (not zero, below the group order), a
/// function of the bytes alone.
pub uninterp spec fn sk_ok(sk: Seq<u8>) -> bool;

/// Whether a 32-byte x-only public key lifts to a point on the curve, the
/// sole condition under which the key-derivation accepts it; a function of
/// the bytes alone.
pub uninterp spec fn pk_ok(pk: Seq<u8>) -> bool;

/// The conversation secret derived for a pair of identities: a function of
/// the unordered pair of x-only public keys.
pub uninterp spec fn conversation_secret(keys: Set<Seq<u8>>) -> Seq<u8>;

/// Relies on nostr's `SecretKey::from_slice` and `Keys::public_key`: the
/// x-only serialization of the public key of a secret key. The only failure
/// path is the scalar check on the secret bytes.
#[verifier::external_body]
fn public_key_bytes(sk: &[u8; 32]) -> (r: Option<Vec<u8>>)
    ensures
        (r is Some) <==> sk_ok(sk@),
        r matches Some(p) ==> p@ == pub_of(sk@),
{
    let secret = match nostr::key::SecretKey::from_slice(sk) {
        Ok(k) => k,
        Err(_) => return None,
    };
    let keys = nostr::key::Keys::new(secret);
    Some(keys.public_key().to_bytes().to_vec())
}

/// Relies on nip44's `ConversationKey::derive`: ECDH over the x-only keys
/// followed by an extraction with a fixed salt. The public key is
/// normalized to even parity and only the x coordinate of the shared point
/// enters the extraction, so the secret is a function of the two x-only
/// public keys alone, in either order. The failure paths are exactly the
/// scalar check on the secret bytes and the curve-lift check on the public
/// bytes (the 32-byte parse itself checks only the length).
#[verifier::external_body]
fn derive_conversation_secret(sk: &[u8; 32], pk: &[u8; 32]) -> (r: Option<Vec<u8>>)
    ensures
        (r is Some) <==> (sk_ok(sk@) && pk_ok(pk@)),
        r matches Some(v) ==> v@ == conversation_secret(set![pub_of(sk@), pk@]),
{
    let secret = match nostr::key::SecretKey::from_slice(sk) {
        Ok(k) => k,
        Err(_) => return None,
    };
    let public = match nostr::key::PublicKey::from_slice(pk) {
        Ok(k) => k,
        Err(_) => return None,
    };
    match nostr::nips::nip44::v2::ConversationKey::derive(&secret, &public) {
        Ok(k) => Some(k.as_bytes().to_vec()),
        Err(_) => None,
    }
}

/// An ephemeral private channel: both public identities and the derived
/// secret. The secret is never persisted by this library.
pub struct SharedChannel {
    pub local_public: Vec<u8>,
    pub counterparty_public: Vec<u8>,
    pub secret: Vec<u8>,
}

/// Derive the private-channel secret between the local identity and a
/// counterparty. The channel comes back exactly when the secret bytes are a
/// valid scalar and the counterparty key lifts to a curve point.
pub fn create_shared_channel(local_secret: &[u8; 32], counterparty_public: &[u8; 32]) -> (r:
    Option<SharedChannel>)
    ensures
        r is Some <==> sk_ok(local_secret@) && pk_ok(counterparty_public@),
        r matches Some(c) ==> {
            &&& c.local_public@ == pub_of(local_secret@)
            &&& c.counterparty_public@ == counterparty_public@
            &&& c.secret@ == conversation_secret(
                set![pub_of(local_secret@), counterparty_public@],
            )
        },
{
    let local_public = match public_key_bytes(local_secret) {
        Some(p) => p,
        None => {
            return None;
        },
    };
    let secret = match derive_conversation_secret(local_secret, counterparty_public) {
        Some(s) => s,
        None => {
            return None;
        },
    };
    let mut cp: Vec<u8> = Vec::new();
    let mut i: usize = 0;
    while i < 32
        invariant
            i <= 32,
            counterparty_public@.len() == 32,
            cp@ == counterparty_public@.take(i as int),
        decreases 32 - i,
    {
        let b = counterparty_public[i];
        cp.push(b);
        proof {
            assert(counterparty_public@.take(i + 1) =~= counterparty_public@.take(i as int).push(
                counterparty_public@[i as int],
            ));
        }
        i += 1;
    }
    proof {
        assert(counterparty_public@.take(32) =~= counterparty_public@);
    }
    Some(SharedChannel { local_public, counterparty_public: cp, secret })
}

/// Shared-secret derivation is symmetric: the pair of identities is the
/// same whichever side derives, so the secret is too.
pub proof fn lemma_shared_secret_symmetric(a_sk: Seq<u8>, b_sk: Seq<u8>)
    ensures
        conversation_secret(set![pub_of(a_sk), pub_of(b_sk)]) == conversation_secret(
            set![pub_of(b_sk), pub_of(a_sk)],
        ),
{
    assert(set![pub_of(a_sk), pub_of(b_sk)] =~= set![pub_of(b_sk), pub_of(a_sk)]);
}

} // verus!
