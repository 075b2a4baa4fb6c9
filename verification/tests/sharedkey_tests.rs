use mostro_cli::sharedkey::create_shared_channel;
use nostr::key::Keys;

#[test]
fn shared_secret_derivation_is_symmetric() {
    let alice = Keys::generate();
    let bob = Keys::generate();
    let a_sk = alice.secret_key().to_secret_bytes();
    let b_sk = bob.secret_key().to_secret_bytes();
    let a_pk = alice.public_key().to_bytes();
    let b_pk = bob.public_key().to_bytes();

    let ab = create_shared_channel(&a_sk, &b_pk).expect("valid keys must derive");
    let ba = create_shared_channel(&b_sk, &a_pk).expect("valid keys must derive");
    assert_eq!(ab.secret, ba.secret);
    assert_eq!(ab.secret.len(), 32);
    assert_eq!(ab.local_public, a_pk.to_vec());
    assert_eq!(ab.counterparty_public, b_pk.to_vec());
    assert_eq!(ba.local_public, b_pk.to_vec());
}

#[test]
fn different_counterparties_give_different_secrets() {
    let alice = Keys::generate();
    let bob = Keys::generate();
    let carol = Keys::generate();
    let a_sk = alice.secret_key().to_secret_bytes();
    let ab = create_shared_channel(&a_sk, &bob.public_key().to_bytes()).unwrap();
    let ac = create_shared_channel(&a_sk, &carol.public_key().to_bytes()).unwrap();
    assert_ne!(ab.secret, ac.secret);
}

#[test]
fn invalid_key_bytes_derive_nothing() {
    let alice = Keys::generate();
    let a_sk = alice.secret_key().to_secret_bytes();
    // The zero scalar is not a valid secret key; a zero x coordinate is not
    // a valid point either.
    let zero = [0u8; 32];
    assert!(create_shared_channel(&zero, &alice.public_key().to_bytes()).is_none());
    assert!(create_shared_channel(&a_sk, &zero).is_none());
}
