use argus_mesh::crypto::encrypt::{decrypt, encrypt, TAG_LEN};
use argus_mesh::crypto::keys::NodeKeys;
use argus_mesh::crypto::keystore::{keypair_bytes, keys_from_keypair_bytes, StoredKeypair};
use argus_mesh::crypto::replay::ReplayGuard;
use argus_mesh::crypto::sign::{sign_message, signature_from_bytes, signature_to_bytes, verify_message};

#[test]
fn sign_and_verify_ok() {
    let keys = NodeKeys::generate();
    let msg = b"mesh-alert";
    let sig = sign_message(keys.signing_key(), msg);
    assert!(verify_message(keys.verifying_key(), msg, &sig));
}

#[test]
fn tampered_message_rejected() {
    let keys = NodeKeys::generate();
    let msg = b"mesh-alert";
    let sig = sign_message(keys.signing_key(), msg);
    let bad = b"mesh-alert-modified";
    assert!(!verify_message(keys.verifying_key(), bad, &sig));
}

#[test]
fn signature_bytes_roundtrip_and_determinism() {
    let keys = NodeKeys::from_secret_bytes(&[7u8; 32]);
    let sig = sign_message(keys.signing_key(), b"abc");
    let again = sign_message(keys.signing_key(), b"abc");
    let bytes = signature_to_bytes(&sig);
    assert_eq!(bytes, signature_to_bytes(&again));
    let back = signature_from_bytes(&bytes);
    assert!(verify_message(keys.verifying_key(), b"abc", &back));
    let other = NodeKeys::from_secret_bytes(&[8u8; 32]);
    assert!(!verify_message(other.verifying_key(), b"abc", &back));
}

#[test]
fn public_key_derivation_is_stable() {
    let a = NodeKeys::from_secret_bytes(&[1u8; 32]);
    let b = NodeKeys::from_secret_bytes(&[1u8; 32]);
    assert_eq!(a.public_bytes(), b.public_bytes());
    assert_ne!(a.public_bytes(), [1u8; 32]);
    assert_eq!(a.secret_bytes(), [1u8; 32]);
}

#[test]
fn encryption_roundtrip() {
    let key = [9u8; 32];
    let msg = b"secret payload";

    let (ct, nonce) = encrypt(&key, msg).unwrap();
    let pt = decrypt(&key, &nonce, &ct).unwrap();

    assert_eq!(pt, msg);
}

#[test]
fn ciphertext_is_longer_by_tag_and_differs() {
    let key = [9u8; 32];
    let msg = b"secret payload";
    let (ct, _nonce) = encrypt(&key, msg).unwrap();
    assert_eq!(ct.len(), msg.len() + TAG_LEN);
    assert_ne!(&ct[..msg.len()], &msg[..]);
}

#[test]
fn invalid_ciphertext_rejected() {
    let key = [3u8; 32];
    let msg = b"secret";

    let (mut ct, nonce) = encrypt(&key, msg).unwrap();
    ct[0] ^= 1;

    assert!(decrypt(&key, &nonce, &ct).is_err());
}

#[test]
fn wrong_key_rejected() {
    let (ct, nonce) = encrypt(&[3u8; 32], b"secret").unwrap();
    assert!(decrypt(&[4u8; 32], &nonce, &ct).is_err());
}

#[test]
fn replay_attack_detected() {
    let mut guard = ReplayGuard::new(100);
    let msg = b"packet";

    assert!(guard.check_and_insert(msg));
    assert!(!guard.check_and_insert(msg));
}

#[test]
fn replay_guard_distinguishes_packets_and_digests() {
    let mut guard = ReplayGuard::new(2);
    assert!(guard.check_and_insert(b"a"));
    assert!(guard.check_and_insert(b"b"));
    assert!(guard.check_and_insert(b"c")); // evicts "a"
    assert!(guard.check_and_insert(b"a"));
    // SHA-256 of the empty string
    let d = ReplayGuard::digest(b"");
    assert_eq!(d[0], 0xe3);
    assert_eq!(d[1], 0xb0);
    assert_eq!(d[31], 0x55);
}

#[test]
fn keypair_record_roundtrip() {
    let keys = NodeKeys::generate();
    let buf = keypair_bytes(&keys);
    assert_eq!(&buf[..32], &keys.secret_bytes()[..]);
    assert_eq!(&buf[32..], &keys.public_bytes()[..]);
    let back = keys_from_keypair_bytes(&buf).unwrap();
    assert_eq!(back.public_bytes(), keys.public_bytes());
    assert!(keys_from_keypair_bytes(&buf[..63]).is_none());
}

#[test]
fn stored_keypair_wipes_secret() {
    let mut k = StoredKeypair::new(vec![1, 2, 3], vec![4, 5]);
    k.wipe();
    assert!(k.secret.is_empty());
    assert_eq!(k.public, vec![4, 5]);
}
