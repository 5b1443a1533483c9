use argus_mesh::crypto::encrypt::encrypt;
use argus_mesh::crypto::keys::NodeKeys;
use argus_mesh::crypto::sign::{sign_message, signature_to_bytes};
use argus_mesh::envelope::{Envelope, Priority};
use argus_mesh::router::Router;

fn make_router() -> Router {
    let keys = NodeKeys::generate();
    let sym_key = [5u8; 32];
    Router::new(keys, sym_key)
}

/// A valid envelope (encrypted and signed) with the given keys and shared key.
fn build_valid(keys: &NodeKeys, sym_key: &[u8; 32], payload: Vec<u8>) -> Envelope {
    let mut env = Envelope::new("node_a".to_string(), Priority::Normal, payload);
    let (ct, nonce) = encrypt(sym_key, &env.payload).unwrap();
    env.payload = ct;
    env.nonce = nonce;
    env.sender_pubkey = keys.public_bytes();
    let mut sign_bytes = env.payload.clone();
    sign_bytes.extend_from_slice(&env.nonce);
    let sig = sign_message(keys.signing_key(), &sign_bytes);
    env.signature = signature_to_bytes(&sig).to_vec();
    env
}

#[test]
fn tampered_packet_rejected() {
    let mut router = make_router();
    let keys = NodeKeys::generate();
    let sym_key = [5u8; 32];
    let mut env = build_valid(&keys, &sym_key, b"hello".to_vec());

    // Tamper payload (ciphertext)
    if !env.payload.is_empty() {
        env.payload[0] = env.payload[0].wrapping_add(1);
    }

    router.receive(env);
    assert!(router.next_outbound().is_none());
}

#[test]
fn replay_attack_rejected() {
    let mut router = make_router();
    let keys = NodeKeys::generate();
    let sym_key = [5u8; 32];
    let valid = build_valid(&keys, &sym_key, b"replay-me".to_vec());

    router.receive(valid.duplicate());
    router.receive(valid); // replay

    let first = router.next_outbound();
    let second = router.next_outbound();
    assert!(first.is_some());
    assert!(second.is_none());
}

#[test]
fn invalid_sender_rejected() {
    let mut router = make_router();
    let signer_keys = NodeKeys::generate();
    let fake_sender_pubkey = NodeKeys::generate(); // different key
    let sym_key = [5u8; 32];

    let mut env = Envelope::new("attacker".to_string(), Priority::High, b"evil".to_vec());
    let (ct, nonce) = encrypt(&sym_key, &env.payload).unwrap();
    env.payload = ct;
    env.nonce = nonce;
    env.sender_pubkey = fake_sender_pubkey.public_bytes();
    let mut sign_bytes = env.payload.clone();
    sign_bytes.extend_from_slice(&env.nonce);
    let sig = sign_message(signer_keys.signing_key(), &sign_bytes);
    env.signature = signature_to_bytes(&sig).to_vec();

    router.receive(env);

    assert!(router.next_outbound().is_none());
}

#[test]
fn valid_message_accepted_and_forwarded() {
    let mut router = make_router();
    let keys = NodeKeys::generate();
    let sym_key = [5u8; 32];
    let valid = build_valid(&keys, &sym_key, b"valid".to_vec());

    router.receive(valid);
    let out = router.next_outbound();
    assert!(out.is_some());
    let env = out.unwrap();
    // Router forwards with plaintext payload after verify+decrypt
    assert_eq!(env.payload.as_slice(), b"valid");
}

#[test]
fn accepted_envelope_is_delivered_and_forwarded_one_hop_further() {
    let mut router = make_router();
    let keys = NodeKeys::generate();
    let valid = build_valid(&keys, &[5u8; 32], b"hop".to_vec());
    let id = valid.msg_id;
    let delivered = router.receive(valid).unwrap();
    assert_eq!(delivered.msg_id, id);
    assert_eq!(delivered.hop_count, 0);
    assert_eq!(delivered.payload, b"hop".to_vec());
    let out = router.next_outbound().unwrap();
    assert_eq!(out.hop_count, 1);
    assert!(router.queue_is_empty());
}

#[test]
fn wrong_shared_key_rejected() {
    let mut router = make_router();
    let keys = NodeKeys::generate();
    let env = build_valid(&keys, &[6u8; 32], b"other mesh".to_vec());
    assert!(router.receive(env).is_none());
    assert!(router.queue_is_empty());
}

#[test]
fn short_signature_rejected() {
    let mut router = make_router();
    let keys = NodeKeys::generate();
    let mut env = build_valid(&keys, &[5u8; 32], b"x".to_vec());
    env.signature.pop();
    assert!(router.receive(env).is_none());
}

#[test]
fn hop_exhausted_envelope_not_accepted() {
    let mut router = make_router();
    let keys = NodeKeys::generate();
    let mut env = build_valid(&keys, &[5u8; 32], b"far".to_vec());
    env.hop_count = 10;
    assert!(router.receive(env).is_none());
}

#[test]
fn local_alert_is_sealed_and_readable_by_peer() {
    let sym = [5u8; 32];
    let mut a = Router::new(NodeKeys::generate(), sym);
    let mut b = Router::new(NodeKeys::generate(), sym);
    let env = Envelope::new("a".to_string(), Priority::Critical, b"fire".to_vec());
    a.enqueue_local(env).unwrap();
    let wire = a.next_outbound().unwrap();
    assert_ne!(wire.payload, b"fire".to_vec());
    assert_eq!(wire.payload.len(), b"fire".len() + 16);
    assert_eq!(wire.signature.len(), 64);
    let got = b.receive(wire).unwrap();
    assert_eq!(got.payload, b"fire".to_vec());
    assert_eq!(got.sender_id, "a");
}

#[test]
fn same_identifier_delivered_at_most_once() {
    let mut router = make_router();
    let keys = NodeKeys::generate();
    let first = build_valid(&keys, &[5u8; 32], b"one".to_vec());
    let mut second = build_valid(&keys, &[5u8; 32], b"two".to_vec());
    second.msg_id = first.msg_id;
    assert!(router.receive(first).is_some());
    // a different, validly sealed envelope reusing the identifier is dropped
    assert!(router.receive(second).is_none());
    assert!(router.next_outbound().is_some());
    assert!(router.next_outbound().is_none());
}

#[test]
fn expired_envelope_not_accepted() {
    let mut router = make_router();
    let keys = NodeKeys::generate();
    let mut env = build_valid(&keys, &[5u8; 32], b"old".to_vec());
    env.created_at = argus_mesh::clock::Timestamp { secs: 1, nanos: 0 };
    assert!(router.receive(env).is_none());
    assert!(router.queue_is_empty());
}

#[test]
fn forged_envelope_does_not_block_genuine_one() {
    let mut router = make_router();
    let keys = NodeKeys::generate();
    let genuine = build_valid(&keys, &[5u8; 32], b"real".to_vec());
    // a forgery reusing the genuine identifier, with a broken signature
    let mut forged = build_valid(&keys, &[5u8; 32], b"fake".to_vec());
    forged.msg_id = genuine.msg_id;
    forged.signature[0] ^= 1;
    assert!(router.receive(forged).is_none());
    // a forgery signed by another key that cannot be decrypted
    let mut undecryptable = build_valid(&NodeKeys::generate(), &[9u8; 32], b"x".to_vec());
    undecryptable.msg_id = genuine.msg_id;
    assert!(router.receive(undecryptable).is_none());
    let got = router.receive(genuine).unwrap();
    assert_eq!(got.payload, b"real".to_vec());
    assert!(router.next_outbound().is_some());
}
