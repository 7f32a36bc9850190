use dilithium::params::ml_dsa_44::{PUBLICKEYBYTES, SECRETKEYBYTES, SIGNBYTES};
use dilithium::random_bytes;
use dilithium::sign::ml_dsa_44::{keypair, signature, verify};

#[test]
fn self_verify_hedged() {
    let mut pk = [0u8; PUBLICKEYBYTES];
    let mut sk = [0u8; SECRETKEYBYTES];
    keypair(&mut pk, &mut sk, None);
    const MSG_BYTES: usize = 94;
    let mut msg = [0u8; MSG_BYTES];
    random_bytes(&mut msg, MSG_BYTES);
    let mut sig = [0u8; SIGNBYTES];
    signature(&mut sig, &msg, &sk, true);
    assert!(verify(&sig, &msg, &pk));
}

#[test]
fn self_verify() {
    let mut pk = [0u8; PUBLICKEYBYTES];
    let mut sk = [0u8; SECRETKEYBYTES];
    keypair(&mut pk, &mut sk, None);
    const MSG_BYTES: usize = 94;
    let mut msg = [0u8; MSG_BYTES];
    random_bytes(&mut msg, MSG_BYTES);
    let mut sig = [0u8; SIGNBYTES];
    signature(&mut sig, &msg, &sk, false);
    assert!(verify(&sig, &msg, &pk));
}

#[test]
fn seeded_keypair_is_deterministic() {
    let seed = [7u8; 32];
    let mut pk1 = [0u8; PUBLICKEYBYTES];
    let mut sk1 = [0u8; SECRETKEYBYTES];
    let mut pk2 = [0u8; PUBLICKEYBYTES];
    let mut sk2 = [0u8; SECRETKEYBYTES];
    assert!(keypair(&mut pk1, &mut sk1, Some(&seed)));
    assert!(keypair(&mut pk2, &mut sk2, Some(&seed)));
    assert_eq!(pk1.to_vec(), pk2.to_vec());
    assert_eq!(sk1.to_vec(), sk2.to_vec());
    // the public seed rho opens both keys
    assert_eq!(pk1[..32].to_vec(), sk1[..32].to_vec());
}

#[test]
fn deterministic_signature_is_reproducible() {
    let seed = [1u8; 32];
    let mut pk = [0u8; PUBLICKEYBYTES];
    let mut sk = [0u8; SECRETKEYBYTES];
    assert!(keypair(&mut pk, &mut sk, Some(&seed)));
    let msg = b"message to be signed";
    let mut s1 = [0u8; SIGNBYTES];
    let mut s2 = [0u8; SIGNBYTES];
    assert!(signature(&mut s1, msg, &sk, false));
    assert!(signature(&mut s2, msg, &sk, false));
    assert_eq!(s1.to_vec(), s2.to_vec());
    assert!(verify(&s1, msg, &pk));
}

#[test]
fn verify_rejects_altered_message() {
    let seed = [2u8; 32];
    let mut pk = [0u8; PUBLICKEYBYTES];
    let mut sk = [0u8; SECRETKEYBYTES];
    assert!(keypair(&mut pk, &mut sk, Some(&seed)));
    let msg = [5u8; 40];
    let mut sig = [0u8; SIGNBYTES];
    assert!(signature(&mut sig, &msg, &sk, false));
    assert!(verify(&sig, &msg, &pk));
    let mut other = msg;
    other[3] ^= 1;
    assert!(!verify(&sig, &other, &pk));
}

#[test]
fn verify_rejects_altered_signature() {
    let seed = [3u8; 32];
    let mut pk = [0u8; PUBLICKEYBYTES];
    let mut sk = [0u8; SECRETKEYBYTES];
    assert!(keypair(&mut pk, &mut sk, Some(&seed)));
    let msg = [9u8; 17];
    let mut sig = [0u8; SIGNBYTES];
    assert!(signature(&mut sig, &msg, &sk, true));
    let mut bad = sig;
    bad[0] ^= 0x80;
    assert!(!verify(&bad, &msg, &pk));
    let mut bad_z = sig;
    bad_z[100] ^= 0x01;
    assert!(!verify(&bad_z, &msg, &pk));
}

#[test]
fn verify_rejects_wrong_length() {
    let seed = [4u8; 32];
    let mut pk = [0u8; PUBLICKEYBYTES];
    let mut sk = [0u8; SECRETKEYBYTES];
    assert!(keypair(&mut pk, &mut sk, Some(&seed)));
    let msg = [0u8; 3];
    let mut sig = [0u8; SIGNBYTES + 1];
    assert!(signature(&mut sig, &msg, &sk, false));
    assert!(!verify(&sig, &msg, &pk));
    assert!(verify(&sig[..SIGNBYTES], &msg, &pk));
    assert!(!verify(&sig[..SIGNBYTES - 1], &msg, &pk));
}

#[test]
fn verify_wrong_length_with_short_key() {
    let sig = [0u8; SIGNBYTES - 1];
    let m: [u8; 0] = [];
    let pk: [u8; 0] = [];
    assert!(!verify(&sig, &m, &pk));
    let long = [0u8; SIGNBYTES + 5];
    let short_pk = [1u8; 10];
    assert!(!verify(&long, &[7u8; 4], &short_pk));
}

#[test]
fn verify_rejects_other_key() {
    let mut pk1 = [0u8; PUBLICKEYBYTES];
    let mut sk1 = [0u8; SECRETKEYBYTES];
    let mut pk2 = [0u8; PUBLICKEYBYTES];
    let mut sk2 = [0u8; SECRETKEYBYTES];
    assert!(keypair(&mut pk1, &mut sk1, Some(&[10u8; 32])));
    assert!(keypair(&mut pk2, &mut sk2, Some(&[11u8; 32])));
    let msg = [1u8; 64];
    let mut sig = [0u8; SIGNBYTES];
    assert!(signature(&mut sig, &msg, &sk1, false));
    assert!(verify(&sig, &msg, &pk1));
    assert!(!verify(&sig, &msg, &pk2));
}

#[test]
fn malformed_hint_is_rejected() {
    let seed = [6u8; 32];
    let mut pk = [0u8; PUBLICKEYBYTES];
    let mut sk = [0u8; SECRETKEYBYTES];
    assert!(keypair(&mut pk, &mut sk, Some(&seed)));
    let msg = [2u8; 8];
    let mut sig = [0u8; SIGNBYTES];
    assert!(signature(&mut sig, &msg, &sk, false));
    // hint counts above OMEGA are refused
    let mut bad = sig;
    bad[SIGNBYTES - 1] = 81;
    assert!(!verify(&bad, &msg, &pk));
}

#[test]
fn longer_buffers_keep_their_tail() {
    let seed = [8u8; 32];
    let mut pk = [0xAAu8; PUBLICKEYBYTES + 5];
    let mut sk = [0xBBu8; SECRETKEYBYTES + 5];
    assert!(keypair(&mut pk, &mut sk, Some(&seed)));
    assert_eq!(pk[PUBLICKEYBYTES..].to_vec(), vec![0xAAu8; 5]);
    assert_eq!(sk[SECRETKEYBYTES..].to_vec(), vec![0xBBu8; 5]);
    let msg = [3u8; 5];
    let mut sig = [0xCCu8; SIGNBYTES + 2];
    assert!(signature(&mut sig, &msg, &sk, false));
    assert_eq!(sig[SIGNBYTES..].to_vec(), vec![0xCCu8; 2]);
    assert!(verify(&sig[..SIGNBYTES], &msg, &pk));
}
