use lamport_sigs::HashAlg;
use lamport_sigs::LamportError;
use lamport_sigs::PrivateKey;

#[test]
fn round_trip_sha256() {
    let mut sk = PrivateKey::new(HashAlg::Sha256);
    let pk = sk.public_key();
    let msg = b"attack at dawn";
    let sig = sk.sign(msg).expect("first signature must succeed");
    assert!(pk.verify_signature(&sig, msg));
}

#[test]
fn round_trip_sha512() {
    let mut sk = PrivateKey::new(HashAlg::Sha512);
    let pk = sk.public_key();
    let msg = b"attack at dawn";
    let sig = sk.sign(msg).expect("first signature must succeed");
    assert!(pk.verify_signature(&sig, msg));
}

#[test]
fn round_trip_empty_message() {
    let mut sk = PrivateKey::new(HashAlg::Sha256);
    let pk = sk.public_key();
    let msg: [u8; 0] = [];
    let sig = sk.sign(&msg).expect("first signature must succeed");
    assert!(pk.verify_signature(&sig, &msg));
}

#[test]
fn single_use_enforcement() {
    let mut sk = PrivateKey::new(HashAlg::Sha256);
    let first = sk.sign(b"first message");
    assert!(first.is_ok());
    let second = sk.sign(b"second message");
    assert_eq!(second, Err(LamportError::OneTimeKeyExhausted));
    let again_same = sk.sign(b"first message");
    assert_eq!(again_same, Err(LamportError::OneTimeKeyExhausted));
}

#[test]
fn verify_rejects_other_message() {
    let mut sk = PrivateKey::new(HashAlg::Sha256);
    let pk = sk.public_key();
    let sig = sk.sign(b"the signed message").expect("first signature must succeed");
    assert!(!pk.verify_signature(&sig, b"a different message"));
}

#[test]
fn tamper_sensitivity_first_element() {
    let mut sk = PrivateKey::new(HashAlg::Sha256);
    let pk = sk.public_key();
    let msg = b"tamper with me";
    let mut sig = sk.sign(msg).expect("first signature must succeed");
    sig[0][0] ^= 0x01;
    assert!(!pk.verify_signature(&sig, msg));
}

#[test]
fn tamper_sensitivity_middle_element() {
    let mut sk = PrivateKey::new(HashAlg::Sha512);
    let pk = sk.public_key();
    let msg = b"tamper with me";
    let mut sig = sk.sign(msg).expect("first signature must succeed");
    sig[137][5] ^= 0x80;
    assert!(!pk.verify_signature(&sig, msg));
}

#[test]
fn wrong_key_rejection() {
    let mut sk_a = PrivateKey::new(HashAlg::Sha256);
    let sk_b = PrivateKey::new(HashAlg::Sha256);
    let pk_b = sk_b.public_key();
    let msg = b"signed under key A";
    let sig = sk_a.sign(msg).expect("first signature must succeed");
    assert!(!pk_b.verify_signature(&sig, msg));
}

#[test]
fn signature_with_missing_element_rejected() {
    let mut sk = PrivateKey::new(HashAlg::Sha256);
    let pk = sk.public_key();
    let msg = b"short signature";
    let mut sig = sk.sign(msg).expect("first signature must succeed");
    sig.pop();
    assert!(!pk.verify_signature(&sig, msg));
}

#[test]
fn signature_with_wrong_element_width_rejected() {
    let mut sk = PrivateKey::new(HashAlg::Sha256);
    let pk = sk.public_key();
    let msg = b"wide signature element";
    let mut sig = sk.sign(msg).expect("first signature must succeed");
    sig[3].push(0);
    assert!(!pk.verify_signature(&sig, msg));
}

#[test]
fn signature_has_one_element_per_digest_bit() {
    let mut sk = PrivateKey::new(HashAlg::Sha256);
    let sig = sk.sign(b"shape").expect("first signature must succeed");
    assert_eq!(sig.len(), 256);
    for element in &sig {
        assert_eq!(element.len(), 32);
    }
    let mut sk512 = PrivateKey::new(HashAlg::Sha512);
    let sig512 = sk512.sign(b"shape").expect("first signature must succeed");
    assert_eq!(sig512.len(), 512);
    for element in &sig512 {
        assert_eq!(element.len(), 64);
    }
}

#[test]
fn generated_keys_are_distinct() {
    let sk_a = PrivateKey::new(HashAlg::Sha256);
    let sk_b = PrivateKey::new(HashAlg::Sha256);
    assert!(sk_a == sk_a);
    assert!(sk_a != sk_b);
}

#[test]
fn wipe_erases_secret_material() {
    let mut sk_a = PrivateKey::new(HashAlg::Sha256);
    let mut sk_b = PrivateKey::new(HashAlg::Sha256);
    assert!(sk_a != sk_b);
    sk_a.wipe();
    sk_b.wipe();
    // Two independently generated keys agree byte for byte once both are
    // erased: nothing of the original secrets is left to tell them apart.
    assert!(sk_a == sk_b);
}

#[test]
fn public_key_survives_private_key_use() {
    let mut sk = PrivateKey::new(HashAlg::Sha256);
    let pk_before = sk.public_key();
    let msg = b"derivation does not consume the key";
    let sig = sk.sign(msg).expect("first signature must succeed");
    let pk_after = sk.public_key();
    assert!(pk_before.verify_signature(&sig, msg));
    assert!(pk_after.verify_signature(&sig, msg));
    assert_eq!(pk_before.values(), pk_after.values());
}
