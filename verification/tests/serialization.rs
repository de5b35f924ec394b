use lamport_sigs::hash_bytes;
use lamport_sigs::select_preimages;
use lamport_sigs::HashAlg;
use lamport_sigs::LamportError;
use lamport_sigs::PrivateKey;
use lamport_sigs::PublicKey;

fn hex_to_bytes(hex: &str) -> Vec<u8> {
    let digits: Vec<u8> = hex
        .bytes()
        .map(|c| match c {
            b'0'..=b'9' => c - b'0',
            b'a'..=b'f' => c - b'a' + 10,
            _ => panic!("not a hex digit"),
        })
        .collect();
    digits.chunks(2).map(|pair| (pair[0] << 4) | pair[1]).collect()
}

#[test]
fn serialization_round_trip_sha256() {
    let sk = PrivateKey::new(HashAlg::Sha256);
    let pk = sk.public_key();
    let bytes = pk.to_bytes();
    assert_eq!(bytes.len(), 2 * 256 * 32);
    let restored = PublicKey::from_vec(bytes, HashAlg::Sha256).expect("exact length must parse");
    assert_eq!(restored.algorithm(), pk.algorithm());
    assert_eq!(restored.values(), pk.values());
}

#[test]
fn serialization_round_trip_sha512() {
    let sk = PrivateKey::new(HashAlg::Sha512);
    let pk = sk.public_key();
    let bytes = pk.to_bytes();
    assert_eq!(bytes.len(), 2 * 512 * 64);
    let restored = PublicKey::from_vec(bytes, HashAlg::Sha512).expect("exact length must parse");
    assert_eq!(restored.algorithm(), pk.algorithm());
    assert_eq!(restored.values(), pk.values());
}

#[test]
fn restored_key_still_verifies() {
    let mut sk = PrivateKey::new(HashAlg::Sha256);
    let pk = sk.public_key();
    let msg = b"verify with a deserialized key";
    let sig = sk.sign(msg).expect("first signature must succeed");
    let restored =
        PublicKey::from_vec(pk.to_bytes(), HashAlg::Sha256).expect("exact length must parse");
    assert!(restored.verify_signature(&sig, msg));
}

#[test]
fn malformed_input_rejection() {
    let exact = 2 * 256 * 32;
    for len in [0, 1, exact - 1, exact + 1, exact / 2] {
        let buffer = vec![0u8; len];
        let r = PublicKey::from_vec(buffer, HashAlg::Sha256);
        assert!(matches!(r, Err(LamportError::MalformedPublicKeyBytes)));
    }
    // A buffer sized for one algorithm is malformed for the other.
    let sha256_sized = vec![0u8; exact];
    let r = PublicKey::from_vec(sha256_sized, HashAlg::Sha512);
    assert!(matches!(r, Err(LamportError::MalformedPublicKeyBytes)));
}

#[test]
fn from_vec_splits_halves_into_chunks() {
    // A synthetic buffer whose byte values encode their position: block i of
    // the zero half holds 2*i in every byte, block i of the one half 2*i+1.
    let mut buffer = Vec::new();
    for i in 0..256u32 {
        buffer.extend(std::iter::repeat((2 * i % 256) as u8).take(32));
    }
    for i in 0..256u32 {
        buffer.extend(std::iter::repeat(((2 * i + 1) % 256) as u8).take(32));
    }
    let pk = PublicKey::from_vec(buffer, HashAlg::Sha256).expect("exact length must parse");
    let (zero_values, one_values) = pk.values();
    assert_eq!(zero_values.len(), 256);
    assert_eq!(one_values.len(), 256);
    for i in 0..256usize {
        assert_eq!(zero_values[i], vec![(2 * i % 256) as u8; 32]);
        assert_eq!(one_values[i], vec![((2 * i + 1) % 256) as u8; 32]);
    }
}

#[test]
fn selection_follows_digest_bits() {
    // Digest byte 0b0000_0101 has bits 0 and 2 set (least significant bit
    // first), so those positions reveal one-preimages and the rest
    // zero-preimages.
    let zero_values: Vec<Vec<u8>> = (0..8u8).map(|i| vec![100 + i]).collect();
    let one_values: Vec<Vec<u8>> = (0..8u8).map(|i| vec![200 + i]).collect();
    let digest = vec![0b0000_0101u8];
    let revealed = select_preimages(&zero_values, &one_values, &digest);
    let expected: Vec<Vec<u8>> = vec![
        vec![200],
        vec![101],
        vec![202],
        vec![103],
        vec![104],
        vec![105],
        vec![106],
        vec![107],
    ];
    assert_eq!(revealed, expected);
}

#[test]
fn selection_covers_two_bytes() {
    let zero_values: Vec<Vec<u8>> = (0..16u8).map(|i| vec![i]).collect();
    let one_values: Vec<Vec<u8>> = (0..16u8).map(|i| vec![128 + i]).collect();
    // 0xff: all eight bits of the first byte set; 0x80: only bit 7 of the
    // second byte, which is position 15 overall.
    let digest = vec![0xffu8, 0x80u8];
    let revealed = select_preimages(&zero_values, &one_values, &digest);
    assert_eq!(revealed.len(), 16);
    for i in 0..8usize {
        assert_eq!(revealed[i], vec![128 + i as u8]);
    }
    for i in 8..15usize {
        assert_eq!(revealed[i], vec![i as u8]);
    }
    assert_eq!(revealed[15], vec![128 + 15u8]);
}

#[test]
fn sha256_matches_known_vector() {
    let digest = hash_bytes(&HashAlg::Sha256, b"abc");
    assert_eq!(
        digest,
        hex_to_bytes("ba7816bf8f01cfea414140de5dae2223b00361a396177a9cb410ff61f20015ad")
    );
    let empty = hash_bytes(&HashAlg::Sha256, b"");
    assert_eq!(
        empty,
        hex_to_bytes("e3b0c44298fc1c149afbf4c8996fb92427ae41e4649b934ca495991b7852b855")
    );
}

#[test]
fn sha512_matches_known_vector() {
    let digest = hash_bytes(&HashAlg::Sha512, b"abc");
    assert_eq!(
        digest,
        hex_to_bytes(
            "ddaf35a193617abacc417349ae20413112e6fa4e89a97ea20a9eeee64b55d39a2192992a274fc1a836ba3c23a3feebbd454d4423643ce80e2a9ac94fa54ca49f"
        )
    );
}

#[test]
fn public_key_sizes_follow_hash_size() {
    let pk256 = PrivateKey::new(HashAlg::Sha256).public_key();
    let (zero256, one256) = pk256.values();
    assert_eq!(zero256.len(), 256);
    assert_eq!(one256.len(), 256);
    assert!(zero256.iter().all(|h| h.len() == 32));
    assert!(one256.iter().all(|h| h.len() == 32));

    let pk512 = PrivateKey::new(HashAlg::Sha512).public_key();
    let (zero512, one512) = pk512.values();
    assert_eq!(zero512.len(), 512);
    assert_eq!(one512.len(), 512);
    assert!(zero512.iter().all(|h| h.len() == 64));
    assert!(one512.iter().all(|h| h.len() == 64));
}

#[test]
fn public_key_clone_is_equal() {
    let sk = PrivateKey::new(HashAlg::Sha256);
    let pk = sk.public_key();
    let copy = pk.clone();
    assert_eq!(copy.algorithm(), pk.algorithm());
    assert_eq!(copy.values(), pk.values());
}

#[test]
fn from_conversion_matches_to_bytes() {
    let sk = PrivateKey::new(HashAlg::Sha256);
    let pk = sk.public_key();
    let flat = pk.to_bytes();
    let converted: Vec<u8> = pk.into();
    assert_eq!(converted, flat);
}
