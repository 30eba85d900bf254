use mars_mesh::error::MeshError;
use mars_mesh::identity::{Identity, Keypair, ALG_ED25519};
#[test]
fn keypair_generate_and_identity() {
    let kp = Keypair::generate();
    let id = kp.identity();
    assert_eq!(id.algorithm, ALG_ED25519);
    assert_eq!(id.public_key.len(), 32);
}

#[test]
fn did_derivation() {
    let kp = Keypair::generate();
    let id = kp.identity();
    let did = id.did();
    assert!(did.starts_with("did:mesh:"));
    // DID should be deterministic
    assert_eq!(did, id.did());
}

#[test]
fn sign_and_verify() {
    let kp = Keypair::generate();
    let id = kp.identity();
    let message = b"hello mesh protocol";
    let sig = kp.sign(message);
    assert!(id.verify(message, &sig).is_ok());
}

#[test]
fn verify_wrong_message() {
    let kp = Keypair::generate();
    let id = kp.identity();
    let sig = kp.sign(b"hello");
    assert!(id.verify(b"wrong", &sig).is_err());
}

#[test]
fn verify_wrong_key() {
    let kp1 = Keypair::generate();
    let kp2 = Keypair::generate();
    let sig = kp1.sign(b"hello");
    assert!(kp2.identity().verify(b"hello", &sig).is_err());
}

#[test]
fn keypair_from_bytes_deterministic() {
    let kp = Keypair::generate();
    let secret = kp.secret_bytes();
    let kp2 = Keypair::from_bytes(&secret);
    assert_eq!(kp.identity(), kp2.identity());
}

#[test]
fn node_id_deterministic() {
    let kp = Keypair::generate();
    let id = kp.identity();
    let n1 = id.node_id();
    let n2 = id.node_id();
    assert_eq!(n1, n2);
}

#[test]
fn did_roundtrip_decode() {
    let kp = Keypair::generate();
    let id = kp.identity();
    let did = id.did();
    // Extract the base58 part
    let encoded = did.strip_prefix("did:mesh:").unwrap();
    let decoded = bs58::decode(encoded).into_vec().unwrap();
    assert_eq!(decoded[0], ALG_ED25519);
    assert_eq!(&decoded[1..], &id.public_key);
}

#[test]
fn verify_unknown_algorithm() {
    let id = Identity::new(0x99, vec![0u8; 32]);
    let result = id.verify(b"message", &[0u8; 64]);
    assert!(matches!(result, Err(MeshError::UnknownAlgorithm(0x99))));
}

#[test]
fn verify_wrong_key_length() {
    // Ed25519 key that's the wrong length
    let id = Identity::new(ALG_ED25519, vec![0u8; 16]); // too short
    let result = id.verify(b"message", &[0u8; 64]);
    assert!(matches!(result, Err(MeshError::InvalidSignature)));
}

#[test]
fn did_format_correct() {
    let kp = Keypair::generate();
    let id = kp.identity();
    let did = id.did();
    // Must start with did:mesh:
    assert!(did.starts_with("did:mesh:"));
    // Decode and verify format: algo_byte || pubkey_bytes
    let encoded = did.strip_prefix("did:mesh:").unwrap();
    let decoded = bs58::decode(encoded).into_vec().unwrap();
    assert_eq!(decoded.len(), 33); // 1 byte algo + 32 bytes pubkey
    assert_eq!(decoded[0], ALG_ED25519);
}

#[test]
fn did_of_known_key() {
    let id = Identity::new(ALG_ED25519, vec![0u8; 32]);
    // algorithm byte 0x01 followed by 32 zero bytes, in base 58.
    let expected = format!("did:mesh:{}", bs58::encode([&[1u8][..], &[0u8; 32][..]].concat()).into_string());
    assert_eq!(id.did(), expected);
}

#[test]
fn node_id_is_blake3_of_public_key() {
    let kp = Keypair::from_bytes(&[7u8; 32]);
    let id = kp.identity();
    assert_eq!(id.node_id(), mars_mesh::hash::Hash::blake3(&id.public_key));
}

#[test]
fn unknown_algorithm_message() {
    let id = Identity::new(0x99, vec![0u8; 32]);
    let err = id.verify(b"m", &[0u8; 64]).unwrap_err();
    assert_eq!(err.message(), "unknown signature algorithm: 0x99");
}

#[test]
fn signing_is_deterministic() {
    let kp = Keypair::from_bytes(&[3u8; 32]);
    assert_eq!(kp.sign(b"abc"), kp.sign(b"abc"));
    assert_eq!(kp.secret_bytes(), [3u8; 32]);
}
