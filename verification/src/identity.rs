//! Identities (algorithm-tagged public keys), their DIDs and node IDs, and
//! Ed25519 keypairs.

use vstd::prelude::*;
use vstd::string::StringExecFns;
use crate::error::MeshError;
use crate::hash::blake3_of;
use crate::primitives::{
    base58_encode, ed25519_generate_secret, ed25519_public_key, ed25519_public_key_of, ed25519_sign,
    ed25519_signature_of, ed25519_verifies, ed25519_verify,
};
use crate::text::base58_text;
use crate::bytes::{bytes_equal, copy_bytes};

verus! {

/// Algorithm ID for Ed25519 signatures.
pub const ALG_ED25519: u8 = 0x01;
/// Algorithm ID for ML-DSA-65 (reserved, post-quantum).
pub const ALG_ML_DSA_65: u8 = 0x02;
/// Algorithm ID for X25519 key exchange.
pub const ALG_X25519: u8 = 0x05;

/// A public identity: algorithm tag + public key bytes.
#[derive(Debug)]
pub struct Identity {
    /// Signature algorithm from the algorithm registry.
    pub algorithm: u8,
    /// Raw public key bytes.
    pub public_key: Vec<u8>,
}

impl View for Identity {
    type V = (u8, Seq<u8>);

    open spec fn view(&self) -> (u8, Seq<u8>) {
        (self.algorithm, self.public_key@)
    }
}

/// The DID of an identity: `did:mesh:` followed by the base-58 text of the
/// algorithm byte and the public key.
pub open spec fn did_of(id: (u8, Seq<u8>)) -> Seq<char> {
    "did:mesh:"@ + base58_text(seq![id.0] + id.1)
}

/// The DHT node ID of an identity: `BLAKE3(public_key)`.
pub open spec fn node_id_of(id: (u8, Seq<u8>)) -> (u8, Seq<u8>) {
    blake3_of(id.1)
}

/// Whether `signature` is a valid signature of `message` by identity `id`:
/// an Ed25519 identity with a 32-byte key and a 64-byte signature that
/// verifies.
pub open spec fn signature_valid(id: (u8, Seq<u8>), message: Seq<u8>, signature: Seq<u8>) -> bool {
    &&& id.0 == ALG_ED25519
    &&& id.1.len() == 32
    &&& signature.len() == 64
    &&& ed25519_verifies(id.1, message, signature)
}

impl Identity {
    /// Create a new identity from raw components.
    pub fn new(algorithm: u8, public_key: Vec<u8>) -> (res: Identity)
        ensures
            res@ == (algorithm, public_key@),
    {
        Identity { algorithm, public_key }
    }

    /// Derive the DID for this identity: `did:mesh:<base58btc(algo || pubkey)>`.
    pub fn did(&self) -> (res: String)
        ensures
            res@ == did_of(self@),
    {
        let mut bytes: Vec<u8> = Vec::new();
        bytes.push(self.algorithm);
        crate::bytes::append_bytes(&mut bytes, self.public_key.as_slice());
        assert(bytes@ =~= seq![self.algorithm] + self.public_key@);
        let encoded = base58_encode(bytes.as_slice());
        let mut did = "did:mesh:".to_owned();
        did.append(encoded.as_str());
        did
    }

    /// Verify a signature over `message` with this identity's public key.
    pub fn verify(&self, message: &[u8], signature: &[u8]) -> (res: Result<(), MeshError>)
        ensures
            res is Ok <==> signature_valid(self@, message@, signature@),
            self.algorithm != ALG_ED25519 ==> res == Err::<(), MeshError>(MeshError::UnknownAlgorithm(self.algorithm)),
            self.algorithm == ALG_ED25519 && !signature_valid(self@, message@, signature@)
                ==> res == Err::<(), MeshError>(MeshError::InvalidSignature),
    {
        if self.algorithm != ALG_ED25519 {
            return Err(MeshError::UnknownAlgorithm(self.algorithm));
        }
        if self.public_key.len() != 32 || signature.len() != 64 {
            return Err(MeshError::InvalidSignature);
        }
        if ed25519_verify(self.public_key.as_slice(), message, signature) {
            Ok(())
        } else {
            Err(MeshError::InvalidSignature)
        }
    }

    /// The DHT node ID for this identity: `BLAKE3(public_key)`.
    pub fn node_id(&self) -> (res: crate::hash::Hash)
        ensures
            res@ == node_id_of(self@),
            res.digest@.len() == 32,
    {
        crate::hash::Hash::blake3(self.public_key.as_slice())
    }

    /// Value equality of two identities.
    pub fn same_as(&self, other: &Identity) -> (res: bool)
        ensures
            res == (self@ == other@),
    {
        self.algorithm == other.algorithm && bytes_equal(&self.public_key, &other.public_key)
    }
}

impl Clone for Identity {
    fn clone(&self) -> (res: Self)
        ensures
            res@ == self@,
    {
        Identity { algorithm: self.algorithm, public_key: copy_bytes(&self.public_key) }
    }
}

impl PartialEq for Identity {
    fn eq(&self, other: &Self) -> (res: bool) {
        self.same_as(other)
    }
}

impl vstd::std_specs::cmp::PartialEqSpecImpl for Identity {
    open spec fn obeys_eq_spec() -> bool {
        true
    }

    open spec fn eq_spec(&self, other: &Self) -> bool {
        self@ == other@
    }
}

impl Eq for Identity {}

/// An Ed25519 keypair for signing, kept as its secret key and the public key
/// derived from it.
pub struct Keypair {
    secret: [u8; 32],
    public: [u8; 32],
}

impl Keypair {
    /// The keypair's invariant: the public key is the one derived from the secret.
    #[verifier::type_invariant]
    spec fn inv(self) -> bool {
        self.public@ == ed25519_public_key_of(self.secret@)
    }

    /// The secret key bytes.
    pub closed spec fn secret_view(&self) -> Seq<u8> {
        self.secret@
    }

    /// The identity of a keypair with this secret key.
    pub open spec fn identity_view(&self) -> (u8, Seq<u8>) {
        (ALG_ED25519, ed25519_public_key_of(self.secret_view()))
    }

    /// Generate a new random Ed25519 keypair.
    pub fn generate() -> (res: Keypair) {
        Keypair::from_bytes(&ed25519_generate_secret())
    }

    /// Create a keypair from a 32-byte secret key.
    pub fn from_bytes(secret: &[u8; 32]) -> (res: Keypair)
        ensures
            res.secret_view() == secret@,
    {
        let public = ed25519_public_key(secret);
        Keypair { secret: *secret, public }
    }

    /// The public identity for this keypair.
    pub fn identity(&self) -> (res: Identity)
        ensures
            res@ == self.identity_view(),
            res.public_key@.len() == 32,
    {
        proof {
            use_type_invariant(self);
        }
        let mut key: Vec<u8> = Vec::with_capacity(32);
        let mut i: usize = 0;
        while i < 32
            invariant
                i <= 32,
                key@ == self.public@.take(i as int),
            decreases 32 - i,
        {
            key.push(self.public[i]);
            i = i + 1;
            assert(key@ =~= self.public@.take(i as int));
        }
        assert(self.public@.take(32) =~= self.public@);
        Identity { algorithm: ALG_ED25519, public_key: key }
    }

    /// Sign a message, returning the 64 signature bytes. The signature
    /// verifies under this keypair's identity.
    pub fn sign(&self, message: &[u8]) -> (res: Vec<u8>)
        ensures
            res@ == ed25519_signature_of(self.secret_view(), message@),
            signature_valid(self.identity_view(), message@, res@),
    {
        proof {
            use_type_invariant(self);
        }
        let sig = ed25519_sign(&self.secret, message);
        let mut out: Vec<u8> = Vec::with_capacity(64);
        let mut i: usize = 0;
        while i < 64
            invariant
                i <= 64,
                out@ == sig@.take(i as int),
            decreases 64 - i,
        {
            out.push(sig[i]);
            i = i + 1;
            assert(out@ =~= sig@.take(i as int));
        }
        assert(sig@.take(64) =~= sig@);
        assert(self.public@.len() == 32);
        out
    }

    /// The raw secret key bytes.
    pub fn secret_bytes(&self) -> (res: [u8; 32])
        ensures
            res@ == self.secret_view(),
    {
        self.secret
    }
}

} // verus!
