//! ML-DSA-65 keys and signatures, as the bytes they travel as.
use crate::bytes::{bytes_eq, to_vec};
use vstd::prelude::*;

verus! {

/// How many bytes a public key has.
pub const PUBLIC_KEY_BYTES: usize = 1952;

/// How many bytes a signature has.
pub const SIGNATURE_BYTES: usize = 3309;

/// The encoded public key of the key pair that a seed gives.
pub uninterp spec fn ml_dsa_65_public_key(seed: Seq<u8>) -> Seq<u8>;

/// Whether bytes decode to a signature.
pub uninterp spec fn ml_dsa_65_signature_decodes(bytes: Seq<u8>) -> bool;

/// Whether a signature over a message in a context verifies under a public key.
pub uninterp spec fn ml_dsa_65_verifies(
    key: Seq<u8>,
    message: Seq<u8>,
    context: Seq<u8>,
    signature: Seq<u8>,
) -> bool;

/// Whether bytes are a public key in its one encoding. Every row of that many bytes is.
pub open spec fn canonical_key(bytes: Seq<u8>) -> bool {
    bytes.len() == PUBLIC_KEY_BYTES
}

/// Whether bytes are a signature in its one encoding.
pub open spec fn canonical_signature(bytes: Seq<u8>) -> bool {
    bytes.len() == SIGNATURE_BYTES && ml_dsa_65_signature_decodes(bytes)
}

/// Calls `ml_dsa::SigningKey::from_seed`, `Keypair::verifying_key` and
/// `VerifyingKey::encode`: key generation is a function of the seed, and the encoding
/// has the fixed length.
#[verifier::external_body]
fn public_key_of(seed: &[u8; 32]) -> (key: Vec<u8>)
    ensures
        key@ == ml_dsa_65_public_key(seed@),
        key@.len() == PUBLIC_KEY_BYTES,
{
    let key = ml_dsa::SigningKey::<ml_dsa::MlDsa65>::from_seed(&ml_dsa::Seed::from(*seed));
    ml_dsa::Keypair::verifying_key(&key).encode().to_vec()
}

/// Calls `ml_dsa::VerifyingKey::decode` and `VerifyingKey::encode`. A key is packed
/// without unused bits or values, so encoding what was decoded gives the bytes back.
#[verifier::external_body]
fn recode_key(bytes: &[u8]) -> (key: Vec<u8>)
    requires
        bytes@.len() == PUBLIC_KEY_BYTES,
    ensures
        key@ == bytes@,
{
    match ml_dsa::EncodedVerifyingKey::<ml_dsa::MlDsa65>::try_from(bytes) {
        Ok(encoded) => {
            ml_dsa::VerifyingKey::<ml_dsa::MlDsa65>::decode(&encoded).encode().to_vec()
        },
        Err(_) => Vec::new(),
    }
}

/// Calls `ml_dsa::Signature::try_from` and `Signature::encode`. Whether bytes decode is
/// a function of them. What decodes has the fixed length, and encoding it gives the
/// bytes back: decoding refuses hints that are out of order or padded with anything but
/// zeros.
#[verifier::external_body]
fn recode_signature(bytes: &[u8]) -> (signature: Option<Vec<u8>>)
    ensures
        match signature {
            Some(s) => ml_dsa_65_signature_decodes(bytes@) && s@ == bytes@ && bytes@.len()
                == SIGNATURE_BYTES,
            None => !ml_dsa_65_signature_decodes(bytes@),
        },
{
    match ml_dsa::Signature::<ml_dsa::MlDsa65>::try_from(bytes) {
        Ok(signature) => Some(signature.encode().to_vec()),
        Err(_) => None,
    }
}

/// Calls `ml_dsa::VerifyingKey::verify_with_context` on a decoded key and
/// signature. The verdict is a function of the four byte strings; a signature that
/// does not decode does not verify.
#[verifier::external_body]
fn verify_bytes(key: &[u8], message: &[u8], context: &[u8], signature: &[u8]) -> (valid: bool)
    requires
        key@.len() == PUBLIC_KEY_BYTES,
    ensures
        valid == ml_dsa_65_verifies(key@, message@, context@, signature@),
{
    let encoded = ml_dsa::EncodedVerifyingKey::<ml_dsa::MlDsa65>::try_from(key);
    let decoded = ml_dsa::Signature::<ml_dsa::MlDsa65>::try_from(signature);
    match (encoded, decoded) {
        (Ok(e), Ok(s)) => {
            ml_dsa::VerifyingKey::decode(&e).verify_with_context(message, context, &s)
        },
        _ => false,
    }
}

/// Calls `ml_dsa::ExpandedSigningKey::sign_randomized` with `getrandom::SysRng` on
/// the key of `seed`. Which signature comes out depends on the randomness drawn.
/// Each has the fixed length and the one encoding, and verifies under the public
/// key of the seed. Nothing comes out when randomness or a signature is not found
/// or the context is too long; no input is promised a signature.
#[verifier::external_body]
fn sign_bytes(seed: &[u8; 32], message: &[u8], context: &[u8]) -> (signature: Option<Vec<u8>>)
    ensures
        signature is Some ==> {
            let s = signature->0@;
            &&& canonical_signature(s)
            &&& ml_dsa_65_verifies(ml_dsa_65_public_key(seed@), message@, context@, s)
        },
{
    let key = ml_dsa::SigningKey::<ml_dsa::MlDsa65>::from_seed(&ml_dsa::Seed::from(*seed));
    match key.expanded_key().sign_randomized(message, context, &mut getrandom::SysRng) {
        Ok(signature) => Some(signature.encode().to_vec()),
        Err(_) => None,
    }
}

/// Calls `ml_dsa::Generate::try_generate` and `SigningKey::to_seed`: a fresh seed
/// from the operating system's randomness, or nothing when there is none.
#[verifier::external_body]
fn fresh_seed() -> (seed: Option<[u8; 32]>)
{
    match <ml_dsa::SigningKey<ml_dsa::MlDsa65> as ml_dsa::Generate>::try_generate() {
        Ok(key) => Some(key.to_seed().into()),
        Err(_) => None,
    }
}

/// Why bytes are not a public key.
#[derive(Clone, Copy, PartialEq, Eq, Structural, Debug)]
pub enum PublicKeyError {
    Length,
    NonCanonical,
}

/// Why bytes are not a signature.
#[derive(Clone, Copy, PartialEq, Eq, Structural, Debug)]
pub enum SignatureError {
    Malformed,
    NonCanonical,
}

/// Why a member could not generate a key or sign.
#[derive(Clone, Copy, PartialEq, Eq, Structural, Debug)]
pub enum MlDsaError {
    /// The system gave no randomness.
    Randomness,
    /// No signature was produced.
    Signing,
}

/// An ML-DSA-65 public key.
#[derive(Debug)]
pub struct PublicKey {
    bytes: Vec<u8>,
}

impl View for PublicKey {
    type V = Seq<u8>;

    closed spec fn view(&self) -> Seq<u8> {
        self.bytes@
    }
}

impl PublicKey {
    #[verifier::type_invariant]
    pub(crate) closed spec fn inv(self) -> bool {
        canonical_key(self.bytes@)
    }

    /// The canonical encoding.
    pub fn as_bytes(&self) -> (bytes: &[u8])
        ensures
            bytes@ == self@,
            canonical_key(bytes@),
    {
        proof {
            use_type_invariant(self);
        }
        self.bytes.as_slice()
    }

    /// Whether two keys are the same.
    pub fn same(&self, other: &PublicKey) -> (r: bool)
        ensures
            r == (self@ == other@),
    {
        bytes_eq(self.bytes.as_slice(), other.bytes.as_slice())
    }
}

impl Clone for PublicKey {
    fn clone(&self) -> (copy: Self)
        ensures
            copy@ == self@,
    {
        proof {
            use_type_invariant(self);
        }
        PublicKey { bytes: to_vec(self.bytes.as_slice()) }
    }
}

/// The contents of a list of keys.
pub open spec fn public_key_views(keys: Seq<PublicKey>) -> Seq<Seq<u8>> {
    keys.map_values(|k: PublicKey| k@)
}

/// The canonical encoding of a public key.
pub fn encode_public_key(public_key: &PublicKey) -> (bytes: Vec<u8>)
    ensures
        bytes@ == public_key@,
        canonical_key(bytes@),
{
    to_vec(public_key.as_bytes())
}

/// Decodes a public key and insists on its canonical encoding, which bytes of the right
/// length always are.
pub fn decode_public_key(bytes: &[u8]) -> (r: Result<PublicKey, PublicKeyError>)
    ensures
        match r {
            Ok(key) => canonical_key(bytes@) && key@ == bytes@,
            Err(PublicKeyError::Length) => bytes@.len() != PUBLIC_KEY_BYTES,
            Err(PublicKeyError::NonCanonical) => false,
        },
{
    if bytes.len() != PUBLIC_KEY_BYTES {
        return Err(PublicKeyError::Length);
    }
    let again = recode_key(bytes);
    decode_recoded_key(bytes, again.as_slice())
}

/// The key that `bytes` are, where `again` is what decoding and encoding them came
/// to.
fn decode_recoded_key(bytes: &[u8], again: &[u8]) -> (r: Result<PublicKey, PublicKeyError>)
    requires
        bytes@.len() == PUBLIC_KEY_BYTES,
    ensures
        match r {
            Ok(key) => again@ == bytes@ && key@ == bytes@,
            Err(PublicKeyError::NonCanonical) => again@ != bytes@,
            Err(PublicKeyError::Length) => false,
        },
{
    if bytes_eq(again, bytes) {
        Ok(PublicKey { bytes: to_vec(bytes) })
    } else {
        Err(PublicKeyError::NonCanonical)
    }
}

/// An ML-DSA-65 signature.
#[derive(Debug)]
pub struct Signature {
    bytes: Vec<u8>,
}

impl View for Signature {
    type V = Seq<u8>;

    closed spec fn view(&self) -> Seq<u8> {
        self.bytes@
    }
}

impl Signature {
    #[verifier::type_invariant]
    pub(crate) closed spec fn inv(self) -> bool {
        canonical_signature(self.bytes@)
    }

    /// Decodes a signature and insists on its canonical encoding, which bytes that decode
    /// always are.
    pub fn from_bytes(bytes: &[u8]) -> (r: Result<Signature, SignatureError>)
        ensures
            match r {
                Ok(signature) => canonical_signature(bytes@) && signature@ == bytes@,
                Err(SignatureError::Malformed) => bytes@.len() != SIGNATURE_BYTES
                    || !ml_dsa_65_signature_decodes(bytes@),
                Err(SignatureError::NonCanonical) => false,
            },
    {
        if bytes.len() != SIGNATURE_BYTES {
            return Err(SignatureError::Malformed);
        }
        match recode_signature(bytes) {
            None => Err(SignatureError::Malformed),
            Some(again) => if bytes_eq(again.as_slice(), bytes) {
                Ok(Signature { bytes: to_vec(bytes) })
            } else {
                Err(SignatureError::NonCanonical)
            },
        }
    }

    /// The canonical encoding.
    pub fn as_bytes(&self) -> (bytes: &[u8])
        ensures
            bytes@ == self@,
            canonical_signature(bytes@),
    {
        proof {
            use_type_invariant(self);
        }
        self.bytes.as_slice()
    }
}

impl Clone for Signature {
    fn clone(&self) -> (copy: Self)
        ensures
            copy@ == self@,
    {
        proof {
            use_type_invariant(self);
        }
        Signature { bytes: to_vec(self.bytes.as_slice()) }
    }
}

/// The contents of a list of signatures.
pub open spec fn ml_dsa_signature_views(signatures: Seq<Signature>) -> Seq<Seq<u8>> {
    signatures.map_values(|s: Signature| s@)
}

/// One stateless committee member. Signing spends nothing; the secret seed has to
/// be kept across restarts.
pub struct MlDsa65Signer {
    seed: [u8; 32],
}

impl MlDsa65Signer {
    /// The secret seed.
    pub closed spec fn seed(self) -> Seq<u8> {
        self.seed@
    }

    /// Generates a new member identity from the operating system's randomness.
    /// Whether there is any, and which seed it gives, is the system's to say;
    /// [`MlDsa65Signer::from_drawn`] says what either comes to.
    pub fn generate() -> (r: Result<MlDsa65Signer, MlDsaError>)
        ensures
            r is Err ==> r->Err_0 == MlDsaError::Randomness,
    {
        MlDsa65Signer::from_drawn(fresh_seed())
    }

    /// The member identity of a seed that was drawn, or could not be.
    pub fn from_drawn(drawn: Option<[u8; 32]>) -> (r: Result<MlDsa65Signer, MlDsaError>)
        ensures
            match drawn {
                Some(seed) => r is Ok && r->Ok_0.seed() == seed@,
                None => r is Err && r->Err_0 == MlDsaError::Randomness,
            },
    {
        match drawn {
            Some(seed) => Ok(MlDsa65Signer::from_seed(&seed)),
            None => Err(MlDsaError::Randomness),
        }
    }

    /// Restores a member identity from its secret seed.
    pub fn from_seed(seed: &[u8; 32]) -> (signer: MlDsa65Signer)
        ensures
            signer.seed() == seed@,
    {
        MlDsa65Signer { seed: *seed }
    }

    /// The secret seed, for secure and durable storage.
    pub fn export_seed(&self) -> (seed: [u8; 32])
        ensures
            seed@ == self.seed(),
    {
        self.seed
    }

    /// This member's public verification key.
    pub fn public_key(&self) -> (key: PublicKey)
        ensures
            key@ == ml_dsa_65_public_key(self.seed()),
    {
        PublicKey { bytes: public_key_of(&self.seed) }
    }

    /// Randomized signature of a byte message under the empty context. Callers
    /// frame their messages themselves.
    pub fn sign(&self, message: &[u8]) -> (r: Result<Signature, MlDsaError>)
        ensures
            match r {
                Ok(signature) => ml_dsa_65_verifies(
                    ml_dsa_65_public_key(self.seed()),
                    message@,
                    Seq::empty(),
                    signature@,
                ),
                Err(e) => e == MlDsaError::Signing,
            },
    {
        let context: [u8; 0] = [];
        assert(context@ =~= Seq::<u8>::empty());
        match sign_bytes(&self.seed, message, context.as_slice()) {
            Some(bytes) => Ok(Signature { bytes }),
            None => Err(MlDsaError::Signing),
        }
    }
}

/// Verifies one signature under the empty context. Committee membership, quorum,
/// list and freshness are not looked at.
pub fn verify(public_key: &PublicKey, message: &[u8], signature: &Signature) -> (valid: bool)
    ensures
        valid == ml_dsa_65_verifies(public_key@, message@, Seq::empty(), signature@),
{
    let context: [u8; 0] = [];
    assert(context@ =~= Seq::<u8>::empty());
    verify_bytes(public_key.as_bytes(), message, context.as_slice(), signature.as_bytes())
}

} // verus!
