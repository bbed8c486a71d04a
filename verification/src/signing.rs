//! The RSA-2048 keypair that makes a program NCA's second signature verify.
//!
//! An NCA header carries two signatures. The first is checked against a modulus built into the
//! console and cannot be produced here. The second is checked against the public key stored in the
//! program's own NPDM, which means a title that supplies both halves of a keypair satisfies it: the
//! public key is patched into the NPDM's ACID, and the private key signs the header.
//!
//! The keypair is therefore not a secret and is not meant to be one. It authenticates nothing: it
//! only closes a loop the console checks internally, and every title built with it shares it. The
//! public half is built in; the private half is handed in as the text of its PEM file, and
//! [`is_advertised_key`] tells whether the two belong together.
//!
//! Both signatures cover the `0x200` bytes of the header starting at its magic, not the header as a
//! whole, so signing happens after every field in that range is final and before the header is
//! encrypted.

use crate::bytes::{all_zero, load, same_bytes};
use crate::crypto::sha256;
use rsa::pkcs1::DecodeRsaPrivateKey;
use rsa::pss::{Signature, SigningKey, VerifyingKey};
use rsa::signature::{RandomizedSigner, SignatureEncoding, Verifier};
use rsa::traits::PublicKeyParts;
use rsa::{BigUint, RsaPrivateKey, RsaPublicKey};
use vstd::prelude::*;

verus! {

/// Bytes in an RSA-2048 signature, and in the modulus that verifies it.
pub const SIGNATURE_SIZE: usize = 0x100;

/// Where the range both signatures cover starts, which is at the header's magic.
pub const SIGNED_START: usize = 0x200;

/// Where the range both signatures cover ends.
pub const SIGNED_END: usize = 0x400;

/// The public modulus, big-endian, as the ACID stores it.
///
/// The ACID expects exactly these `0x100` bytes with no leading-zero trimming.
pub const PUBLIC_MODULUS: [u8; 0x100] = [
    0xbd, 0x54, 0x73, 0xb7, 0xef, 0x26, 0x13, 0xba, 0x04, 0xe1, 0x19, 0x26, 0x4a, 0x1d, 0xf0, 0xb3,
    0x80, 0x86, 0x94, 0x18, 0xfb, 0xba, 0x11, 0xe4, 0x7f, 0x00, 0xa9, 0x3c, 0x5b, 0x27, 0xe1, 0x33,
    0x55, 0x74, 0xb4, 0x68, 0x61, 0x86, 0x35, 0xee, 0x34, 0x18, 0x59, 0x3b, 0x5c, 0x39, 0x83, 0xcc,
    0x70, 0x7c, 0x70, 0x52, 0x98, 0x09, 0xca, 0xca, 0x46, 0x37, 0xc4, 0x06, 0x5c, 0x49, 0x09, 0xa9,
    0x8f, 0x23, 0x20, 0xbb, 0xf6, 0x78, 0xed, 0x23, 0x04, 0x6b, 0x60, 0xec, 0x1a, 0xf6, 0x69, 0xf5,
    0x01, 0xa7, 0xaf, 0xf1, 0x04, 0xe3, 0x13, 0xd9, 0x19, 0x58, 0x55, 0x7e, 0x87, 0xe1, 0xad, 0x54,
    0x03, 0x5f, 0x47, 0xce, 0x67, 0x27, 0xf9, 0x3d, 0x61, 0x74, 0x3c, 0x12, 0xea, 0x80, 0x58, 0xa6,
    0x2f, 0x2b, 0x25, 0x29, 0xb4, 0xfa, 0xaf, 0xb2, 0x07, 0x7e, 0x1d, 0xb9, 0xe3, 0x64, 0x56, 0xc9,
    0x38, 0x78, 0xa6, 0xe3, 0x08, 0xd3, 0x4a, 0x16, 0x2f, 0x97, 0x83, 0x23, 0x41, 0x8b, 0x8d, 0x5d,
    0xe7, 0xb4, 0x8f, 0x0a, 0xb9, 0x1c, 0x9b, 0xff, 0x6d, 0x91, 0xa8, 0x11, 0xa2, 0xb1, 0x3c, 0xbc,
    0xb7, 0x05, 0x3d, 0xc5, 0xdc, 0x60, 0xe8, 0xdd, 0x5c, 0x7d, 0xcb, 0xe1, 0x74, 0xd7, 0xab, 0xbb,
    0x31, 0xc7, 0x2b, 0x40, 0x23, 0xae, 0x9e, 0xad, 0xf4, 0x9c, 0xe1, 0x7b, 0xa7, 0x92, 0x82, 0xe2,
    0x7d, 0xc6, 0xdf, 0x30, 0xe0, 0x77, 0x82, 0x31, 0x82, 0xa1, 0x0b, 0x3a, 0x19, 0xf6, 0xa2, 0x01,
    0x4d, 0xd3, 0xc3, 0x17, 0xb0, 0x43, 0xb8, 0x5d, 0xa2, 0xab, 0xe3, 0xe4, 0x69, 0xbd, 0x57, 0x21,
    0xea, 0xcd, 0xe0, 0xc5, 0xe6, 0x65, 0x13, 0x96, 0x67, 0x9d, 0xd8, 0x8e, 0xa6, 0xe0, 0x42, 0xf1,
    0x6d, 0x5d, 0x5b, 0xd2, 0x55, 0x20, 0xb9, 0x1e, 0x59, 0x13, 0x3c, 0x17, 0xc2, 0x25, 0x56, 0xc7,
];

/// The public exponent that goes with [`PUBLIC_MODULUS`], big-endian: 65537.
pub const PUBLIC_EXPONENT: [u8; 3] = [0x01, 0x00, 0x01];

/// The range of the header that opens `image` that both signatures cover.
pub open spec fn signed_range(image: Seq<u8>) -> Seq<u8> {
    image.subrange(SIGNED_START as int, SIGNED_END as int)
}

/// The second signature field of the header that opens `image`.
pub open spec fn stored_signature(image: Seq<u8>) -> Seq<u8> {
    image.subrange(SIGNATURE_SIZE as int, SIGNED_START as int)
}

/// The salt and the digest that `rsa` recovers from an RSASSA-PSS signature over SHA-256 with the
/// public key that `modulus` and `exponent`, both big-endian, form, if the two form a key and the
/// signature opens to a well-formed encoding under it.
pub uninterp spec fn pss_opened(
    modulus: Seq<u8>,
    exponent: Seq<u8>,
    signature: Seq<u8>,
) -> Option<(Seq<u8>, Seq<u8>)>;

/// The modulus and exponent, both big-endian, of the RSA private key that `rsa` reads from `pem`,
/// if it reads one.
pub uninterp spec fn rsa_public_half(pem: Seq<char>) -> Option<(Seq<u8>, Seq<u8>)>;

/// What an RSASSA-PSS signature of `message` salted with `salt` holds the SHA-256 digest of: eight
/// zeros, the message's own digest, and the salt.
pub open spec fn pss_input(message: Seq<u8>, salt: Seq<u8>) -> Seq<u8> {
    seq![0u8, 0, 0, 0, 0, 0, 0, 0] + sha256(message) + salt
}

/// Whether `signature` is an RSASSA-PSS signature of `message` over SHA-256 under the public key
/// that `modulus` and `exponent`, both big-endian, form: it opens to a salt and a digest, and the
/// digest is the one the message gives with that salt.
pub open spec fn pss_verifies(
    modulus: Seq<u8>,
    exponent: Seq<u8>,
    message: Seq<u8>,
    signature: Seq<u8>,
) -> bool {
    match pss_opened(modulus, exponent, signature) {
        Some((salt, digest)) => sha256(pss_input(message, salt)) == digest,
        None => false,
    }
}

/// The salt that `signature` carries under the key an NPDM patched here advertises.
pub open spec fn advertised_salt(signature: Seq<u8>) -> Seq<u8> {
    match pss_opened(PUBLIC_MODULUS@, PUBLIC_EXPONENT@, signature) {
        Some((salt, _)) => salt,
        None => seq![],
    }
}

/// Whether `signature` verifies over `message` under the key an NPDM patched here advertises.
pub open spec fn advertised_key_verifies(message: Seq<u8>, signature: Seq<u8>) -> bool {
    pss_verifies(PUBLIC_MODULUS@, PUBLIC_EXPONENT@, message, signature)
}

/// Whether `signature` verifies over `message` under the public half of the key in `pem`.
pub open spec fn verifies_under(pem: Seq<char>, message: Seq<u8>, signature: Seq<u8>) -> bool {
    match rsa_public_half(pem) {
        Some((modulus, exponent)) => pss_verifies(modulus, exponent, message, signature),
        None => false,
    }
}

/// Whether `pem` holds the private half of the key an NPDM patched here advertises.
pub open spec fn is_advertised(pem: Seq<char>) -> bool {
    rsa_public_half(pem) == Some((PUBLIC_MODULUS@, PUBLIC_EXPONENT@))
}

/// How many bytes the modulus of the key in `pem` takes, and with it each signature the key makes.
pub open spec fn signature_len(pem: Seq<char>) -> Option<nat> {
    match rsa_public_half(pem) {
        Some((modulus, _)) => Some(modulus.len()),
        None => None,
    }
}

/// Whether signing with the key in `pem` may fail with `error`: a key that is not read fails to
/// parse, and one that is read is refused or makes signatures of another length than the field's.
pub open spec fn signing_may_fail(pem: Seq<char>, error: SignError) -> bool {
    match error {
        SignError::ParseKey => rsa_public_half(pem) is None,
        SignError::Refused => rsa_public_half(pem) is Some,
        SignError::UnexpectedLength { length } => signature_len(pem) == Some(length as nat)
            && length != SIGNATURE_SIZE,
    }
}

/// Checks a signature: `rsa::pss::VerifyingKey<sha2::Sha256>` over `rsa::RsaPublicKey::new`, through
/// `Verifier::verify`.
///
/// Trusted: what the signature opens to depends on the key and the signature alone, and the message
/// enters only through the last step, which hashes eight zeros, the message's digest and the
/// recovered salt and compares the result with the recovered digest. A modulus and exponent that
/// form no key open nothing.
#[verifier::external_body]
fn pss_verify(modulus: &[u8], exponent: &[u8], message: &[u8], signature: &[u8]) -> (ok: bool)
    ensures
        ok == match pss_opened(modulus@, exponent@, signature@) {
            Some((salt, digest)) => sha256(pss_input(message@, salt)) == digest,
            None => false,
        },
{
    let n = BigUint::from_bytes_be(modulus);
    let e = BigUint::from_bytes_be(exponent);
    match (RsaPublicKey::new(n, e), Signature::try_from(signature)) {
        (Ok(key), Ok(signature)) => {
            VerifyingKey::<sha2::Sha256>::new(key).verify(message, &signature).is_ok()
        },
        _ => false,
    }
}

/// Reads the public half of a private key: `rsa::RsaPrivateKey::from_pkcs1_pem`, then
/// `PublicKeyParts::n` and `PublicKeyParts::e`.
///
/// Trusted: what is read, and whether anything is, depends on the text alone.
#[verifier::external_body]
fn public_half(pem: &str) -> (out: Option<(Vec<u8>, Vec<u8>)>)
    ensures
        match out {
            Some((n, e)) => rsa_public_half(pem@) == Some((n@, e@)),
            None => rsa_public_half(pem@) is None,
        },
{
    match RsaPrivateKey::from_pkcs1_pem(pem) {
        Ok(key) => Some((key.n().to_bytes_be(), key.e().to_bytes_be())),
        Err(_) => None,
    }
}

/// Signs `message`: `rsa::pss::SigningKey<sha2::Sha256>` over `rsa::RsaPrivateKey::from_pkcs1_pem`,
/// through `RandomizedSigner::try_sign_with_rng` with `rand::thread_rng`. The values the crate
/// precomputes of a key's factors are dropped first, with `RsaPrivateKey::clear_precomputed`: with
/// them, a key whose first factor is far smaller than its second keeps the crate busy for ever.
///
/// Trusted: the key fails to parse exactly when [`rsa_public_half`] reads nothing from it, a
/// signature that comes out is padded to the bytes the modulus takes, and one of RSA-2048 size
/// verifies under the key's public half and is not all zeros, because the crate raises it to the
/// public exponent again and compares the result with the encoded message, which ends in a fixed
/// byte. Whether a key that is read signs at all rests on its factors, which the public half does
/// not show, so that is left unsaid. The signature itself is randomised, so nothing ties
/// two signatures of one message together. The salt comes from the operating system's random source,
/// without which `rand::thread_rng` cannot start and panics.
#[verifier::external_body]
fn pss_sign(pem: &str, message: &[u8]) -> (out: Result<Vec<u8>, SignError>)
    ensures
        match out {
            Ok(signature) => {
                &&& signature_len(pem@) == Some(signature@.len())
                &&& signature@.len() == SIGNATURE_SIZE ==> verifies_under(
                    pem@,
                    message@,
                    signature@,
                ) && !all_zero(signature@)
            },
            Err(SignError::ParseKey) => rsa_public_half(pem@) is None,
            Err(error) => rsa_public_half(pem@) is Some && error == SignError::Refused,
        },
{
    let mut key = RsaPrivateKey::from_pkcs1_pem(pem).map_err(|_| SignError::ParseKey)?;
    key.clear_precomputed();
    let signing_key = SigningKey::<sha2::Sha256>::new(key);
    match signing_key.try_sign_with_rng(&mut rand::thread_rng(), message) {
        Ok(signature) => Ok(signature.to_bytes().into_vec()),
        Err(_) => Err(SignError::Refused),
    }
}

/// The public modulus to patch into an NPDM's ACID, so the header signature below verifies.
pub fn acid_public_key() -> (key: &'static [u8; 0x100])
    ensures
        key@ == PUBLIC_MODULUS@,
{
    &PUBLIC_MODULUS
}

/// Whether `private_key_pem` holds the private half of the key [`acid_public_key`] gives.
pub fn is_advertised_key(private_key_pem: &str) -> (matches: bool)
    ensures
        matches == is_advertised(private_key_pem@),
{
    match public_half(private_key_pem) {
        Some((n, e)) => same_bytes(n.as_slice(), &PUBLIC_MODULUS) && same_bytes(
            e.as_slice(),
            &PUBLIC_EXPONENT,
        ),
        None => false,
    }
}

/// Sign `data` with RSA-2048-PSS over SHA-256, using the key in `private_key_pem`.
///
/// PSS is randomised, so two signatures over the same header differ. That is the scheme the console
/// checks and not a choice available here, and it is the one thing in a build that is not
/// reproducible byte for byte.
///
/// # Errors
///
/// Returns an error if the key cannot be parsed or the signature cannot be produced. Neither depends
/// on `data`, so a failure here means the key is unusable rather than the title.
pub fn sign_header(private_key_pem: &str, data: &[u8]) -> (out: Result<[u8; 0x100], SignError>)
    ensures
        out == Err::<[u8; 0x100], SignError>(SignError::ParseKey) <==> rsa_public_half(
            private_key_pem@,
        ) is None,
        match out {
            Ok(signature) => {
                &&& signature_len(private_key_pem@) == Some(SIGNATURE_SIZE as nat)
                &&& verifies_under(private_key_pem@, data@, signature@)
                &&& !all_zero(signature@)
            },
            Err(error) => signing_may_fail(private_key_pem@, error),
        },
        is_advertised(private_key_pem@) && out is Ok ==> advertised_key_verifies(data@, out->Ok_0@),
{
    match pss_sign(private_key_pem, data) {
        Ok(signature) => {
            let produced = signature.as_slice();
            finished_signature(produced)
        },
        Err(error) => Err(error),
    }
}

/// The signature `produced` holds, if it is the size an RSA-2048 signature must be.
pub fn finished_signature(produced: &[u8]) -> (out: Result<[u8; 0x100], SignError>)
    ensures
        match out {
            Ok(signature) => produced@.len() == SIGNATURE_SIZE && signature@ == produced@,
            Err(error) => produced@.len() != SIGNATURE_SIZE && error
                == (SignError::UnexpectedLength { length: produced.len() }),
        },
{
    if produced.len() != SIGNATURE_SIZE {
        return Err(SignError::UnexpectedLength { length: produced.len() });
    }
    let signature = load::<0x100>(produced, 0);
    assert(produced@.subrange(0, 0x100) =~= produced@);
    Ok(signature)
}

/// Error returned by [`sign_header`].
#[derive(Debug, Clone, Copy, PartialEq, Eq, Structural)]
pub enum SignError {
    /// The private key could not be parsed.
    ParseKey,
    /// The key was read but cannot sign, because it is too small or inconsistent.
    Refused,
    /// The signature is not the size an RSA-2048 signature must be.
    ///
    /// Holds the length that was produced.
    UnexpectedLength {
        /// The length that was produced.
        length: usize,
    },
}

/// Check `signature` over `data` with the key [`acid_public_key`] advertises.
///
/// # Errors
///
/// Returns an error if the signature does not verify: the data was altered after it was signed, or
/// signed with a different key.
pub fn verify_header(data: &[u8], signature: &[u8; 0x100]) -> (out: Result<(), VerifyError>)
    ensures
        out is Ok <==> advertised_key_verifies(data@, signature@),
{
    if pss_verify(&PUBLIC_MODULUS, &PUBLIC_EXPONENT, data, signature) {
        Ok(())
    } else {
        Err(VerifyError)
    }
}

/// The signature does not verify under the advertised key.
#[derive(Debug, Clone, Copy, PartialEq, Eq, Structural)]
pub struct VerifyError;

} // verus!
