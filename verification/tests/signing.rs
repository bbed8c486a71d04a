use nxarchive::signing::{
    acid_public_key, finished_signature, is_advertised_key, sign_header, verify_header, SignError,
    SIGNATURE_SIZE,
};
use rsa::pkcs1::{EncodeRsaPrivateKey, LineEnding};
use rsa::traits::PublicKeyParts;
use rsa::{BigUint, RsaPrivateKey};

/// One prime of a 2048-bit key made for these tests alone, in hex.
const FIRST_PRIME: &str = "dcbcb131d87f0f7c8d824f567ee87234825be5d17bf3c044a7cb8fac6561ed8a\
68499f17da27a8628367f9add595f72a0fc660edd9745360b37cb6a53719afbc\
5f8ac2dba273f100a3e180e4f2cbd149e4d7bdc1b2254a0f801e3739e293bdbe\
8df43581183c68b92a5e6db78fde7f1e0ebdbfefe4f20abe101c3605940a2a89";

/// The other prime of the same key, in hex.
const SECOND_PRIME: &str = "fcd67d28d44dec98267f681032a335d424436461075250b24ac2f1dfd287ebb6\
f0b95104ab2c264283ad4ca73cf486c33f88ba3ba9b931ece1b25f71885e7697\
8bdf6f60ad1cf40f1b23fbfb274350a9bae3af145cd89d284c843831a430e09d\
846e5b2d16b5b5489aa87c750941530ddaf98909a1adf2b0f9daaea933a5e13f";

/// One prime of a key half as wide, in hex.
const HALF_FIRST: &str = "da9da8cf06bbfed588af182a1014d91fb58b06b48e2f0dcdaef6731f0a5a17b7\
e8a06ae9fddd6aefa6a0160509613f7a477c774c0c8e209d210ac5f921368e3f";

/// The other prime of that key, in hex.
const HALF_SECOND: &str = "c2ec61e515688fcae45220f9b3b616bef336d8542700b59470c1ca484f2aeffd\
177d503d32fa43fa6c47f207d666ab4e8609b8929ce2823dfbefc330cc2bf707";

/// The key those primes make.
fn test_key() -> RsaPrivateKey {
    let p = BigUint::parse_bytes(FIRST_PRIME.as_bytes(), 16).expect("the prime is hex");
    let q = BigUint::parse_bytes(SECOND_PRIME.as_bytes(), 16).expect("the prime is hex");
    RsaPrivateKey::from_p_q(p, q, BigUint::from(65537u32)).expect("the primes make a key")
}

/// The key those primes make, as the text of a PEM file.
fn test_key_pem() -> String {
    test_key().to_pkcs1_pem(LineEnding::LF).expect("the key encodes").to_string()
}

#[test]
fn sign_header_produces_a_full_width_signature() {
    let header = [0x42u8; 0x200];
    let signature = sign_header(&test_key_pem(), &header).expect("the key should sign");
    assert_eq!(signature.len(), SIGNATURE_SIZE);
}

#[test]
fn sign_header_produces_a_signature_its_own_public_half_verifies() {
    let header = [0x42u8; 0x200];
    let signature = sign_header(&test_key_pem(), &header).expect("the key should sign");

    let verifying_key =
        rsa::pss::VerifyingKey::<sha2::Sha256>::new(test_key().to_public_key());
    let stored = rsa::pss::Signature::try_from(signature.as_slice())
        .expect("a 0x100-byte signature should convert");
    let result = rsa::signature::Verifier::verify(&verifying_key, &header, &stored);
    assert!(result.is_ok(), "the signature must verify under the key's public half");
    assert_ne!(signature, [0u8; 0x100]);

    let mut altered = header;
    altered[0x10] ^= 0xFF;
    let result = rsa::signature::Verifier::verify(&verifying_key, &altered, &stored);
    assert!(result.is_err(), "an altered header must not verify");
}

#[test]
fn sign_header_signs_the_same_header_differently_each_time() {
    let header = [0x42u8; 0x200];
    let first = sign_header(&test_key_pem(), &header).expect("the key should sign");
    let second = sign_header(&test_key_pem(), &header).expect("the key should sign");
    assert_ne!(first, second, "the scheme is randomised");
}

#[test]
fn sign_header_with_text_that_is_no_key_fails_to_parse() {
    let result = sign_header("not a key", &[0x42u8; 0x200]);
    assert_eq!(result, Err(SignError::ParseKey));
}

#[test]
fn sign_header_with_a_key_of_another_size_reports_the_length() {
    // Two primes of half the width make a 1024-bit key, whose signatures are half as long.
    let p = BigUint::parse_bytes(HALF_FIRST.as_bytes(), 16).expect("the prime is hex");
    let q = BigUint::parse_bytes(HALF_SECOND.as_bytes(), 16).expect("the prime is hex");
    let key = RsaPrivateKey::from_p_q(p, q, BigUint::from(65537u32)).expect("the primes make a key");
    let pem = key.to_pkcs1_pem(LineEnding::LF).expect("the key encodes").to_string();
    let result = sign_header(&pem, &[0x42u8; 0x200]);
    assert_eq!(result, Err(SignError::UnexpectedLength { length: 0x80 }));
}

/// A prime that makes a full-width key together with three, in hex.
const LONG_PRIME: &str = "262b98132f360b623faa7ec80b6bcde9763ac96b0dbff687cf981282a1ff8276\
e86b666de275f7fc4f3f71973eb69b7dc040044ad683089ec26ebb711380b463\
47bc0445722069841910f6d6d0c9606b3a2e97989ee94dde767ba7bc1e753cc4\
07f3718c25e0b0d46a449404b3e437383fe495db7e426376e5e2a656b864a520\
84bd36f9d54c74f9d4f64d64a61d3232a2d98b8c011ad45296c65cc367fbeac0\
d6a4e32a371028833c86b3d9415cdcfb8adc3a3ea74e7b92ae8530340a1a2cf5\
354a986f9694fc43d498c8a8a1ae46e7f9934a38308417cff5f788c9d36ffdee\
38e4cf9c9b9fee9fb502e87f205cf2e8d570bbfaab5631dc2dde6ea00d158303";

#[test]
fn sign_header_with_a_lopsided_key_still_returns() {
    let q = BigUint::parse_bytes(LONG_PRIME.as_bytes(), 16).expect("the prime is hex");
    let key = RsaPrivateKey::from_p_q(BigUint::from(3u32), q, BigUint::from(65537u32))
        .expect("the primes make a key");
    let pem = key.to_pkcs1_pem(LineEnding::LF).expect("the key encodes").to_string();
    let header = [0x42u8; 0x200];
    let signature = sign_header(&pem, &header).expect("the key should sign");

    let verifying_key = rsa::pss::VerifyingKey::<sha2::Sha256>::new(key.to_public_key());
    let stored = rsa::pss::Signature::try_from(signature.as_slice())
        .expect("a 0x100-byte signature should convert");
    assert!(rsa::signature::Verifier::verify(&verifying_key, &header, &stored).is_ok());
}

/// The mask RSASSA-PSS derives from `seed`, `len` bytes long.
fn mask(seed: &[u8], len: usize) -> Vec<u8> {
    let mut out = Vec::new();
    let mut counter: u32 = 0;
    while out.len() < len {
        out.extend_from_slice(&digest(&[seed, &counter.to_be_bytes()[..]].concat()));
        counter += 1;
    }
    out.truncate(len);
    out
}

/// The SHA-256 digest of `data`.
fn digest(data: &[u8]) -> [u8; 0x20] {
    <sha2::Sha256 as sha2::Digest>::digest(data).into()
}

#[test]
fn a_signature_opens_to_a_salt_and_the_digest_the_header_gives_with_it() {
    let header = [0x42u8; 0x200];
    let signature = sign_header(&test_key_pem(), &header).expect("the key should sign");
    let key = test_key();
    let opened = BigUint::from_bytes_be(&signature).modpow(key.e(), key.n()).to_bytes_be();
    let mut encoded = vec![0u8; SIGNATURE_SIZE - opened.len()];
    encoded.extend_from_slice(&opened);
    assert_eq!(encoded[0xFF], 0xBC);

    let held = &encoded[0xDF..0xFF];
    let masked = &encoded[..0xDF];
    let block: Vec<u8> = masked.iter().zip(mask(held, 0xDF)).map(|(a, b)| a ^ b).collect();
    let salt = &block[0xBF..];
    let hashed = |header: &[u8]| digest(&[&[0u8; 8][..], &digest(header)[..], salt].concat());
    assert_eq!(hashed(&header)[..], held[..]);

    let mut altered = header;
    altered[0x10] ^= 0xFF;
    assert_ne!(hashed(&altered)[..], held[..], "an altered header has another digest");
}

#[test]
fn sign_header_with_a_key_too_small_for_the_scheme_is_refused() {
    let p = BigUint::from(0xFFFF_FFFBu32);
    let q = BigUint::from(0xFFFF_FFEFu32);
    let key = RsaPrivateKey::from_p_q(p, q, BigUint::from(65537u32)).expect("the primes make a key");
    let pem = key.to_pkcs1_pem(LineEnding::LF).expect("the key encodes").to_string();
    let result = sign_header(&pem, &[0x42u8; 0x200]);
    assert_eq!(result, Err(SignError::Refused));
}

#[test]
fn finished_signature_takes_nothing_but_the_full_width() {
    assert_eq!(finished_signature(&[7u8; 0x100]), Ok([7u8; 0x100]));
    assert_eq!(
        finished_signature(&[7u8; 0xFF]),
        Err(SignError::UnexpectedLength { length: 0xFF })
    );
}

#[test]
fn verify_header_refuses_a_signature_of_another_key() {
    let header = [0x42u8; 0x200];
    let signature = sign_header(&test_key_pem(), &header).expect("the key should sign");
    assert!(verify_header(&header, &signature).is_err());
    assert!(verify_header(&header, &[0u8; 0x100]).is_err());
}

#[test]
fn is_advertised_key_tells_a_key_that_does_not_match_the_public_half() {
    assert!(!is_advertised_key(&test_key_pem()));
    assert!(!is_advertised_key("not a key"));
}

#[test]
fn acid_public_key_forms_a_public_key_of_full_width() {
    let modulus = BigUint::from_bytes_be(acid_public_key());
    let key = rsa::RsaPublicKey::new(modulus, BigUint::from(65537u32))
        .expect("the advertised modulus should form a public key");
    assert_eq!(key.size(), SIGNATURE_SIZE);
    assert_eq!(key.n().to_bytes_be(), acid_public_key().to_vec());
}
