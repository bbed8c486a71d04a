use nxarchive::container::{NcaCryptType, NcaLayout, SectionLayout};
use nxarchive::crypto::aes_ecb_encrypt;
use nxarchive::hacbrewpack::archive::{
    finish, seal, Archive, ArchiveKeys, FinishError, PlainContainer,
};
use nxarchive::keyset::Keyset;
use nxarchive::sections::CtrSection;
use nxarchive::signing::SignError;
use nxarchive::unpack::nca::decrypt;
use nxarchive::unpack::verify::{header_signature, HeaderSignatureError, SignatureCheck};
use rsa::pkcs1::{EncodeRsaPrivateKey, LineEnding};
use rsa::{BigUint, RsaPrivateKey};
use sha2::{Digest, Sha256};

const HEADER_KEY: [u8; 0x20] = [0x11; 0x20];
const KEY_AREA_KEY: [u8; 0x10] = [0x22; 0x10];
const FIRST_COUNTER: [u8; 0x10] = [0x44; 0x10];
const SECOND_COUNTER: [u8; 0x10] = [0x55; 0x10];

/// The keys a test archive is finished with.
fn keys() -> ArchiveKeys<'static> {
    ArchiveKeys { header_key: &HEADER_KEY, key_area_key: &KEY_AREA_KEY }
}

/// A keyset that holds the same keys at generation 1.
fn keyset() -> Keyset {
    format!(
        "header_key = {}\nkey_area_key_application_00 = {}\n",
        "11".repeat(0x20),
        "22".repeat(0x10)
    )
    .parse()
    .expect("the test keyset should parse")
}

/// A container with two encrypted sections, a plain stretch between them, and a blank signature.
fn plain() -> PlainContainer {
    let mut header = [0u8; 0xC00];
    for (index, byte) in header.iter_mut().enumerate().skip(0x200) {
        *byte = index as u8;
    }
    let body = (0..0x300).map(|index| (index * 7) as u8).collect();
    PlainContainer {
        header,
        body,
        ctr_sections: vec![
            CtrSection { start: 0, end: 0x100, counter: FIRST_COUNTER },
            CtrSection { start: 0x180, end: 0x300, counter: SECOND_COUNTER },
        ],
    }
}

/// What a reader finds in the header of an archive made of [`plain`].
fn read(bytes: &[u8]) -> Option<NcaLayout> {
    let mut encrypted_keys = [[0u8; 0x10]; 4];
    for (index, key) in encrypted_keys.iter_mut().enumerate() {
        key.copy_from_slice(&bytes[0x300 + index * 0x10..][..0x10]);
    }
    let section = |index: usize, start: usize, end: usize, counter: [u8; 0x10]| SectionLayout {
        index,
        start,
        end,
        encryption: NcaCryptType::Ctr,
        counter: Some(counter),
    };
    Some(NcaLayout {
        key_generation: 1,
        encrypted_keys,
        sections: vec![
            section(0, 0xC00, 0xD00, FIRST_COUNTER),
            section(1, 0xD80, 0xF00, SECOND_COUNTER),
        ],
    })
}

#[test]
fn an_archive_is_named_by_the_head_of_its_own_hash() {
    let mut hash = [0u8; 0x20];
    for (index, byte) in hash.iter_mut().enumerate() {
        *byte = index as u8;
    }
    let archive = Archive { bytes: Vec::new(), hash };
    assert_eq!(archive.nca_id()[..], hash[..0x10]);
    assert_eq!(archive.file_name(""), "000102030405060708090a0b0c0d0e0f.nca");
    assert_eq!(archive.file_name("cnmt"), "000102030405060708090a0b0c0d0e0f.cnmt.nca");
}

#[test]
fn finish_is_undone_by_decrypting_with_the_same_keys() {
    let archive = finish(plain(), &keys(), None).expect("nothing is signed");
    assert_eq!(archive.bytes.len(), 0xF00);
    let digest: [u8; 0x20] = Sha256::digest(&archive.bytes).into();
    assert_eq!(archive.hash, digest);
    assert_eq!(
        archive.bytes[0xD00..0xD80],
        plain().body[0x100..0x180],
        "what no section covers stays in the clear"
    );
    assert_ne!(archive.bytes[0xC00..0xD00], plain().body[..0x100]);

    let opened = decrypt(&archive.bytes, &keyset(), read).expect("the archive should decrypt");
    assert_eq!(opened.bytes[0xC00..], plain().body[..]);
    assert_eq!(opened.bytes[..0x300], plain().header[..0x300]);
    assert_eq!(opened.bytes[0x340..0xC00], plain().header[0x340..]);
    assert_eq!(opened.key_area.concat(), plain().header[0x300..0x340]);

    let mut wrapped = plain().header[0x300..0x340].to_vec();
    aes_ecb_encrypt(&KEY_AREA_KEY, &mut wrapped);
    assert_eq!(opened.bytes[0x300..0x340], wrapped[..], "the header keeps the wrapped copy");
}

#[test]
fn finish_without_a_signing_key_leaves_the_header_unsigned_and_is_reproducible() {
    let archive = finish(plain(), &keys(), None).expect("nothing is signed");
    let again = finish(plain(), &keys(), None).expect("nothing is signed");
    assert_eq!(archive.bytes, again.bytes);
    let opened = decrypt(&archive.bytes, &keyset(), read).expect("the archive should decrypt");
    assert_eq!(header_signature(&opened.bytes), Ok(SignatureCheck::Absent));
}

#[test]
fn finish_with_text_that_is_no_key_fails_to_sign() {
    let result = finish(plain(), &keys(), Some("not a key"));
    assert_eq!(result.err(), Some(FinishError(SignError::ParseKey)));
}

/// One prime of a key half as wide as the signature field asks for, in hex.
const HALF_FIRST: &str = "da9da8cf06bbfed588af182a1014d91fb58b06b48e2f0dcdaef6731f0a5a17b7\
e8a06ae9fddd6aefa6a0160509613f7a477c774c0c8e209d210ac5f921368e3f";

/// The other prime of that key, in hex.
const HALF_SECOND: &str = "c2ec61e515688fcae45220f9b3b616bef336d8542700b59470c1ca484f2aeffd\
177d503d32fa43fa6c47f207d666ab4e8609b8929ce2823dfbefc330cc2bf707";

#[test]
fn finish_hands_on_the_length_a_key_of_another_size_signs_with() {
    let p = BigUint::parse_bytes(HALF_FIRST.as_bytes(), 16).expect("the prime is hex");
    let q = BigUint::parse_bytes(HALF_SECOND.as_bytes(), 16).expect("the prime is hex");
    let key = RsaPrivateKey::from_p_q(p, q, BigUint::from(65537u32)).expect("the primes make a key");
    let pem = key.to_pkcs1_pem(LineEnding::LF).expect("the key encodes").to_string();
    let result = finish(plain(), &keys(), Some(&pem));
    assert_eq!(
        result.err(),
        Some(FinishError(SignError::UnexpectedLength { length: 0x80 }))
    );
}

#[test]
fn seal_places_the_signature_outside_the_range_it_covers() {
    let archive = seal(plain(), &keys(), Some([0x99; 0x100]));
    let unsigned = seal(plain(), &keys(), None);
    let signed = decrypt(&archive.bytes, &keyset(), read).expect("the archive should decrypt");
    let blank = decrypt(&unsigned.bytes, &keyset(), read).expect("the archive should decrypt");
    assert_eq!(signed.bytes[0x100..0x200], [0x99; 0x100]);
    assert_eq!(signed.bytes[0x200..], blank.bytes[0x200..]);
    assert_eq!(signed.bytes[..0x100], blank.bytes[..0x100]);
    assert!(matches!(
        header_signature(&signed.bytes),
        Err(HeaderSignatureError::Verify(_))
    ));
}
