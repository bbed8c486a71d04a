use nxarchive::container::{NcaCryptType, NcaLayout, SectionLayout, SECTION_KEY_INDEX};
use nxarchive::crypto::{aes_ctr_apply, aes_ecb_encrypt, aes_xts_encrypt};
use nxarchive::keyset::Keyset;
use nxarchive::unpack::nca::{
    decrypt, decrypt_header, decrypt_sections, plan_sections, DecryptError,
};

/// The header key and generation-1 key area key a test keyset carries.
const HEADER_KEY: [u8; 0x20] = [0x11; 0x20];
const KEY_AREA_KEY: [u8; 0x10] = [0x22; 0x10];
const SECTION_KEY: [u8; 0x10] = [0x33; 0x10];
const COUNTER: [u8; 0x10] = [0x44; 0x10];

/// A keyset naming both keys directly, so no derivation is involved.
fn keyset() -> Keyset {
    let header_key: String = HEADER_KEY.iter().map(|b| format!("{b:02x}")).collect();
    let key_area_key: String = KEY_AREA_KEY.iter().map(|b| format!("{b:02x}")).collect();
    format!("header_key = {header_key}\nkey_area_key_application_00 = {key_area_key}\n")
        .parse()
        .expect("the test keyset should parse")
}

/// Pack an archive the way the packing path does: encrypt sections, wrap the key area, then encrypt
/// the header.
fn sealed_archive(payload: &[u8], encryption: NcaCryptType) -> Vec<u8> {
    let mut body = payload.to_vec();
    if encryption == NcaCryptType::Ctr {
        aes_ctr_apply(&SECTION_KEY, &COUNTER, &mut body);
    }

    let mut key_area = [0u8; 0x40];
    key_area[SECTION_KEY_INDEX * 0x10..][..0x10].copy_from_slice(&SECTION_KEY);
    aes_ecb_encrypt(&KEY_AREA_KEY, &mut key_area);

    let mut bytes = vec![0u8; 0xC00];
    bytes[0x200..0x204].copy_from_slice(b"NCA3");
    bytes[0x206] = encryption.to_u8();
    bytes[0x300..0x340].copy_from_slice(&key_area);
    aes_xts_encrypt(&HEADER_KEY, &mut bytes, 0x200);
    bytes.append(&mut body);
    bytes
}

/// Read the header of an archive that [`sealed_archive`] packed.
fn read(bytes: &[u8]) -> Option<NcaLayout> {
    if &bytes[0x200..0x204] != b"NCA3" {
        return None;
    }
    let mut encrypted_keys = [[0u8; 0x10]; 4];
    for (index, key) in encrypted_keys.iter_mut().enumerate() {
        key.copy_from_slice(&bytes[0x300 + index * 0x10..][..0x10]);
    }
    let encryption = match bytes[0x206] {
        1 => NcaCryptType::Plaintext,
        2 => NcaCryptType::Xts,
        3 => NcaCryptType::Ctr,
        _ => NcaCryptType::Bktr,
    };
    Some(NcaLayout {
        key_generation: 1,
        encrypted_keys,
        sections: vec![SectionLayout {
            index: 0,
            start: 0xC00,
            end: bytes.len(),
            encryption,
            counter: if encryption == NcaCryptType::Ctr { Some(COUNTER) } else { None },
        }],
    })
}

#[test]
fn decrypt_with_a_sealed_archive_recovers_the_payload() {
    let payload = vec![0xABu8; 0x400];
    let image = sealed_archive(&payload, NcaCryptType::Ctr);
    let plain = decrypt(&image, &keyset(), read).expect("the archive should decrypt");
    assert!(read(&plain.bytes).is_some(), "the decrypted archive should parse");
    assert_ne!(&image[0xC00..], &payload[..], "the payload was encrypted");
    assert_eq!(
        &plain.bytes[0xC00..],
        &payload[..],
        "the round trip should return the bytes that were packed"
    );
}

#[test]
fn decrypt_with_a_sealed_archive_unwraps_the_section_key() {
    let image = sealed_archive(&[0xABu8; 0x400], NcaCryptType::Ctr);
    let plain = decrypt(&image, &keyset(), read).expect("the archive should decrypt");
    assert_eq!(plain.key_area[SECTION_KEY_INDEX], SECTION_KEY);
    assert_ne!(
        plain.bytes[0x320..0x330],
        SECTION_KEY,
        "the copy in the header stays wrapped"
    );
}

#[test]
fn decrypt_with_a_plaintext_section_leaves_it_untouched() {
    let payload = vec![0xCDu8; 0x400];
    let image = sealed_archive(&payload, NcaCryptType::Plaintext);
    let plain = decrypt(&image, &keyset(), read).expect("the archive should decrypt");
    assert!(read(&plain.bytes).is_some(), "the decrypted archive should parse");
    assert_eq!(&plain.bytes[0xC00..], &payload[..]);
}

#[test]
fn decrypt_with_the_wrong_header_key_fails_to_parse() {
    let image = sealed_archive(&[0xABu8; 0x400], NcaCryptType::Ctr);
    let wrong: Keyset = "header_key = 99999999999999999999999999999999\
                         99999999999999999999999999999999\n\
                         key_area_key_application_00 = 22222222222222222222222222222222\n"
        .parse()
        .expect("the test keyset should parse");
    let result = decrypt(&image, &wrong, read);
    assert!(matches!(result, Err(DecryptError::Parse)));
}

#[test]
fn decrypt_with_a_keyset_missing_the_header_key_fails() {
    let image = sealed_archive(&[0xABu8; 0x400], NcaCryptType::Ctr);
    let empty: Keyset = "key_area_key_application_00 = 22222222222222222222222222222222\n"
        .parse()
        .expect("the test keyset should parse");
    let result = decrypt(&image, &empty, read);
    assert!(matches!(result, Err(DecryptError::MissingHeaderKey)));
    let short = decrypt(&[0u8; 0x100], &empty, read);
    assert!(
        matches!(short, Err(DecryptError::MissingHeaderKey)),
        "a missing header key fails before any other check"
    );
}

#[test]
fn decrypt_with_a_buffer_shorter_than_a_header_fails() {
    let image = vec![0u8; 0x100];
    let result = decrypt(&image, &keyset(), read);
    assert!(matches!(result, Err(DecryptError::TooSmall { .. })));
    assert_eq!(
        decrypt_header(&image, &keyset()),
        Err(DecryptError::TooSmall { available: 0x100 })
    );
}

#[test]
fn decrypt_with_a_scheme_that_is_not_implemented_names_it() {
    for (scheme, number) in [(NcaCryptType::Xts, 2u8), (NcaCryptType::Bktr, 4)] {
        let image = sealed_archive(&[0xABu8; 0x400], scheme);
        let result = decrypt(&image, &keyset(), read);
        assert_eq!(
            result.err(),
            Some(DecryptError::UnsupportedEncryption { section_index: 0, scheme: number })
        );
    }
}

/// A layout of one CTR section over the bytes after the header.
fn layout(key_generation: u8, counter: Option<[u8; 0x10]>, end: usize) -> NcaLayout {
    NcaLayout {
        key_generation,
        encrypted_keys: [[0u8; 0x10]; 4],
        sections: vec![SectionLayout {
            index: 3,
            start: 0xC00,
            end,
            encryption: NcaCryptType::Ctr,
            counter,
        }],
    }
}

#[test]
fn decrypt_sections_says_what_it_lacks() {
    let bytes = vec![0u8; 0xD00];
    let outcome = |layout: Option<NcaLayout>| decrypt_sections(bytes.clone(), &layout, &keyset()).err();
    assert_eq!(
        outcome(Some(layout(2, Some(COUNTER), 0xD00))),
        Some(DecryptError::MissingKeyAreaKey { generation: 2 })
    );
    assert_eq!(
        outcome(Some(layout(0, Some(COUNTER), 0xD00))),
        Some(DecryptError::UnknownKeyGeneration { generation: 0 })
    );
    assert_eq!(
        outcome(Some(layout(33, Some(COUNTER), 0xD00))),
        Some(DecryptError::UnknownKeyGeneration { generation: 33 })
    );
    assert_eq!(
        outcome(Some(layout(1, None, 0xD00))),
        Some(DecryptError::MissingCounter { section_index: 3 })
    );
    assert_eq!(outcome(Some(layout(1, Some(COUNTER), 0xD01))), Some(DecryptError::Parse));
    assert_eq!(outcome(Some(layout(1, Some(COUNTER), 0xB00))), Some(DecryptError::Parse));
    assert_eq!(outcome(None), Some(DecryptError::Parse));
    assert_eq!(outcome(Some(layout(1, Some(COUNTER), 0xD00))), None);
}

#[test]
fn plan_sections_lists_the_encrypted_sections_in_order() {
    let mut layout = layout(1, Some(COUNTER), 0xD00);
    layout.sections.insert(
        0,
        SectionLayout {
            index: 2,
            start: 0xD00,
            end: 0xE00,
            encryption: NcaCryptType::Plaintext,
            counter: None,
        },
    );
    layout.sections.push(SectionLayout {
        index: 1,
        start: 0xE00,
        end: 0xF00,
        encryption: NcaCryptType::Ctr,
        counter: Some([7; 0x10]),
    });
    let plan = plan_sections(&layout).expect("every scheme is implemented");
    let ranges: Vec<(usize, usize)> =
        plan.ctr_sections.iter().map(|section| (section.start, section.end)).collect();
    assert_eq!(ranges, [(0xC00, 0xD00), (0xE00, 0xF00)]);
    assert_eq!(plan.ctr_sections[1].counter, [7; 0x10]);
    assert_eq!(plan.key_generation, 1);
}
