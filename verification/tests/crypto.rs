use nxarchive::crypto::{
    aes_ctr_apply, aes_ecb_decrypt, aes_ecb_encrypt, aes_xts_decrypt, aes_xts_encrypt,
    nintendo_tweak,
};

#[test]
fn aes_ecb_decrypt_undoes_aes_ecb_encrypt() {
    let key = [0x2Bu8; 0x10];
    let plaintext = [0x99u8; 0x40];
    let mut buffer = plaintext;

    aes_ecb_encrypt(&key, &mut buffer);
    let ciphertext = buffer;
    aes_ecb_decrypt(&key, &mut buffer);

    assert_ne!(ciphertext, plaintext, "encryption should change the bytes");
    assert_eq!(buffer, plaintext, "decryption should undo it");
}

#[test]
fn aes_ecb_encrypt_matches_the_published_block() {
    // The AES-128 example of FIPS 197.
    let key: [u8; 0x10] = [0, 1, 2, 3, 4, 5, 6, 7, 8, 9, 10, 11, 12, 13, 14, 15];
    let mut block: [u8; 0x10] = [
        0x00, 0x11, 0x22, 0x33, 0x44, 0x55, 0x66, 0x77, 0x88, 0x99, 0xaa, 0xbb, 0xcc, 0xdd, 0xee,
        0xff,
    ];
    aes_ecb_encrypt(&key, &mut block);
    assert_eq!(
        block,
        [
            0x69, 0xc4, 0xe0, 0xd8, 0x6a, 0x7b, 0x04, 0x30, 0xd8, 0xcd, 0xb7, 0x80, 0x70, 0xb4,
            0xc5, 0x5a
        ]
    );
}

#[test]
fn aes_ecb_encrypt_encrypts_equal_blocks_alike_and_accepts_no_bytes() {
    let key = [0x2Bu8; 0x10];
    let mut buffer = [0x99u8; 0x20];
    aes_ecb_encrypt(&key, &mut buffer);
    assert_eq!(buffer[..0x10], buffer[0x10..]);
    let mut nothing: [u8; 0] = [];
    aes_ecb_encrypt(&key, &mut nothing);
    aes_ecb_decrypt(&key, &mut nothing);
}

#[test]
fn aes_ctr_apply_returns_the_input_when_applied_twice() {
    let key = [0x11u8; 0x10];
    let counter = [0u8; 0x10];
    let plaintext = [0x77u8; 0x30];
    let mut buffer = plaintext;

    aes_ctr_apply(&key, &counter, &mut buffer);
    let ciphertext = buffer;
    aes_ctr_apply(&key, &counter, &mut buffer);

    assert_ne!(ciphertext, plaintext, "encryption should change the bytes");
    assert_eq!(buffer, plaintext, "CTR is its own inverse");
}

#[test]
fn aes_ctr_apply_counts_blocks_big_endian() {
    // Over zeros CTR writes the keystream, which is the encryption of each counter value in turn.
    let key = [0x11u8; 0x10];
    let counter = [0u8; 0x10];
    let mut stream = [0u8; 0x20];
    aes_ctr_apply(&key, &counter, &mut stream);

    let mut blocks = [0u8; 0x20];
    blocks[0x1F] = 1;
    aes_ecb_encrypt(&key, &mut blocks);
    assert_eq!(stream, blocks);
}

#[test]
fn nintendo_tweak_numbers_sectors_big_endian() {
    let sector = 1u128;
    let tweak = nintendo_tweak(sector);
    assert_eq!(
        tweak.as_slice(),
        &[0, 0, 0, 0, 0, 0, 0, 0, 0, 0, 0, 0, 0, 0, 0, 1],
        "the console puts the sector index in the last byte, not the first"
    );
    assert_eq!(nintendo_tweak(0x0102)[14..], [1, 2]);
}

#[test]
fn aes_xts_decrypt_undoes_aes_xts_encrypt() {
    let key = [0x5Cu8; 0x20];
    let plaintext = [0xA5u8; 0xC00];
    let mut buffer = plaintext;

    aes_xts_encrypt(&key, &mut buffer, 0x200);
    let ciphertext = buffer;
    aes_xts_decrypt(&key, &mut buffer, 0x200);

    assert_ne!(ciphertext, plaintext, "encryption should change the bytes");
    assert_eq!(buffer, plaintext, "decryption should undo it");
}

#[test]
fn aes_xts_encrypt_gives_each_sector_its_own_tweak() {
    // Two identical sectors: distinct ciphertext is what proves the tweak advanced.
    let key = [0x5Cu8; 0x20];
    let mut buffer = [0xA5u8; 0x400];
    aes_xts_encrypt(&key, &mut buffer, 0x200);
    assert_ne!(
        &buffer[..0x200],
        &buffer[0x200..],
        "identical sectors must not encrypt identically"
    );
}

#[test]
fn aes_xts_encrypt_builds_the_first_block_from_both_halves_of_the_key() {
    // One block of one sector: the tweak is the encryption of the sector number under the second
    // half of the key, laid over the block before and after it is encrypted under the first.
    let mut key = [0u8; 0x20];
    for (index, byte) in key.iter_mut().enumerate() {
        *byte = index as u8;
    }
    let mut data_key = [0u8; 0x10];
    let mut tweak_key = [0u8; 0x10];
    data_key.copy_from_slice(&key[..0x10]);
    tweak_key.copy_from_slice(&key[0x10..]);

    let mut tweak = nintendo_tweak(1);
    aes_ecb_encrypt(&tweak_key, &mut tweak);
    let mut expected = [0xA5u8; 0x10];
    for (byte, mask) in expected.iter_mut().zip(tweak) {
        *byte ^= mask;
    }
    aes_ecb_encrypt(&data_key, &mut expected);
    for (byte, mask) in expected.iter_mut().zip(tweak) {
        *byte ^= mask;
    }

    let mut buffer = [0xA5u8; 0x20];
    aes_xts_encrypt(&key, &mut buffer, 0x10);
    assert_eq!(buffer[0x10..], expected);
}

#[test]
fn aes_ctr_apply_starts_over_when_the_counter_runs_out() {
    let key = [0x11u8; 0x10];
    let counter = [0xFFu8; 0x10];
    let mut stream = [0u8; 0x18];
    aes_ctr_apply(&key, &counter, &mut stream);

    let mut blocks = [0u8; 0x20];
    blocks[..0x10].fill(0xFF);
    aes_ecb_encrypt(&key, &mut blocks);
    assert_eq!(stream, blocks[..0x18]);
}
