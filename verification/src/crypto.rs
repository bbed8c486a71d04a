//! The AES modes the console's containers are encrypted with, and the digest they are checked by.
//!
//! Three modes, each used in exactly one place: ECB wraps a key area and derives one key from
//! another, CTR encrypts a section's contents, and XTS encrypts an NCA header. None of them is a
//! general-purpose encryption API: every function here takes the key as a fixed-size array and the
//! buffer it transforms in place, because that is the shape the formats need.
//!
//! The XTS variant is not the one the standard describes. The console numbers its sectors with a
//! big-endian tweak where the standard uses a little-endian one, so the tweak is built here rather
//! than taken from the crate's default.

use crate::bytes::{
    be_array, be_bytes, be_value, law_bytes_read_and_written_back_are_the_same, load, store,
};
use aes::cipher::{
    Array, BlockCipherDecrypt, BlockCipherEncrypt, KeyInit, KeyIvInit, StreamCipher,
};
use aes::Aes128;
use sha2::Digest;
use vstd::prelude::*;

verus! {

/// What `aes`'s AES-128 makes of one plaintext block under `key`.
pub uninterp spec fn aes_encrypt_block(key: Seq<u8>, block: Seq<u8>) -> Seq<u8>;

/// What `aes`'s AES-128 recovers from one ciphertext block under `key`.
pub uninterp spec fn aes_decrypt_block(key: Seq<u8>, block: Seq<u8>) -> Seq<u8>;

/// What `xts_mode` makes of one plaintext sector under the two XTS keys and the sector's tweak.
pub uninterp spec fn xts_encrypt_sector(
    data_key: Seq<u8>,
    tweak_key: Seq<u8>,
    tweak: Seq<u8>,
    sector: Seq<u8>,
) -> Seq<u8>;

/// What `xts_mode` recovers from one ciphertext sector under the two XTS keys and the tweak.
pub uninterp spec fn xts_decrypt_sector(
    data_key: Seq<u8>,
    tweak_key: Seq<u8>,
    tweak: Seq<u8>,
    sector: Seq<u8>,
) -> Seq<u8>;

/// The SHA-256 digest of `data`, as `sha2` computes it.
pub uninterp spec fn sha256(data: Seq<u8>) -> Seq<u8>;

/// Block `index` of `data`, where blocks are `size` bytes each.
pub open spec fn block_at(data: Seq<u8>, size: int, index: int) -> Seq<u8> {
    data.subrange(index * size, index * size + size)
}

/// `data` with every sixteen-byte block encrypted under `key`, independently of the others.
pub open spec fn ecb_encrypted(key: Seq<u8>, data: Seq<u8>) -> Seq<u8> {
    Seq::new(data.len(), |p: int| aes_encrypt_block(key, block_at(data, 0x10, p / 0x10))[p % 0x10])
}

/// `data` with every sixteen-byte block decrypted under `key`, independently of the others.
pub open spec fn ecb_decrypted(key: Seq<u8>, data: Seq<u8>) -> Seq<u8> {
    Seq::new(data.len(), |p: int| aes_decrypt_block(key, block_at(data, 0x10, p / 0x10))[p % 0x10])
}

/// The counter `blocks` blocks after `counter`: a big-endian 128-bit number that starts over at zero
/// when it runs out.
pub open spec fn counter_after(counter: Seq<u8>, blocks: nat) -> Seq<u8> {
    be_bytes((be_value(counter) + blocks) % 0x100000000000000000000000000000000nat, 0x10)
}

/// Byte `index` of the keystream under `key` starting from `counter`: each block of it is the
/// encryption of the counter for that block.
pub open spec fn ctr_keystream(key: Seq<u8>, counter: Seq<u8>, index: int) -> u8 {
    aes_encrypt_block(key, counter_after(counter, (index / 0x10) as nat))[index % 0x10]
}

/// `data` with the keystream for `key` and `counter` laid over it.
pub open spec fn ctr_applied(key: Seq<u8>, counter: Seq<u8>, data: Seq<u8>) -> Seq<u8> {
    Seq::new(data.len(), |p: int| data[p] ^ ctr_keystream(key, counter, p))
}

/// `data` with every sector encrypted under the two halves of `key`, each with the big-endian tweak
/// of its own index.
pub open spec fn xts_encrypted(key: Seq<u8>, data: Seq<u8>, sector_size: int) -> Seq<u8> {
    Seq::new(
        data.len(),
        |p: int|
            xts_encrypt_sector(
                key.take(0x10),
                key.skip(0x10),
                be_bytes((p / sector_size) as nat, 0x10),
                block_at(data, sector_size, p / sector_size),
            )[p % sector_size],
    )
}

/// `data` with every sector decrypted under the two halves of `key`, each with the big-endian tweak
/// of its own index.
pub open spec fn xts_decrypted(key: Seq<u8>, data: Seq<u8>, sector_size: int) -> Seq<u8> {
    Seq::new(
        data.len(),
        |p: int|
            xts_decrypt_sector(
                key.take(0x10),
                key.skip(0x10),
                be_bytes((p / sector_size) as nat, 0x10),
                block_at(data, sector_size, p / sector_size),
            )[p % sector_size],
    )
}

/// Encrypts one block: `aes::Aes128` through `KeyInit::new` and
/// `BlockCipherEncrypt::encrypt_block`.
///
/// Trusted: the result depends on the key and the block alone, and the cipher's own decryption
/// under the same key gives the block back.
#[verifier::external_body]
fn encrypt_block(key: &[u8; 0x10], block: &[u8; 0x10]) -> (out: [u8; 0x10])
    ensures
        out@ == aes_encrypt_block(key@, block@),
        aes_decrypt_block(key@, out@) == block@,
{
    let cipher = Aes128::new(&Array::from(*key));
    let mut cell = Array::from(*block);
    cipher.encrypt_block(&mut cell);
    cell.into()
}

/// Decrypts one block: `aes::Aes128` through `KeyInit::new` and
/// `BlockCipherDecrypt::decrypt_block`.
///
/// Trusted: the result depends on the key and the block alone, and the cipher's own encryption
/// under the same key gives the block back.
#[verifier::external_body]
fn decrypt_block(key: &[u8; 0x10], block: &[u8; 0x10]) -> (out: [u8; 0x10])
    ensures
        out@ == aes_decrypt_block(key@, block@),
        aes_encrypt_block(key@, out@) == block@,
{
    let cipher = Aes128::new(&Array::from(*key));
    let mut cell = Array::from(*block);
    cipher.decrypt_block(&mut cell);
    cell.into()
}

/// Lays a keystream over `data`: `ctr::Ctr128BE<aes::Aes128>` through `KeyIvInit::new` and
/// `StreamCipher::apply_keystream`.
///
/// Trusted: each byte is combined by exclusive or with the byte of the keystream at its own
/// position, and each sixteen bytes of the keystream are the cipher's encryption of a big-endian
/// 128-bit counter that goes up by one a block. Such a counter outlasts any buffer, so the call
/// cannot run out of keystream.
#[verifier::external_body]
fn apply_keystream(key: &[u8; 0x10], counter: &[u8; 0x10], data: &mut [u8])
    ensures
        final(data)@.len() == old(data)@.len(),
        forall|p: int|
            0 <= p < old(data)@.len() ==> #[trigger] final(data)@[p] == old(data)@[p]
                ^ ctr_keystream(key@, counter@, p),
{
    let mut cipher = ctr::Ctr128BE::<Aes128>::new(&Array::from(*key), &Array::from(*counter));
    cipher.apply_keystream(data);
}

/// Encrypts whole sectors: `xts_mode::Xts128<aes::Aes128>` through `Xts128::new` and
/// `Xts128::encrypt_area`, numbering sectors from zero with [`nintendo_tweak`].
///
/// Trusted: the area is cut into sectors, each is encrypted on its own from the two keys and the
/// tweak of its index, and decrypting a sector with the same keys and tweak gives it back. A sector
/// shorter than one block is refused with a panic, which the bound on `sector_size` rules out.
#[verifier::external_body]
fn encrypt_area(data_key: &[u8; 0x10], tweak_key: &[u8; 0x10], data: &mut [u8], sector_size: usize)
    requires
        sector_size > 0,
        old(data)@.len() % (sector_size as nat) == 0,
        old(data)@.len() > 0 ==> sector_size >= 0x10,
    ensures
        final(data)@.len() == old(data)@.len(),
        forall|i: int|
            #![trigger block_at(final(data)@, sector_size as int, i)]
            #![trigger block_at(old(data)@, sector_size as int, i)]
            0 <= i < old(data)@.len() / (sector_size as nat) ==> {
                let sector = block_at(old(data)@, sector_size as int, i);
                let sealed = block_at(final(data)@, sector_size as int, i);
                &&& sealed == xts_encrypt_sector(
                    data_key@,
                    tweak_key@,
                    be_bytes(i as nat, 0x10),
                    sector,
                )
                &&& xts_decrypt_sector(data_key@, tweak_key@, be_bytes(i as nat, 0x10), sealed)
                    == sector
            },
{
    let xts = xts_mode::Xts128::new(
        Aes128::new(&Array::from(*data_key)),
        Aes128::new(&Array::from(*tweak_key)),
    );
    xts.encrypt_area(data, sector_size, 0, |sector| Array::from(nintendo_tweak(sector)));
}

/// Decrypts whole sectors: `xts_mode::Xts128<aes::Aes128>` through `Xts128::new` and
/// `Xts128::decrypt_area`, numbering sectors from zero with [`nintendo_tweak`].
///
/// Trusted: the area is cut into sectors, each is decrypted on its own from the two keys and the
/// tweak of its index, and encrypting the result with the same keys and tweak gives the sector
/// back. A sector shorter than one block is refused with a panic, which the bound on `sector_size` rules out.
#[verifier::external_body]
fn decrypt_area(data_key: &[u8; 0x10], tweak_key: &[u8; 0x10], data: &mut [u8], sector_size: usize)
    requires
        sector_size > 0,
        old(data)@.len() % (sector_size as nat) == 0,
        old(data)@.len() > 0 ==> sector_size >= 0x10,
    ensures
        final(data)@.len() == old(data)@.len(),
        forall|i: int|
            #![trigger block_at(final(data)@, sector_size as int, i)]
            #![trigger block_at(old(data)@, sector_size as int, i)]
            0 <= i < old(data)@.len() / (sector_size as nat) ==> {
                let sector = block_at(old(data)@, sector_size as int, i);
                let opened = block_at(final(data)@, sector_size as int, i);
                &&& opened == xts_decrypt_sector(
                    data_key@,
                    tweak_key@,
                    be_bytes(i as nat, 0x10),
                    sector,
                )
                &&& xts_encrypt_sector(data_key@, tweak_key@, be_bytes(i as nat, 0x10), opened)
                    == sector
            },
{
    let xts = xts_mode::Xts128::new(
        Aes128::new(&Array::from(*data_key)),
        Aes128::new(&Array::from(*tweak_key)),
    );
    xts.decrypt_area(data, sector_size, 0, |sector| Array::from(nintendo_tweak(sector)));
}

/// Hashes `data`: `sha2::Sha256` through `Digest::digest`.
///
/// Trusted: the digest depends on the bytes alone.
#[verifier::external_body]
pub(crate) fn sha256_digest(data: &[u8]) -> (digest: [u8; 0x20])
    ensures
        digest@ == sha256(data@),
{
    sha2::Sha256::digest(data).into()
}

/// Encrypt `data` in place with AES-128 in ECB mode.
///
/// ECB is the right mode in the two places it is used, wrapping a key area and deriving one key
/// from another, because each block is an independent key, not a message with structure to hide.
/// [`aes_ecb_decrypt`] with the same key gives the data back.
pub fn aes_ecb_encrypt(key: &[u8; 0x10], data: &mut [u8])
    requires
        old(data)@.len() % 0x10 == 0,
    ensures
        final(data)@ == ecb_encrypted(key@, old(data)@),
        ecb_decrypted(key@, final(data)@) == old(data)@,
{
    let ghost before = data@;
    let mut at: usize = 0;
    while at < data.len()
        invariant
            at <= data@.len(),
            at % 0x10 == 0,
            data@.len() % 0x10 == 0,
            data@.len() == before.len(),
            forall|p: int| at <= p < data@.len() ==> #[trigger] data@[p] == before[p],
            forall|i: int|
                0 <= i < at / 0x10 ==> {
                    &&& #[trigger] block_at(data@, 0x10, i) == aes_encrypt_block(
                        key@,
                        block_at(before, 0x10, i),
                    )
                    &&& aes_decrypt_block(key@, block_at(data@, 0x10, i)) == block_at(before, 0x10, i)
                },
        decreases data@.len() - at,
    {
        let ghost previous = data@;
        let block = load::<0x10>(data, at);
        let cell = encrypt_block(key, &block);
        store(data, at, &cell);
        proof {
            let done = (at / 0x10) as int;
            assert(block@ =~= block_at(before, 0x10, done));
            assert(block_at(data@, 0x10, done) =~= cell@);
            assert forall|i: int| 0 <= i < done implies #[trigger] block_at(data@, 0x10, i) == block_at(
                previous,
                0x10,
                i,
            ) by {
                assert(block_at(data@, 0x10, i) =~= block_at(previous, 0x10, i));
            }
        }
        at += 0x10;
    }
    proof {
        assert forall|p: int|
            #![trigger data@[p]]
            #![trigger before[p]]
            0 <= p < data@.len() implies data@[p] == ecb_encrypted(
            key@,
            before,
        )[p] && ecb_decrypted(key@, data@)[p] == before[p] by {
            let i = p / 0x10;
            assert(block_at(data@, 0x10, i)[p % 0x10] == data@[p]);
            assert(block_at(before, 0x10, i)[p % 0x10] == before[p]);
        }
        assert(data@ =~= ecb_encrypted(key@, before));
        assert(ecb_decrypted(key@, data@) =~= before);
    }
}

/// Decrypt `data` in place with AES-128 in ECB mode.
///
/// The inverse of [`aes_ecb_encrypt`], used by the key derivation chain: the console's key sources
/// are decrypted rather than encrypted to arrive at the keys they seed.
pub fn aes_ecb_decrypt(key: &[u8; 0x10], data: &mut [u8])
    requires
        old(data)@.len() % 0x10 == 0,
    ensures
        final(data)@ == ecb_decrypted(key@, old(data)@),
        ecb_encrypted(key@, final(data)@) == old(data)@,
{
    let ghost before = data@;
    let mut at: usize = 0;
    while at < data.len()
        invariant
            at <= data@.len(),
            at % 0x10 == 0,
            data@.len() % 0x10 == 0,
            data@.len() == before.len(),
            forall|p: int| at <= p < data@.len() ==> #[trigger] data@[p] == before[p],
            forall|i: int|
                0 <= i < at / 0x10 ==> {
                    &&& #[trigger] block_at(data@, 0x10, i) == aes_decrypt_block(
                        key@,
                        block_at(before, 0x10, i),
                    )
                    &&& aes_encrypt_block(key@, block_at(data@, 0x10, i)) == block_at(before, 0x10, i)
                },
        decreases data@.len() - at,
    {
        let ghost previous = data@;
        let block = load::<0x10>(data, at);
        let cell = decrypt_block(key, &block);
        store(data, at, &cell);
        proof {
            let done = (at / 0x10) as int;
            assert(block@ =~= block_at(before, 0x10, done));
            assert(block_at(data@, 0x10, done) =~= cell@);
            assert forall|i: int| 0 <= i < done implies #[trigger] block_at(data@, 0x10, i) == block_at(
                previous,
                0x10,
                i,
            ) by {
                assert(block_at(data@, 0x10, i) =~= block_at(previous, 0x10, i));
            }
        }
        at += 0x10;
    }
    proof {
        assert forall|p: int|
            #![trigger data@[p]]
            #![trigger before[p]]
            0 <= p < data@.len() implies data@[p] == ecb_decrypted(
            key@,
            before,
        )[p] && ecb_encrypted(key@, data@)[p] == before[p] by {
            let i = p / 0x10;
            assert(block_at(data@, 0x10, i)[p % 0x10] == data@[p]);
            assert(block_at(before, 0x10, i)[p % 0x10] == before[p]);
        }
        assert(data@ =~= ecb_decrypted(key@, before));
        assert(ecb_encrypted(key@, data@) =~= before);
    }
}

/// Encrypt `data` in place with AES-128-CTR, starting from `counter`.
///
/// CTR is its own inverse, so this decrypts as well. `counter` must be the counter for the first
/// byte of `data`.
pub fn aes_ctr_apply(key: &[u8; 0x10], counter: &[u8; 0x10], data: &mut [u8])
    ensures
        final(data)@ == ctr_applied(key@, counter@, old(data)@),
{
    let ghost before = data@;
    apply_keystream(key, counter, data);
    assert(data@ =~= ctr_applied(key@, counter@, before));
}

/// Applying the same keystream twice gives the data back: CTR is its own inverse.
pub proof fn law_ctr_is_its_own_inverse(key: Seq<u8>, counter: Seq<u8>, data: Seq<u8>)
    ensures
        ctr_applied(key, counter, ctr_applied(key, counter, data)) == data,
{
    assert forall|p: int| 0 <= p < data.len() implies ctr_applied(
        key,
        counter,
        ctr_applied(key, counter, data),
    )[p] == data[p] by {
        let a = data[p];
        let b = ctr_keystream(key, counter, p);
        assert((a ^ b) ^ b == a) by (bit_vector);
    }
    assert(ctr_applied(key, counter, ctr_applied(key, counter, data)) =~= data);
}

/// Every byte of `data` sits in the block of its own index.
proof fn lemma_byte_in_block(data: Seq<u8>, size: int, p: int)
    requires
        size > 0,
        data.len() % (size as nat) == 0,
        0 <= p < data.len(),
    ensures
        0 <= p / size < data.len() / (size as nat),
        0 <= p % size < size,
        block_at(data, size, p / size).len() == size,
        block_at(data, size, p / size)[p % size] == data[p],
{
    let blocks = data.len() as int / size;
    let i = p / size;
    vstd::arithmetic::div_mod::lemma_fundamental_div_mod(p, size);
    vstd::arithmetic::div_mod::lemma_fundamental_div_mod(data.len() as int, size);
    assert(0 <= i) by (nonlinear_arith)
        requires
            i == p / size,
            size > 0,
            p >= 0,
    ;
    assert(i < blocks) by (nonlinear_arith)
        requires
            size * i + p % size == p,
            p % size >= 0,
            p < data.len() as int,
            data.len() as int == size * blocks,
            size > 0,
    ;
    assert(i * size + size <= data.len()) by (nonlinear_arith)
        requires
            i < blocks,
            data.len() as int == size * blocks,
            size > 0,
    ;
    assert(i * size >= 0) by (nonlinear_arith)
        requires
            i >= 0,
            size > 0,
    ;
    assert(i * size == size * i) by (nonlinear_arith);
}

/// Encrypt `data` in place with AES-128-XTS, using the console's sector numbering.
///
/// `key` is the two XTS keys concatenated: the first sixteen bytes encrypt, the second sixteen build
/// the tweak. Sectors are numbered from zero and are `sector_size` bytes each. XTS without
/// ciphertext stealing cannot encrypt a partial sector, nor one shorter than a cipher block.
/// [`aes_xts_decrypt`] with the same key and sector size gives the data back.
pub fn aes_xts_encrypt(key: &[u8; 0x20], data: &mut [u8], sector_size: usize)
    requires
        sector_size > 0,
        old(data)@.len() % (sector_size as nat) == 0,
        old(data)@.len() > 0 ==> sector_size >= 0x10,
    ensures
        final(data)@ == xts_encrypted(key@, old(data)@, sector_size as int),
        xts_decrypted(key@, final(data)@, sector_size as int) == old(data)@,
{
    let ghost before = data@;
    let data_half = load::<0x10>(key, 0);
    let tweak_half = load::<0x10>(key, 0x10);
    assert(data_half@ =~= key@.take(0x10));
    assert(tweak_half@ =~= key@.skip(0x10));
    encrypt_area(&data_half, &tweak_half, data, sector_size);
    proof {
        let size = sector_size as int;
        assert forall|p: int|
            #![trigger data@[p]]
            #![trigger before[p]]
            0 <= p < data@.len() implies data@[p] == xts_encrypted(
            key@,
            before,
            size,
        )[p] && xts_decrypted(key@, data@, size)[p] == before[p] by {
            lemma_byte_in_block(before, size, p);
            lemma_byte_in_block(data@, size, p);
        }
        assert(data@ =~= xts_encrypted(key@, before, size));
        assert(xts_decrypted(key@, data@, size) =~= before);
    }
}

/// Decrypt `data` in place with AES-128-XTS, using the console's sector numbering.
///
/// The inverse of [`aes_xts_encrypt`], and the first step in reading an archive: an NCA header is
/// ciphertext on disk, so nothing in it can be trusted, its length fields included, until this
/// has run.
pub fn aes_xts_decrypt(key: &[u8; 0x20], data: &mut [u8], sector_size: usize)
    requires
        sector_size > 0,
        old(data)@.len() % (sector_size as nat) == 0,
        old(data)@.len() > 0 ==> sector_size >= 0x10,
    ensures
        final(data)@ == xts_decrypted(key@, old(data)@, sector_size as int),
        xts_encrypted(key@, final(data)@, sector_size as int) == old(data)@,
{
    let ghost before = data@;
    let data_half = load::<0x10>(key, 0);
    let tweak_half = load::<0x10>(key, 0x10);
    assert(data_half@ =~= key@.take(0x10));
    assert(tweak_half@ =~= key@.skip(0x10));
    decrypt_area(&data_half, &tweak_half, data, sector_size);
    proof {
        let size = sector_size as int;
        assert forall|p: int|
            #![trigger data@[p]]
            #![trigger before[p]]
            0 <= p < data@.len() implies data@[p] == xts_decrypted(
            key@,
            before,
            size,
        )[p] && xts_encrypted(key@, data@, size)[p] == before[p] by {
            lemma_byte_in_block(before, size, p);
            lemma_byte_in_block(data@, size, p);
        }
        assert(data@ =~= xts_decrypted(key@, before, size));
        assert(xts_encrypted(key@, data@, size) =~= before);
    }
}

/// The tweak for `sector`, written big-endian.
///
/// The XTS standard numbers sectors little-endian; the console does not, and an image built with the
/// standard's tweak decrypts to noise on hardware.
pub fn nintendo_tweak(sector: u128) -> (tweak: [u8; 0x10])
    ensures
        tweak@ == be_bytes(sector as nat, 0x10),
{
    be_array::<0x10>(sector)
}

/// ECB treats every block on its own: what becomes of a block is the cipher's answer for it, wherever
/// it stands and whatever stands beside it.
pub proof fn law_ecb_treats_every_block_on_its_own(
    key: Seq<u8>,
    left: Seq<u8>,
    block: Seq<u8>,
    right: Seq<u8>,
)
    requires
        left.len() % 16 == 0,
        block.len() == 16,
        right.len() % 16 == 0,
    ensures
        ecb_encrypted(key, left + block + right).len() == left.len() + 16 + right.len(),
        ecb_decrypted(key, left + block + right).len() == left.len() + 16 + right.len(),
        forall|i: int|
            #![trigger aes_encrypt_block(key, block)[i]]
            0 <= i < 16 ==> ecb_encrypted(key, left + block + right)[left.len() + i]
                == aes_encrypt_block(key, block)[i],
        forall|i: int|
            #![trigger aes_decrypt_block(key, block)[i]]
            0 <= i < 16 ==> ecb_decrypted(key, left + block + right)[left.len() + i]
                == aes_decrypt_block(key, block)[i],
{
    let data = left + block + right;
    let n = left.len() as int / 16;
    assert(data.subrange(n * 16, n * 16 + 16) =~= block);
    assert forall|i: int|
        #![trigger aes_encrypt_block(key, block)[i]]
        0 <= i < 16 implies ecb_encrypted(key, data)[left.len() + i] == aes_encrypt_block(
        key,
        block,
    )[i] by {
        assert((left.len() + i) / 16 == n && (left.len() + i) % 16 == i);
    }
    assert forall|i: int|
        #![trigger aes_decrypt_block(key, block)[i]]
        0 <= i < 16 implies ecb_decrypted(key, data)[left.len() + i] == aes_decrypt_block(
        key,
        block,
    )[i] by {
        assert((left.len() + i) / 16 == n && (left.len() + i) % 16 == i);
    }
}

/// XTS treats every sector on its own: sector `i` is the cipher's answer for the bytes of that sector
/// under the two halves of the key, with its own number, sixteen bytes long and most significant byte
/// first, as the tweak.
pub proof fn law_xts_treats_every_sector_on_its_own(
    key: Seq<u8>,
    data: Seq<u8>,
    size: int,
    i: int,
    j: int,
)
    requires
        key.len() == 32,
        size > 0,
        0 <= i,
        i * size + size <= data.len(),
        0 <= j < size,
    ensures
        xts_encrypted(key, data, size).len() == data.len(),
        xts_decrypted(key, data, size).len() == data.len(),
        xts_encrypted(key, data, size)[i * size + j] == xts_encrypt_sector(
            key.subrange(0, 16),
            key.subrange(16, 32),
            be_bytes(i as nat, 16),
            data.subrange(i * size, i * size + size),
        )[j],
        xts_decrypted(key, data, size)[i * size + j] == xts_decrypt_sector(
            key.subrange(0, 16),
            key.subrange(16, 32),
            be_bytes(i as nat, 16),
            data.subrange(i * size, i * size + size),
        )[j],
{
    assert(key.take(0x10) =~= key.subrange(0, 16));
    assert(key.skip(0x10) =~= key.subrange(16, 32));
    let p = i * size + j;
    vstd::arithmetic::div_mod::lemma_fundamental_div_mod_converse(p, size, i, j);
    assert(0 <= p) by (nonlinear_arith)
        requires
            p == i * size + j,
            i >= 0,
            size > 0,
            j >= 0,
    ;
}

/// The keystream starts with the encryption of the counter itself.
pub proof fn law_the_keystream_starts_at_the_counter(
    key: Seq<u8>,
    counter: Seq<u8>,
    data: Seq<u8>,
    p: int,
)
    requires
        counter.len() == 16,
        0 <= p < data.len(),
        p < 16,
    ensures
        ctr_applied(key, counter, data).len() == data.len(),
        ctr_applied(key, counter, data)[p] == data[p] ^ aes_encrypt_block(key, counter)[p],
{
    law_bytes_read_and_written_back_are_the_same(counter);
    lemma_sixteen_bytes_are_below(counter);
    assert(counter_after(counter, 0) == counter);
}

/// Sixteen bytes stand for less than two to the power of 128.
proof fn lemma_sixteen_bytes_are_below(counter: Seq<u8>)
    requires
        counter.len() == 16,
    ensures
        be_value(counter) < 0x100000000000000000000000000000000nat,
{
    lemma_bytes_are_below(counter);
    reveal_with_fuel(vstd::arithmetic::power::pow, 17);
    assert(vstd::arithmetic::power::pow(256, 16) == 0x100000000000000000000000000000000int);
}

/// `n` bytes stand for less than 256 to the power of `n`.
proof fn lemma_bytes_are_below(bytes: Seq<u8>)
    ensures
        be_value(bytes) < vstd::arithmetic::power::pow(256, bytes.len()),
    decreases bytes.len(),
{
    reveal(vstd::arithmetic::power::pow);
    if bytes.len() > 0 {
        lemma_bytes_are_below(bytes.drop_last());
    }
}

/// The keystream goes on block by block: what it does from block `blocks` on is what a keystream does
/// that starts from the counter that many further, which starts over at zero when it runs out.
pub proof fn law_the_keystream_goes_on_from_the_next_counter(
    key: Seq<u8>,
    counter: Seq<u8>,
    further: Seq<u8>,
    blocks: nat,
    data: Seq<u8>,
)
    requires
        16 * blocks <= data.len(),
        be_value(further) == (be_value(counter) + blocks) % 0x100000000000000000000000000000000nat,
    ensures
        ctr_applied(key, counter, data).skip(16 * blocks as int) == ctr_applied(
            key,
            further,
            data.skip(16 * blocks as int),
        ),
{
    let at = 16 * blocks as int;
    let left = ctr_applied(key, counter, data).skip(at);
    let right = ctr_applied(key, further, data.skip(at));
    assert forall|p: int| 0 <= p < left.len() implies left[p] == right[p] by {
        assert((p + at) / 16 == p / 16 + blocks && (p + at) % 16 == p % 16);
        let n = (p / 16) as nat;
        assert((be_value(counter) + (n + blocks)) % 0x100000000000000000000000000000000nat == (
        be_value(further) + n) % 0x100000000000000000000000000000000nat);
    }
    assert(left =~= right);
}

} // verus!
