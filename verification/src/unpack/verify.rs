//! Checking that a decrypted archive is internally consistent.
//!
//! Three independent checks, each answering a different question, and each usable on its own so a
//! caller can report them separately rather than being told only that "something" failed:
//!
//! - [`header_signature`]: was the header altered after it was signed?
//! - [`fs_header_hash`]: does a section's description still match what the header recorded of it?
//! - [`section_hashes`]: do the section's contents still match the table or tree covering them?
//!
//! Only the second of an NCA's two signatures is checkable here. The first is verified against a
//! modulus that lives in the console, so this module has nothing to check it with and does not
//! pretend otherwise.
//!
//! Every check takes bytes that are already decrypted. Run against ciphertext they would all fail,
//! and for the wrong reason.

use crate::bytes::{all_zero, is_all_zero, load, same_bytes, spliced};
use crate::container::{
    IvfcHeader, Nca, NcaSection, Pfs0Superblock, Superblock, NCA_SECTION_COUNT,
};
use crate::crypto::{sha256, sha256_digest};
use crate::signing::{
    advertised_key_verifies, advertised_salt, is_advertised, pss_input, pss_verifies, signed_range,
    stored_signature, verifies_under, verify_header, VerifyError, PUBLIC_EXPONENT, PUBLIC_MODULUS,
    SIGNATURE_SIZE, SIGNED_END, SIGNED_START,
};
use crate::text::{dec_u64, decimal};
use vstd::arithmetic::power2::pow2;
use vstd::prelude::*;
use vstd::slice::slice_subrange;

verus! {

/// Bytes in a SHA-256 digest.
pub const HASH_SIZE: usize = 0x20;

/// What checking the second signature of the header that opens `image` establishes.
pub open spec fn signature_outcome(image: Seq<u8>) -> Result<SignatureCheck, HeaderSignatureError> {
    let stored = stored_signature(image);
    if image.len() < SIGNED_END {
        Err(HeaderSignatureError::TooSmall { available: image.len() as usize })
    } else if all_zero(stored) {
        Ok(SignatureCheck::Absent)
    } else if advertised_key_verifies(signed_range(image), stored) {
        Ok(SignatureCheck::Verified)
    } else {
        Err(HeaderSignatureError::Verify(VerifyError))
    }
}

/// Check the header's second signature against the key titles are signed with here.
///
/// `image` is the decrypted archive. Only a header signed with the advertised key can pass: an
/// archive packed by another toolchain carries a signature this key did not produce.
///
/// An archive that was never signed is [`SignatureCheck::Absent`] rather than an error. Only the
/// program archive of a title is signed (the control, manual, and metadata archives leave the field
/// zeroed by design), so reporting those as failures would call a correctly packed title broken.
///
/// # Errors
///
/// Returns an error if the image is too short to hold a signed header, or if a signature is present
/// and does not verify, meaning the header was altered after signing, or signed by a different key.
pub fn header_signature(image: &[u8]) -> (out: Result<SignatureCheck, HeaderSignatureError>)
    ensures
        out == signature_outcome(image@),
{
    if image.len() < SIGNED_END {
        return Err(HeaderSignatureError::TooSmall { available: image.len() });
    }
    let signed = slice_subrange(image, SIGNED_START, SIGNED_END);
    let stored = load::<0x100>(image, SIGNATURE_SIZE);
    if is_all_zero(&stored) {
        return Ok(SignatureCheck::Absent);
    }
    match verify_header(signed, &stored) {
        Ok(()) => Ok(SignatureCheck::Verified),
        Err(error) => Err(HeaderSignatureError::Verify(error)),
    }
}

/// What checking a header's second signature established.
#[derive(Debug, Clone, Copy, PartialEq, Eq, Structural)]
pub enum SignatureCheck {
    /// The signature is present and verifies against the advertised key.
    Verified,
    /// The header carries no signature, which is how every archive but the program one is packed.
    Absent,
}

/// Error returned by [`header_signature`].
#[derive(Debug, Clone, Copy, PartialEq, Eq, Structural)]
pub enum HeaderSignatureError {
    /// The image is too short to hold the signature and the range it covers.
    ///
    /// Holds what the image actually contained.
    TooSmall {
        /// Number of bytes the image holds.
        available: usize,
    },
    /// The signature does not verify.
    Verify(VerifyError),
}

impl HeaderSignatureError {
    /// What the error reads as in a report.
    pub open spec fn message(self) -> Seq<char> {
        match self {
            HeaderSignatureError::TooSmall { available } => {
                "a signed header needs 1024 bytes; the image has "@ + decimal(available as int)
            },
            HeaderSignatureError::Verify(_) => "the header signature does not verify"@,
        }
    }

    /// Render the error for a report.
    pub fn to_string(&self) -> (out: String)
        ensures
            out@ == self.message(),
    {
        match *self {
            HeaderSignatureError::TooSmall { available } => {
                let mut out = "a signed header needs 1024 bytes; the image has ".to_owned();
                out.append(dec_u64(available as u64).as_str());
                out
            },
            HeaderSignatureError::Verify(_) => "the header signature does not verify".to_owned(),
        }
    }
}

/// What checking the FS header at `index` establishes.
pub open spec fn fs_header_outcome(nca: Nca<'_>, index: usize) -> Result<(), FsHeaderHashError> {
    if index >= NCA_SECTION_COUNT {
        Err(FsHeaderHashError::NoSuchSection { index })
    } else if sha256(nca.fs_headers@[index as int]@) != nca.section_hashes@[index as int]@ {
        Err(FsHeaderHashError::Mismatch { index })
    } else {
        Ok(())
    }
}

/// Check that the FS header at `index` still hashes to what the NCA header recorded for it.
///
/// This is the link that ties a section's description (its type, its encryption, its superblock) to
/// the signed part of the header. A field changed in an FS header without rehashing breaks here.
///
/// # Errors
///
/// Returns an error if `index` is not one of the four slots an NCA holds, or if the recorded hash
/// and the computed one differ.
pub fn fs_header_hash(nca: &Nca<'_>, index: usize) -> (out: Result<(), FsHeaderHashError>)
    ensures
        out == fs_header_outcome(*nca, index),
{
    if index >= NCA_SECTION_COUNT {
        return Err(FsHeaderHashError::NoSuchSection { index });
    }
    let computed = sha256_digest(&nca.fs_headers[index]);
    if !same_bytes(&computed, &nca.section_hashes[index]) {
        return Err(FsHeaderHashError::Mismatch { index });
    }
    Ok(())
}

/// Error returned by [`fs_header_hash`].
#[derive(Debug, Clone, Copy, PartialEq, Eq, Structural)]
pub enum FsHeaderHashError {
    /// The index is not one of the four slots an NCA header holds.
    ///
    /// Holds the rejected index.
    NoSuchSection {
        /// The rejected index.
        index: usize,
    },
    /// The FS header does not hash to what the NCA header recorded.
    ///
    /// Holds the section. The FS header was edited after the archive was built, or the archive is
    /// corrupt; either way the section's description can no longer be trusted.
    Mismatch {
        /// Index of the section in the header.
        index: usize,
    },
}

impl FsHeaderHashError {
    /// What the error reads as in a report.
    pub open spec fn message(self) -> Seq<char> {
        match self {
            FsHeaderHashError::NoSuchSection { index } => {
                "index "@ + decimal(index as int) + " is outside the 4 an NCA holds"@
            },
            FsHeaderHashError::Mismatch { index } => {
                "the FS header for section "@ + decimal(index as int)
                    + " does not match its recorded hash"@
            },
        }
    }

    /// Render the error for a report.
    pub fn to_string(&self) -> (out: String)
        ensures
            out@ == self.message(),
    {
        match *self {
            FsHeaderHashError::NoSuchSection { index } => {
                let mut out = "index ".to_owned();
                out.append(dec_u64(index as u64).as_str());
                out.append(" is outside the 4 an NCA holds");
                out
            },
            FsHeaderHashError::Mismatch { index } => {
                let mut out = "the FS header for section ".to_owned();
                out.append(dec_u64(index as u64).as_str());
                out.append(" does not match its recorded hash");
                out
            },
        }
    }
}

/// The `size` bytes of `section` at `offset`, if the section holds them all.
pub open spec fn region_at(section: Seq<u8>, offset: u64, size: u64) -> Option<Seq<u8>> {
    if offset + size <= section.len() {
        Some(section.subrange(offset as int, offset + size))
    } else {
        None
    }
}

/// The error for a region that lies outside `section`.
pub open spec fn out_of_bounds(
    section: Seq<u8>,
    offset: u64,
    size: u64,
    region: Region,
) -> SectionHashesError {
    SectionHashesError::RegionOutOfBounds {
        region,
        offset,
        size,
        available: section.len() as usize,
    }
}

/// How many blocks of `size` bytes it takes to cover `len` bytes, the last one possibly short.
pub open spec fn block_count(len: int, size: int) -> int {
    len / size + if len % size != 0 {
        1int
    } else {
        0int
    }
}

/// Block `index` of `data`, where blocks are `size` bytes each but for the last, which ends where
/// the data does.
pub open spec fn data_block(data: Seq<u8>, size: int, index: int) -> Seq<u8> {
    data.subrange(
        index * size,
        if index * size + size <= data.len() {
            index * size + size
        } else {
            data.len() as int
        },
    )
}

/// Whether `hashes` holds a hash for block `index`.
pub open spec fn has_hash(hashes: Seq<u8>, index: int) -> bool {
    index * 0x20 + 0x20 <= hashes.len()
}

/// Whether `hashes` holds the hash of block `index` of `data`.
pub open spec fn block_matches(hashes: Seq<u8>, data: Seq<u8>, size: int, index: int) -> bool {
    &&& has_hash(hashes, index)
    &&& hashes.subrange(index * 0x20, index * 0x20 + 0x20) == sha256(data_block(data, size, index))
}

/// What checking the blocks of `data` from `from` on against `hashes` establishes: the first block
/// that does not match its hash decides.
pub open spec fn blocks_outcome(
    hashes: Seq<u8>,
    data: Seq<u8>,
    size: int,
    level: usize,
    from: int,
) -> Result<(), SectionHashesError>
    decreases block_count(data.len() as int, size) - from,
{
    let blocks = block_count(data.len() as int, size);
    if from >= blocks {
        Ok(())
    } else if block_matches(hashes, data, size, from) {
        blocks_outcome(hashes, data, size, level, from + 1)
    } else if has_hash(hashes, from) {
        Err(SectionHashesError::BlockHashMismatch { level, block: from as usize })
    } else {
        Err(
            SectionHashesError::HashTableTooShort {
                level,
                blocks: blocks as usize,
                available: (hashes.len() / 0x20) as usize,
            },
        )
    }
}

/// What checking a PFS0 section establishes: the master hash over the table, then the table over
/// the archive.
pub open spec fn partition_outcome(section: Seq<u8>, superblock: Pfs0Superblock) -> Result<
    (),
    SectionHashesError,
> {
    let table = region_at(section, superblock.hash_table_offset, superblock.hash_table_size);
    let archive = region_at(section, superblock.pfs0_offset, superblock.pfs0_size);
    if superblock.block_size == 0 {
        Err(SectionHashesError::ZeroBlockSize)
    } else if table is None {
        Err(
            out_of_bounds(
                section,
                superblock.hash_table_offset,
                superblock.hash_table_size,
                Region::HashTable,
            ),
        )
    } else if archive is None {
        Err(
            out_of_bounds(
                section,
                superblock.pfs0_offset,
                superblock.pfs0_size,
                Region::Archive,
            ),
        )
    } else if sha256(table->0) != superblock.master_hash@ {
        Err(SectionHashesError::MasterHashMismatch { level: 0 })
    } else {
        blocks_outcome(table->0, archive->0, superblock.block_size as int, 0, 0)
    }
}

/// The bytes of level `index` of a tree, where the section holds them.
pub open spec fn level_bytes(section: Seq<u8>, ivfc: IvfcHeader, index: int) -> Seq<u8> {
    let header = ivfc.level_headers@[index];
    section.subrange(header.logical_offset as int, header.logical_offset + header.hash_data_size)
}

/// Why the levels of a tree from `from` on cannot all be read, if they cannot.
pub open spec fn unreadable_level(section: Seq<u8>, ivfc: IvfcHeader, from: int) -> Option<
    SectionHashesError,
>
    decreases ivfc.level_count - 1 - from,
{
    if from >= ivfc.level_count - 1 {
        None
    } else if from >= ivfc.level_headers@.len() {
        Some(SectionHashesError::NoLevels { level_count: ivfc.level_count })
    } else {
        let header = ivfc.level_headers@[from];
        match region_at(section, header.logical_offset, header.hash_data_size) {
            None => Some(
                out_of_bounds(
                    section,
                    header.logical_offset,
                    header.hash_data_size,
                    Region::Level { index: from as usize },
                ),
            ),
            Some(_) => unreadable_level(section, ivfc, from + 1),
        }
    }
}

/// What checking each level of a tree from `from` on against the hashes in the level above it
/// establishes: the first failure decides.
pub open spec fn levels_outcome(section: Seq<u8>, ivfc: IvfcHeader, from: int) -> Result<
    (),
    SectionHashesError,
>
    decreases ivfc.level_count - 2 - from,
{
    if from >= ivfc.level_count - 2 {
        Ok(())
    } else if ivfc.level_headers@[from].block_size >= usize::BITS {
        Err(SectionHashesError::ZeroBlockSize)
    } else {
        let checked = blocks_outcome(
            level_bytes(section, ivfc, from),
            level_bytes(section, ivfc, from + 1),
            pow2(ivfc.level_headers@[from].block_size as nat) as int,
            from as usize,
            0,
        );
        match checked {
            Ok(()) => levels_outcome(section, ivfc, from + 1),
            Err(error) => Err(error),
        }
    }
}

/// What checking an IVFC tree establishes: the master hash over the first level, then each level
/// over the next.
pub open spec fn tree_outcome(section: Seq<u8>, ivfc: IvfcHeader) -> Result<
    (),
    SectionHashesError,
> {
    if ivfc.level_count <= 1 {
        Err(SectionHashesError::NoLevels { level_count: ivfc.level_count })
    } else {
        match unreadable_level(section, ivfc, 0) {
            Some(error) => Err(error),
            None => if sha256(level_bytes(section, ivfc, 0)) != ivfc.master_hash@ {
                Err(SectionHashesError::MasterHashMismatch { level: 0 })
            } else {
                levels_outcome(section, ivfc, 0)
            },
        }
    }
}

/// What checking a section's contents establishes.
pub open spec fn section_outcome(bytes: Seq<u8>, superblock: Superblock) -> Result<
    (),
    SectionHashesError,
> {
    match superblock {
        Superblock::Pfs0(superblock) => partition_outcome(bytes, superblock),
        Superblock::RomFs(ivfc) => tree_outcome(bytes, ivfc),
        Superblock::Unreadable => Err(SectionHashesError::SuperblockUnreadable),
    }
}

/// Check a section's contents against the hash table or hash tree covering them.
///
/// Which structure is used follows from the section's hash type, as it does everywhere else: a PFS0
/// section carries one table, a RomFS section a whole IVFC tree.
///
/// # Errors
///
/// Returns an error if the superblock cannot be read, if it locates a region outside the section, if
/// it declares a block size of zero or a level count that names no levels, if a hash table is
/// shorter than the blocks it must cover, or if any recorded hash differs from the computed one.
pub fn section_hashes(section: &NcaSection<'_>) -> (out: Result<(), SectionHashesError>)
    ensures
        out == section_outcome(section.bytes@, section.superblock),
{
    match &section.superblock {
        Superblock::Pfs0(superblock) => partition_hashes(section.bytes, superblock),
        Superblock::RomFs(ivfc) => ivfc_hashes(section.bytes, ivfc),
        Superblock::Unreadable => Err(SectionHashesError::SuperblockUnreadable),
    }
}

/// Error returned by [`section_hashes`].
#[derive(Debug, Clone, Copy, PartialEq, Eq, Structural)]
pub enum SectionHashesError {
    /// The superblock span could not be read as either verification structure.
    ///
    /// Both structures exactly fill the span the FS header reserves, so a section that parsed
    /// cannot reach this; it exists because reading a superblock is infallible by design.
    SuperblockUnreadable,
    /// The superblock declares a block size of zero, which covers nothing.
    ZeroBlockSize,
    /// The IVFC header declares a level count that names no stored levels.
    ///
    /// Holds the count the header carried, which counts the master hash as well as the levels.
    NoLevels {
        /// The count the IVFC header carried.
        level_count: u32,
    },
    /// A region the superblock locates falls outside the section.
    ///
    /// Holds which region it was and where the superblock put it.
    RegionOutOfBounds {
        /// Which region was being read.
        region: Region,
        /// Offset the superblock records, from the start of the section.
        offset: u64,
        /// Length the superblock records.
        size: u64,
        /// Number of bytes the section holds.
        available: usize,
    },
    /// The master hash does not cover what the superblock says it covers.
    ///
    /// Holds the level it was taken over. The verification structure was rebuilt without the
    /// superblock being updated, or the section is corrupt.
    MasterHashMismatch {
        /// Which level the master hash covers.
        level: usize,
    },
    /// A hash table is shorter than the blocks it has to cover.
    ///
    /// Holds the level and the counts on both sides.
    HashTableTooShort {
        /// Which level the table belongs to.
        level: usize,
        /// Number of blocks the level above is cut into.
        blocks: usize,
        /// Number of hashes the table actually holds.
        available: usize,
    },
    /// A recorded block hash differs from the computed one.
    ///
    /// Holds the level and the block within it. This is the check that catches altered contents:
    /// the bytes of that block are not the ones the archive was built from.
    BlockHashMismatch {
        /// Which level the hash was read from.
        level: usize,
        /// Which block of the level above it covers.
        block: usize,
    },
}

impl SectionHashesError {
    /// What the error reads as in a report.
    pub open spec fn message(self) -> Seq<char> {
        match self {
            SectionHashesError::SuperblockUnreadable => {
                "the section's superblock could not be read"@
            },
            SectionHashesError::ZeroBlockSize => "the superblock declares a block size of zero"@,
            SectionHashesError::NoLevels { level_count } => {
                "the IVFC header declares "@ + decimal(level_count as int)
                    + " levels, which names none to check"@
            },
            SectionHashesError::RegionOutOfBounds { region, offset, size, available } => {
                region.name() + " lies at "@ + decimal(offset as int) + " of size "@ + decimal(
                    size as int,
                ) + ", outside the "@ + decimal(available as int) + "-byte section"@
            },
            SectionHashesError::MasterHashMismatch { level } => {
                "the master hash over level "@ + decimal(level as int) + " does not match"@
            },
            SectionHashesError::HashTableTooShort { level, blocks, available } => {
                "level "@ + decimal(level as int) + " holds "@ + decimal(available as int)
                    + " hashes but must cover "@ + decimal(blocks as int) + " blocks"@
            },
            SectionHashesError::BlockHashMismatch { level, block } => {
                "the hash for block "@ + decimal(block as int) + " of level "@ + decimal(
                    level as int,
                ) + " does not match"@
            },
        }
    }

    /// Render the error for a report.
    pub fn to_string(&self) -> (out: String)
        ensures
            out@ == self.message(),
    {
        match *self {
            SectionHashesError::SuperblockUnreadable => {
                "the section's superblock could not be read".to_owned()
            },
            SectionHashesError::ZeroBlockSize => {
                "the superblock declares a block size of zero".to_owned()
            },
            SectionHashesError::NoLevels { level_count } => {
                let mut out = "the IVFC header declares ".to_owned();
                out.append(dec_u64(level_count as u64).as_str());
                out.append(" levels, which names none to check");
                out
            },
            SectionHashesError::RegionOutOfBounds { region, offset, size, available } => {
                let mut out = region.to_string();
                out.append(" lies at ");
                out.append(dec_u64(offset).as_str());
                out.append(" of size ");
                out.append(dec_u64(size).as_str());
                out.append(", outside the ");
                out.append(dec_u64(available as u64).as_str());
                out.append("-byte section");
                out
            },
            SectionHashesError::MasterHashMismatch { level } => {
                let mut out = "the master hash over level ".to_owned();
                out.append(dec_u64(level as u64).as_str());
                out.append(" does not match");
                out
            },
            SectionHashesError::HashTableTooShort { level, blocks, available } => {
                let mut out = "level ".to_owned();
                out.append(dec_u64(level as u64).as_str());
                out.append(" holds ");
                out.append(dec_u64(available as u64).as_str());
                out.append(" hashes but must cover ");
                out.append(dec_u64(blocks as u64).as_str());
                out.append(" blocks");
                out
            },
            SectionHashesError::BlockHashMismatch { level, block } => {
                let mut out = "the hash for block ".to_owned();
                out.append(dec_u64(block as u64).as_str());
                out.append(" of level ");
                out.append(dec_u64(level as u64).as_str());
                out.append(" does not match");
                out
            },
        }
    }
}

/// Check a PFS0 section: the master hash over the table, then the table over the archive.
fn partition_hashes(section: &[u8], superblock: &Pfs0Superblock) -> (out: Result<
    (),
    SectionHashesError,
>)
    ensures
        out == partition_outcome(section@, *superblock),
{
    let block_size = superblock.block_size as usize;
    if block_size == 0 {
        return Err(SectionHashesError::ZeroBlockSize);
    }
    let table = match region(
        section,
        superblock.hash_table_offset,
        superblock.hash_table_size,
        Region::HashTable,
    ) {
        Ok(table) => table,
        Err(error) => return Err(error),
    };
    let archive = match region(
        section,
        superblock.pfs0_offset,
        superblock.pfs0_size,
        Region::Archive,
    ) {
        Ok(archive) => archive,
        Err(error) => return Err(error),
    };
    let master = sha256_digest(table);
    if !same_bytes(&master, &superblock.master_hash) {
        return Err(SectionHashesError::MasterHashMismatch { level: 0 });
    }
    check_blocks(table, archive, block_size, 0)
}

/// A shift of one by `exponent` bits is the power of two, where the word has room for it.
proof fn lemma_one_shifted(exponent: u32)
    requires
        exponent < usize::BITS,
    ensures
        1usize << exponent == pow2(exponent as nat),
        pow2(exponent as nat) > 0,
{
    vstd::arithmetic::power2::lemma_pow2_pos(exponent as nat);
    vstd::bits::lemma_usize_pow2_no_overflow(exponent as nat);
    vstd::bits::lemma_usize_shl_is_mul(1, exponent as usize);
}

/// Check an IVFC tree: the master hash over level 0, then each level over the one above it.
fn ivfc_hashes(section: &[u8], ivfc: &IvfcHeader) -> (out: Result<(), SectionHashesError>)
    ensures
        out == tree_outcome(section@, *ivfc),
{
    // `level_count` counts the master hash as well as the stored levels.
    if ivfc.level_count <= 1 {
        return Err(SectionHashesError::NoLevels { level_count: ivfc.level_count });
    }
    let stored = (ivfc.level_count - 1) as usize;
    let mut levels: Vec<&[u8]> = Vec::new();
    let mut index: usize = 0;
    while index < stored
        invariant
            ivfc.level_count > 1,
            stored == ivfc.level_count - 1,
            index <= stored,
            index <= ivfc.level_headers@.len(),
            levels@.len() == index,
            unreadable_level(section@, *ivfc, 0) == unreadable_level(section@, *ivfc, index as int),
            forall|i: int|
                0 <= i < index ==> (#[trigger] levels@[i])@ == level_bytes(section@, *ivfc, i),
        decreases stored - index,
    {
        if index >= ivfc.level_headers.len() {
            return Err(SectionHashesError::NoLevels { level_count: ivfc.level_count });
        }
        let header = ivfc.level_headers[index];
        match region(
            section,
            header.logical_offset,
            header.hash_data_size,
            Region::Level { index },
        ) {
            Ok(level) => {
                levels.push(level);
            },
            Err(error) => return Err(error),
        }
        index += 1;
    }
    let master = sha256_digest(levels[0]);
    if !same_bytes(&master, &ivfc.master_hash) {
        return Err(SectionHashesError::MasterHashMismatch { level: 0 });
    }
    index = 0;
    while index < stored - 1
        invariant
            ivfc.level_count > 1,
            stored == ivfc.level_count - 1,
            stored <= ivfc.level_headers@.len(),
            index <= stored - 1,
            levels@.len() == stored,
            tree_outcome(section@, *ivfc) == levels_outcome(section@, *ivfc, index as int),
            forall|i: int|
                0 <= i < stored ==> (#[trigger] levels@[i])@ == level_bytes(section@, *ivfc, i),
        decreases stored - index,
    {
        // A level's own header states the block size its hashes cover, so the hashes in level
        // `index` are taken over blocks of that size cut from the level above it.
        let exponent = ivfc.level_headers[index].block_size;
        if exponent >= usize::BITS {
            return Err(SectionHashesError::ZeroBlockSize);
        }
        proof {
            lemma_one_shifted(exponent);
        }
        let block_size = 1usize << exponent;
        match check_blocks(levels[index], levels[index + 1], block_size, index) {
            Ok(()) => {},
            Err(error) => return Err(error),
        }
        index += 1;
    }
    Ok(())
}

/// Blocks are counted by where they start: block `index` exists exactly when its start lies inside
/// the data.
proof fn lemma_block_starts_inside(len: int, size: int, index: int)
    requires
        len >= 0,
        size > 0,
        index >= 0,
    ensures
        index * size < len <==> index < block_count(len, size),
        index * size >= 0,
{
    let whole = len / size;
    let rest = len % size;
    vstd::arithmetic::div_mod::lemma_fundamental_div_mod(len, size);
    assert(0 <= rest < size) by (nonlinear_arith)
        requires
            rest == len % size,
            size > 0,
    ;
    assert(index * size >= 0) by (nonlinear_arith)
        requires
            index >= 0,
            size > 0,
    ;
    if index <= whole {
        assert(index * size <= whole * size) by (nonlinear_arith)
            requires
                index <= whole,
                size > 0,
        ;
        if index < whole {
            assert(index * size + size <= whole * size) by (nonlinear_arith)
                requires
                    index + 1 <= whole,
                    size > 0,
            ;
        }
    } else {
        assert(index * size >= whole * size + size) by (nonlinear_arith)
            requires
                index >= whole + 1,
                size > 0,
        ;
    }
    assert(size * whole == whole * size) by (nonlinear_arith);
}

/// There are never more blocks than bytes.
proof fn lemma_no_more_blocks_than_bytes(len: int, size: int)
    requires
        len >= 0,
        size > 0,
    ensures
        0 <= block_count(len, size) <= len,
{
    let whole = len / size;
    vstd::arithmetic::div_mod::lemma_fundamental_div_mod(len, size);
    assert(0 <= len % size < size) by (nonlinear_arith)
        requires
            size > 0,
    ;
    assert(0 <= whole) by (nonlinear_arith)
        requires
            whole == len / size,
            len >= 0,
            size > 0,
    ;
    assert(whole <= size * whole) by (nonlinear_arith)
        requires
            whole >= 0,
            size >= 1,
    ;
}

/// Check that `hashes` holds the SHA-256 of every `block_size` chunk of `data`.
///
/// Hashes past the blocks `data` actually has are padding and are not checked, which is what lets a
/// level padded out to a whole block verify.
fn check_blocks(hashes: &[u8], data: &[u8], block_size: usize, level: usize) -> (out: Result<
    (),
    SectionHashesError,
>)
    requires
        block_size > 0,
    ensures
        out == blocks_outcome(hashes@, data@, block_size as int, level, 0),
{
    let ghost size = block_size as int;
    let len = data.len();
    let mut index: usize = 0;
    let mut at: usize = 0;
    proof {
        lemma_block_starts_inside(len as int, size, 0);
    }
    while at < len
        invariant
            size == block_size,
            block_size > 0,
            len == data@.len(),
            at <= len,
            at < len ==> at == index * size,
            index <= len,
            (at < len) == (index < block_count(len as int, size)),
            blocks_outcome(hashes@, data@, size, level, 0) == blocks_outcome(
                hashes@,
                data@,
                size,
                level,
                index as int,
            ),
        decreases len - at,
    {
        proof {
            lemma_block_starts_inside(len as int, size, index as int);
            lemma_block_starts_inside(len as int, size, index + 1);
            lemma_no_more_blocks_than_bytes(len as int, size);
            assert((index + 1) * size == index * size + size) by (nonlinear_arith);
        }
        let end = if len - at < block_size {
            len
        } else {
            at + block_size
        };
        let block = slice_subrange(data, at, end);
        assert(block@ == data_block(data@, size, index as int));
        if hashes.len() / HASH_SIZE <= index {
            assert(!has_hash(hashes@, index as int));
            let blocks = len / block_size + if len % block_size != 0 {
                1
            } else {
                0
            };
            return Err(
                SectionHashesError::HashTableTooShort {
                    level,
                    blocks,
                    available: hashes.len() / HASH_SIZE,
                },
            );
        }
        let start = index * HASH_SIZE;
        let recorded = slice_subrange(hashes, start, start + HASH_SIZE);
        let computed = sha256_digest(block);
        if !same_bytes(&computed, recorded) {
            return Err(SectionHashesError::BlockHashMismatch { level, block: index });
        }
        index += 1;
        at = end;
    }
    Ok(())
}

/// Which region of a section a bounds failure was reading.
#[derive(Debug, Clone, Copy, PartialEq, Eq, Structural)]
pub enum Region {
    /// The single-level hash table of a PFS0 section.
    HashTable,
    /// The archive of a PFS0 section.
    Archive,
    /// One level of a RomFS section's IVFC tree.
    Level {
        /// Which level, counted from the master hash downwards.
        index: usize,
    },
}

impl Region {
    /// The region's name, with an IVFC level carrying its index.
    pub open spec fn name(self) -> Seq<char> {
        match self {
            Region::HashTable => "the hash table"@,
            Region::Archive => "the archive"@,
            Region::Level { index } => "IVFC level "@ + decimal(index as int),
        }
    }

    /// Render as the region's name, with an IVFC level carrying its index, so a bounds failure
    /// reads as `the hash table lies at …` or `IVFC level 2 lies at …`.
    pub fn to_string(&self) -> (out: String)
        ensures
            out@ == self.name(),
    {
        match *self {
            Region::HashTable => "the hash table".to_owned(),
            Region::Archive => "the archive".to_owned(),
            Region::Level { index } => {
                let mut out = "IVFC level ".to_owned();
                out.append(dec_u64(index as u64).as_str());
                out
            },
        }
    }
}

/// Borrow the region at `offset` of `size` bytes from `section`.
fn region(section: &[u8], offset: u64, size: u64, which: Region) -> (out: Result<
    &[u8],
    SectionHashesError,
>)
    ensures
        match region_at(section@, offset, size) {
            Some(bytes) => out matches Ok(found) && found@ == bytes,
            None => out == Err::<&[u8], SectionHashesError>(
                out_of_bounds(section@, offset, size, which),
            ),
        },
{
    let available = section.len();
    if offset > available as u64 || size > available as u64 - offset {
        return Err(
            SectionHashesError::RegionOutOfBounds { region: which, offset, size, available },
        );
    }
    let start = offset as usize;
    Ok(slice_subrange(section, start, start + size as usize))
}

/// Checking the blocks of `data` from `from` on passes exactly when each of them matches its hash.
proof fn lemma_blocks_from(hashes: Seq<u8>, data: Seq<u8>, size: int, level: usize, from: int)
    requires
        0 <= from,
    ensures
        blocks_outcome(hashes, data, size, level, from) is Ok <==> forall|i: int|
            from <= i < block_count(data.len() as int, size) ==> #[trigger] block_matches(
                hashes,
                data,
                size,
                i,
            ),
    decreases block_count(data.len() as int, size) - from,
{
    if from < block_count(data.len() as int, size) {
        lemma_blocks_from(hashes, data, size, level, from + 1);
        assert(block_matches(hashes, data, size, from) || !block_matches(hashes, data, size, from));
    }
}

/// Whether every block of `data` matches its hash in `hashes`.
pub open spec fn all_blocks_match(hashes: Seq<u8>, data: Seq<u8>, size: int) -> bool {
    forall|i: int|
        0 <= i < block_count(data.len() as int, size) ==> #[trigger] block_matches(
            hashes,
            data,
            size,
            i,
        )
}

/// A PFS0 section passes exactly when its superblock locates a table and an archive inside it, the
/// master hash covers the table, and every block of the archive matches its hash: one altered block
/// is enough to fail.
pub proof fn law_partition_passes_exactly_when_every_hash_matches(
    section: Seq<u8>,
    superblock: Pfs0Superblock,
)
    ensures
        partition_outcome(section, superblock) is Ok <==> {
            &&& superblock.block_size > 0
            &&& region_at(
                section,
                superblock.hash_table_offset,
                superblock.hash_table_size,
            ) matches Some(table)
            &&& region_at(section, superblock.pfs0_offset, superblock.pfs0_size) matches Some(
                archive,
            )
            &&& sha256(table) == superblock.master_hash@
            &&& all_blocks_match(table, archive, superblock.block_size as int)
        },
{
    let table = region_at(section, superblock.hash_table_offset, superblock.hash_table_size);
    let archive = region_at(section, superblock.pfs0_offset, superblock.pfs0_size);
    if superblock.block_size > 0 && table is Some && archive is Some {
        lemma_blocks_from(table->0, archive->0, superblock.block_size as int, 0, 0);
    }
}

/// Whether a tree has a header for level `index` and the section holds the level it locates.
pub open spec fn level_inside(section: Seq<u8>, ivfc: IvfcHeader, index: int) -> bool {
    &&& index < ivfc.level_headers@.len()
    &&& ivfc.level_headers@[index].logical_offset + ivfc.level_headers@[index].hash_data_size
        <= section.len()
}

/// Whether level `index` of a tree holds the hash of every block of the next level.
pub open spec fn level_matches(section: Seq<u8>, ivfc: IvfcHeader, index: int) -> bool {
    &&& ivfc.level_headers@[index].block_size < usize::BITS
    &&& all_blocks_match(
        level_bytes(section, ivfc, index),
        level_bytes(section, ivfc, index + 1),
        pow2(ivfc.level_headers@[index].block_size as nat) as int,
    )
}

/// The levels from `from` on can all be read exactly when the section holds each of them.
proof fn lemma_levels_inside(section: Seq<u8>, ivfc: IvfcHeader, from: int)
    requires
        0 <= from,
    ensures
        unreadable_level(section, ivfc, from) is None <==> forall|i: int|
            from <= i < ivfc.level_count - 1 ==> #[trigger] level_inside(section, ivfc, i),
    decreases ivfc.level_count - 1 - from,
{
    if from < ivfc.level_count - 1 {
        lemma_levels_inside(section, ivfc, from + 1);
        if level_inside(section, ivfc, from) {
            assert(unreadable_level(section, ivfc, from) == unreadable_level(
                section,
                ivfc,
                from + 1,
            ));
        } else {
            assert(unreadable_level(section, ivfc, from) is Some);
        }
    }
}

/// Checking the levels from `from` on passes exactly when each of them matches.
proof fn lemma_levels_from(section: Seq<u8>, ivfc: IvfcHeader, from: int)
    requires
        0 <= from,
    ensures
        levels_outcome(section, ivfc, from) is Ok <==> forall|i: int|
            from <= i < ivfc.level_count - 2 ==> #[trigger] level_matches(section, ivfc, i),
    decreases ivfc.level_count - 2 - from,
{
    if from < ivfc.level_count - 2 {
        lemma_levels_from(section, ivfc, from + 1);
        let size = pow2(ivfc.level_headers@[from].block_size as nat) as int;
        let hashes = level_bytes(section, ivfc, from);
        let data = level_bytes(section, ivfc, from + 1);
        lemma_blocks_from(hashes, data, size, from as usize, 0);
        assert(blocks_outcome(hashes, data, size, from as usize, 0) is Ok <==> all_blocks_match(
            hashes,
            data,
            size,
        ));
        if level_matches(section, ivfc, from) {
            assert(levels_outcome(section, ivfc, from) == levels_outcome(section, ivfc, from + 1));
        } else {
            assert(levels_outcome(section, ivfc, from) is Err);
        }
    }
}

/// A RomFS section passes exactly when its tree names at least one level, the section holds every
/// level named, the master hash covers the first, and every level holds the hashes of the next: one
/// altered block anywhere in the tree is enough to fail.
pub proof fn law_tree_passes_exactly_when_every_hash_matches(section: Seq<u8>, ivfc: IvfcHeader)
    ensures
        tree_outcome(section, ivfc) is Ok <==> {
            &&& ivfc.level_count > 1
            &&& forall|i: int|
                0 <= i < ivfc.level_count - 1 ==> #[trigger] level_inside(section, ivfc, i)
            &&& sha256(level_bytes(section, ivfc, 0)) == ivfc.master_hash@
            &&& forall|i: int|
                0 <= i < ivfc.level_count - 2 ==> #[trigger] level_matches(section, ivfc, i)
        },
{
    lemma_levels_inside(section, ivfc, 0);
    lemma_levels_from(section, ivfc, 0);
}

/// A header that carries the signature the advertised key made over its signed range verifies, as
/// the caller of [`crate::signing::sign_header`] gets one.
pub proof fn law_a_signed_header_verifies(image: Seq<u8>, pem: Seq<char>, signature: Seq<u8>)
    requires
        image.len() >= SIGNED_END,
        signature.len() == SIGNATURE_SIZE,
        is_advertised(pem),
        verifies_under(pem, signed_range(image), signature),
        !all_zero(signature),
    ensures
        signature_outcome(spliced(image, SIGNATURE_SIZE as int, signature)) == Ok::<
            SignatureCheck,
            HeaderSignatureError,
        >(SignatureCheck::Verified),
{
    let signed = spliced(image, SIGNATURE_SIZE as int, signature);
    assert(signed_range(signed) =~= signed_range(image));
    assert(stored_signature(signed) =~= signature);
}

/// A header that carries a signature fails exactly when the advertised key does not verify it over
/// what the signed range holds now: one altered after signing fails unless the scheme itself accepts
/// the altered range.
pub proof fn law_a_signature_counts_only_over_what_is_there_now(image: Seq<u8>)
    requires
        image.len() >= SIGNED_END,
        !all_zero(stored_signature(image)),
    ensures
        signature_outcome(image) == Err::<SignatureCheck, HeaderSignatureError>(
            HeaderSignatureError::Verify(VerifyError),
        ) <==> !advertised_key_verifies(signed_range(image), stored_signature(image)),
{
}

/// Whether `left` and `right` are two different inputs that SHA-256 gives one digest.
pub open spec fn collide(left: Seq<u8>, right: Seq<u8>) -> bool {
    left != right && sha256(left) == sha256(right)
}

/// A header altered after it was signed fails. `image` verifies, and `altered` carries the same
/// signature over a signed range that differs: it fails exactly when what the signature holds the
/// digest of has another digest now, which it has unless the two ranges, or what the signature hashes
/// of them, are two different inputs with one SHA-256 digest.
pub proof fn law_a_header_altered_after_signing_fails(image: Seq<u8>, altered: Seq<u8>)
    requires
        signature_outcome(image) == Ok::<SignatureCheck, HeaderSignatureError>(
            SignatureCheck::Verified,
        ),
        altered.len() >= SIGNED_END,
        stored_signature(altered) == stored_signature(image),
        signed_range(altered) != signed_range(image),
    ensures
        ({
            let salt = advertised_salt(stored_signature(image));
            let before = pss_input(signed_range(image), salt);
            let after = pss_input(signed_range(altered), salt);
            let failed = signature_outcome(altered) == Err::<SignatureCheck, HeaderSignatureError>(
                HeaderSignatureError::Verify(VerifyError),
            );
            &&& failed <==> sha256(after) != sha256(before)
            &&& failed || collide(signed_range(image), signed_range(altered)) || collide(before, after)
        }),
{
    let salt = advertised_salt(stored_signature(image));
    let before = pss_input(signed_range(image), salt);
    let after = pss_input(signed_range(altered), salt);
    if before == after {
        let old_digest = sha256(signed_range(image));
        let new_digest = sha256(signed_range(altered));
        assert(before.len() == 8 + old_digest.len() + salt.len());
        assert(after.len() == 8 + new_digest.len() + salt.len());
        assert(before.subrange(8, 8 + old_digest.len() as int) =~= old_digest);
        assert(after.subrange(8, 8 + new_digest.len() as int) =~= new_digest);
    }
}

/// A header whose signed range or signature is replaced passes only if the advertised key verifies
/// what is there now: nothing else about the archive makes a signature count.
pub proof fn law_signature_rests_on_the_signed_range_and_the_signature_alone(
    image: Seq<u8>,
    other: Seq<u8>,
)
    requires
        image.len() >= SIGNED_END,
        other.len() >= SIGNED_END,
        image.subrange(SIGNATURE_SIZE as int, SIGNED_END as int) == other.subrange(
            SIGNATURE_SIZE as int,
            SIGNED_END as int,
        ),
    ensures
        signature_outcome(image) == signature_outcome(other),
{
    let a = image.subrange(SIGNATURE_SIZE as int, SIGNED_END as int);
    let b = other.subrange(SIGNATURE_SIZE as int, SIGNED_END as int);
    assert(signed_range(image) =~= a.subrange(0x100, 0x300));
    assert(signed_range(other) =~= b.subrange(0x100, 0x300));
    assert(stored_signature(image) =~= a.subrange(0, 0x100));
    assert(stored_signature(other) =~= b.subrange(0, 0x100));
}

/// Each of the four FS headers is checked against the hash recorded for its own slot: it passes
/// exactly when it hashes to that, and there is no fifth.
pub proof fn law_an_fs_header_passes_exactly_on_its_own_hash(nca: Nca<'_>, index: usize)
    ensures
        index < 4 && nca.section_hashes@[index as int]@ == sha256(nca.fs_headers@[index as int]@)
            ==> fs_header_outcome(nca, index) == Ok::<(), FsHeaderHashError>(()),
        index < 4 && nca.section_hashes@[index as int]@ != sha256(nca.fs_headers@[index as int]@)
            ==> fs_header_outcome(nca, index) == Err::<(), FsHeaderHashError>(
            FsHeaderHashError::Mismatch { index },
        ),
        index >= 4 ==> fs_header_outcome(nca, index) == Err::<(), FsHeaderHashError>(
            FsHeaderHashError::NoSuchSection { index },
        ),
{
}

/// What another slot holds makes no difference to a slot: two archives that agree on one slot's FS
/// header and recorded hash get the same answer for it.
pub proof fn law_fs_headers_are_checked_apart(left: Nca<'_>, right: Nca<'_>, index: usize)
    requires
        index < 4,
        left.fs_headers@[index as int] == right.fs_headers@[index as int],
        left.section_hashes@[index as int] == right.section_hashes@[index as int],
    ensures
        fs_header_outcome(left, index) == fs_header_outcome(right, index),
{
}

/// The signature of a header is what its second `0x100` bytes hold, over the `0x200` bytes after them:
/// an image too short for both is refused, zeros are no signature, and anything else verifies under
/// the advertised key or fails.
pub proof fn law_the_signature_is_checked_where_it_stands(image: Seq<u8>)
    requires
        image.len() <= usize::MAX,
    ensures
        image.len() < 0x400 ==> signature_outcome(image) == Err::<
            SignatureCheck,
            HeaderSignatureError,
        >(HeaderSignatureError::TooSmall { available: image.len() as usize }),
        image.len() >= 0x400 ==> signature_outcome(image) == if forall|p: int|
            0x100 <= p < 0x200 ==> #[trigger] image[p] == 0 {
            Ok::<SignatureCheck, HeaderSignatureError>(SignatureCheck::Absent)
        } else if pss_verifies(
            PUBLIC_MODULUS@,
            seq![1u8, 0, 1],
            image.subrange(0x200, 0x400),
            image.subrange(0x100, 0x200),
        ) {
            Ok(SignatureCheck::Verified)
        } else {
            Err(HeaderSignatureError::Verify(VerifyError))
        },
{
    assert(PUBLIC_EXPONENT@ =~= seq![1u8, 0, 1]);
    if image.len() >= 0x400 {
        let stored = image.subrange(0x100, 0x200);
        if forall|p: int| 0x100 <= p < 0x200 ==> #[trigger] image[p] == 0 {
            assert forall|p: int| 0 <= p < stored.len() implies #[trigger] stored[p] == 0 by {
                assert(image[p + 0x100] == 0);
            }
        } else {
            let p = choose|p: int| 0x100 <= p < 0x200 && #[trigger] image[p] != 0;
            assert(stored[p - 0x100] != 0);
        }
    }
}

/// How checking the blocks from `from` on ends, seen from one block.
proof fn lemma_blocks_seen_from_one(
    hashes: Seq<u8>,
    data: Seq<u8>,
    size: int,
    level: usize,
    from: int,
    index: int,
)
    requires
        size > 0,
        from >= 0,
        from <= block_count(data.len() as int, size),
        hashes.len() <= usize::MAX,
        data.len() <= usize::MAX,
    ensures
        match blocks_outcome(hashes, data, size, level, from) {
            Ok(()) => from <= index < block_count(data.len() as int, size) ==> block_matches(
                hashes,
                data,
                size,
                index,
            ),
            Err(SectionHashesError::BlockHashMismatch { level: at, block }) => {
                &&& at == level
                &&& from <= block < block_count(data.len() as int, size)
                &&& has_hash(hashes, block as int)
                &&& !block_matches(hashes, data, size, block as int)
                &&& from <= index < block ==> block_matches(hashes, data, size, index)
            },
            Err(SectionHashesError::HashTableTooShort { level: at, blocks, available }) => {
                &&& at == level
                &&& blocks == block_count(data.len() as int, size)
                &&& available == hashes.len() / 32
                &&& available < blocks
                &&& from <= index < available ==> block_matches(hashes, data, size, index)
            },
            _ => false,
        },
    decreases block_count(data.len() as int, size) - from,
{
    lemma_no_more_blocks_than_bytes(data.len() as int, size);
    if from < block_count(data.len() as int, size) {
        if block_matches(hashes, data, size, from) {
            lemma_blocks_seen_from_one(hashes, data, size, level, from + 1, index);
        }
    }
}

/// Blocks are checked one by one, to the last byte of the data: block `index` is the `size` bytes at
/// `index * size`, or what is left of them, and its hash the thirty-two bytes at `index * 32`. If all
/// is well, each block has its hash there. If not, the one reported is the first that has not, by its
/// own number, or else the table ends before the blocks do.
pub proof fn law_blocks_are_checked_one_by_one(
    hashes: Seq<u8>,
    data: Seq<u8>,
    size: int,
    level: usize,
    index: int,
)
    requires
        size > 0,
        hashes.len() <= usize::MAX,
        data.len() <= usize::MAX,
        0 <= index,
    ensures
        ({
            let end = if index * size + size <= data.len() {
                index * size + size
            } else {
                data.len() as int
            };
            let matches = index * 32 + 32 <= hashes.len() && hashes.subrange(
                index * 32,
                index * 32 + 32,
            ) == sha256(data.subrange(index * size, end));
            match blocks_outcome(hashes, data, size, level, 0) {
                Ok(()) => index * size < data.len() ==> matches,
                Err(SectionHashesError::BlockHashMismatch { level: at, block }) => {
                    &&& at == level
                    &&& block * size < data.len()
                    &&& block * 32 + 32 <= hashes.len()
                    &&& index == block ==> !matches
                    &&& index < block ==> matches
                },
                Err(SectionHashesError::HashTableTooShort { level: at, blocks, available }) => {
                    &&& at == level
                    &&& available == hashes.len() / 32
                    &&& available * size < data.len()
                    &&& blocks > 0 && (blocks - 1) * size < data.len() <= blocks * size
                    &&& index < available ==> matches
                },
                _ => false,
            }
        }),
{
    let len = data.len() as int;
    lemma_no_more_blocks_than_bytes(len, size);
    lemma_blocks_seen_from_one(hashes, data, size, level, 0, index);
    lemma_block_starts_inside(len, size, index);
    match blocks_outcome(hashes, data, size, level, 0) {
        Ok(()) => {},
        Err(SectionHashesError::BlockHashMismatch { level: at, block }) => {
            lemma_block_starts_inside(len, size, block as int);
        },
        Err(SectionHashesError::HashTableTooShort { level: at, blocks, available }) => {
            lemma_block_starts_inside(len, size, available as int);
            lemma_block_starts_inside(len, size, blocks as int);
            lemma_block_starts_inside(len, size, blocks - 1);
        },
        _ => {},
    }
}

/// A partition is checked from the master hash down: the block size has to cover something, the table
/// and then the archive have to lie inside the section, the master hash has to be the table's, and
/// then the table's hashes are checked over the archive.
pub proof fn law_a_partition_is_checked_from_the_master_hash_down(
    section: Seq<u8>,
    superblock: Pfs0Superblock,
)
    requires
        section.len() <= usize::MAX,
    ensures
        ({
            let table = superblock.hash_table_offset as int;
            let table_end = superblock.hash_table_offset + superblock.hash_table_size;
            let archive = superblock.pfs0_offset as int;
            let archive_end = superblock.pfs0_offset + superblock.pfs0_size;
            section_outcome(section, Superblock::Pfs0(superblock)) == if superblock.block_size
                == 0 {
                Err::<(), SectionHashesError>(SectionHashesError::ZeroBlockSize)
            } else if table_end > section.len() {
                Err(
                    SectionHashesError::RegionOutOfBounds {
                        region: Region::HashTable,
                        offset: superblock.hash_table_offset,
                        size: superblock.hash_table_size,
                        available: section.len() as usize,
                    },
                )
            } else if archive_end > section.len() {
                Err(
                    SectionHashesError::RegionOutOfBounds {
                        region: Region::Archive,
                        offset: superblock.pfs0_offset,
                        size: superblock.pfs0_size,
                        available: section.len() as usize,
                    },
                )
            } else if sha256(section.subrange(table, table_end)) != superblock.master_hash@ {
                Err(SectionHashesError::MasterHashMismatch { level: 0 })
            } else {
                blocks_outcome(
                    section.subrange(table, table_end),
                    section.subrange(archive, archive_end),
                    superblock.block_size as int,
                    0,
                    0,
                )
            }
        }),
{
}

/// The first level that cannot be read decides.
proof fn lemma_unreadable_from(section: Seq<u8>, ivfc: IvfcHeader, from: int, first: int)
    requires
        0 <= from <= first <= ivfc.level_count - 1,
        first <= ivfc.level_headers@.len(),
        forall|i: int|
            from <= i < first ==> (#[trigger] ivfc.level_headers@[i]).logical_offset
                + ivfc.level_headers@[i].hash_data_size <= section.len(),
    ensures
        unreadable_level(section, ivfc, from) == unreadable_level(section, ivfc, first),
    decreases first - from,
{
    if from < first {
        assert(ivfc.level_headers@[from].logical_offset + ivfc.level_headers@[from].hash_data_size
            <= section.len());
        lemma_unreadable_from(section, ivfc, from + 1, first);
    }
}

/// The first level whose hashes do not cover the next decides.
proof fn lemma_levels_checked_from(section: Seq<u8>, ivfc: IvfcHeader, from: int, first: int)
    requires
        0 <= from <= first,
        first <= ivfc.level_count - 2 || first == from,
        forall|i: int|
            from <= i < first ==> (#[trigger] ivfc.level_headers@[i]).block_size < usize::BITS
                && blocks_outcome(
                level_bytes(section, ivfc, i),
                level_bytes(section, ivfc, i + 1),
                pow2(ivfc.level_headers@[i].block_size as nat) as int,
                i as usize,
                0,
            ) is Ok,
    ensures
        levels_outcome(section, ivfc, from) == levels_outcome(section, ivfc, first),
    decreases first - from,
{
    if from < first {
        assert(ivfc.level_headers@[from].block_size < usize::BITS);
        lemma_levels_checked_from(section, ivfc, from + 1, first);
    }
}

/// A tree that names no level is refused, and so is one with a level that has no header or lies
/// outside the section: the first such level is the one reported.
#[verifier::spinoff_prover]
#[verifier::rlimit(40)]
pub proof fn law_every_level_of_a_tree_has_to_be_there(
    section: Seq<u8>,
    ivfc: IvfcHeader,
    first: int,
)
    requires
        section.len() <= usize::MAX,
    ensures
        ivfc.level_count <= 1 ==> section_outcome(section, Superblock::RomFs(ivfc)) == Err::<
            (),
            SectionHashesError,
        >(SectionHashesError::NoLevels { level_count: ivfc.level_count }),
        ({
            &&& 0 <= first < ivfc.level_count - 1
            &&& first <= ivfc.level_headers@.len()
            &&& forall|i: int|
                0 <= i < first ==> (#[trigger] ivfc.level_headers@[i]).logical_offset
                    + ivfc.level_headers@[i].hash_data_size <= section.len()
            &&& first == ivfc.level_headers@.len() || ivfc.level_headers@[first].logical_offset
                + ivfc.level_headers@[first].hash_data_size > section.len()
        }) ==> section_outcome(section, Superblock::RomFs(ivfc)) == Err::<(), SectionHashesError>(
            if first == ivfc.level_headers@.len() {
                SectionHashesError::NoLevels { level_count: ivfc.level_count }
            } else {
                SectionHashesError::RegionOutOfBounds {
                    region: Region::Level { index: first as usize },
                    offset: ivfc.level_headers@[first].logical_offset,
                    size: ivfc.level_headers@[first].hash_data_size,
                    available: section.len() as usize,
                }
            },
        ),
{
    if {
        &&& 0 <= first < ivfc.level_count - 1
        &&& first <= ivfc.level_headers@.len()
        &&& forall|i: int|
            0 <= i < first ==> (#[trigger] ivfc.level_headers@[i]).logical_offset
                + ivfc.level_headers@[i].hash_data_size <= section.len()
        &&& first == ivfc.level_headers@.len() || ivfc.level_headers@[first].logical_offset
            + ivfc.level_headers@[first].hash_data_size > section.len()
    } {
        lemma_unreadable_from(section, ivfc, 0, first);
        assert(unreadable_level(section, ivfc, first) is Some);
    }
}

/// A tree whose levels are all there is checked from the master hash down: that has to be the first
/// level's, and each level but the last then holds the hashes of the next, in blocks of the power of
/// two its own header names. The first level that does not is the one reported, by its own number; if
/// there is none, all is well.
#[verifier::spinoff_prover]
#[verifier::rlimit(40)]
pub proof fn law_each_level_of_a_tree_covers_the_next(
    section: Seq<u8>,
    ivfc: IvfcHeader,
    first: int,
)
    requires
        section.len() <= usize::MAX,
        ivfc.level_count > 1,
        ivfc.level_headers@.len() >= ivfc.level_count - 1,
        forall|i: int|
            0 <= i < ivfc.level_count - 1 ==> (#[trigger] ivfc.level_headers@[i]).logical_offset
                + ivfc.level_headers@[i].hash_data_size <= section.len(),
        0 <= first <= ivfc.level_count - 2,
        forall|i: int|
            0 <= i < first ==> (#[trigger] ivfc.level_headers@[i]).block_size < usize::BITS
                && blocks_outcome(
                section.subrange(
                    ivfc.level_headers@[i].logical_offset as int,
                    ivfc.level_headers@[i].logical_offset + ivfc.level_headers@[i].hash_data_size,
                ),
                section.subrange(
                    ivfc.level_headers@[i + 1].logical_offset as int,
                    ivfc.level_headers@[i + 1].logical_offset + ivfc.level_headers@[i
                        + 1].hash_data_size,
                ),
                pow2(ivfc.level_headers@[i].block_size as nat) as int,
                i as usize,
                0,
            ) is Ok,
    ensures
        ({
            let top = section.subrange(
                ivfc.level_headers@[0].logical_offset as int,
                ivfc.level_headers@[0].logical_offset + ivfc.level_headers@[0].hash_data_size,
            );
            let outcome = section_outcome(section, Superblock::RomFs(ivfc));
            if sha256(top) != ivfc.master_hash@ {
                outcome == Err::<(), SectionHashesError>(
                    SectionHashesError::MasterHashMismatch { level: 0 },
                )
            } else if first == ivfc.level_count - 2 {
                outcome == Ok::<(), SectionHashesError>(())
            } else if ivfc.level_headers@[first].block_size >= usize::BITS {
                outcome == Err::<(), SectionHashesError>(SectionHashesError::ZeroBlockSize)
            } else {
                let checked = blocks_outcome(
                    section.subrange(
                        ivfc.level_headers@[first].logical_offset as int,
                        ivfc.level_headers@[first].logical_offset
                            + ivfc.level_headers@[first].hash_data_size,
                    ),
                    section.subrange(
                        ivfc.level_headers@[first + 1].logical_offset as int,
                        ivfc.level_headers@[first + 1].logical_offset + ivfc.level_headers@[first
                            + 1].hash_data_size,
                    ),
                    pow2(ivfc.level_headers@[first].block_size as nat) as int,
                    first as usize,
                    0,
                );
                checked is Err ==> outcome == checked
            }
        }),
{
    lemma_unreadable_from(section, ivfc, 0, ivfc.level_count - 1);
    lemma_levels_checked_from(section, ivfc, 0, first);
}

/// What a failed check is reported as, with the numbers it is about in decimal.
pub proof fn law_failures_name_what_they_are_about(
    available: usize,
    index: usize,
    level_count: u32,
    region: Region,
    offset: u64,
    size: u64,
    level: usize,
    block: usize,
)
    ensures
        (HeaderSignatureError::TooSmall { available }).message()
            == "a signed header needs 1024 bytes; the image has "@ + decimal(available as int),
        HeaderSignatureError::Verify(VerifyError).message()
            == "the header signature does not verify"@,
        (FsHeaderHashError::NoSuchSection { index }).message() == "index "@ + decimal(index as int)
            + " is outside the 4 an NCA holds"@,
        (FsHeaderHashError::Mismatch { index }).message() == "the FS header for section "@ + decimal(
            index as int,
        ) + " does not match its recorded hash"@,
        SectionHashesError::SuperblockUnreadable.message()
            == "the section's superblock could not be read"@,
        SectionHashesError::ZeroBlockSize.message()
            == "the superblock declares a block size of zero"@,
        (SectionHashesError::NoLevels { level_count }).message() == "the IVFC header declares "@
            + decimal(level_count as int) + " levels, which names none to check"@,
        (SectionHashesError::RegionOutOfBounds { region, offset, size, available }).message()
            == region.name() + " lies at "@ + decimal(offset as int) + " of size "@ + decimal(
            size as int,
        ) + ", outside the "@ + decimal(available as int) + "-byte section"@,
        (SectionHashesError::MasterHashMismatch { level }).message()
            == "the master hash over level "@ + decimal(level as int) + " does not match"@,
        (SectionHashesError::HashTableTooShort { level, blocks: block, available }).message()
            == "level "@ + decimal(level as int) + " holds "@ + decimal(available as int)
            + " hashes but must cover "@ + decimal(block as int) + " blocks"@,
        (SectionHashesError::BlockHashMismatch { level, block }).message() == "the hash for block "@
            + decimal(block as int) + " of level "@ + decimal(level as int) + " does not match"@,
        Region::HashTable.name() == "the hash table"@,
        Region::Archive.name() == "the archive"@,
        (Region::Level { index }).name() == "IVFC level "@ + decimal(index as int),
{
}

/// Which check a section gets follows from its superblock, and one that cannot be read fails.
pub proof fn law_an_unreadable_superblock_fails(section: Seq<u8>)
    ensures
        section_outcome(section, Superblock::Unreadable) == Err::<(), SectionHashesError>(
            SectionHashesError::SuperblockUnreadable,
        ),
{
}

} // verus!
