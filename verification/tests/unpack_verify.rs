use nxarchive::container::{
    IvfcHeader, IvfcLevel, Nca, NcaContentType, NcaCryptType, NcaFsType, NcaSection,
    Pfs0Superblock, SectionLayout, Superblock,
};
use nxarchive::signing::{SIGNATURE_SIZE, SIGNED_END, SIGNED_START};
use nxarchive::unpack::verify::{
    fs_header_hash, header_signature, section_hashes, FsHeaderHashError, HeaderSignatureError,
    Region, SectionHashesError, SignatureCheck,
};
use sha2::{Digest, Sha256};

/// A section and what verifies it.
struct Built {
    bytes: Vec<u8>,
    superblock: Superblock,
}

impl Built {
    /// The section as a reader hands it over.
    fn section(self, index: usize, leak: &mut Vec<u8>) -> NcaSection<'_> {
        *leak = self.bytes;
        let end = leak.len();
        NcaSection {
            layout: SectionLayout {
                index,
                start: 0,
                end,
                encryption: NcaCryptType::Plaintext,
                counter: None,
            },
            fs_type: NcaFsType::Pfs0,
            superblock: self.superblock,
            bytes: leak,
            data: &[],
        }
    }
}

/// The hashes of every `size`-byte block of `data`, one after the other.
fn hashes(data: &[u8], size: usize) -> Vec<u8> {
    let mut table = Vec::new();
    for block in data.chunks(size) {
        table.extend_from_slice(&Sha256::digest(block));
    }
    table
}

/// A partition section carrying `size` bytes of archive, behind its hash table.
fn partition(size: usize) -> Built {
    let archive = vec![0xAB; size];
    let table = hashes(&archive, 0x1000);
    let master: [u8; 0x20] = Sha256::digest(&table).into();
    let mut bytes = table.clone();
    bytes.resize(0x200, 0);
    bytes.extend_from_slice(&archive);
    Built {
        bytes,
        superblock: Superblock::Pfs0(Pfs0Superblock {
            master_hash: master,
            block_size: 0x1000,
            hash_table_offset: 0,
            hash_table_size: table.len() as u64,
            pfs0_offset: 0x200,
            pfs0_size: size as u64,
        }),
    }
}

/// A RomFS section whose tree has two hash levels over `data`, the last level.
fn romfs(data: Vec<u8>) -> Built {
    let mut second = hashes(&data, 0x4000);
    second.resize(second.len().div_ceil(0x4000) * 0x4000, 0);
    let mut first = hashes(&second, 0x4000);
    first.resize(0x4000, 0);
    let master: [u8; 0x20] = Sha256::digest(&first).into();
    let mut level_headers = Vec::new();
    let mut bytes = Vec::new();
    for level in [&first, &second, &data] {
        level_headers.push(IvfcLevel {
            logical_offset: bytes.len() as u64,
            hash_data_size: level.len() as u64,
            block_size: 14,
        });
        bytes.extend_from_slice(level);
    }
    Built {
        bytes,
        superblock: Superblock::RomFs(IvfcHeader {
            level_count: 4,
            level_headers,
            master_hash: master,
        }),
    }
}

/// An archive whose first FS header hashes to what the header records.
fn archive() -> Nca<'static> {
    let fs_headers = [[0x5A; 0x200]; 4];
    let hash: [u8; 0x20] = Sha256::digest(fs_headers[0]).into();
    Nca {
        content_type: NcaContentType::Program,
        title_id: 0x0100_0000_0000_1000,
        nca_size: 0xC00,
        key_generation: 1,
        rights_id: [0; 0x10],
        fs_headers,
        section_hashes: [hash; 4],
        sections: Vec::new(),
    }
}

#[test]
fn section_hashes_with_an_untouched_partition_succeeds() {
    let mut bytes = Vec::new();
    let section = partition(0x4000).section(0, &mut bytes);
    let result = section_hashes(&section);
    assert!(result.is_ok(), "a freshly built section must verify");
}

#[test]
fn section_hashes_with_an_altered_partition_block_fails() {
    // One byte of the archive is flipped, leaving the hash table describing the original.
    let mut built = partition(0x4000);
    let last = built.bytes.len() - 1;
    built.bytes[last] ^= 0xFF;
    let mut bytes = Vec::new();
    let result = section_hashes(&built.section(0, &mut bytes));
    assert!(matches!(result, Err(SectionHashesError::BlockHashMismatch { .. })));
    assert_eq!(result, Err(SectionHashesError::BlockHashMismatch { level: 0, block: 3 }));
}

#[test]
fn section_hashes_with_an_untouched_romfs_succeeds() {
    let mut bytes = Vec::new();
    let result = section_hashes(&romfs(vec![0xCD; 0x8000]).section(0, &mut bytes));
    assert!(result.is_ok(), "a freshly built IVFC tree must verify");
}

#[test]
fn section_hashes_with_an_altered_romfs_block_fails() {
    let mut built = romfs(vec![0xCD; 0x8000]);
    let last = built.bytes.len() - 1;
    built.bytes[last] ^= 0xFF;
    let mut bytes = Vec::new();
    let result = section_hashes(&built.section(0, &mut bytes));
    assert!(matches!(result, Err(SectionHashesError::BlockHashMismatch { .. })));
    assert_eq!(result, Err(SectionHashesError::BlockHashMismatch { level: 1, block: 1 }));
}

#[test]
fn fs_header_hash_with_an_untouched_header_succeeds() {
    let result = fs_header_hash(&archive(), 0);
    assert!(result.is_ok());
}

#[test]
fn fs_header_hash_with_an_altered_fs_header_fails() {
    // The section counter sits in the FS header and outside every other hash, so flipping it
    // isolates this check from the section's own contents.
    let mut nca = archive();
    nca.fs_headers[0][0x140] ^= 0xFF;
    let result = fs_header_hash(&nca, 0);
    assert!(matches!(result, Err(FsHeaderHashError::Mismatch { .. })));
    assert!(fs_header_hash(&nca, 1).is_ok(), "the other headers are untouched");
}

#[test]
fn fmt_with_each_region_renders_its_name() {
    let regions = [Region::HashTable, Region::Archive, Region::Level { index: 2 }];
    let rendered: Vec<String> = regions.iter().map(|region| region.to_string()).collect();
    assert_eq!(rendered, ["the hash table", "the archive", "IVFC level 2"]);
}

#[test]
fn header_signature_with_an_unsigned_header_reports_absent() {
    // How every archive of a title but the program one is packed.
    let mut image = vec![0u8; 0xC00];
    image[SIGNED_START..SIGNED_END].fill(0x42);
    let result = header_signature(&image);
    assert!(matches!(
        result.expect("an unsigned header is not an error"),
        SignatureCheck::Absent
    ));
}

#[test]
fn header_signature_with_a_signature_the_advertised_key_did_not_make_fails() {
    let mut image = vec![0u8; 0xC00];
    image[SIGNED_START..SIGNED_END].fill(0x42);
    image[SIGNATURE_SIZE..SIGNED_START].fill(0x17);
    let result = header_signature(&image);
    assert!(matches!(result, Err(HeaderSignatureError::Verify(_))));
    assert_eq!(
        result.expect_err("it does not verify").to_string(),
        "the header signature does not verify"
    );
}

#[test]
fn header_signature_with_a_buffer_shorter_than_a_header_fails() {
    let image = vec![0u8; 0x100];
    let result = header_signature(&image);
    assert!(matches!(result, Err(HeaderSignatureError::TooSmall { .. })));
    assert_eq!(
        result.expect_err("it is too small").to_string(),
        "a signed header needs 1024 bytes; the image has 256"
    );
    assert!(header_signature(&vec![0u8; 0x3FF]).is_err());
    assert!(header_signature(&vec![0u8; 0x400]).is_ok());
}

#[test]
fn fs_header_hash_with_an_index_past_the_last_section_fails() {
    let result = fs_header_hash(&archive(), 4);
    assert!(matches!(result, Err(FsHeaderHashError::NoSuchSection { index: 4 })));
    assert_eq!(
        result.expect_err("there is no such section").to_string(),
        "index 4 is outside the 4 an NCA holds"
    );
    assert_eq!(
        FsHeaderHashError::Mismatch { index: 2 }.to_string(),
        "the FS header for section 2 does not match its recorded hash"
    );
}

/// The outcome of checking a partition section after `change` to what verifies it.
fn changed_partition(size: usize, change: fn(&mut Pfs0Superblock)) -> Result<(), SectionHashesError> {
    let mut built = partition(size);
    if let Superblock::Pfs0(superblock) = &mut built.superblock {
        change(superblock);
    }
    let mut bytes = Vec::new();
    section_hashes(&built.section(0, &mut bytes))
}

#[test]
fn section_hashes_says_what_is_wrong_with_a_partition() {
    assert_eq!(
        changed_partition(0x1000, |superblock| superblock.block_size = 0),
        Err(SectionHashesError::ZeroBlockSize)
    );
    assert_eq!(
        changed_partition(0x1000, |superblock| superblock.master_hash[0] ^= 1),
        Err(SectionHashesError::MasterHashMismatch { level: 0 })
    );
    let outside = changed_partition(0x1000, |superblock| superblock.hash_table_size = 0x2000);
    assert_eq!(
        outside,
        Err(SectionHashesError::RegionOutOfBounds {
            region: Region::HashTable,
            offset: 0,
            size: 0x2000,
            available: 0x1200,
        })
    );
    assert_eq!(
        outside.expect_err("it lies outside").to_string(),
        "the hash table lies at 0 of size 8192, outside the 4608-byte section"
    );
    assert_eq!(
        changed_partition(0x1000, |superblock| superblock.pfs0_offset = u64::MAX),
        Err(SectionHashesError::RegionOutOfBounds {
            region: Region::Archive,
            offset: u64::MAX,
            size: 0x1000,
            available: 0x1200,
        })
    );
    // Blocks half the size are twice as many, and the table has hashes for half of them; the first
    // already differs.
    assert_eq!(
        changed_partition(0x2000, |superblock| superblock.block_size = 0x800),
        Err(SectionHashesError::BlockHashMismatch { level: 0, block: 0 })
    );
}

#[test]
fn section_hashes_with_a_table_that_ends_early_counts_both_sides() {
    // Three blocks, the last one short, and a table cut to the first two.
    let archive = vec![0x77; 0x2800];
    let mut table = hashes(&archive, 0x1000);
    table.truncate(0x50);
    let master: [u8; 0x20] = Sha256::digest(&table).into();
    let mut bytes = table.clone();
    bytes.extend_from_slice(&archive);
    let built = Built {
        bytes,
        superblock: Superblock::Pfs0(Pfs0Superblock {
            master_hash: master,
            block_size: 0x1000,
            hash_table_offset: 0,
            hash_table_size: 0x50,
            pfs0_offset: 0x50,
            pfs0_size: 0x2800,
        }),
    };
    let mut bytes = Vec::new();
    let result = section_hashes(&built.section(0, &mut bytes));
    assert_eq!(
        result,
        Err(SectionHashesError::HashTableTooShort { level: 0, blocks: 3, available: 2 })
    );
    assert_eq!(
        result.expect_err("the table is too short").to_string(),
        "level 0 holds 2 hashes but must cover 3 blocks"
    );
}

#[test]
fn section_hashes_with_an_empty_partition_succeeds() {
    let mut bytes = Vec::new();
    assert!(section_hashes(&partition(0).section(0, &mut bytes)).is_ok());
}

/// The outcome of checking a RomFS section after `change` to its tree.
fn changed_tree(change: fn(&mut IvfcHeader)) -> Result<(), SectionHashesError> {
    let mut built = romfs(vec![0xCD; 0x4800]);
    if let Superblock::RomFs(ivfc) = &mut built.superblock {
        change(ivfc);
    }
    let mut bytes = Vec::new();
    section_hashes(&built.section(0, &mut bytes))
}

#[test]
fn section_hashes_says_what_is_wrong_with_a_tree() {
    assert!(changed_tree(|_| {}).is_ok());
    assert_eq!(
        changed_tree(|ivfc| ivfc.level_count = 0),
        Err(SectionHashesError::NoLevels { level_count: 0 })
    );
    let none = changed_tree(|ivfc| ivfc.level_count = 1);
    assert_eq!(none, Err(SectionHashesError::NoLevels { level_count: 1 }));
    assert_eq!(
        none.expect_err("there are none").to_string(),
        "the IVFC header declares 1 levels, which names none to check"
    );
    assert_eq!(
        changed_tree(|ivfc| ivfc.level_count = 9),
        Err(SectionHashesError::NoLevels { level_count: 9 })
    );
    assert_eq!(
        changed_tree(|ivfc| ivfc.level_headers[1].hash_data_size = 0x1000000),
        Err(SectionHashesError::RegionOutOfBounds {
            region: Region::Level { index: 1 },
            offset: 0x4000,
            size: 0x1000000,
            available: 0xC800,
        })
    );
    assert_eq!(
        changed_tree(|ivfc| ivfc.master_hash[0x1F] ^= 1),
        Err(SectionHashesError::MasterHashMismatch { level: 0 })
    );
    assert_eq!(
        changed_tree(|ivfc| ivfc.level_headers[1].block_size = 64),
        Err(SectionHashesError::ZeroBlockSize)
    );
    assert!(
        changed_tree(|ivfc| ivfc.level_headers[2].block_size = 64).is_ok(),
        "the last level holds no hashes"
    );
    assert!(changed_tree(|ivfc| ivfc.level_count = 2).is_ok(), "one level needs the master alone");
}

#[test]
fn section_hashes_without_a_readable_superblock_fails() {
    let built = Built { bytes: vec![0; 0x10], superblock: Superblock::Unreadable };
    let mut bytes = Vec::new();
    let result = section_hashes(&built.section(0, &mut bytes));
    assert_eq!(result, Err(SectionHashesError::SuperblockUnreadable));
    assert_eq!(
        SectionHashesError::SuperblockUnreadable.to_string(),
        "the section's superblock could not be read"
    );
    assert_eq!(
        SectionHashesError::ZeroBlockSize.to_string(),
        "the superblock declares a block size of zero"
    );
    assert_eq!(
        SectionHashesError::MasterHashMismatch { level: 0 }.to_string(),
        "the master hash over level 0 does not match"
    );
    assert_eq!(
        SectionHashesError::BlockHashMismatch { level: 4, block: 12 }.to_string(),
        "the hash for block 12 of level 4 does not match"
    );
}

#[test]
fn header_signature_looks_at_the_signature_and_the_signed_range_alone() {
    let mut image = vec![0u8; 0xC00];
    image[SIGNATURE_SIZE..SIGNED_START].fill(0x17);
    let before = header_signature(&image);
    image[..SIGNATURE_SIZE].fill(0x99);
    image[SIGNED_END..].fill(0x99);
    assert_eq!(header_signature(&image), before);
    image[SIGNATURE_SIZE..SIGNED_START].fill(0);
    assert_eq!(header_signature(&image), Ok(SignatureCheck::Absent));
}
