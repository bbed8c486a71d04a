//! The parts of the console's containers that packing, unpacking, and reporting work on.
//!
//! A reader lays a container out and hands over what it found as the plain values below; nothing in
//! them borrows more of an image than the bytes they are about.

use vstd::prelude::*;

verus! {

/// Bytes in an NCA header, and so the least an NCA can hold.
pub const NCA_HEADER_SIZE: usize = 0xC00;

/// Sector size an NCA header is encrypted in.
pub const HEADER_SECTOR_SIZE: usize = 0x200;

/// Sections an NCA header has room for.
pub const NCA_SECTION_COUNT: usize = 4;

/// Where the key area stands in an NCA header.
pub const KEY_AREA_OFFSET: usize = 0x300;

/// Bytes in a key area, which holds four keys.
pub const KEY_AREA_SIZE: usize = 0x40;

/// Which key of the key area the sections are encrypted with.
pub const SECTION_KEY_INDEX: usize = 2;

/// What an archive holds.
#[derive(Debug, Clone, Copy, PartialEq, Eq, Structural)]
pub enum NcaContentType {
    /// An executable, with the filesystem and logo beside it.
    Program,
    /// The content meta naming a title's other archives.
    Meta,
    /// The icon and the control property.
    Control,
    /// A manual, or the legal information.
    Manual,
    /// Data a title mounts.
    Data,
    /// Data any title may mount.
    PublicData,
}

/// How a section is encrypted.
#[derive(Debug, Clone, Copy, PartialEq, Eq, Structural)]
pub enum NcaCryptType {
    /// Not at all.
    Plaintext,
    /// AES-XTS.
    Xts,
    /// AES-CTR.
    Ctr,
    /// AES-CTR with relocations, which update partitions use.
    Bktr,
}

impl NcaCryptType {
    /// The number an FS header names the scheme by.
    pub open spec fn number(self) -> u8 {
        match self {
            NcaCryptType::Plaintext => 1,
            NcaCryptType::Xts => 2,
            NcaCryptType::Ctr => 3,
            NcaCryptType::Bktr => 4,
        }
    }

    /// The number an FS header names the scheme by.
    pub fn to_u8(self) -> (number: u8)
        ensures
            number == self.number(),
    {
        match self {
            NcaCryptType::Plaintext => 1,
            NcaCryptType::Xts => 2,
            NcaCryptType::Ctr => 3,
            NcaCryptType::Bktr => 4,
        }
    }
}

/// Which filesystem a section holds.
#[derive(Debug, Clone, Copy, PartialEq, Eq, Structural)]
pub enum NcaFsType {
    /// A read-only filesystem.
    RomFs,
    /// A flat partition archive.
    Pfs0,
}

/// A keyset generation, counted from one.
#[derive(Debug, Clone, Copy, PartialEq, Eq)]
pub struct KeyGeneration(u8);

impl View for KeyGeneration {
    type V = u8;

    closed spec fn view(&self) -> u8 {
        self.0
    }
}

impl KeyGeneration {
    /// Highest generation a keyset has a slot for.
    pub const MAX: u8 = 32;

    #[verifier::type_invariant]
    spec fn in_range(self) -> bool {
        1 <= self.0 <= Self::MAX
    }

    /// The first generation.
    pub fn first() -> (generation: Self)
        ensures
            generation@ == 1,
    {
        KeyGeneration(1)
    }

    /// The generation `value` names, if a keyset has a slot for it.
    pub fn try_from(value: u8) -> (out: Option<Self>)
        ensures
            match out {
                Some(generation) => 1 <= value <= Self::MAX && generation@ == value,
                None => !(1 <= value <= Self::MAX),
            },
    {
        if 1 <= value && value <= Self::MAX {
            Some(KeyGeneration(value))
        } else {
            None
        }
    }

    /// The generation as the number a header stores.
    pub fn to_u8(self) -> (value: u8)
        ensures
            value == self@,
            1 <= value <= Self::MAX,
    {
        proof {
            use_type_invariant(&self);
        }
        self.0
    }
}

/// What ties the contents of a PFS0 section to the header: one table of block hashes.
#[derive(Debug, Clone, Copy)]
pub struct Pfs0Superblock {
    /// SHA-256 of the hash table.
    pub master_hash: [u8; 0x20],
    /// Bytes of the archive one hash covers.
    pub block_size: u32,
    /// Where the hash table starts, from the start of the section.
    pub hash_table_offset: u64,
    /// Bytes in the hash table.
    pub hash_table_size: u64,
    /// Where the archive starts, from the start of the section.
    pub pfs0_offset: u64,
    /// Bytes in the archive.
    pub pfs0_size: u64,
}

/// One level of an IVFC tree.
#[derive(Debug, Clone, Copy)]
pub struct IvfcLevel {
    /// Where the level starts, from the start of the section.
    pub logical_offset: u64,
    /// Bytes in the level.
    pub hash_data_size: u64,
    /// The power of two that is the number of bytes one hash of the level covers.
    pub block_size: u32,
}

/// What ties the contents of a RomFS section to the header: a tree of block hashes.
#[derive(Debug)]
pub struct IvfcHeader {
    /// Number of levels, the master hash counted as one of them.
    pub level_count: u32,
    /// The levels, from the one under the master hash downwards.
    pub level_headers: Vec<IvfcLevel>,
    /// SHA-256 of the first level.
    pub master_hash: [u8; 0x20],
}

/// The verification structure of a section.
#[derive(Debug)]
pub enum Superblock {
    /// A PFS0 section's hash table.
    Pfs0(Pfs0Superblock),
    /// A RomFS section's hash tree.
    RomFs(IvfcHeader),
    /// Neither could be read.
    Unreadable,
}

/// Where a section lies in its archive and how it is encrypted.
#[derive(Debug, Clone, Copy)]
pub struct SectionLayout {
    /// Index of the section in the header.
    pub index: usize,
    /// Where the section starts, from the start of the archive.
    pub start: usize,
    /// Where the section ends.
    pub end: usize,
    /// How the section is encrypted.
    pub encryption: NcaCryptType,
    /// The counter for the section's first byte, for a section encrypted with one.
    pub counter: Option<[u8; 0x10]>,
}

/// What a decrypted header says about decrypting the rest of its archive.
#[derive(Debug)]
pub struct NcaLayout {
    /// The key generation the key area is wrapped with.
    pub key_generation: u8,
    /// The key area, wrapped.
    pub encrypted_keys: [[u8; 0x10]; 4],
    /// The sections, in the order the header lists them.
    pub sections: Vec<SectionLayout>,
}

/// One file of a flat partition archive.
#[derive(Debug, Clone, Copy)]
pub struct PartitionFile<'a> {
    /// The file's name.
    pub name: &'a str,
    /// The file's contents.
    pub data: &'a [u8],
}

/// What a content meta describes.
#[derive(Debug, Clone, Copy, PartialEq, Eq, Structural)]
pub enum CnmtContentMetaType {
    /// An application.
    Application,
    /// An update to one.
    Patch,
    /// Downloadable content.
    AddOnContent,
    /// The difference between two updates.
    Delta,
}

/// What one of a title's archives holds, as its content meta names it.
#[derive(Debug, Clone, Copy, PartialEq, Eq, Structural)]
pub enum CnmtContentType {
    /// The content meta itself.
    Meta,
    /// The program.
    Program,
    /// Data.
    Data,
    /// The icon and the control property.
    Control,
    /// The HTML manual.
    HtmlDocument,
    /// The legal information.
    LegalInformation,
    /// A fragment of an update.
    DeltaFragment,
}

/// What a content meta says of one archive.
#[derive(Debug, Clone, Copy)]
pub struct CnmtRecord {
    /// The name the archive is stored under.
    pub nca_id: [u8; 0x10],
    /// SHA-256 of the archive.
    pub hash: [u8; 0x20],
    /// Bytes in the archive.
    pub size: u64,
    /// What the archive holds, if it is a type that is known.
    pub content_type: Option<CnmtContentType>,
}

/// A title's content meta.
#[derive(Debug)]
pub struct Cnmt {
    /// The title.
    pub title_id: u64,
    /// The title's version.
    pub title_version: u32,
    /// What is described, if it is a type that is known.
    pub meta_type: Option<CnmtContentMetaType>,
    /// The archives named, in order.
    pub records: Vec<CnmtRecord>,
}

/// One segment of a kernel initial process image.
#[derive(Debug, Clone, Copy)]
pub struct KipSegment {
    /// Which segment it is.
    pub index: usize,
    /// Where it is loaded.
    pub address: u64,
    /// Bytes the image stores for it.
    pub stored: usize,
    /// Whether those are compressed.
    pub compressed: bool,
    /// Bytes it expands to.
    pub expanded: u64,
}

/// A kernel initial process image.
#[derive(Debug)]
pub struct KipImage<'a> {
    /// The process's name.
    pub name: &'a str,
    /// The process's title ID.
    pub title_id: u64,
    /// The process's flags.
    pub flags: u8,
    /// The segments, in order.
    pub segments: Vec<KipSegment>,
}

/// One section of a decrypted archive.
#[derive(Debug)]
pub struct NcaSection<'a> {
    /// Where the section lies and how it was encrypted.
    pub layout: SectionLayout,
    /// Which filesystem the section holds.
    pub fs_type: NcaFsType,
    /// What the section's contents are verified against.
    pub superblock: Superblock,
    /// The whole section, verification structures included.
    pub bytes: &'a [u8],
    /// The filesystem the section holds.
    pub data: &'a [u8],
}

/// A decrypted archive.
#[derive(Debug)]
pub struct Nca<'a> {
    /// What the archive holds.
    pub content_type: NcaContentType,
    /// The title the archive belongs to.
    pub title_id: u64,
    /// Bytes in the archive, as its header records them.
    pub nca_size: u64,
    /// The key generation the key area is wrapped with.
    pub key_generation: u8,
    /// The rights the archive is encrypted under, all zeros when the key area is used instead.
    pub rights_id: [u8; 0x10],
    /// The FS header of every slot, as the header carries it.
    pub fs_headers: [[u8; 0x200]; 4],
    /// SHA-256 of every FS header, as the header records it.
    pub section_hashes: [[u8; 0x20]; 4],
    /// The sections that are present, in the order the header lists them.
    pub sections: Vec<NcaSection<'a>>,
}

} // verus!
