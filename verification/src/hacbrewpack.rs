//! Packing a homebrew title into an installable package.
//!
//! Five archives at most make up a title, and they are built in a fixed order because the last one
//! describes the others: the program, the control, the two optional manuals, and finally the content
//! meta, whose records carry the hashes of everything already built. The package is then those
//! archives in one flat container, named for the title.
//!
//! What is decided here is what goes into each archive and in what order; reading the inputs and
//! laying the containers out is the caller's part.

pub mod archive;
pub mod nacp;
pub mod npdm;
pub mod settings;
pub mod title_id;

use self::archive::{archive_name, Archive, ArchiveKeys};
use self::settings::{KeyAreaKey, SdkVersion};
use self::title_id::{title_text, TitleId};
use crate::container::{
    CnmtContentType, CnmtRecord, KeyGeneration, NcaContentType, PartitionFile, SECTION_KEY_INDEX,
};
use crate::crypto::sha256;
use crate::hactool::{is_meta_name, record_failure};
use crate::keyset::Keyset;
use crate::text::{dec_i64, decimal, hex_text, lemma_digit_reads_back};
use vstd::prelude::*;

verus! {

/// Bytes of archive one hash covers in an executable partition.
pub const EXEFS_HASH_BLOCK_SIZE: u32 = 0x10000;

/// Bytes of archive one hash covers in a logo or metadata partition.
pub const SMALL_HASH_BLOCK_SIZE: u32 = 0x1000;

/// Why a keyset cannot seal an archive.
#[derive(Debug, Clone, Copy, PartialEq, Eq, Structural)]
pub enum KeysError {
    /// The keyset carries no key to encrypt an archive header with.
    MissingHeaderKey,
    /// The keyset carries no application key area key for the generation asked for.
    ///
    /// Holds the generation that was requested.
    MissingKeyAreaKey {
        /// The generation that was requested.
        generation: u8,
    },
}

/// Take the two keys every archive of a title is finished with out of `keyset`.
///
/// # Errors
///
/// Returns an error if the keyset has no header key, or no key area key for `generation`.
pub fn select_keys<'a>(keyset: &'a Keyset, generation: KeyGeneration) -> (out: Result<
    ArchiveKeys<'a>,
    KeysError,
>)
    ensures
        match (keyset.header(), keyset.area_key(generation@)) {
            (None, _) => out == Err::<ArchiveKeys<'a>, KeysError>(KeysError::MissingHeaderKey),
            (Some(_), None) => out == Err::<ArchiveKeys<'a>, KeysError>(
                KeysError::MissingKeyAreaKey { generation: generation@ },
            ),
            (Some(header_key), Some(key_area_key)) => {
                &&& out matches Ok(keys)
                &&& keys.header_key@ == header_key
                &&& keys.key_area_key@ == key_area_key
            },
        },
{
    let header_key = match keyset.header_key() {
        Some(key) => key,
        None => return Err(KeysError::MissingHeaderKey),
    };
    let key_area_key = match keyset.key_area_key_application(generation) {
        Some(key) => key,
        None => {
            return Err(KeysError::MissingKeyAreaKey { generation: generation.to_u8() });
        },
    };
    Ok(ArchiveKeys { header_key, key_area_key })
}

/// What the caller asked of a build.
#[derive(Debug)]
pub struct Options {
    /// Skip the program's read-only filesystem section.
    pub noromfs: bool,
    /// Skip the program's logo section.
    pub nologo: bool,
    /// Leave every section in the clear.
    pub plaintext: bool,
    /// Skip advertising and using the header signing key.
    pub nosignncasig2: bool,
    /// Leave the control property's logo handling as it is.
    pub nopatchnacplogo: bool,
    /// Keyset generation the key area is wrapped with.
    pub keygeneration: KeyGeneration,
    /// Key the sections are encrypted with.
    pub keyareakey: KeyAreaKey,
    /// SDK version the archives claim.
    pub sdkversion: SdkVersion,
    /// Title ID to stamp in, overriding the one in the descriptor.
    pub titleid: Option<TitleId>,
    /// Title name to write into every interface language.
    pub titlename: Option<String>,
    /// Publisher to write into every interface language.
    pub titlepublisher: Option<String>,
}

/// How a section of a new archive is protected.
#[derive(Debug, Clone, Copy, PartialEq, Eq, Structural)]
pub enum SectionEncryption {
    /// Not at all.
    Plaintext,
    /// AES-CTR, with the key in the archive's key area.
    Ctr,
}

/// Where the contents of a section of a new archive come from, and how they are laid out.
#[derive(Debug, Clone, Copy, PartialEq, Eq, Structural)]
pub enum SectionData {
    /// The executable and its descriptor, as a flat partition.
    ExeFs {
        /// Bytes of the partition one hash covers.
        hash_block_size: u32,
    },
    /// The logo, as a flat partition.
    Logo {
        /// Bytes of the partition one hash covers.
        hash_block_size: u32,
    },
    /// The content meta, as the only file of a flat partition.
    ContentMeta {
        /// Bytes of the partition one hash covers.
        hash_block_size: u32,
    },
    /// The directory the archive is about, as a read-only filesystem.
    RomFs,
}

/// One section of a new archive.
#[derive(Debug, Clone, Copy, PartialEq, Eq, Structural)]
pub struct Section {
    /// The slot of the header it goes into.
    pub index: usize,
    /// What it holds.
    pub data: SectionData,
    /// How it is protected.
    pub encryption: SectionEncryption,
}

/// A new archive, before its inputs are read.
#[derive(Debug)]
pub struct ArchivePlan {
    /// What the archive holds.
    pub content_type: NcaContentType,
    /// The title it belongs to.
    pub title_id: u64,
    /// The SDK version it claims.
    pub sdk_version: u32,
    /// The keyset generation its key area is wrapped with.
    pub key_generation: u8,
    /// The slot of the key area the section key goes into.
    pub key_index: usize,
    /// The key its sections are encrypted with.
    pub key: [u8; 0x10],
    /// Its sections, in order.
    pub sections: Vec<Section>,
    /// Whether its header is signed.
    pub sign_header: bool,
}

impl Options {
    /// How the sections that can be encrypted are protected.
    pub open spec fn encryption(&self) -> SectionEncryption {
        if self.plaintext {
            SectionEncryption::Plaintext
        } else {
            SectionEncryption::Ctr
        }
    }

    /// How the sections that can be encrypted are protected.
    pub fn section_encryption(&self) -> (encryption: SectionEncryption)
        ensures
            encryption == self.encryption(),
    {
        if self.plaintext {
            SectionEncryption::Plaintext
        } else {
            SectionEncryption::Ctr
        }
    }

    /// What to change in the program descriptor.
    pub fn descriptor_patch(&self) -> (patch: npdm::Patch)
        ensures
            patch.title_id == self.titleid,
            patch.sign_program_header == !self.nosignncasig2,
    {
        npdm::Patch { title_id: self.titleid, sign_program_header: !self.nosignncasig2 }
    }

    /// What to change in the control property.
    ///
    /// The ID fields are rewritten only when the caller named a title ID: a descriptor's own ID is
    /// already what the control property was authored against, so stamping it back in would be a
    /// no-op that still costs a backup.
    pub fn control_patch(&self) -> (patch: nacp::Patch)
        ensures
            patch.name == self.titlename,
            patch.publisher == self.titlepublisher,
            patch.title_id == self.titleid,
            patch.logo_handling_auto == !self.nopatchnacplogo,
    {
        nacp::Patch {
            name: copy_of(&self.titlename),
            publisher: copy_of(&self.titlepublisher),
            title_id: self.titleid,
            logo_handling_auto: !self.nopatchnacplogo,
        }
    }
}

/// The same text again, if there is any.
fn copy_of(text: &Option<String>) -> (copy: Option<String>)
    ensures
        copy == *text,
{
    match text {
        Some(text) => Some(text.clone()),
        None => None,
    }
}

/// Whether `plan` carries the settings every archive of a title shares.
pub open spec fn shares_settings(plan: ArchivePlan, options: Options, title_id: u64) -> bool {
    &&& plan.title_id == title_id
    &&& plan.sdk_version == options.sdkversion@
    &&& plan.key_generation == options.keygeneration@
    &&& plan.key_index == SECTION_KEY_INDEX
    &&& plan.key@ == options.keyareakey@
}

/// The sections of a program archive: the executable partition, the filesystem, and the logo, each
/// in the slot of its own. The logo is left in the clear whatever the rest of the archive does: the
/// console reads it before the title is mounted, so there is nothing yet to decrypt it with.
pub open spec fn program_sections(options: Options) -> Seq<Section> {
    let exefs = seq![
        Section {
            index: 0,
            data: SectionData::ExeFs { hash_block_size: EXEFS_HASH_BLOCK_SIZE },
            encryption: options.encryption(),
        },
    ];
    let romfs = if options.noromfs {
        seq![]
    } else {
        seq![Section { index: 1, data: SectionData::RomFs, encryption: options.encryption() }]
    };
    let logo = if options.nologo {
        seq![]
    } else {
        seq![
            Section {
                index: 2,
                data: SectionData::Logo { hash_block_size: SMALL_HASH_BLOCK_SIZE },
                encryption: SectionEncryption::Plaintext,
            },
        ]
    };
    exefs + romfs + logo
}

/// The section of an archive that holds one filesystem.
pub open spec fn filesystem_section(options: Options) -> Section {
    Section { index: 0, data: SectionData::RomFs, encryption: options.encryption() }
}

/// The section of an archive that holds the content meta.
pub open spec fn meta_section(options: Options) -> Section {
    Section {
        index: 0,
        data: SectionData::ContentMeta { hash_block_size: SMALL_HASH_BLOCK_SIZE },
        encryption: options.encryption(),
    }
}

/// Start a plan carrying the settings every archive of this title shares.
fn new_plan(
    options: &Options,
    content_type: NcaContentType,
    title_id: TitleId,
    sections: Vec<Section>,
    sign_header: bool,
) -> (plan: ArchivePlan)
    ensures
        shares_settings(plan, *options, title_id@),
        plan.content_type == content_type,
        plan.sections == sections,
        plan.sign_header == sign_header,
{
    ArchivePlan {
        content_type,
        title_id: title_id.to_u64(),
        sdk_version: options.sdkversion.to_u32(),
        key_generation: options.keygeneration.to_u8(),
        key_index: SECTION_KEY_INDEX,
        key: options.keyareakey.to_bytes(),
        sections,
        sign_header,
    }
}

/// Plan the program archive: the executable partition, the filesystem, and the logo.
pub fn build_program(options: &Options, title_id: TitleId) -> (plan: ArchivePlan)
    ensures
        shares_settings(plan, *options, title_id@),
        plan.content_type == NcaContentType::Program,
        plan.sections@ == program_sections(*options),
        plan.sign_header == !options.nosignncasig2,
{
    let encryption = options.section_encryption();
    let mut sections: Vec<Section> = Vec::new();
    sections.push(
        Section {
            index: 0,
            data: SectionData::ExeFs { hash_block_size: EXEFS_HASH_BLOCK_SIZE },
            encryption,
        },
    );
    if !options.noromfs {
        sections.push(Section { index: 1, data: SectionData::RomFs, encryption });
    }
    if !options.nologo {
        sections.push(
            Section {
                index: 2,
                data: SectionData::Logo { hash_block_size: SMALL_HASH_BLOCK_SIZE },
                encryption: SectionEncryption::Plaintext,
            },
        );
    }
    assert(sections@ =~= program_sections(*options));
    new_plan(options, NcaContentType::Program, title_id, sections, !options.nosignncasig2)
}

/// Plan an archive of one filesystem: the control archive, which carries the icon and the control
/// property, or a manual.
fn build_filesystem(options: &Options, content_type: NcaContentType, title_id: TitleId) -> (plan:
    ArchivePlan)
    ensures
        shares_settings(plan, *options, title_id@),
        plan.content_type == content_type,
        plan.sections@ == seq![filesystem_section(*options)],
        !plan.sign_header,
{
    let mut sections: Vec<Section> = Vec::new();
    sections.push(
        Section { index: 0, data: SectionData::RomFs, encryption: options.section_encryption() },
    );
    assert(sections@ =~= seq![filesystem_section(*options)]);
    new_plan(options, content_type, title_id, sections, false)
}

/// Plan the control archive, which carries the icon and the control property.
pub fn build_control(options: &Options, title_id: TitleId) -> (plan: ArchivePlan)
    ensures
        shares_settings(plan, *options, title_id@),
        plan.content_type == NcaContentType::Control,
        plan.sections@ == seq![filesystem_section(*options)],
        !plan.sign_header,
{
    build_filesystem(options, NcaContentType::Control, title_id)
}

/// Plan a manual archive.
pub fn build_manual(options: &Options, title_id: TitleId) -> (plan: ArchivePlan)
    ensures
        shares_settings(plan, *options, title_id@),
        plan.content_type == NcaContentType::Manual,
        plan.sections@ == seq![filesystem_section(*options)],
        !plan.sign_header,
{
    build_filesystem(options, NcaContentType::Manual, title_id)
}

/// Plan the metadata archive naming every content already built.
pub fn build_meta(options: &Options, title_id: TitleId) -> (plan: ArchivePlan)
    ensures
        shares_settings(plan, *options, title_id@),
        plan.content_type == NcaContentType::Meta,
        plan.sections@ == seq![meta_section(*options)],
        !plan.sign_header,
{
    let mut sections: Vec<Section> = Vec::new();
    sections.push(
        Section {
            index: 0,
            data: SectionData::ContentMeta { hash_block_size: SMALL_HASH_BLOCK_SIZE },
            encryption: options.section_encryption(),
        },
    );
    assert(sections@ =~= seq![meta_section(*options)]);
    new_plan(options, NcaContentType::Meta, title_id, sections, false)
}

/// One of a title's archives, and what the content meta calls it.
pub struct Content {
    /// What the archive holds.
    pub content_type: CnmtContentType,
    /// The archive.
    pub archive: Archive,
}

/// The contents of a title in the order the content meta names them: the program, the control, and
/// then the manuals there are.
pub open spec fn contents_of(
    program: Archive,
    control: Archive,
    html_document: Option<Archive>,
    legal_information: Option<Archive>,
) -> Seq<Content> {
    let both = seq![
        Content { content_type: CnmtContentType::Program, archive: program },
        Content { content_type: CnmtContentType::Control, archive: control },
    ];
    let manual = match html_document {
        Some(archive) => both.push(
            Content { content_type: CnmtContentType::HtmlDocument, archive },
        ),
        None => both,
    };
    match legal_information {
        Some(archive) => manual.push(
            Content { content_type: CnmtContentType::LegalInformation, archive },
        ),
        None => manual,
    }
}

/// List a title's contents in the order the content meta names them.
pub fn title_contents(
    program: Archive,
    control: Archive,
    html_document: Option<Archive>,
    legal_information: Option<Archive>,
) -> (contents: Vec<Content>)
    ensures
        contents@ == contents_of(program, control, html_document, legal_information),
{
    let mut contents: Vec<Content> = Vec::new();
    contents.push(Content { content_type: CnmtContentType::Program, archive: program });
    contents.push(Content { content_type: CnmtContentType::Control, archive: control });
    if let Some(archive) = html_document {
        contents.push(Content { content_type: CnmtContentType::HtmlDocument, archive });
    }
    if let Some(archive) = legal_information {
        contents.push(Content { content_type: CnmtContentType::LegalInformation, archive });
    }
    assert(contents@ =~= contents_of(program, control, html_document, legal_information));
    contents
}

/// What the content meta records of one archive.
#[derive(Debug, Clone, Copy)]
pub struct ContentRecord {
    /// SHA-256 of the archive.
    pub hash: [u8; 0x20],
    /// Bytes in the archive.
    pub size: u64,
    /// What the archive holds.
    pub content_type: CnmtContentType,
}

/// List what the content meta records of `contents`, in order.
pub fn content_records(contents: &Vec<Content>) -> (records: Vec<ContentRecord>)
    ensures
        records@.len() == contents@.len(),
        forall|i: int|
            0 <= i < contents@.len() ==> {
                &&& (#[trigger] records@[i]).hash == contents@[i].archive.hash
                &&& records@[i].size == contents@[i].archive.bytes@.len()
                &&& records@[i].content_type == contents@[i].content_type
            },
{
    let mut records: Vec<ContentRecord> = Vec::new();
    let mut index: usize = 0;
    while index < contents.len()
        invariant
            index <= contents@.len(),
            records@.len() == index,
            forall|i: int|
                0 <= i < index ==> {
                    &&& (#[trigger] records@[i]).hash == contents@[i].archive.hash
                    &&& records@[i].size == contents@[i].archive.bytes@.len()
                    &&& records@[i].content_type == contents@[i].content_type
                },
        decreases contents@.len() - index,
    {
        let content = &contents[index];
        records.push(
            ContentRecord {
                hash: content.archive.hash,
                size: content.archive.bytes.len() as u64,
                content_type: content.content_type,
            },
        );
        index += 1;
    }
    records
}

/// Name the files of a package: every content under its own name, and the content meta last, under
/// a name that says what it is.
pub fn package_names(contents: &Vec<Content>, meta: &Archive) -> (names: Vec<String>)
    ensures
        names@.len() == contents@.len() + 1,
        forall|i: int|
            0 <= i < contents@.len() ==> (#[trigger] names@[i])@ == archive_name(
                contents@[i].archive.hash@,
                seq![],
            ),
        names@.last()@ == archive_name(meta.hash@, "cnmt"@),
{
    proof {
        reveal_strlit("");
        assert(""@ =~= seq![]);
    }
    let mut names: Vec<String> = Vec::new();
    let mut index: usize = 0;
    while index < contents.len()
        invariant
            index <= contents@.len(),
            names@.len() == index,
            ""@ == Seq::<char>::empty(),
            forall|i: int|
                0 <= i < index ==> (#[trigger] names@[i])@ == archive_name(
                    contents@[i].archive.hash@,
                    seq![],
                ),
        decreases contents@.len() - index,
    {
        names.push(contents[index].archive.file_name(""));
        index += 1;
    }
    names.push(meta.file_name("cnmt"));
    names
}

/// Name the package a title is packed into.
pub fn package_name(title_id: TitleId) -> (name: String)
    ensures
        name@ == title_text(title_id@) + ".nsp"@,
{
    let mut name = title_id.to_string();
    name.append(".nsp");
    name
}

/// Name the copy of an input that is about to be patched, after the time it was taken.
pub fn backup_name(stamp: i64, name: &str) -> (out: String)
    ensures
        out@ == decimal(stamp as int) + "_"@ + name@,
{
    let mut out = dec_i64(stamp);
    out.append("_");
    out.append(name);
    out
}

/// The warning a title ID calls for, if it does.
pub fn title_id_warning(title_id: TitleId) -> (warning: Option<String>)
    ensures
        match warning {
            Some(text) => title_id@ > TitleId::CONVENTIONAL_MAX && text@ == "title ID "@
                + title_text(title_id@) + " sits above the range homebrew conventionally uses"@,
            None => title_id@ <= TitleId::CONVENTIONAL_MAX,
        },
{
    if !title_id.is_above_conventional_range() {
        return None;
    }
    let mut text = "title ID ".to_owned();
    text.append(title_id.to_string().as_str());
    text.append(" sits above the range homebrew conventionally uses");
    Some(text)
}

/// The content meta of a package is told apart by its name: the name it is given says so, and no
/// other archive's does.
pub proof fn law_only_the_meta_is_named_as_one(hash: Seq<u8>)
    requires
        hash.len() == 0x20,
    ensures
        is_meta_name(archive_name(hash, "cnmt"@)),
        !is_meta_name(archive_name(hash, seq![])),
{
    reveal_strlit("cnmt");
    reveal_strlit(".");
    reveal_strlit(".nca");
    reveal_strlit(".cnmt.nca");
    let meta = archive_name(hash, "cnmt"@);
    assert(meta.skip(meta.len() - 9) =~= ".cnmt.nca"@);
    let other = archive_name(hash, seq![]);
    let id = hex_text(hash.take(0x10));
    assert(other == id + ".nca"@);
    lemma_digit_reads_back(hash[13] as int % 16);
    assert(other[27] == id[27]);
    assert(other.skip(other.len() - 9)[0] == other[27]);
}

/// A package whose archives carry the bytes their hashes were taken over passes the check against
/// its content meta: each record made of an archive, found under that archive's own name, matches.
pub proof fn law_a_packed_archive_passes_its_record(
    files: Seq<PartitionFile<'_>>,
    archive: Archive,
    record: CnmtRecord,
    index: int,
)
    requires
        archive.hash@ == sha256(archive.bytes@),
        record.hash == archive.hash,
        record.nca_id@ == archive.hash@.take(0x10),
        record.size == archive.bytes@.len(),
        0 <= index < files.len(),
        files[index].name@ == archive_name(archive.hash@, seq![]),
        files[index].data@ == archive.bytes@,
        forall|i: int|
            0 <= i < index ==> (#[trigger] files[i]).name@ != archive_name(
                archive.hash@,
                seq![],
            ),
    ensures
        record_failure(files, record) is None,
{
    crate::hactool::law_record_passes_exactly_when_size_and_hash_match(files, record, index);
}

/// A program archive holds the executable partition in slot 0, hashed in blocks of `0x10000`; the
/// filesystem in slot 1, unless that is left out; and the logo in slot 2, hashed in blocks of
/// `0x1000`, unless that is. They stand in the order of their slots, and there is no other. All but
/// the logo are encrypted unless everything is to stay in the clear, and the logo never is.
pub proof fn law_a_program_archive_holds_these_sections(options: Options)
    ensures
        ({
            let sections = program_sections(options);
            let encryption = if options.plaintext {
                SectionEncryption::Plaintext
            } else {
                SectionEncryption::Ctr
            };
            let exefs = Section {
                index: 0,
                data: SectionData::ExeFs { hash_block_size: 0x10000 },
                encryption,
            };
            let romfs = Section { index: 1, data: SectionData::RomFs, encryption };
            let logo = Section {
                index: 2,
                data: SectionData::Logo { hash_block_size: 0x1000 },
                encryption: SectionEncryption::Plaintext,
            };
            &&& forall|section: Section| #[trigger]
                sections.contains(section) <==> section == exefs || (section == romfs
                    && !options.noromfs) || (section == logo && !options.nologo)
            &&& forall|i: int, j: int|
                0 <= i < j < sections.len() ==> (#[trigger] sections[i]).index < (
                #[trigger] sections[j]).index
        }),
{
    let sections = program_sections(options);
    let encryption = if options.plaintext {
        SectionEncryption::Plaintext
    } else {
        SectionEncryption::Ctr
    };
    let exefs = Section {
        index: 0,
        data: SectionData::ExeFs { hash_block_size: 0x10000 },
        encryption,
    };
    let romfs = Section { index: 1, data: SectionData::RomFs, encryption };
    let logo = Section {
        index: 2,
        data: SectionData::Logo { hash_block_size: 0x1000 },
        encryption: SectionEncryption::Plaintext,
    };
    assert(sections[0] == exefs);
    if !options.noromfs {
        assert(sections[1] == romfs);
    }
    if !options.nologo {
        assert(sections[sections.len() - 1] == logo);
    }
    assert forall|section: Section| #[trigger] sections.contains(section) implies section == exefs
        || (section == romfs && !options.noromfs) || (section == logo && !options.nologo) by {
        let i = choose|i: int| 0 <= i < sections.len() && sections[i] == section;
        assert(i == 0 || i == 1 || i == 2);
    }
}

/// Every other archive holds one section, in slot 0, encrypted unless everything is to stay in the
/// clear: the filesystem it is about, or for the content meta a partition hashed in blocks of
/// `0x1000`. And every archive carries the title's own ID, the SDK version, the key generation and
/// the section key that were asked for, the key in the third slot of its key area.
pub proof fn law_other_archives_hold_one_section(
    options: Options,
    plan: ArchivePlan,
    title_id: u64,
)
    ensures
        ({
            let encryption = if options.plaintext {
                SectionEncryption::Plaintext
            } else {
                SectionEncryption::Ctr
            };
            &&& filesystem_section(options) == (Section {
                index: 0,
                data: SectionData::RomFs,
                encryption,
            })
            &&& meta_section(options) == (Section {
                index: 0,
                data: SectionData::ContentMeta { hash_block_size: 0x1000 },
                encryption,
            })
        }),
        shares_settings(plan, options, title_id) <==> {
            &&& plan.title_id == title_id
            &&& plan.sdk_version == options.sdkversion@
            &&& plan.key_generation == options.keygeneration@
            &&& plan.key_index == 2
            &&& plan.key@ == options.keyareakey@
        },
{
}

/// A title's contents are the program, the control, and then each manual there is, the HTML document
/// first, each under its own type and with its own archive.
pub proof fn law_contents_are_named_in_order(
    program: Archive,
    control: Archive,
    html_document: Option<Archive>,
    legal_information: Option<Archive>,
)
    ensures
        ({
            let contents = contents_of(program, control, html_document, legal_information);
            let html = if html_document is Some { 1int } else { 0 };
            let legal = if legal_information is Some { 1int } else { 0 };
            &&& contents.len() == 2 + html + legal
            &&& contents[0].content_type is Program && contents[0].archive == program
            &&& contents[1].content_type is Control && contents[1].archive == control
            &&& html_document matches Some(archive) ==> contents[2].content_type is HtmlDocument
                && contents[2].archive == archive
            &&& legal_information matches Some(archive) ==> contents[2
                + html].content_type is LegalInformation && contents[2 + html].archive == archive
        }),
{
}

} // verus!
