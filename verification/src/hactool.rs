//! Reading, verifying, and extracting the archives the console loads.
//!
//! The inverse of packing, and deliberately narrow: it reads what can be produced here (an NCA, the
//! NSP that carries one, and a KIP1) and says so plainly when handed anything else. Gamecard images,
//! boot packages, savedata, and update partitions are out of scope.
//!
//! Two limits are worth knowing before reading the output. An NCA carries two signatures and only
//! the second is checkable here: the first is verified against a modulus that lives in the console.
//! And an archive can only be opened with the keys it was sealed with, so a keyset that lacks the
//! generation the archive names fails at the door rather than producing partial output.

pub mod extract;

use crate::bytes::{be_array, be_bytes, is_all_zero, same_bytes};
use crate::container::{
    Cnmt, CnmtContentMetaType, CnmtContentType, CnmtRecord, KipImage, Nca,
    NcaContentType, NcaCryptType, NcaFsType, NcaSection, PartitionFile, Superblock,
    NCA_SECTION_COUNT,
};
use crate::crypto::{sha256, sha256_digest};
use crate::text::{
    chars_of, dec_u64, decimal, digits, hex, hex_text, hex_u64, pad_right, padded,
};
use crate::unpack::nca::PlainNca;
use crate::unpack::verify::{
    fs_header_hash, fs_header_outcome, header_signature, section_hashes, section_outcome,
    signature_outcome, SignatureCheck,
};
use vstd::prelude::*;

verus! {

/// Which container the input is.
#[derive(Debug, Clone, Copy, PartialEq, Eq, Structural)]
pub enum InputType {
    /// A single content archive.
    Nca,
    /// A submission package, which is a PFS0 holding archives.
    Nsp,
    /// A kernel initial process image.
    Kip,
}

/// Whether `image` leads with the four bytes `magic`.
pub open spec fn leads_with(image: Seq<u8>, magic: Seq<u8>) -> bool {
    image.len() >= 4 && image.take(4) == magic
}

/// The bytes `PFS0`, which is how an NSP is told from an NCA without being asked.
pub open spec fn pfs0_magic() -> Seq<u8> {
    seq![0x50u8, 0x46, 0x53, 0x30]
}

/// The bytes `KIP1`, which lead a KIP1 in the clear.
pub open spec fn kip1_magic() -> Seq<u8> {
    seq![0x4Bu8, 0x49, 0x50, 0x31]
}

/// Which kind of container `image` is, judged by what leads it.
///
/// An NCA cannot be recognized this way, its header being ciphertext, so anything that is neither a
/// PFS0 nor a KIP1 is treated as one, and a wrong guess surfaces as a failed header decryption
/// rather than silently.
pub fn detect(image: &[u8]) -> (kind: InputType)
    ensures
        kind == if leads_with(image@, pfs0_magic()) {
            InputType::Nsp
        } else if leads_with(image@, kip1_magic()) {
            InputType::Kip
        } else {
            InputType::Nca
        },
{
    if image.len() < 4 {
        return InputType::Nca;
    }
    let lead = crate::bytes::load::<4>(image, 0);
    assert(lead@ =~= image@.take(4));
    let pfs0: [u8; 4] = [0x50, 0x46, 0x53, 0x30];
    let kip1: [u8; 4] = [0x4B, 0x49, 0x50, 0x31];
    assert(pfs0@ =~= pfs0_magic());
    assert(kip1@ =~= kip1_magic());
    if same_bytes(&lead, &pfs0) {
        InputType::Nsp
    } else if same_bytes(&lead, &kip1) {
        InputType::Kip
    } else {
        InputType::Nca
    }
}

/// The name segment `index` is known by.
pub open spec fn segment_label(index: usize) -> &'static str {
    if index == 0 {
        "text"
    } else if index == 1 {
        "rodata"
    } else if index == 2 {
        "data"
    } else {
        "bss"
    }
}

/// The name segment `index` is known by, which is what an extracted file is called.
pub fn segment_name(index: usize) -> (name: &'static str)
    ensures
        name == segment_label(index),
{
    match index {
        0 => "text",
        1 => "rodata",
        2 => "data",
        _ => "bss",
    }
}

/// The file name segment `index` is extracted to.
pub fn segment_file_name(index: usize) -> (name: String)
    ensures
        name@ == segment_label(index)@ + ".bin"@,
{
    let mut name = segment_name(index).to_owned();
    name.append(".bin");
    name
}

/// `value` as sixteen lowercase hex digits.
pub open spec fn hex_id(value: u64) -> Seq<char> {
    hex_text(be_bytes(value as nat, 8))
}

/// Render `value` as sixteen lowercase hex digits.
fn render_id(value: u64) -> (out: String)
    ensures
        out@ == hex_id(value),
{
    hex(&be_array::<8>(value as u128))
}

/// A KIP1's header and the first `count` segments it carries, as they are reported.
pub open spec fn kip_text(kip: KipImage<'_>, count: int) -> Seq<char>
    decreases count,
{
    if count <= 0 {
        "KIP1:\n"@ + "  Name:            "@ + kip.name@ + "\n"@ + "  Title ID:        "@ + hex_id(
            kip.title_id,
        ) + "\n"@ + "  Flags:           0x"@ + hex_text(seq![kip.flags]) + "\n"@
    } else {
        let segment = kip.segments@[count - 1];
        kip_text(kip, count - 1) + "  Segment "@ + decimal(segment.index as int) + " ("@
            + segment_label(segment.index)@ + "):\n"@ + "    Address:       0x"@ + digits(
            segment.address as nat,
            16,
        ) + "\n"@ + "    Stored:        "@ + decimal(segment.stored as int) + " bytes"@ + (
        if segment.compressed {
            " (BLZ)"@
        } else {
            ""@
        }) + "\n"@ + "    Expanded:      "@ + decimal(segment.expanded as int) + " bytes\n"@
    }
}

/// Render a KIP1's header and every segment it carries.
pub fn render_kip(kip: &KipImage<'_>) -> (out: String)
    ensures
        out@ == kip_text(*kip, kip.segments@.len() as int),
{
    let mut out = "KIP1:\n".to_owned();
    out.append("  Name:            ");
    out.append(kip.name);
    out.append("\n");
    out.append("  Title ID:        ");
    out.append(render_id(kip.title_id).as_str());
    out.append("\n");
    out.append("  Flags:           0x");
    let flags = [kip.flags];
    assert(flags@ =~= seq![kip.flags]);
    out.append(hex(&flags).as_str());
    out.append("\n");
    let mut index: usize = 0;
    while index < kip.segments.len()
        invariant
            index <= kip.segments@.len(),
            out@ == kip_text(*kip, index as int),
        decreases kip.segments@.len() - index,
    {
        let segment = kip.segments[index];
        out.append("  Segment ");
        out.append(dec_u64(segment.index as u64).as_str());
        out.append(" (");
        out.append(segment_name(segment.index));
        out.append("):\n");
        out.append("    Address:       0x");
        out.append(hex_u64(segment.address).as_str());
        out.append("\n");
        out.append("    Stored:        ");
        out.append(dec_u64(segment.stored as u64).as_str());
        out.append(" bytes");
        out.append(if segment.compressed {
            " (BLZ)"
        } else {
            ""
        });
        out.append("\n");
        out.append("    Expanded:      ");
        out.append(dec_u64(segment.expanded).as_str());
        out.append(" bytes\n");
        index += 1;
    }
    out
}

/// The name a content meta type is reported under.
pub open spec fn meta_type_label(meta_type: Option<CnmtContentMetaType>) -> &'static str {
    match meta_type {
        Some(CnmtContentMetaType::Application) => "Application",
        Some(CnmtContentMetaType::Patch) => "Patch",
        Some(CnmtContentMetaType::AddOnContent) => "AddOnContent",
        Some(CnmtContentMetaType::Delta) => "Delta",
        None => "(unrecognized)",
    }
}

/// The name a content meta type is reported under.
pub fn meta_type_name(meta_type: Option<CnmtContentMetaType>) -> (name: &'static str)
    ensures
        name == meta_type_label(meta_type),
{
    match meta_type {
        Some(CnmtContentMetaType::Application) => "Application",
        Some(CnmtContentMetaType::Patch) => "Patch",
        Some(CnmtContentMetaType::AddOnContent) => "AddOnContent",
        Some(CnmtContentMetaType::Delta) => "Delta",
        None => "(unrecognized)",
    }
}

/// The label a content record's type is listed under.
pub open spec fn record_label(content_type: Option<CnmtContentType>) -> &'static str {
    match content_type {
        Some(CnmtContentType::Meta) => "Meta",
        Some(CnmtContentType::Program) => "Program",
        Some(CnmtContentType::Data) => "Data",
        Some(CnmtContentType::Control) => "Control",
        Some(CnmtContentType::HtmlDocument) => "HtmlDocument",
        Some(CnmtContentType::LegalInformation) => "LegalInformation",
        Some(CnmtContentType::DeltaFragment) => "DeltaFragment",
        None => "(unrecognized)",
    }
}

/// The label a content record's type is listed under.
pub fn content_type_label(content_type: Option<CnmtContentType>) -> (label: &'static str)
    ensures
        label == record_label(content_type),
{
    match content_type {
        Some(CnmtContentType::Meta) => "Meta",
        Some(CnmtContentType::Program) => "Program",
        Some(CnmtContentType::Data) => "Data",
        Some(CnmtContentType::Control) => "Control",
        Some(CnmtContentType::HtmlDocument) => "HtmlDocument",
        Some(CnmtContentType::LegalInformation) => "LegalInformation",
        Some(CnmtContentType::DeltaFragment) => "DeltaFragment",
        None => "(unrecognized)",
    }
}

/// A content meta's header and its first `count` records, as they are reported.
pub open spec fn cnmt_text(cnmt: Cnmt, count: int) -> Seq<char>
    decreases count,
{
    if count <= 0 {
        "Content meta:\n"@ + "  Title ID:        "@ + hex_id(cnmt.title_id) + "\n"@
            + "  Title version:   "@ + decimal(cnmt.title_version as int) + "\n"@
            + "  Meta type:       "@ + meta_type_label(cnmt.meta_type)@ + "\n"@
    } else {
        let record = cnmt.records@[count - 1];
        cnmt_text(cnmt, count - 1) + "    "@ + padded(record_label(record.content_type)@, 18) + " "@
            + hex_text(record.nca_id@) + " ("@ + decimal(record.size as int) + " bytes)\n"@
    }
}

/// Render the content meta an archive carries, when it is the one that carries it.
///
/// `cnmt` is the content meta found in the single file of the archive's single section. Gives
/// `None` for every archive but the meta: only that one holds a CNMT, and a caller asking for the
/// records of a program archive is asking for something that is not there.
pub fn render_cnmt(content_type: NcaContentType, cnmt: Option<&Cnmt>) -> (out: Option<String>)
    ensures
        match (content_type, cnmt) {
            (NcaContentType::Meta, Some(cnmt)) => out matches Some(text) && text@ == cnmt_text(
                *cnmt,
                cnmt.records@.len() as int,
            ),
            _ => out is None,
        },
{
    if content_type != NcaContentType::Meta {
        return None;
    }
    let cnmt = match cnmt {
        Some(cnmt) => cnmt,
        None => return None,
    };
    let mut out = "Content meta:\n".to_owned();
    out.append("  Title ID:        ");
    out.append(render_id(cnmt.title_id).as_str());
    out.append("\n");
    out.append("  Title version:   ");
    out.append(dec_u64(cnmt.title_version as u64).as_str());
    out.append("\n");
    out.append("  Meta type:       ");
    out.append(meta_type_name(cnmt.meta_type));
    out.append("\n");
    let mut index: usize = 0;
    while index < cnmt.records.len()
        invariant
            index <= cnmt.records@.len(),
            out@ == cnmt_text(*cnmt, index as int),
        decreases cnmt.records@.len() - index,
    {
        let record = cnmt.records[index];
        out.append("    ");
        out.append(pad_right(content_type_label(record.content_type), 18).as_str());
        out.append(" ");
        out.append(hex(&record.nca_id).as_str());
        out.append(" (");
        out.append(dec_u64(record.size).as_str());
        out.append(" bytes)\n");
        index += 1;
    }
    Some(out)
}

/// One check as it is reported: a pass, or a failure with its reason.
pub open spec fn outcome_text(check: Seq<char>, failure: Option<Seq<char>>) -> Seq<char> {
    match failure {
        None => "  "@ + padded(check, 32) + " OK\n"@,
        Some(reason) => "  "@ + padded(check, 32) + " FAILED ("@ + reason + ")\n"@,
    }
}

/// The reason a check failed for, if it did.
pub open spec fn failure_of(result: Result<(), String>) -> Option<Seq<char>> {
    match result {
        Ok(()) => None,
        Err(reason) => Some(reason@),
    }
}

/// Render one check as a pass or a failure with its reason.
pub fn outcome(check: &str, result: Result<(), String>) -> (out: String)
    ensures
        out@ == outcome_text(check@, failure_of(result)),
{
    let mut out = "  ".to_owned();
    out.append(pad_right(check, 32).as_str());
    match result {
        Ok(()) => {
            out.append(" OK\n");
        },
        Err(reason) => {
            out.append(" FAILED (");
            out.append(reason.as_str());
            out.append(")\n");
        },
    }
    out
}

/// Whether `name` ends in `.cnmt.nca`, as the archive carrying a title's content meta does.
pub open spec fn is_meta_name(name: Seq<char>) -> bool {
    name.len() >= 9 && name.skip(name.len() - 9) == ".cnmt.nca"@
}

/// Whether `name` ends in `.cnmt.nca`, as the archive carrying a title's content meta does.
fn names_meta(name: &str) -> (meta: bool)
    ensures
        meta == is_meta_name(name@),
{
    proof {
        reveal_strlit(".cnmt.nca");
    }
    let chars = chars_of(name);
    let suffix = chars_of(".cnmt.nca");
    let len = chars.len();
    if len < 9 {
        return false;
    }
    let mut index: usize = 0;
    while index < 9
        invariant
            index <= 9,
            9 <= len,
            len == chars@.len(),
            chars@ == name@,
            suffix@ == ".cnmt.nca"@,
            suffix@.len() == 9,
            forall|i: int| 0 <= i < index ==> #[trigger] name@.skip(len - 9)[i] == suffix@[i],
        decreases 9 - index,
    {
        if chars[len - 9 + index] != suffix[index] {
            assert(name@.skip(len - 9)[index as int] != suffix@[index as int]);
            return false;
        }
        index += 1;
    }
    assert(name@.skip(len - 9) =~= ".cnmt.nca"@);
    true
}

/// Find the archive of a package that carries its content meta: the first whose name says so.
pub fn find_meta(files: &Vec<PartitionFile<'_>>) -> (found: Option<usize>)
    ensures
        match found {
            Some(index) => {
                &&& index < files@.len()
                &&& is_meta_name(files@[index as int].name@)
                &&& forall|i: int| 0 <= i < index ==> !is_meta_name((#[trigger] files@[i]).name@)
            },
            None => forall|i: int|
                0 <= i < files@.len() ==> !is_meta_name((#[trigger] files@[i]).name@),
        },
{
    let mut index: usize = 0;
    while index < files.len()
        invariant
            index <= files@.len(),
            forall|i: int| 0 <= i < index ==> !is_meta_name((#[trigger] files@[i]).name@),
        decreases files@.len() - index,
    {
        if names_meta(files[index].name) {
            return Some(index);
        }
        index += 1;
    }
    None
}

/// Render what a package without a content meta is reported as.
pub fn render_package_without_meta() -> (out: String)
    ensures
        out@ == "Package:\n"@ + "  "@ + padded("content meta"@, 32)
            + " no .cnmt.nca in the package\n"@,
{
    let mut out = "Package:\n".to_owned();
    out.append("  ");
    out.append(pad_right("content meta", 32).as_str());
    out.append(" no .cnmt.nca in the package\n");
    out
}

/// The file of that name, if the package holds one: the first of them.
pub open spec fn file_named(files: Seq<PartitionFile<'_>>, name: Seq<char>, from: int) -> Option<
    Seq<u8>,
>
    decreases files.len() - from,
{
    if from < 0 || from >= files.len() {
        None
    } else if files[from].name@ == name {
        Some(files[from].data@)
    } else {
        file_named(files, name, from + 1)
    }
}

/// The file name a record's archive is stored under.
pub open spec fn record_name(record: CnmtRecord) -> Seq<char> {
    hex_text(record.nca_id@) + ".nca"@
}

/// Why the package does not hold the archive a record names, if it does not.
pub open spec fn record_failure(files: Seq<PartitionFile<'_>>, record: CnmtRecord) -> Option<
    Seq<char>,
> {
    match file_named(files, record_name(record), 0) {
        None => Some("'"@ + record_name(record) + "' is not in the package"@),
        Some(data) => if data.len() != record.size {
            Some(
                "recorded "@ + decimal(record.size as int) + " bytes, package holds "@ + decimal(
                    data.len() as int,
                ),
            )
        } else if sha256(data) != record.hash@ {
            Some("content hash does not match"@)
        } else {
            None
        },
    }
}

/// What a record is reported under: what its archive holds, and the head of its name.
pub open spec fn record_check(record: CnmtRecord) -> Seq<char> {
    record_label(record.content_type)@ + " "@ + record_name(record).take(16)
}

/// What checking a package against the first `count` records of its content meta reports.
pub open spec fn package_text(
    files: Seq<PartitionFile<'_>>,
    records: Seq<CnmtRecord>,
    count: int,
) -> Seq<char>
    decreases count,
{
    if count <= 0 {
        "Package:\n"@ + "  "@ + padded("content meta"@, 32) + " "@ + decimal(records.len() as int)
            + " records\n"@
    } else {
        package_text(files, records, count - 1) + outcome_text(
            record_check(records[count - 1]),
            record_failure(files, records[count - 1]),
        )
    }
}

/// Find the file named `name` in a package.
fn file_by_name<'a>(files: &Vec<PartitionFile<'a>>, name: &String) -> (found: Option<&'a [u8]>)
    ensures
        match found {
            Some(data) => file_named(files@, name@, 0) == Some(data@),
            None => file_named(files@, name@, 0) is None,
        },
{
    let mut index: usize = 0;
    while index < files.len()
        invariant
            index <= files@.len(),
            file_named(files@, name@, 0) == file_named(files@, name@, index as int),
        decreases files@.len() - index,
    {
        if files[index].name.to_owned() == *name {
            return Some(files[index].data);
        }
        index += 1;
    }
    None
}

/// Check the package's copy of one archive against the record that names it.
fn check_record(files: &Vec<PartitionFile<'_>>, record: &CnmtRecord, name: &String) -> (out: Result<
    (),
    String,
>)
    requires
        name@ == record_name(*record),
    ensures
        failure_of(out) == record_failure(files@, *record),
{
    let data = match file_by_name(files, name) {
        Some(data) => data,
        None => {
            let mut reason = "'".to_owned();
            reason.append(name.as_str());
            reason.append("' is not in the package");
            return Err(reason);
        },
    };
    if data.len() as u64 != record.size {
        let mut reason = "recorded ".to_owned();
        reason.append(dec_u64(record.size).as_str());
        reason.append(" bytes, package holds ");
        reason.append(dec_u64(data.len() as u64).as_str());
        return Err(reason);
    }
    let digest = sha256_digest(data);
    if !same_bytes(&digest, &record.hash) {
        return Err("content hash does not match".to_owned());
    }
    Ok(())
}

/// Check every archive in a package against the content meta that names it.
///
/// This is the check a package as a whole can fail while each of its archives passes: an NCA whose
/// own hashes verify can still be the wrong file, the wrong size, or missing entirely, and only the
/// content meta says which files should be there.
pub fn render_package_verification(files: &Vec<PartitionFile<'_>>, cnmt: &Cnmt) -> (out: String)
    ensures
        out@ == package_text(files@, cnmt.records@, cnmt.records@.len() as int),
{
    let mut out = "Package:\n".to_owned();
    out.append("  ");
    out.append(pad_right("content meta", 32).as_str());
    out.append(" ");
    out.append(dec_u64(cnmt.records.len() as u64).as_str());
    out.append(" records\n");
    let mut index: usize = 0;
    while index < cnmt.records.len()
        invariant
            index <= cnmt.records@.len(),
            out@ == package_text(files@, cnmt.records@, index as int),
        decreases cnmt.records@.len() - index,
    {
        let record = cnmt.records[index];
        let id = hex(&record.nca_id);
        let mut label = content_type_label(record.content_type).to_owned();
        label.append(" ");
        label.append(id.as_str().substring_char(0, 16));
        let mut name = id;
        name.append(".nca");
        assert(record_name(record).take(16) =~= hex_text(record.nca_id@).subrange(0, 16));
        let result = check_record(files, &record, &name);
        out.append(outcome(label.as_str(), result).as_str());
        index += 1;
    }
    out
}

/// What a package holds, up to its first `count` files, as it is reported.
pub open spec fn nsp_text(files: Seq<PartitionFile<'_>>, count: int) -> Seq<char>
    decreases count,
{
    if count <= 0 {
        "NSP:\n"@ + "  Files: "@ + decimal(files.len() as int) + "\n"@
    } else {
        let file = files[count - 1];
        nsp_text(files, count - 1) + "    "@ + padded(file.name@, 48) + " "@ + decimal(
            file.data@.len() as int,
        ) + " bytes\n"@
    }
}

/// Render what an NSP holds.
pub fn render_nsp(files: &Vec<PartitionFile<'_>>) -> (out: String)
    ensures
        out@ == nsp_text(files@, files@.len() as int),
{
    let mut out = "NSP:\n".to_owned();
    out.append("  Files: ");
    out.append(dec_u64(files.len() as u64).as_str());
    out.append("\n");
    let mut index: usize = 0;
    while index < files.len()
        invariant
            index <= files@.len(),
            out@ == nsp_text(files@, index as int),
        decreases files@.len() - index,
    {
        let file = files[index];
        out.append("    ");
        out.append(pad_right(file.name, 48).as_str());
        out.append(" ");
        out.append(dec_u64(file.data.len() as u64).as_str());
        out.append(" bytes\n");
        index += 1;
    }
    out
}

/// The name a content type is reported under.
pub open spec fn content_label(content_type: NcaContentType) -> &'static str {
    match content_type {
        NcaContentType::Program => "Program",
        NcaContentType::Meta => "Meta",
        NcaContentType::Control => "Control",
        NcaContentType::Manual => "Manual",
        NcaContentType::Data => "Data",
        NcaContentType::PublicData => "PublicData",
    }
}

/// The name a content type is reported under.
pub fn content_type_name(content_type: NcaContentType) -> (name: &'static str)
    ensures
        name == content_label(content_type),
{
    match content_type {
        NcaContentType::Program => "Program",
        NcaContentType::Meta => "Meta",
        NcaContentType::Control => "Control",
        NcaContentType::Manual => "Manual",
        NcaContentType::Data => "Data",
        NcaContentType::PublicData => "PublicData",
    }
}

/// The name a filesystem type is reported under.
pub open spec fn fs_label(fs_type: NcaFsType) -> &'static str {
    match fs_type {
        NcaFsType::RomFs => "RomFS",
        NcaFsType::Pfs0 => "PFS0",
    }
}

/// The name a filesystem type is reported under.
pub fn fs_type_name(fs_type: NcaFsType) -> (name: &'static str)
    ensures
        name == fs_label(fs_type),
{
    match fs_type {
        NcaFsType::RomFs => "RomFS",
        NcaFsType::Pfs0 => "PFS0",
    }
}

/// The name an encryption scheme is reported under.
pub open spec fn encryption_label(encryption: NcaCryptType) -> &'static str {
    match encryption {
        NcaCryptType::Plaintext => "none (plaintext)",
        NcaCryptType::Xts => "AES-XTS",
        NcaCryptType::Ctr => "AES-CTR",
        NcaCryptType::Bktr => "AES-CTR (BKTR)",
    }
}

/// The name an encryption scheme is reported under.
pub fn encryption_name(encryption: NcaCryptType) -> (name: &'static str)
    ensures
        name == encryption_label(encryption),
{
    match encryption {
        NcaCryptType::Plaintext => "none (plaintext)",
        NcaCryptType::Xts => "AES-XTS",
        NcaCryptType::Ctr => "AES-CTR",
        NcaCryptType::Bktr => "AES-CTR (BKTR)",
    }
}

/// One section's extent, filesystem, and encryption, as they are reported.
pub open spec fn section_text(section: NcaSection<'_>) -> Seq<char> {
    "  Section "@ + decimal(section.layout.index as int) + ":\n"@ + "    Offset:        0x"@
        + digits(section.layout.start as nat, 16) + " .. 0x"@ + digits(
        section.layout.end as nat,
        16,
    ) + "\n"@ + "    Filesystem:    "@ + fs_label(section.fs_type)@ + "\n"@
        + "    Encryption:    "@ + encryption_label(section.layout.encryption)@ + "\n"@
        + "    Contents:      "@ + decimal(section.data@.len() as int) + " bytes\n"@
}

/// Render one section's extent, filesystem, and encryption.
pub fn render_section(section: &NcaSection<'_>) -> (out: String)
    ensures
        out@ == section_text(*section),
{
    let mut out = "  Section ".to_owned();
    out.append(dec_u64(section.layout.index as u64).as_str());
    out.append(":\n");
    out.append("    Offset:        0x");
    out.append(hex_u64(section.layout.start as u64).as_str());
    out.append(" .. 0x");
    out.append(hex_u64(section.layout.end as u64).as_str());
    out.append("\n");
    out.append("    Filesystem:    ");
    out.append(fs_type_name(section.fs_type));
    out.append("\n");
    out.append("    Encryption:    ");
    out.append(encryption_name(section.layout.encryption));
    out.append("\n");
    out.append("    Contents:      ");
    out.append(dec_u64(section.data.len() as u64).as_str());
    out.append(" bytes\n");
    out
}

/// How the rights an archive is encrypted under are reported.
pub open spec fn rights_text(rights_id: Seq<u8>) -> Seq<char> {
    if crate::bytes::all_zero(rights_id) {
        "(none, key area crypto)"@
    } else {
        hex_text(rights_id)
    }
}

/// An archive's header, as it is reported above its keys.
pub open spec fn nca_header_text(archive: Nca<'_>) -> Seq<char> {
    "NCA:\n"@ + "  Content type:    "@ + content_label(archive.content_type)@ + "\n"@
        + "  Title ID:        "@ + hex_id(archive.title_id) + "\n"@ + "  Size:            "@
        + decimal(archive.nca_size as int) + " bytes\n"@ + "  Key generation:  "@ + decimal(
        archive.key_generation as int,
    ) + "\n"@ + "  Rights ID:       "@ + rights_text(archive.rights_id@) + "\n"@
        + "  Key area (unwrapped):\n"@
}

/// An archive's header and the first `count` keys of its key area, as they are reported.
pub open spec fn keys_text(archive: Nca<'_>, keys: [[u8; 0x10]; 4], count: int) -> Seq<char>
    decreases count,
{
    if count <= 0 {
        nca_header_text(archive)
    } else {
        keys_text(archive, keys, count - 1) + "    ["@ + decimal(count - 1) + "] "@ + hex_text(
            keys@[count - 1]@,
        ) + "\n"@
    }
}

/// An archive's header, keys, and the first `count` sections it carries, as they are reported.
pub open spec fn nca_text(archive: Nca<'_>, keys: [[u8; 0x10]; 4], count: int) -> Seq<char>
    decreases count,
{
    if count <= 0 {
        keys_text(archive, keys, 4)
    } else {
        nca_text(archive, keys, count - 1) + section_text(archive.sections@[count - 1])
    }
}

/// Render an archive's header and every section it carries.
pub fn render_nca(archive: &Nca<'_>, plain: &PlainNca) -> (out: String)
    ensures
        out@ == nca_text(*archive, plain.key_area, archive.sections@.len() as int),
{
    let mut out = "NCA:\n".to_owned();
    out.append("  Content type:    ");
    out.append(content_type_name(archive.content_type));
    out.append("\n");
    out.append("  Title ID:        ");
    out.append(render_id(archive.title_id).as_str());
    out.append("\n");
    out.append("  Size:            ");
    out.append(dec_u64(archive.nca_size).as_str());
    out.append(" bytes\n");
    out.append("  Key generation:  ");
    out.append(dec_u64(archive.key_generation as u64).as_str());
    out.append("\n");
    out.append("  Rights ID:       ");
    if is_all_zero(&archive.rights_id) {
        out.append("(none, key area crypto)");
    } else {
        out.append(hex(&archive.rights_id).as_str());
    }
    out.append("\n");
    out.append("  Key area (unwrapped):\n");
    let mut index: usize = 0;
    while index < 4
        invariant
            index <= 4,
            out@ == keys_text(*archive, plain.key_area, index as int),
        decreases 4 - index,
    {
        out.append("    [");
        out.append(dec_u64(index as u64).as_str());
        out.append("] ");
        out.append(hex(&plain.key_area[index]).as_str());
        out.append("\n");
        index += 1;
    }
    index = 0;
    while index < archive.sections.len()
        invariant
            index <= archive.sections@.len(),
            out@ == nca_text(*archive, plain.key_area, index as int),
        decreases archive.sections@.len() - index,
    {
        out.append(render_section(&archive.sections[index]).as_str());
        index += 1;
    }
    out
}

/// What checking an archive's header signature reports.
pub open spec fn signature_text(bytes: Seq<u8>) -> Seq<char> {
    match signature_outcome(bytes) {
        Ok(SignatureCheck::Verified) => outcome_text("header signature"@, None),
        Ok(SignatureCheck::Absent) => "  "@ + padded("header signature"@, 32) + " not signed\n"@,
        Err(error) => outcome_text("header signature"@, Some(error.message())),
    }
}

/// What checking an archive reports, up to its first `count` sections.
pub open spec fn verification_text(archive: Nca<'_>, bytes: Seq<u8>, count: int) -> Seq<char>
    decreases count,
{
    if count <= 0 {
        "Verification:\n"@ + signature_text(bytes)
    } else {
        let section = archive.sections@[count - 1];
        let index = section.layout.index;
        verification_text(archive, bytes, count - 1) + outcome_text(
            "section "@ + decimal(index as int) + " FS header hash"@,
            match fs_header_outcome(archive, index) {
                Ok(()) => None,
                Err(error) => Some(error.message()),
            },
        ) + outcome_text(
            "section "@ + decimal(index as int) + " contents"@,
            match section_outcome(section.bytes@, section.superblock) {
                Ok(()) => None,
                Err(error) => Some(error.message()),
            },
        )
    }
}

/// Run every check the archive supports and render what each one found.
///
/// A failing check is rendered rather than returned: the point of verifying is to say which of the
/// checks failed, and stopping at the first would hide the rest.
pub fn render_verification(archive: &Nca<'_>, plain: &PlainNca) -> (out: String)
    ensures
        out@ == verification_text(*archive, plain.bytes@, archive.sections@.len() as int),
{
    let mut out = "Verification:\n".to_owned();
    let signature = match header_signature(plain.bytes.as_slice()) {
        Ok(SignatureCheck::Verified) => outcome("header signature", Ok(())),
        // Not a failure: only a title's program archive is signed, so every other archive of a
        // correctly packed title reaches here.
        Ok(SignatureCheck::Absent) => {
            let mut line = "  ".to_owned();
            line.append(pad_right("header signature", 32).as_str());
            line.append(" not signed\n");
            line
        },
        Err(error) => outcome("header signature", Err(error.to_string())),
    };
    out.append(signature.as_str());
    let mut index: usize = 0;
    while index < archive.sections.len()
        invariant
            index <= archive.sections@.len(),
            out@ == verification_text(*archive, plain.bytes@, index as int),
        decreases archive.sections@.len() - index,
    {
        let section = &archive.sections[index];
        let mut header_check = "section ".to_owned();
        header_check.append(dec_u64(section.layout.index as u64).as_str());
        header_check.append(" FS header hash");
        let header_result = match fs_header_hash(archive, section.layout.index) {
            Ok(()) => Ok(()),
            Err(error) => Err(error.to_string()),
        };
        out.append(outcome(header_check.as_str(), header_result).as_str());
        let mut contents_check = "section ".to_owned();
        contents_check.append(dec_u64(section.layout.index as u64).as_str());
        contents_check.append(" contents");
        let contents_result = match section_hashes(section) {
            Ok(()) => Ok(()),
            Err(error) => Err(error.to_string()),
        };
        out.append(outcome(contents_check.as_str(), contents_result).as_str());
        index += 1;
    }
    out
}

/// Which output directories the caller named.
#[derive(Debug, Clone, Copy)]
pub struct Targets {
    /// One for each of the four sections, verification structures included.
    pub sections: [bool; 4],
    /// One for the executable partition.
    pub exefs: bool,
    /// One for the read-only filesystem.
    pub romfs: bool,
}

impl Targets {
    /// Whether the caller named a directory for section `index`.
    pub open spec fn names_section(self, index: usize) -> bool {
        index < NCA_SECTION_COUNT && self.sections@[index as int]
    }

    /// Whether the caller named a directory for section `index`.
    ///
    /// The four flags are one setting with an index, so they are read as one here rather than
    /// branched on at the point that needs them.
    pub fn section_dir(&self, index: usize) -> (named: bool)
        ensures
            named == self.names_section(index),
    {
        index < NCA_SECTION_COUNT && self.sections[index]
    }
}

/// Something to extract from a section.
#[derive(Debug, Clone, Copy, PartialEq, Eq, Structural)]
pub enum Extraction {
    /// The whole section, verification structures included, into the directory named for it.
    Raw,
    /// The files of the partition it holds, into the directory for the executable partition.
    ExeFs,
    /// The tree it holds, into the directory for the read-only filesystem.
    RomFs,
}

/// What is extracted from `section`, in order.
pub open spec fn extractions_of(section: NcaSection<'_>, targets: Targets) -> Seq<Extraction> {
    let raw = if targets.names_section(section.layout.index) {
        seq![Extraction::Raw]
    } else {
        seq![]
    };
    let exefs = if targets.exefs && section.layout.index == 0 && section.superblock is Pfs0 {
        seq![Extraction::ExeFs]
    } else {
        seq![]
    };
    let romfs = if targets.romfs && section.superblock is RomFs {
        seq![Extraction::RomFs]
    } else {
        seq![]
    };
    raw + exefs + romfs
}

/// List what to extract from `section` for the directories the caller named, in order.
///
/// The executable partition is section 0 by convention; the logo is a PFS0 too, and extracting it
/// into the executable's directory would be wrong.
pub fn section_extractions(section: &NcaSection<'_>, targets: &Targets) -> (out: Vec<Extraction>)
    ensures
        out@ == extractions_of(*section, *targets),
{
    let mut out: Vec<Extraction> = Vec::new();
    if targets.section_dir(section.layout.index) {
        out.push(Extraction::Raw);
    }
    if targets.exefs && section.layout.index == 0 {
        if let Superblock::Pfs0(_) = &section.superblock {
            out.push(Extraction::ExeFs);
        }
    }
    if targets.romfs {
        if let Superblock::RomFs(_) = &section.superblock {
            out.push(Extraction::RomFs);
        }
    }
    assert(out@ =~= extractions_of(*section, *targets));
    out
}

/// The first file of a package that carries a name is the one found under it.
proof fn lemma_file_named(files: Seq<PartitionFile<'_>>, name: Seq<char>, from: int, index: int)
    requires
        0 <= from <= index < files.len(),
        files[index].name@ == name,
        forall|i: int| from <= i < index ==> (#[trigger] files[i]).name@ != name,
    ensures
        file_named(files, name, from) == Some(files[index].data@),
    decreases index - from,
{
    if from < index {
        lemma_file_named(files, name, from + 1, index);
    }
}

/// A package holding an archive under the name its record gives passes the check of that record
/// exactly when its copy has the recorded size and hash.
pub proof fn law_record_passes_exactly_when_size_and_hash_match(
    files: Seq<PartitionFile<'_>>,
    record: CnmtRecord,
    index: int,
)
    requires
        0 <= index < files.len(),
        files[index].name@ == record_name(record),
        forall|i: int| 0 <= i < index ==> (#[trigger] files[i]).name@ != record_name(record),
    ensures
        record_failure(files, record) is None <==> {
            &&& files[index].data@.len() == record.size
            &&& sha256(files[index].data@) == record.hash@
        },
{
    lemma_file_named(files, record_name(record), 0, index);
}

/// A package that lacks the archive a record names fails the check of that record.
pub proof fn law_missing_archive_fails(files: Seq<PartitionFile<'_>>, record: CnmtRecord)
    requires
        forall|i: int| 0 <= i < files.len() ==> (#[trigger] files[i]).name@ != record_name(record),
    ensures
        record_failure(files, record) is Some,
{
    lemma_never_found(files, record_name(record), 0);
}

/// A name no file carries is never found.
proof fn lemma_never_found(files: Seq<PartitionFile<'_>>, name: Seq<char>, from: int)
    requires
        forall|i: int| 0 <= i < files.len() ==> (#[trigger] files[i]).name@ != name,
    ensures
        file_named(files, name, from) is None,
    decreases files.len() - from,
{
    if 0 <= from < files.len() {
        lemma_never_found(files, name, from + 1);
    }
}

/// The report up to its first `count` items is its heading and then their lines.
#[verifier::spinoff_prover]
#[verifier::rlimit(60)]
proof fn lemma_a_package_is_listed_file_by_file(files: Seq<PartitionFile<'_>>, count: int)
    requires
        0 <= count <= files.len(),
    ensures
        nsp_text(files, count) == nsp_text(files, 0) + Seq::new(
            count as nat,
            |i: int| "    "@ + padded(files[i].name@, 48) + " "@ + decimal(
                files[i].data@.len() as int,
            ) + " bytes\n"@,
        ).flatten(),
    decreases count,
{
    let line = |i: int| "    "@ + padded(files[i].name@, 48) + " "@ + decimal(
                files[i].data@.len() as int,
            ) + " bytes\n"@;
    let lines = Seq::new(count as nat, line);
    if count > 0 {
        lemma_a_package_is_listed_file_by_file(files, count - 1);
        let fewer = Seq::new((count - 1) as nat, line);
        assert(lines =~= fewer.push(line(count - 1)));
        fewer.lemma_flatten_push(line(count - 1));
        assert(nsp_text(files, count) =~= nsp_text(files, 0) + (fewer.flatten() + line(count - 1)));
    } else {
        assert(nsp_text(files, 0) + lines.flatten() =~= nsp_text(files, 0));
    }
}

/// A package is reported as the number of its files and then, in order, one line for each: its name,
/// and how many bytes it holds.
pub proof fn law_a_package_is_listed_file_by_file(files: Seq<PartitionFile<'_>>)
    ensures
        nsp_text(files, files.len() as int) == "NSP:\n"@ + "  Files: "@ + decimal(files.len() as int) + "\n"@ + Seq::new(
            files.len(),
            |i: int| "    "@ + padded(files[i].name@, 48) + " "@ + decimal(
                files[i].data@.len() as int,
            ) + " bytes\n"@,
        ).flatten(),
{
    lemma_a_package_is_listed_file_by_file(files, files.len() as int);
}

/// The report up to its first `count` items is its heading and then their lines.
#[verifier::spinoff_prover]
#[verifier::rlimit(60)]
proof fn lemma_every_segment_is_reported(kip: KipImage<'_>, count: int)
    requires
        0 <= count <= kip.segments@.len(),
    ensures
        kip_text(kip, count) == kip_text(kip, 0) + Seq::new(
            count as nat,
            |i: int| "  Segment "@ + decimal(kip.segments@[i].index as int) + " ("@ + segment_label(
                kip.segments@[i].index,
            )@ + "):\n"@ + "    Address:       0x"@ + digits(
                kip.segments@[i].address as nat,
                16,
            ) + "\n"@ + "    Stored:        "@ + decimal(kip.segments@[i].stored as int)
                + " bytes"@ + (if kip.segments@[i].compressed {
                " (BLZ)"@
            } else {
                ""@
            }) + "\n"@ + "    Expanded:      "@ + decimal(kip.segments@[i].expanded as int)
                + " bytes\n"@,
        ).flatten(),
    decreases count,
{
    let line = |i: int| "  Segment "@ + decimal(kip.segments@[i].index as int) + " ("@ + segment_label(
                kip.segments@[i].index,
            )@ + "):\n"@ + "    Address:       0x"@ + digits(
                kip.segments@[i].address as nat,
                16,
            ) + "\n"@ + "    Stored:        "@ + decimal(kip.segments@[i].stored as int)
                + " bytes"@ + (if kip.segments@[i].compressed {
                " (BLZ)"@
            } else {
                ""@
            }) + "\n"@ + "    Expanded:      "@ + decimal(kip.segments@[i].expanded as int)
                + " bytes\n"@;
    let lines = Seq::new(count as nat, line);
    if count > 0 {
        lemma_every_segment_is_reported(kip, count - 1);
        let fewer = Seq::new((count - 1) as nat, line);
        assert(lines =~= fewer.push(line(count - 1)));
        fewer.lemma_flatten_push(line(count - 1));
        assert(kip_text(kip, count) =~= kip_text(kip, 0) + (fewer.flatten() + line(count - 1)));
    } else {
        assert(kip_text(kip, 0) + lines.flatten() =~= kip_text(kip, 0));
    }
}

/// A KIP1 is reported as its name, title ID and flags, and then, in order, each of its segments: which
/// it is, where it is loaded, how many bytes are stored and whether compressed, and how many it
/// expands to.
pub proof fn law_every_segment_is_reported(kip: KipImage<'_>)
    ensures
        kip_text(kip, kip.segments@.len() as int) == "KIP1:\n"@ + "  Name:            "@ + kip.name@ + "\n"@ + "  Title ID:        "@ + hex_text(
            be_bytes(kip.title_id as nat, 8),
        ) + "\n"@ + "  Flags:           0x"@ + hex_text(seq![kip.flags]) + "\n"@ + Seq::new(
            kip.segments@.len(),
            |i: int| "  Segment "@ + decimal(kip.segments@[i].index as int) + " ("@ + segment_label(
                kip.segments@[i].index,
            )@ + "):\n"@ + "    Address:       0x"@ + digits(
                kip.segments@[i].address as nat,
                16,
            ) + "\n"@ + "    Stored:        "@ + decimal(kip.segments@[i].stored as int)
                + " bytes"@ + (if kip.segments@[i].compressed {
                " (BLZ)"@
            } else {
                ""@
            }) + "\n"@ + "    Expanded:      "@ + decimal(kip.segments@[i].expanded as int)
                + " bytes\n"@,
        ).flatten(),
{
    lemma_every_segment_is_reported(kip, kip.segments@.len() as int);
}

/// The report up to its first `count` items is its heading and then their lines.
#[verifier::spinoff_prover]
#[verifier::rlimit(60)]
proof fn lemma_every_record_is_reported(cnmt: Cnmt, count: int)
    requires
        0 <= count <= cnmt.records@.len(),
    ensures
        cnmt_text(cnmt, count) == cnmt_text(cnmt, 0) + Seq::new(
            count as nat,
            |i: int| "    "@ + padded(record_label(cnmt.records@[i].content_type)@, 18) + " "@ + hex_text(
                cnmt.records@[i].nca_id@,
            ) + " ("@ + decimal(cnmt.records@[i].size as int) + " bytes)\n"@,
        ).flatten(),
    decreases count,
{
    let line = |i: int| "    "@ + padded(record_label(cnmt.records@[i].content_type)@, 18) + " "@ + hex_text(
                cnmt.records@[i].nca_id@,
            ) + " ("@ + decimal(cnmt.records@[i].size as int) + " bytes)\n"@;
    let lines = Seq::new(count as nat, line);
    if count > 0 {
        lemma_every_record_is_reported(cnmt, count - 1);
        let fewer = Seq::new((count - 1) as nat, line);
        assert(lines =~= fewer.push(line(count - 1)));
        fewer.lemma_flatten_push(line(count - 1));
        assert(cnmt_text(cnmt, count) =~= cnmt_text(cnmt, 0) + (fewer.flatten() + line(count - 1)));
    } else {
        assert(cnmt_text(cnmt, 0) + lines.flatten() =~= cnmt_text(cnmt, 0));
    }
}

/// A content meta is reported as its title ID, version and type, and then, in order, one line for each
/// record: what the archive holds, its own name, and its own size.
pub proof fn law_every_record_is_reported(cnmt: Cnmt)
    ensures
        cnmt_text(cnmt, cnmt.records@.len() as int) == "Content meta:\n"@ + "  Title ID:        "@ + hex_text(
            be_bytes(cnmt.title_id as nat, 8),
        ) + "\n"@ + "  Title version:   "@ + decimal(cnmt.title_version as int) + "\n"@
            + "  Meta type:       "@ + meta_type_label(cnmt.meta_type)@ + "\n"@ + Seq::new(
            cnmt.records@.len(),
            |i: int| "    "@ + padded(record_label(cnmt.records@[i].content_type)@, 18) + " "@ + hex_text(
                cnmt.records@[i].nca_id@,
            ) + " ("@ + decimal(cnmt.records@[i].size as int) + " bytes)\n"@,
        ).flatten(),
{
    lemma_every_record_is_reported(cnmt, cnmt.records@.len() as int);
}

/// The report up to its first `count` items is its heading and then their lines.
#[verifier::spinoff_prover]
#[verifier::rlimit(60)]
proof fn lemma_every_record_is_checked(files: Seq<PartitionFile<'_>>, records: Seq<CnmtRecord>, count: int)
    requires
        0 <= count <= records.len(),
    ensures
        package_text(files, records, count) == package_text(files, records, 0) + Seq::new(
            count as nat,
            |i: int| outcome_text(
                record_label(records[i].content_type)@ + " "@ + hex_text(records[i].nca_id@).take(
                    16,
                ),
                record_failure(files, records[i]),
            ),
        ).flatten(),
    decreases count,
{
    let line = |i: int| outcome_text(
                record_label(records[i].content_type)@ + " "@ + hex_text(records[i].nca_id@).take(
                    16,
                ),
                record_failure(files, records[i]),
            );
    let lines = Seq::new(count as nat, line);
    if count > 0 {
        lemma_every_record_is_checked(files, records, count - 1);
        let fewer = Seq::new((count - 1) as nat, line);
        assert(lines =~= fewer.push(line(count - 1)));
        fewer.lemma_flatten_push(line(count - 1));
        assert(record_name(records[count - 1]).take(16) =~= hex_text(
            records[count - 1].nca_id@,
        ).take(16));
        assert(package_text(files, records, count) =~= package_text(files, records, 0) + (fewer.flatten() + line(count - 1)));
    } else {
        assert(package_text(files, records, 0) + lines.flatten() =~= package_text(files, records, 0));
    }
}

/// A package is checked record by record, in order, whatever became of the record before: one line for
/// each, under what its archive holds and the first sixteen digits of its name, with what its own
/// check found.
pub proof fn law_every_record_is_checked(files: Seq<PartitionFile<'_>>, records: Seq<CnmtRecord>)
    ensures
        package_text(files, records, records.len() as int) == "Package:\n"@ + "  "@ + padded("content meta"@, 32) + " "@ + decimal(
            records.len() as int,
        ) + " records\n"@ + Seq::new(
            records.len(),
            |i: int| outcome_text(
                record_label(records[i].content_type)@ + " "@ + hex_text(records[i].nca_id@).take(
                    16,
                ),
                record_failure(files, records[i]),
            ),
        ).flatten(),
{
    lemma_every_record_is_checked(files, records, records.len() as int);
}

/// The report up to its first `count` items is its heading and then their lines.
#[verifier::spinoff_prover]
#[verifier::rlimit(60)]
proof fn lemma_every_section_is_checked(archive: Nca<'_>, bytes: Seq<u8>, count: int)
    requires
        0 <= count <= archive.sections@.len(),
    ensures
        verification_text(archive, bytes, count) == verification_text(archive, bytes, 0) + Seq::new(
            count as nat,
            |i: int| outcome_text(
                "section "@ + decimal(archive.sections@[i].layout.index as int)
                    + " FS header hash"@,
                match fs_header_outcome(archive, archive.sections@[i].layout.index) {
                    Ok(()) => None,
                    Err(error) => Some(error.message()),
                },
            ) + outcome_text(
                "section "@ + decimal(archive.sections@[i].layout.index as int) + " contents"@,
                match section_outcome(
                    archive.sections@[i].bytes@,
                    archive.sections@[i].superblock,
                ) {
                    Ok(()) => None,
                    Err(error) => Some(error.message()),
                },
            ),
        ).flatten(),
    decreases count,
{
    let line = |i: int| outcome_text(
                "section "@ + decimal(archive.sections@[i].layout.index as int)
                    + " FS header hash"@,
                match fs_header_outcome(archive, archive.sections@[i].layout.index) {
                    Ok(()) => None,
                    Err(error) => Some(error.message()),
                },
            ) + outcome_text(
                "section "@ + decimal(archive.sections@[i].layout.index as int) + " contents"@,
                match section_outcome(
                    archive.sections@[i].bytes@,
                    archive.sections@[i].superblock,
                ) {
                    Ok(()) => None,
                    Err(error) => Some(error.message()),
                },
            );
    let lines = Seq::new(count as nat, line);
    if count > 0 {
        lemma_every_section_is_checked(archive, bytes, count - 1);
        let fewer = Seq::new((count - 1) as nat, line);
        assert(lines =~= fewer.push(line(count - 1)));
        fewer.lemma_flatten_push(line(count - 1));
        assert(verification_text(archive, bytes, count) =~= verification_text(archive, bytes, 0) + (fewer.flatten() + line(count - 1)));
    } else {
        assert(verification_text(archive, bytes, 0) + lines.flatten() =~= verification_text(archive, bytes, 0));
    }
}

/// An archive is checked section by section after its signature, in order, whatever became of the
/// checks before: two lines for each section, for its own FS header and its own contents.
pub proof fn law_every_section_is_checked(archive: Nca<'_>, bytes: Seq<u8>)
    ensures
        verification_text(archive, bytes, archive.sections@.len() as int) == "Verification:\n"@ + signature_text(bytes) + Seq::new(
            archive.sections@.len(),
            |i: int| outcome_text(
                "section "@ + decimal(archive.sections@[i].layout.index as int)
                    + " FS header hash"@,
                match fs_header_outcome(archive, archive.sections@[i].layout.index) {
                    Ok(()) => None,
                    Err(error) => Some(error.message()),
                },
            ) + outcome_text(
                "section "@ + decimal(archive.sections@[i].layout.index as int) + " contents"@,
                match section_outcome(
                    archive.sections@[i].bytes@,
                    archive.sections@[i].superblock,
                ) {
                    Ok(()) => None,
                    Err(error) => Some(error.message()),
                },
            ),
        ).flatten(),
{
    lemma_every_section_is_checked(archive, bytes, archive.sections@.len() as int);
}

/// The report up to its first `count` items is its heading and then their lines.
#[verifier::spinoff_prover]
#[verifier::rlimit(60)]
proof fn lemma_every_key_is_reported(archive: Nca<'_>, keys: [[u8; 0x10]; 4], count: int)
    requires
        0 <= count <= 4nat,
    ensures
        keys_text(archive, keys, count) == keys_text(archive, keys, 0) + Seq::new(
            count as nat,
            |i: int| "    ["@ + decimal(i) + "] "@ + hex_text(keys@[i]@) + "\n"@,
        ).flatten(),
    decreases count,
{
    let line = |i: int| "    ["@ + decimal(i) + "] "@ + hex_text(keys@[i]@) + "\n"@;
    let lines = Seq::new(count as nat, line);
    if count > 0 {
        lemma_every_key_is_reported(archive, keys, count - 1);
        let fewer = Seq::new((count - 1) as nat, line);
        assert(lines =~= fewer.push(line(count - 1)));
        fewer.lemma_flatten_push(line(count - 1));
        assert(keys_text(archive, keys, count) =~= keys_text(archive, keys, 0) + (fewer.flatten() + line(count - 1)));
    } else {
        assert(keys_text(archive, keys, 0) + lines.flatten() =~= keys_text(archive, keys, 0));
    }
}

/// An archive is reported as what it holds, its title ID, size and key generation, the rights it is
/// encrypted under, if any, and the four keys of its key area in order.
pub proof fn law_every_key_is_reported(archive: Nca<'_>, keys: [[u8; 0x10]; 4])
    ensures
        keys_text(archive, keys, 4nat as int) == "NCA:\n"@ + "  Content type:    "@ + content_label(archive.content_type)@ + "\n"@
            + "  Title ID:        "@ + hex_text(be_bytes(archive.title_id as nat, 8)) + "\n"@
            + "  Size:            "@ + decimal(archive.nca_size as int) + " bytes\n"@
            + "  Key generation:  "@ + decimal(archive.key_generation as int) + "\n"@
            + "  Rights ID:       "@ + (if forall|p: int|
            0 <= p < 16 ==> #[trigger] archive.rights_id@[p] == 0 {
            "(none, key area crypto)"@
        } else {
            hex_text(archive.rights_id@)
        }) + "\n"@ + "  Key area (unwrapped):\n"@ + Seq::new(
            4nat,
            |i: int| "    ["@ + decimal(i) + "] "@ + hex_text(keys@[i]@) + "\n"@,
        ).flatten(),
{
    lemma_every_key_is_reported(archive, keys, 4nat as int);
}

/// The report up to its first `count` items is its heading and then their lines.
#[verifier::spinoff_prover]
#[verifier::rlimit(60)]
proof fn lemma_every_section_is_reported(archive: Nca<'_>, keys: [[u8; 0x10]; 4], count: int)
    requires
        0 <= count <= archive.sections@.len(),
    ensures
        nca_text(archive, keys, count) == nca_text(archive, keys, 0) + Seq::new(
            count as nat,
            |i: int| "  Section "@ + decimal(archive.sections@[i].layout.index as int) + ":\n"@
                + "    Offset:        0x"@ + digits(
                archive.sections@[i].layout.start as nat,
                16,
            ) + " .. 0x"@ + digits(archive.sections@[i].layout.end as nat, 16) + "\n"@
                + "    Filesystem:    "@ + fs_label(archive.sections@[i].fs_type)@ + "\n"@
                + "    Encryption:    "@ + encryption_label(
                archive.sections@[i].layout.encryption,
            )@ + "\n"@ + "    Contents:      "@ + decimal(
                archive.sections@[i].data@.len() as int,
            ) + " bytes\n"@,
        ).flatten(),
    decreases count,
{
    let line = |i: int| "  Section "@ + decimal(archive.sections@[i].layout.index as int) + ":\n"@
                + "    Offset:        0x"@ + digits(
                archive.sections@[i].layout.start as nat,
                16,
            ) + " .. 0x"@ + digits(archive.sections@[i].layout.end as nat, 16) + "\n"@
                + "    Filesystem:    "@ + fs_label(archive.sections@[i].fs_type)@ + "\n"@
                + "    Encryption:    "@ + encryption_label(
                archive.sections@[i].layout.encryption,
            )@ + "\n"@ + "    Contents:      "@ + decimal(
                archive.sections@[i].data@.len() as int,
            ) + " bytes\n"@;
    let lines = Seq::new(count as nat, line);
    if count > 0 {
        lemma_every_section_is_reported(archive, keys, count - 1);
        let fewer = Seq::new((count - 1) as nat, line);
        assert(lines =~= fewer.push(line(count - 1)));
        fewer.lemma_flatten_push(line(count - 1));
        assert(nca_text(archive, keys, count) =~= nca_text(archive, keys, 0) + (fewer.flatten() + line(count - 1)));
    } else {
        assert(nca_text(archive, keys, 0) + lines.flatten() =~= nca_text(archive, keys, 0));
    }
}

/// After its keys, each section of an archive is reported in order: where it lies, which filesystem it
/// holds, how it is encrypted, and how many bytes of contents it has.
pub proof fn law_every_section_is_reported(archive: Nca<'_>, keys: [[u8; 0x10]; 4])
    ensures
        nca_text(archive, keys, archive.sections@.len() as int) == keys_text(archive, keys, 4) + Seq::new(
            archive.sections@.len(),
            |i: int| "  Section "@ + decimal(archive.sections@[i].layout.index as int) + ":\n"@
                + "    Offset:        0x"@ + digits(
                archive.sections@[i].layout.start as nat,
                16,
            ) + " .. 0x"@ + digits(archive.sections@[i].layout.end as nat, 16) + "\n"@
                + "    Filesystem:    "@ + fs_label(archive.sections@[i].fs_type)@ + "\n"@
                + "    Encryption:    "@ + encryption_label(
                archive.sections@[i].layout.encryption,
            )@ + "\n"@ + "    Contents:      "@ + decimal(
                archive.sections@[i].data@.len() as int,
            ) + " bytes\n"@,
        ).flatten(),
{
    lemma_every_section_is_reported(archive, keys, archive.sections@.len() as int);
}

/// A check is reported in one line: what was checked, filled up to thirty-two characters, and `OK`, or
/// `FAILED` with the reason. A header without a signature is neither.
pub proof fn law_a_check_is_reported_in_one_line(
    check: Seq<char>,
    reason: Seq<char>,
    bytes: Seq<u8>,
)
    ensures
        outcome_text(check, None) == "  "@ + padded(check, 32) + " OK\n"@,
        outcome_text(check, Some(reason)) == "  "@ + padded(check, 32) + " FAILED ("@ + reason
            + ")\n"@,
        signature_text(bytes) == "  "@ + padded("header signature"@, 32) + match signature_outcome(
            bytes,
        ) {
            Ok(SignatureCheck::Verified) => " OK\n"@,
            Ok(SignatureCheck::Absent) => " not signed\n"@,
            Err(error) => " FAILED ("@ + error.message() + ")\n"@,
        },
{
    match signature_outcome(bytes) {
        Ok(_) => {},
        Err(error) => {
            assert(signature_text(bytes) =~= "  "@ + padded("header signature"@, 32) + (
            " FAILED ("@ + error.message() + ")\n"@));
        },
    }
}

/// A record is checked against the first file of the package that is named by the digits of the
/// record's own ID: there has to be one, and it has to have the recorded size and then the recorded
/// hash. The first of these that does not hold is the reason given.
pub proof fn law_a_record_is_checked_against_the_file_it_names(
    files: Seq<PartitionFile<'_>>,
    record: CnmtRecord,
    first: int,
)
    requires
        0 <= first <= files.len(),
        forall|i: int|
            0 <= i < first ==> (#[trigger] files[i]).name@ != hex_text(record.nca_id@) + seq![
                '.',
                'n',
                'c',
                'a',
            ],
        first < files.len() ==> files[first].name@ == hex_text(record.nca_id@) + seq![
            '.',
            'n',
            'c',
            'a',
        ],
    ensures
        record_failure(files, record) == if first == files.len() {
            Some("'"@ + hex_text(record.nca_id@) + ".nca"@ + "' is not in the package"@)
        } else if files[first].data@.len() != record.size {
            Some(
                "recorded "@ + decimal(record.size as int) + " bytes, package holds "@ + decimal(
                    files[first].data@.len() as int,
                ),
            )
        } else if sha256(files[first].data@) != record.hash@ {
            Some("content hash does not match"@)
        } else {
            None
        },
{
    reveal_strlit(".nca");
    assert(".nca"@ =~= seq!['.', 'n', 'c', 'a']);
    let name = record_name(record);
    if first < files.len() {
        lemma_file_named(files, name, 0, first);
    } else {
        lemma_never_found(files, name, 0);
        assert("'"@ + name + "' is not in the package"@ =~= "'"@ + hex_text(record.nca_id@)
            + ".nca"@ + "' is not in the package"@);
    }
}

/// A name is the content meta's exactly when its last nine characters are `.cnmt.nca`.
pub proof fn law_a_meta_name_ends_like_one(name: Seq<char>)
    ensures
        is_meta_name(name) <==> name.len() >= 9 && name.subrange(
            name.len() - 9,
            name.len() as int,
        ) == seq!['.', 'c', 'n', 'm', 't', '.', 'n', 'c', 'a'],
{
    reveal_strlit(".cnmt.nca");
    assert(".cnmt.nca"@ =~= seq!['.', 'c', 'n', 'm', 't', '.', 'n', 'c', 'a']);
    if name.len() >= 9 {
        assert(name.skip(name.len() - 9) =~= name.subrange(name.len() - 9, name.len() as int));
    }
}

/// A package leads with `PFS0` and a KIP1 with `KIP1`, in ASCII.
pub proof fn law_containers_lead_with_these_bytes(image: Seq<u8>)
    ensures
        leads_with(image, pfs0_magic()) <==> image.len() >= 4 && image[0] as char == 'P'
            && image[1] as char == 'F' && image[2] as char == 'S' && image[3] as char == '0',
        leads_with(image, kip1_magic()) <==> image.len() >= 4 && image[0] as char == 'K'
            && image[1] as char == 'I' && image[2] as char == 'P' && image[3] as char == '1',
{
    if image.len() >= 4 {
        let lead = image.take(4);
        assert(lead[0] == image[0] && lead[1] == image[1] && lead[2] == image[2] && lead[3]
            == image[3]);
        assert(lead == pfs0_magic() <==> lead[0] == 0x50 && lead[1] == 0x46 && lead[2] == 0x53
            && lead[3] == 0x30) by {
            if lead[0] == 0x50 && lead[1] == 0x46 && lead[2] == 0x53 && lead[3] == 0x30 {
                assert(lead =~= pfs0_magic());
            }
        }
        assert(lead == kip1_magic() <==> lead[0] == 0x4B && lead[1] == 0x49 && lead[2] == 0x50
            && lead[3] == 0x31) by {
            if lead[0] == 0x4B && lead[1] == 0x49 && lead[2] == 0x50 && lead[3] == 0x31 {
                assert(lead =~= kip1_magic());
            }
        }
    }
}

/// Everything that is reported by name is reported under its own.
pub proof fn law_names_in_reports(index: usize)
    ensures
        segment_label(0)@ == "text"@,
        segment_label(1)@ == "rodata"@,
        segment_label(2)@ == "data"@,
        index > 2 ==> segment_label(index)@ == "bss"@,
        meta_type_label(Some(CnmtContentMetaType::Application))@ == "Application"@,
        meta_type_label(Some(CnmtContentMetaType::Patch))@ == "Patch"@,
        meta_type_label(Some(CnmtContentMetaType::AddOnContent))@ == "AddOnContent"@,
        meta_type_label(Some(CnmtContentMetaType::Delta))@ == "Delta"@,
        meta_type_label(None)@ == "(unrecognized)"@,
        record_label(Some(CnmtContentType::Meta))@ == "Meta"@,
        record_label(Some(CnmtContentType::Program))@ == "Program"@,
        record_label(Some(CnmtContentType::Data))@ == "Data"@,
        record_label(Some(CnmtContentType::Control))@ == "Control"@,
        record_label(Some(CnmtContentType::HtmlDocument))@ == "HtmlDocument"@,
        record_label(Some(CnmtContentType::LegalInformation))@ == "LegalInformation"@,
        record_label(Some(CnmtContentType::DeltaFragment))@ == "DeltaFragment"@,
        record_label(None)@ == "(unrecognized)"@,
        content_label(NcaContentType::Program)@ == "Program"@,
        content_label(NcaContentType::Meta)@ == "Meta"@,
        content_label(NcaContentType::Control)@ == "Control"@,
        content_label(NcaContentType::Manual)@ == "Manual"@,
        content_label(NcaContentType::Data)@ == "Data"@,
        content_label(NcaContentType::PublicData)@ == "PublicData"@,
        fs_label(NcaFsType::RomFs)@ == "RomFS"@,
        fs_label(NcaFsType::Pfs0)@ == "PFS0"@,
        encryption_label(NcaCryptType::Plaintext)@ == "none (plaintext)"@,
        encryption_label(NcaCryptType::Xts)@ == "AES-XTS"@,
        encryption_label(NcaCryptType::Ctr)@ == "AES-CTR"@,
        encryption_label(NcaCryptType::Bktr)@ == "AES-CTR (BKTR)"@,
{
}

/// A section is extracted whole if a directory is named for its own slot; as the executable partition
/// if one is named for that and the section is a partition in slot 0; and as a tree if one is named
/// for that and the section is a filesystem, in whatever slot. Each is done once, in that order.
pub proof fn law_a_section_is_extracted_as_asked(section: NcaSection<'_>, targets: Targets)
    ensures
        ({
            let raw = section.layout.index < 4 && targets.sections@[section.layout.index as int];
            let exefs = targets.exefs && section.layout.index == 0 && section.superblock is Pfs0;
            let romfs = targets.romfs && section.superblock is RomFs;
            let wanted = extractions_of(section, targets);
            &&& wanted.contains(Extraction::Raw) <==> raw
            &&& wanted.contains(Extraction::ExeFs) <==> exefs
            &&& wanted.contains(Extraction::RomFs) <==> romfs
            &&& forall|i: int, j: int|
                0 <= i < j < wanted.len() ==> ((#[trigger] wanted[i]) is Raw && !((
                #[trigger] wanted[j]) is Raw)) || (wanted[i] is ExeFs && wanted[j] is RomFs)
        }),
{
    let raw = section.layout.index < 4 && targets.sections@[section.layout.index as int];
    let exefs = targets.exefs && section.layout.index == 0 && section.superblock is Pfs0;
    let romfs = targets.romfs && section.superblock is RomFs;
    let wanted = extractions_of(section, targets);
    if raw {
        assert(wanted[0] is Raw);
    }
    if exefs {
        assert(wanted[if raw { 1int } else { 0 }] is ExeFs);
    }
    if romfs {
        assert(wanted[wanted.len() - 1] is RomFs);
    }
}

} // verus!
