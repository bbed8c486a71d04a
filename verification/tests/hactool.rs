use nxarchive::container::{
    Cnmt, CnmtContentMetaType, CnmtContentType, CnmtRecord, KipImage, KipSegment, Nca,
    NcaContentType, NcaCryptType, NcaFsType, NcaSection, PartitionFile, Pfs0Superblock,
    SectionLayout, Superblock,
};
use nxarchive::hactool::{
    content_type_label, content_type_name, detect, encryption_name, find_meta, fs_type_name,
    meta_type_name, outcome, render_cnmt, render_kip, render_nca, render_nsp,
    render_package_verification, render_package_without_meta, render_verification,
    section_extractions, segment_file_name, segment_name, Extraction, InputType, Targets,
};
use nxarchive::text::hex;
use nxarchive::unpack::nca::PlainNca;
use sha2::{Digest, Sha256};

#[test]
fn detect_with_a_pfs0_magic_returns_nsp() {
    let image = b"PFS0\x02\x00\x00\x00".to_vec();
    let kind = detect(&image);
    assert_eq!(kind, InputType::Nsp);
}

#[test]
fn detect_with_a_kip1_magic_returns_kip() {
    let image = b"KIP1\x00\x00\x00\x00".to_vec();
    let kind = detect(&image);
    assert_eq!(kind, InputType::Kip);
}

#[test]
fn segment_name_names_the_four_loaded_segments() {
    let indices = 0..4;
    let names: Vec<&str> = indices.map(segment_name).collect();
    assert_eq!(names, ["text", "rodata", "data", "bss"]);
    assert_eq!(segment_file_name(1), "rodata.bin");
}

#[test]
fn meta_type_name_with_an_unmodelled_type_says_so() {
    // The reader reports a meta type it does not model as absent, and the label has to make that
    // legible rather than pick a plausible-looking name.
    let meta_type = None;
    let name = meta_type_name(meta_type);
    assert_eq!(name, "(unrecognized)");
}

#[test]
fn content_type_label_with_a_known_type_names_it() {
    let content_type = Some(CnmtContentType::Program);
    let label = content_type_label(content_type);
    assert_eq!(label, "Program");
}

#[test]
fn detect_with_an_encrypted_header_returns_nca() {
    // An NCA leads with ciphertext, so anything that is not a PFS0 is treated as one.
    let image = vec![0x9Au8; 0x40];
    let kind = detect(&image);
    assert_eq!(kind, InputType::Nca);
}

#[test]
fn detect_with_a_buffer_shorter_than_a_magic_returns_nca() {
    let image = vec![0x50u8, 0x46];
    let kind = detect(&image);
    assert_eq!(kind, InputType::Nca);
}

#[test]
fn every_kind_is_reported_under_a_name_of_its_own() {
    assert_eq!(meta_type_name(Some(CnmtContentMetaType::Application)), "Application");
    assert_eq!(meta_type_name(Some(CnmtContentMetaType::Patch)), "Patch");
    assert_eq!(meta_type_name(Some(CnmtContentMetaType::AddOnContent)), "AddOnContent");
    assert_eq!(meta_type_name(Some(CnmtContentMetaType::Delta)), "Delta");
    assert_eq!(content_type_label(Some(CnmtContentType::Meta)), "Meta");
    assert_eq!(content_type_label(Some(CnmtContentType::Data)), "Data");
    assert_eq!(content_type_label(Some(CnmtContentType::Control)), "Control");
    assert_eq!(content_type_label(Some(CnmtContentType::HtmlDocument)), "HtmlDocument");
    assert_eq!(content_type_label(Some(CnmtContentType::LegalInformation)), "LegalInformation");
    assert_eq!(content_type_label(Some(CnmtContentType::DeltaFragment)), "DeltaFragment");
    assert_eq!(content_type_label(None), "(unrecognized)");
    assert_eq!(content_type_name(NcaContentType::Program), "Program");
    assert_eq!(content_type_name(NcaContentType::Meta), "Meta");
    assert_eq!(content_type_name(NcaContentType::Control), "Control");
    assert_eq!(content_type_name(NcaContentType::Manual), "Manual");
    assert_eq!(content_type_name(NcaContentType::Data), "Data");
    assert_eq!(content_type_name(NcaContentType::PublicData), "PublicData");
    assert_eq!(fs_type_name(NcaFsType::RomFs), "RomFS");
    assert_eq!(fs_type_name(NcaFsType::Pfs0), "PFS0");
    assert_eq!(encryption_name(NcaCryptType::Plaintext), "none (plaintext)");
    assert_eq!(encryption_name(NcaCryptType::Xts), "AES-XTS");
    assert_eq!(encryption_name(NcaCryptType::Ctr), "AES-CTR");
    assert_eq!(encryption_name(NcaCryptType::Bktr), "AES-CTR (BKTR)");
}

#[test]
fn hex_renders_two_lowercase_digits_a_byte() {
    assert_eq!(hex(&[0x00, 0x0F, 0xA5, 0xFF]), "000fa5ff");
    assert_eq!(hex(&[]), "");
}

#[test]
fn outcome_lines_up_the_check_and_gives_the_reason() {
    assert_eq!(outcome("header signature", Ok(())), format!("  {:<32} OK\n", "header signature"));
    assert_eq!(
        outcome("a check with a name longer than the column", Err("no".to_owned())),
        "  a check with a name longer than the column FAILED (no)\n"
    );
}

#[test]
fn render_kip_reports_the_header_and_every_segment() {
    let kip = KipImage {
        name: "loader",
        title_id: 0x0100000000000001,
        flags: 0x3f,
        segments: vec![
            KipSegment { index: 0, address: 0, stored: 12, compressed: true, expanded: 4096 },
            KipSegment { index: 3, address: 0x1f000, stored: 0, compressed: false, expanded: 64 },
        ],
    };
    assert_eq!(
        render_kip(&kip),
        "KIP1:\n  Name:            loader\n  Title ID:        0100000000000001\n  \
         Flags:           0x3f\n  Segment 0 (text):\n    Address:       0x0\n    \
         Stored:        12 bytes (BLZ)\n    Expanded:      4096 bytes\n  Segment 3 (bss):\n    \
         Address:       0x1f000\n    Stored:        0 bytes\n    Expanded:      64 bytes\n"
    );
}

/// The record of an archive holding `data`.
fn record(data: &[u8], content_type: Option<CnmtContentType>) -> CnmtRecord {
    let hash: [u8; 0x20] = Sha256::digest(data).into();
    let mut nca_id = [0u8; 0x10];
    nca_id.copy_from_slice(&hash[..0x10]);
    CnmtRecord { nca_id, hash, size: data.len() as u64, content_type }
}

/// A content meta naming `records`.
fn cnmt(records: Vec<CnmtRecord>) -> Cnmt {
    Cnmt {
        title_id: 0x0100000000001000,
        title_version: 65536,
        meta_type: Some(CnmtContentMetaType::Application),
        records,
    }
}

#[test]
fn render_cnmt_reports_the_records_of_a_meta_archive_alone() {
    let record = record(b"program", Some(CnmtContentType::Program));
    let meta = cnmt(vec![record]);
    assert_eq!(
        render_cnmt(NcaContentType::Meta, Some(&meta)),
        Some(format!(
            "Content meta:\n  Title ID:        0100000000001000\n  Title version:   65536\n  \
             Meta type:       Application\n    {:<18} {} (7 bytes)\n",
            "Program",
            hex(&record.nca_id),
        ))
    );
    assert_eq!(render_cnmt(NcaContentType::Program, Some(&meta)), None);
    assert_eq!(render_cnmt(NcaContentType::Meta, None), None);
}

#[test]
fn render_nsp_lists_every_file() {
    let files = vec![
        PartitionFile { name: "a.nca", data: b"12345" },
        PartitionFile { name: "b.cnmt.nca", data: b"" },
    ];
    assert_eq!(
        render_nsp(&files),
        format!(
            "NSP:\n  Files: 2\n    {:<48} 5 bytes\n    {:<48} 0 bytes\n",
            "a.nca", "b.cnmt.nca"
        )
    );
}

#[test]
fn find_meta_takes_the_first_archive_named_as_one() {
    let named = |name: &'static str| PartitionFile { name, data: b"" };
    let files = vec![named("a.nca"), named("b.cnmt.nca"), named("c.cnmt.nca")];
    assert_eq!(find_meta(&files), Some(1));
    assert_eq!(find_meta(&vec![named("a.nca"), named("cnmt.nca")]), None);
    assert_eq!(
        render_package_without_meta(),
        format!("Package:\n  {:<32} no .cnmt.nca in the package\n", "content meta")
    );
}

#[test]
fn render_package_verification_reports_each_record() {
    let program = record(b"program", Some(CnmtContentType::Program));
    let control = record(b"control", Some(CnmtContentType::Control));
    let manual = record(b"manual", Some(CnmtContentType::HtmlDocument));
    let legal = record(b"legal", None);
    let names: Vec<String> = [&program, &control, &manual, &legal]
        .iter()
        .map(|record| format!("{}.nca", hex(&record.nca_id)))
        .collect();
    let files = vec![
        PartitionFile { name: &names[0], data: b"program" },
        PartitionFile { name: &names[1], data: b"contro!" },
        PartitionFile { name: &names[2], data: b"manual and more" },
    ];
    let report =
        render_package_verification(&files, &cnmt(vec![program, control, manual, legal]));
    let expected = [
        "Package:\n".to_owned(),
        format!("  {:<32} 4 records\n", "content meta"),
        format!("  {:<32} OK\n", format!("Program {}", &names[0][..16])),
        format!(
            "  {:<32} FAILED (content hash does not match)\n",
            format!("Control {}", &names[1][..16])
        ),
        format!(
            "  {:<32} FAILED (recorded 6 bytes, package holds 15)\n",
            format!("HtmlDocument {}", &names[2][..16])
        ),
        format!(
            "  {:<32} FAILED ('{}' is not in the package)\n",
            format!("(unrecognized) {}", &names[3][..16]),
            names[3]
        ),
    ]
    .concat();
    assert_eq!(report, expected);
}

/// A section at `index` of 16 bytes whose superblock is `superblock`.
fn section(index: usize, superblock: Superblock) -> NcaSection<'static> {
    NcaSection {
        layout: SectionLayout {
            index,
            start: 0xC00,
            end: 0xE00,
            encryption: NcaCryptType::Ctr,
            counter: None,
        },
        fs_type: NcaFsType::Pfs0,
        superblock,
        bytes: &[7; 0x10],
        data: &[7; 5],
    }
}

/// A superblock of one sixteen-byte block, whose table comes first.
fn pfs0() -> Superblock {
    Superblock::Pfs0(Pfs0Superblock {
        master_hash: [0; 0x20],
        block_size: 0x10,
        hash_table_offset: 0,
        hash_table_size: 0,
        pfs0_offset: 0,
        pfs0_size: 0,
    })
}

/// An archive holding `sections`.
fn archive(sections: Vec<NcaSection<'static>>) -> Nca<'static> {
    let hash: [u8; 0x20] = Sha256::digest([0u8; 0x200]).into();
    Nca {
        content_type: NcaContentType::Program,
        title_id: 0x0100000000001000,
        nca_size: 0xE00,
        key_generation: 3,
        rights_id: [0; 0x10],
        fs_headers: [[0; 0x200]; 4],
        section_hashes: [hash; 4],
        sections,
    }
}

#[test]
fn render_nca_reports_the_header_the_keys_and_every_section() {
    let plain = PlainNca { bytes: Vec::new(), key_area: [[1; 0x10], [2; 0x10], [3; 0x10], [4; 0x10]] };
    let mut nca = archive(vec![section(1, pfs0())]);
    let expected = "NCA:\n  Content type:    Program\n  Title ID:        0100000000001000\n  \
                    Size:            3584 bytes\n  Key generation:  3\n  \
                    Rights ID:       (none, key area crypto)\n  Key area (unwrapped):\n    \
                    [0] 01010101010101010101010101010101\n    \
                    [1] 02020202020202020202020202020202\n    \
                    [2] 03030303030303030303030303030303\n    \
                    [3] 04040404040404040404040404040404\n  \
                    Section 1:\n    Offset:        0xc00 .. 0xe00\n    Filesystem:    PFS0\n    \
                    Encryption:    AES-CTR\n    Contents:      5 bytes\n";
    assert_eq!(render_nca(&nca, &plain), expected);
    nca.rights_id[15] = 0xAB;
    assert!(render_nca(&nca, &plain)
        .contains("  Rights ID:       000000000000000000000000000000ab\n"));
}

#[test]
fn render_verification_reports_every_check() {
    let mut nca = archive(vec![section(0, Superblock::Unreadable), section(2, pfs0())]);
    nca.section_hashes[2][0] ^= 1;
    let plain = PlainNca { bytes: vec![0; 0xC00], key_area: [[0; 0x10]; 4] };
    let expected = [
        "Verification:\n".to_owned(),
        format!("  {:<32} not signed\n", "header signature"),
        format!("  {:<32} OK\n", "section 0 FS header hash"),
        format!(
            "  {:<32} FAILED (the section's superblock could not be read)\n",
            "section 0 contents"
        ),
        format!(
            "  {:<32} FAILED (the FS header for section 2 does not match its recorded hash)\n",
            "section 2 FS header hash"
        ),
        format!(
            "  {:<32} FAILED (the master hash over level 0 does not match)\n",
            "section 2 contents"
        ),
    ]
    .concat();
    assert_eq!(render_verification(&nca, &plain), expected);

    let short = PlainNca { bytes: vec![0; 0x10], key_area: [[0; 0x10]; 4] };
    assert!(render_verification(&nca, &short).contains(
        "header signature                 FAILED (a signed header needs 1024 bytes; the image has 16)"
    ));
}

#[test]
fn section_extractions_follow_the_directories_the_caller_named() {
    let none = Targets { sections: [false; 4], exefs: false, romfs: false };
    let all = Targets { sections: [true; 4], exefs: true, romfs: true };
    let second = Targets { sections: [false, true, false, false], ..none };
    let tree = || {
        Superblock::RomFs(nxarchive::container::IvfcHeader {
            level_count: 0,
            level_headers: Vec::new(),
            master_hash: [0; 0x20],
        })
    };
    assert!(section_extractions(&section(0, pfs0()), &none).is_empty());
    assert_eq!(
        section_extractions(&section(0, pfs0()), &all),
        [Extraction::Raw, Extraction::ExeFs]
    );
    assert_eq!(
        section_extractions(&section(2, pfs0()), &all),
        [Extraction::Raw],
        "the logo is no executable partition"
    );
    assert_eq!(
        section_extractions(&section(1, tree()), &all),
        [Extraction::Raw, Extraction::RomFs]
    );
    assert_eq!(section_extractions(&section(1, tree()), &second), [Extraction::Raw]);
    assert!(section_extractions(&section(0, pfs0()), &second).is_empty());
    assert!(!all.section_dir(4));
}
