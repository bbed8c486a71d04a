use nxarchive::container::{CnmtContentType, KeyGeneration, NcaContentType};
use nxarchive::hacbrewpack::archive::Archive;
use nxarchive::hacbrewpack::settings::{KeyAreaKey, SdkVersion};
use nxarchive::hacbrewpack::title_id::TitleId;
use nxarchive::hacbrewpack::{
    backup_name, build_control, build_manual, build_meta, build_program, content_records,
    package_name, package_names, select_keys, title_contents, title_id_warning, KeysError,
    Options, Section, SectionData, SectionEncryption,
};
use nxarchive::keyset::Keyset;

/// The options of a build that names nothing.
fn options() -> Options {
    Options {
        noromfs: false,
        nologo: false,
        plaintext: false,
        nosignncasig2: false,
        nopatchnacplogo: false,
        keygeneration: KeyGeneration::first(),
        keyareakey: KeyAreaKey::default(),
        sdkversion: SdkVersion::default(),
        titleid: None,
        titlename: None,
        titlepublisher: None,
    }
}

/// The title packed in these tests.
fn title_id() -> TitleId {
    TitleId::try_from(0x0100000000001000).expect("a valid application ID")
}

/// A finished archive whose hash is all `byte`.
fn archive(byte: u8) -> Archive {
    Archive { bytes: vec![byte; byte as usize], hash: [byte; 0x20] }
}

#[test]
fn select_keys_takes_the_two_keys_of_the_generation() {
    let text = format!(
        "header_key = {}\nkey_area_key_application_00 = {}\n",
        "11".repeat(0x20),
        "22".repeat(0x10)
    );
    let keyset: Keyset = text.parse().expect("the test keyset should parse");
    let keys = select_keys(&keyset, KeyGeneration::first()).expect("both keys are there");
    assert_eq!(keys.header_key, &[0x11; 0x20]);
    assert_eq!(keys.key_area_key, &[0x22; 0x10]);
    let later = KeyGeneration::try_from(7).expect("7 is a valid generation");
    assert_eq!(
        select_keys(&keyset, later).err(),
        Some(KeysError::MissingKeyAreaKey { generation: 7 })
    );
    let empty: Keyset = "".parse().expect("an empty keyset should parse");
    assert_eq!(
        select_keys(&empty, KeyGeneration::first()).err(),
        Some(KeysError::MissingHeaderKey)
    );
}

#[test]
fn a_program_holds_the_executable_the_filesystem_and_the_logo() {
    let plan = build_program(&options(), title_id());
    assert_eq!(plan.content_type, NcaContentType::Program);
    assert_eq!(plan.title_id, 0x0100000000001000);
    assert_eq!(plan.sdk_version, 0x000C1100);
    assert_eq!(plan.key_generation, 1);
    assert_eq!(plan.key_index, 2);
    assert_eq!(plan.key, [4; 0x10]);
    assert!(plan.sign_header);
    assert_eq!(
        plan.sections,
        [
            Section {
                index: 0,
                data: SectionData::ExeFs { hash_block_size: 0x10000 },
                encryption: SectionEncryption::Ctr,
            },
            Section { index: 1, data: SectionData::RomFs, encryption: SectionEncryption::Ctr },
            Section {
                index: 2,
                data: SectionData::Logo { hash_block_size: 0x1000 },
                encryption: SectionEncryption::Plaintext,
            },
        ]
    );

    let bare = Options { noromfs: true, nologo: true, plaintext: true, nosignncasig2: true, ..options() };
    let plan = build_program(&bare, title_id());
    assert!(!plan.sign_header);
    assert_eq!(
        plan.sections,
        [Section {
            index: 0,
            data: SectionData::ExeFs { hash_block_size: 0x10000 },
            encryption: SectionEncryption::Plaintext,
        }]
    );
    let logo_alone = Options { noromfs: true, ..options() };
    let indices: Vec<usize> =
        build_program(&logo_alone, title_id()).sections.iter().map(|section| section.index).collect();
    assert_eq!(indices, [0, 2], "the logo keeps its own slot");
}

#[test]
fn the_other_archives_hold_one_section_and_are_not_signed() {
    let filesystem =
        Section { index: 0, data: SectionData::RomFs, encryption: SectionEncryption::Ctr };
    let control = build_control(&options(), title_id());
    assert_eq!(control.content_type, NcaContentType::Control);
    assert_eq!(control.sections, [filesystem]);
    let manual = build_manual(&options(), title_id());
    assert_eq!(manual.content_type, NcaContentType::Manual);
    assert_eq!(manual.sections, [filesystem]);
    let meta = build_meta(&options(), title_id());
    assert_eq!(meta.content_type, NcaContentType::Meta);
    assert_eq!(
        meta.sections,
        [Section {
            index: 0,
            data: SectionData::ContentMeta { hash_block_size: 0x1000 },
            encryption: SectionEncryption::Ctr,
        }]
    );
    assert!(!control.sign_header && !manual.sign_header && !meta.sign_header);
}

#[test]
fn the_patches_follow_the_options() {
    let patch = options().descriptor_patch();
    assert!(patch.title_id.is_none() && patch.sign_program_header);
    let patch = options().control_patch();
    assert!(patch.name.is_none() && patch.publisher.is_none() && patch.title_id.is_none());
    assert!(patch.logo_handling_auto);
    let named = Options {
        nosignncasig2: true,
        nopatchnacplogo: true,
        titleid: Some(title_id()),
        titlename: Some("Name".to_owned()),
        titlepublisher: Some("Publisher".to_owned()),
        ..options()
    };
    assert!(!named.descriptor_patch().sign_program_header);
    let patch = named.control_patch();
    assert_eq!(patch.name.as_deref(), Some("Name"));
    assert_eq!(patch.publisher.as_deref(), Some("Publisher"));
    assert_eq!(patch.title_id, Some(title_id()));
    assert!(!patch.logo_handling_auto);
}

#[test]
fn the_contents_are_recorded_in_order_and_the_meta_comes_last() {
    let contents = title_contents(archive(1), archive(2), None, Some(archive(4)));
    let records = content_records(&contents);
    let recorded: Vec<(CnmtContentType, u64, u8)> = records
        .iter()
        .map(|record| (record.content_type, record.size, record.hash[0]))
        .collect();
    assert_eq!(
        recorded,
        [
            (CnmtContentType::Program, 1, 1),
            (CnmtContentType::Control, 2, 2),
            (CnmtContentType::LegalInformation, 4, 4),
        ]
    );
    assert_eq!(
        package_names(&contents, &archive(5)),
        [
            "01010101010101010101010101010101.nca",
            "02020202020202020202020202020202.nca",
            "04040404040404040404040404040404.nca",
            "05050505050505050505050505050505.cnmt.nca",
        ]
    );
    let contents = title_contents(archive(1), archive(2), Some(archive(3)), Some(archive(4)));
    assert_eq!(contents[2].content_type, CnmtContentType::HtmlDocument);
    assert_eq!(contents.len(), 4);
}

#[test]
fn files_are_named_for_the_title_and_the_time() {
    assert_eq!(package_name(title_id()), "0100000000001000.nsp");
    assert_eq!(backup_name(1700000000, "main.npdm"), "1700000000_main.npdm");
    assert_eq!(backup_name(-1, "control.nacp"), "-1_control.nacp");
    assert_eq!(backup_name(i64::MIN, "x"), "-9223372036854775808_x");
}

#[test]
fn a_title_id_above_the_conventional_range_calls_for_a_warning() {
    assert_eq!(title_id_warning(title_id()), None);
    let high = TitleId::try_from(0x0200000000000000).expect("it is still in range");
    assert_eq!(
        title_id_warning(high).as_deref(),
        Some("title ID 0200000000000000 sits above the range homebrew conventionally uses")
    );
}
