use nxarchive::hacbrewpack::nacp::{
    process, Patch, ProcessError, ADD_ON_CONTENT_BASE_ID, LOCAL_COMMUNICATION_ID, LOGO_HANDLING,
    MAX_NAME_LEN, MAX_PUBLISHER_LEN, NACP_SIZE, PRESENCE_GROUP_ID, SAVE_DATA_OWNER_ID,
};
use nxarchive::hacbrewpack::title_id::TitleId;

/// A control property naming a title and publisher in the first language slot.
fn named_control() -> Vec<u8> {
    let mut nacp = vec![0u8; NACP_SIZE];
    nacp[..5].copy_from_slice(b"Title");
    nacp[0x200..0x209].copy_from_slice(b"Publisher");
    nacp
}

/// A patch that changes nothing.
fn no_patch() -> Patch {
    Patch { name: None, publisher: None, title_id: None, logo_handling_auto: false }
}

/// The eight-byte ID at `offset`.
fn id_at(control: &[u8], offset: usize) -> u64 {
    let mut bytes = [0u8; 8];
    bytes.copy_from_slice(&control[offset..offset + 8]);
    u64::from_le_bytes(bytes)
}

#[test]
fn process_accepts_a_control_naming_a_title_and_publisher() {
    let mut control = named_control();
    let result = process(&mut control, &no_patch());
    assert!(result.is_ok());
    assert_eq!(result, Ok(false));
    assert_eq!(control, named_control(), "a patch that asks for nothing changes nothing");
}

#[test]
fn process_refuses_a_control_naming_no_title() {
    // The console would show this title blank on the home screen.
    let mut control = vec![0u8; NACP_SIZE];
    control[0x200..0x209].copy_from_slice(b"Publisher");
    let result = process(&mut control, &no_patch());
    assert!(matches!(result, Err(ProcessError::MissingName)));
}

#[test]
fn process_replaces_the_name_in_every_interface_language() {
    let mut control = named_control();
    control[0x300 * 12..][..3].copy_from_slice(b"Old");
    let patch = Patch { name: Some("Renamed".to_owned()), ..no_patch() };
    process(&mut control, &patch).expect("the override should apply");
    assert_eq!(&control[..7], b"Renamed");
    assert_eq!(
        &control[0x300 * 11..][..7],
        b"Renamed",
        "a rename means renamed, not renamed in one language"
    );
    assert_eq!(control[0x300 * 11 + 7..][..0x1F9], [0u8; 0x1F9], "the name is terminated");
    assert_eq!(&control[0x300 * 12..][..3], b"Old", "the reserved languages are left alone");
    assert_eq!(&control[0x200..0x209], b"Publisher");
}

#[test]
fn process_refuses_an_override_longer_than_its_field() {
    let mut control = named_control();
    let patch = Patch { name: Some("x".repeat(MAX_NAME_LEN + 1)), ..no_patch() };
    let result = process(&mut control, &patch);
    assert!(matches!(result, Err(ProcessError::OverrideTooLong { .. })));
    assert_eq!(control, named_control(), "a refused patch changes nothing");
}

#[test]
fn process_stamps_a_title_id_override_into_every_id_field() {
    let mut control = named_control();
    let title_id: TitleId = "0100000000001000".parse().expect("a valid application ID");
    let patch = Patch { title_id: Some(title_id), ..no_patch() };
    process(&mut control, &patch).expect("the override should apply");
    assert_eq!(id_at(&control, PRESENCE_GROUP_ID), title_id.to_u64());
    assert_eq!(id_at(&control, SAVE_DATA_OWNER_ID), title_id.to_u64());
    assert_eq!(
        id_at(&control, ADD_ON_CONTENT_BASE_ID),
        title_id.add_on_content_base(),
        "downloadable content is published above the title itself"
    );
    assert!((0..8).all(|index| {
        id_at(&control, LOCAL_COMMUNICATION_ID + 8 * index) == title_id.to_u64()
    }));
}

#[test]
fn process_refuses_a_control_of_another_size() {
    let mut control = vec![1u8; NACP_SIZE - 1];
    assert_eq!(
        process(&mut control, &no_patch()),
        Err(ProcessError::WrongSize { length: 0x3FFF, expected: 0x4000 })
    );
}

#[test]
fn process_finds_a_name_in_any_of_the_sixteen_languages() {
    let mut control = vec![0u8; NACP_SIZE];
    control[0x300 * 15] = b'T';
    assert_eq!(process(&mut control, &no_patch()), Err(ProcessError::MissingPublisher));
    control[0x300 * 14 + 0x200] = b'P';
    assert_eq!(process(&mut control, &no_patch()), Ok(false));
}

#[test]
fn process_counts_an_override_in_bytes() {
    let mut control = named_control();
    let widest = Patch { publisher: Some("x".repeat(MAX_PUBLISHER_LEN)), ..no_patch() };
    process(&mut control, &widest).expect("the widest publisher fits");
    assert_eq!(control[0x200 + MAX_PUBLISHER_LEN], 0);
    let accented = Patch { publisher: Some("é".repeat(0x80)), ..no_patch() };
    assert_eq!(
        process(&mut control, &accented),
        Err(ProcessError::OverrideTooLong {
            field: "title publisher",
            length: 0x100,
            max_len: MAX_PUBLISHER_LEN,
        })
    );
    let long = Patch { name: Some("x".repeat(0x200)), ..no_patch() };
    assert_eq!(
        process(&mut control, &long),
        Err(ProcessError::OverrideTooLong { field: "title name", length: 0x200, max_len: 0x1FF })
    );
}

#[test]
fn process_lets_the_console_decide_about_the_logo() {
    let mut control = named_control();
    control[LOGO_HANDLING] = 2;
    process(&mut control, &no_patch()).expect("nothing is refused");
    assert_eq!(control[LOGO_HANDLING], 2);
    process(&mut control, &Patch { logo_handling_auto: true, ..no_patch() })
        .expect("nothing is refused");
    assert_eq!(control[LOGO_HANDLING], 0);
}

#[test]
fn process_applied_again_changes_nothing() {
    let title_id: TitleId = "0100000000001000".parse().expect("a valid application ID");
    let patch = Patch {
        name: Some("Renamed".to_owned()),
        publisher: Some("Someone".to_owned()),
        title_id: Some(title_id),
        logo_handling_auto: true,
    };
    let mut once = vec![0u8; NACP_SIZE];
    assert_eq!(process(&mut once, &patch), Ok(true));
    let mut twice = once.clone();
    assert_eq!(process(&mut twice, &patch), Ok(false));
    assert_eq!(once, twice);
}

#[test]
fn a_patch_knows_whether_it_changes_anything() {
    assert!(!no_patch().changes());
    assert!(Patch { name: Some(String::new()), ..no_patch() }.changes());
    assert!(Patch { publisher: Some(String::new()), ..no_patch() }.changes());
    assert!(Patch { logo_handling_auto: true, ..no_patch() }.changes());
    let title_id = TitleId::try_from(TitleId::MIN).expect("a valid application ID");
    assert!(Patch { title_id: Some(title_id), ..no_patch() }.changes());
}
