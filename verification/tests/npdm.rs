use nxarchive::hacbrewpack::npdm::{process, NpdmLayout, Patch, ProcessError};
use nxarchive::hacbrewpack::title_id::{ParseTitleIdError, TitleId};
use nxarchive::signing::acid_public_key;

/// A layout with the ACI0 section before the ACID.
fn layout() -> NpdmLayout {
    NpdmLayout { acid_offset: 0x100, aci_offset: 0x80, program_id: 0x0100000000001000 }
}

/// A patch that asks for both changes.
fn both() -> Patch {
    Patch {
        title_id: Some(TitleId::try_from(0x0100000000ABCDEF).expect("a valid application ID")),
        sign_program_header: true,
    }
}

#[test]
fn process_reads_the_title_id_and_changes_nothing_when_nothing_is_asked_for() {
    let mut descriptor = vec![0x55u8; 0x300];
    let patch = Patch { title_id: None, sign_program_header: false };
    let title_id = process(&mut descriptor, Some(layout()), &patch).expect("the ID is in range");
    assert_eq!(title_id.to_u64(), 0x0100000000001000);
    assert_eq!(descriptor, vec![0x55u8; 0x300]);
    assert!(!patch.changes());
    assert!(both().changes());
}

#[test]
fn process_writes_the_title_id_and_the_advertised_key_and_nothing_else() {
    let mut descriptor = vec![0x55u8; 0x300];
    let title_id = process(&mut descriptor, Some(layout()), &both()).expect("both patches fit");
    assert_eq!(title_id.to_u64(), 0x0100000000ABCDEF);
    assert_eq!(descriptor[0x90..0x98], 0x0100000000ABCDEFu64.to_le_bytes());
    assert_eq!(&descriptor[0x200..0x300], acid_public_key());
    assert_eq!(descriptor[..0x90], [0x55u8; 0x90]);
    assert_eq!(descriptor[0x98..0x200], [0x55u8; 0x168]);
    let once = descriptor.clone();
    process(&mut descriptor, Some(layout()), &both()).expect("it is accepted again");
    assert_eq!(descriptor, once);
}

#[test]
fn process_refuses_a_descriptor_that_cannot_be_used() {
    let mut descriptor = vec![0x55u8; 0x300];
    assert_eq!(process(&mut descriptor, None, &both()), Err(ProcessError::Malformed));
    let system = NpdmLayout { program_id: 0x42, ..layout() };
    assert_eq!(
        process(&mut descriptor, Some(system), &Patch { title_id: None, ..both() }),
        Err(ProcessError::TitleId(ParseTitleIdError::OutOfRange { value: 0x42 }))
    );
    assert_eq!(descriptor, vec![0x55u8; 0x300]);
    assert!(
        process(&mut descriptor, Some(system), &both()).is_ok(),
        "an override stands in for an ID that may not be used"
    );
}

#[test]
fn process_refuses_a_patch_past_the_end_of_the_descriptor() {
    let mut short = vec![0x55u8; 0x97];
    assert_eq!(
        process(&mut short, Some(layout()), &both()),
        Err(ProcessError::PatchOutOfBounds { offset: 0x90 })
    );
    let mut shorter_than_the_key = vec![0x55u8; 0x2FF];
    assert_eq!(
        process(&mut shorter_than_the_key, Some(layout()), &both()),
        Err(ProcessError::PatchOutOfBounds { offset: 0x200 })
    );
    let far = NpdmLayout { acid_offset: u32::MAX, ..layout() };
    assert_eq!(
        process(&mut vec![0u8; 0x300], Some(far), &both()),
        Err(ProcessError::PatchOutOfBounds { offset: 0x1_0000_00FF })
    );
}
