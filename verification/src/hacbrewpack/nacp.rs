//! Validating `control.nacp` and applying the overrides an archive is built with.
//!
//! The NACP is what the home screen reads, so a title with no name or no publisher in it is a title
//! the console shows blank. Both are checked here rather than left to be noticed on hardware: a name
//! is present if any language entry carries one, since the console falls back across languages.
//!
//! Overrides are written to every language entry rather than to one, because a caller who renames a
//! title means it renamed, not renamed in English.

use super::title_id::TitleId;
use crate::bytes::{le_bytes, le_u64, lemma_le_bytes_len, same_bytes, store};
use vstd::prelude::*;
use vstd::utf8::encode_utf8;

verus! {

/// Bytes in a control property.
pub const NACP_SIZE: usize = 0x4000;

/// Bytes in one language entry, which holds a name and then a publisher.
pub const LANGUAGE_SIZE: usize = 0x300;

/// Language entries in a control property.
pub const LANGUAGES: usize = 16;

/// Language entries the overrides are written to.
///
/// The structure holds sixteen, of which the first twelve are the languages the console ships user
/// interfaces for; the rest are reserved and left as the caller supplied them.
pub const OVERRIDDEN_LANGUAGES: usize = 12;

/// Longest title name a language entry can hold, leaving room for the terminator.
pub const MAX_NAME_LEN: usize = 0x1FF;

/// Longest publisher a language entry can hold, leaving room for the terminator.
pub const MAX_PUBLISHER_LEN: usize = 0xFF;

/// Logo handling that lets the console decide when to show the title's logo.
pub const LOGO_HANDLING_AUTO: u8 = 0;

/// Where the presence group ID stands.
pub const PRESENCE_GROUP_ID: usize = 0x3038;

/// Where the base ID of downloadable content stands.
pub const ADD_ON_CONTENT_BASE_ID: usize = 0x3070;

/// Where the ID that owns the save data stands.
pub const SAVE_DATA_OWNER_ID: usize = 0x3078;

/// Where the eight local communication IDs stand.
pub const LOCAL_COMMUNICATION_ID: usize = 0x30B0;

/// Where the logo handling stands.
pub const LOGO_HANDLING: usize = 0x30F1;

/// What the caller wants changed in the control property.
#[derive(Debug)]
pub struct Patch {
    /// Title name for every language, or `None` to keep what the file carries.
    pub name: Option<String>,
    /// Publisher for every language, or `None` to keep what the file carries.
    pub publisher: Option<String>,
    /// Title ID to stamp into the ID fields, or `None` to leave them alone.
    pub title_id: Option<TitleId>,
    /// Whether to let the console decide when to show the logo.
    pub logo_handling_auto: bool,
}

impl Patch {
    /// Whether the patch asks for any change, and so for the file to be backed up and rewritten.
    pub open spec fn asks_for_a_change(&self) -> bool {
        self.name is Some || self.publisher is Some || self.title_id is Some
            || self.logo_handling_auto
    }

    /// Whether the patch asks for any change, and so for the file to be backed up and rewritten.
    pub fn changes(&self) -> (changes: bool)
        ensures
            changes == self.asks_for_a_change(),
    {
        self.name.is_some() || self.publisher.is_some() || self.title_id.is_some()
            || self.logo_handling_auto
    }
}

/// Which of the two per-language strings an operation applies to.
#[derive(Debug, Clone, Copy, PartialEq, Eq, Structural)]
pub enum Field {
    /// The title's name.
    Name,
    /// The title's publisher.
    Publisher,
}

impl Field {
    /// Where the field starts in a language entry.
    pub open spec fn offset(self) -> int {
        match self {
            Field::Name => 0,
            Field::Publisher => 0x200,
        }
    }

    /// Bytes the field occupies.
    pub open spec fn size(self) -> int {
        match self {
            Field::Name => 0x200,
            Field::Publisher => 0x100,
        }
    }

    /// Bytes the field can hold before its terminator.
    pub open spec fn max_len(self) -> usize {
        match self {
            Field::Name => MAX_NAME_LEN,
            Field::Publisher => MAX_PUBLISHER_LEN,
        }
    }

    /// What the field is called in an error.
    pub open spec fn label(self) -> &'static str {
        match self {
            Field::Name => "title name",
            Field::Publisher => "title publisher",
        }
    }

    /// Whether byte `p` belongs to the field in one of the languages overrides are written to.
    pub open spec fn overridden_at(self, p: int) -> bool {
        &&& 0 <= p < OVERRIDDEN_LANGUAGES * LANGUAGE_SIZE
        &&& self.offset() <= p % 0x300 < self.offset() + self.size()
    }
}

/// Whether any language entry carries a non-empty `field`.
pub open spec fn has_any(control: Seq<u8>, field: Field) -> bool {
    exists|language: int|
        0 <= language < LANGUAGES && #[trigger] control[language * LANGUAGE_SIZE + field.offset()]
            != 0
}

/// `control` with `value` written into `field`, and zeros after it, for every language the console
/// has an interface for.
pub open spec fn language_set(control: Seq<u8>, field: Field, value: Seq<u8>) -> Seq<u8> {
    Seq::new(
        control.len(),
        |p: int|
            if !field.overridden_at(p) {
                control[p]
            } else if p % 0x300 - field.offset() < value.len() {
                value[p % 0x300 - field.offset()]
            } else {
                0
            },
    )
}

/// `control` with `value`, if there is one, written into `field`.
pub open spec fn overridden(control: Seq<u8>, field: Field, value: Option<String>) -> Seq<u8> {
    match value {
        Some(value) => language_set(control, field, encode_utf8(value@)),
        None => control,
    }
}

/// `control` with its logo handling left to the console, if that is asked for.
pub open spec fn logo_set(control: Seq<u8>, auto: bool) -> Seq<u8> {
    if auto {
        control.update(LOGO_HANDLING as int, LOGO_HANDLING_AUTO)
    } else {
        control
    }
}

/// `control` with `title_id` in every ID field, and the ID above it that downloadable content is
/// published under in the one for that.
pub open spec fn stamped(control: Seq<u8>, title_id: u64) -> Seq<u8> {
    let own = le_bytes(title_id as nat, 8);
    let add_on = le_bytes((title_id + 0x1000) as nat, 8);
    Seq::new(
        control.len(),
        |p: int|
            if PRESENCE_GROUP_ID <= p < PRESENCE_GROUP_ID + 8 {
                own[p - PRESENCE_GROUP_ID]
            } else if ADD_ON_CONTENT_BASE_ID <= p < ADD_ON_CONTENT_BASE_ID + 8 {
                add_on[p - ADD_ON_CONTENT_BASE_ID]
            } else if SAVE_DATA_OWNER_ID <= p < SAVE_DATA_OWNER_ID + 8 {
                own[p - SAVE_DATA_OWNER_ID]
            } else if LOCAL_COMMUNICATION_ID <= p < LOCAL_COMMUNICATION_ID + 0x40 {
                own[(p - LOCAL_COMMUNICATION_ID) % 8]
            } else {
                control[p]
            },
    )
}

/// `control` with `patch` applied.
pub open spec fn patched(control: Seq<u8>, patch: Patch) -> Seq<u8> {
    let named = overridden(control, Field::Name, patch.name);
    let published = overridden(named, Field::Publisher, patch.publisher);
    let shown = logo_set(published, patch.logo_handling_auto);
    match patch.title_id {
        Some(title_id) => stamped(shown, title_id@),
        None => shown,
    }
}

/// Why `value` cannot be what `field` of `control` holds, if it cannot: an override that is too
/// long, or none where the file carries none either.
pub open spec fn field_refused(control: Seq<u8>, field: Field, value: Option<String>) -> Option<
    ProcessError,
> {
    match value {
        Some(value) => if encode_utf8(value@).len() > field.max_len() {
            Some(
                ProcessError::OverrideTooLong {
                    field: field.label(),
                    length: encode_utf8(value@).len() as usize,
                    max_len: field.max_len(),
                },
            )
        } else {
            None
        },
        None => if has_any(control, field) {
            None
        } else {
            Some(
                match field {
                    Field::Name => ProcessError::MissingName,
                    Field::Publisher => ProcessError::MissingPublisher,
                },
            )
        },
    }
}

/// Why `patch` cannot be applied to `control`, if it cannot.
pub open spec fn refused(control: Seq<u8>, patch: Patch) -> Option<ProcessError> {
    if control.len() != NACP_SIZE {
        Some(ProcessError::WrongSize { length: control.len() as usize, expected: NACP_SIZE })
    } else {
        match field_refused(control, Field::Name, patch.name) {
            Some(error) => Some(error),
            None => field_refused(control, Field::Publisher, patch.publisher),
        }
    }
}

/// Validate `control`, apply `patch` to it in place, and report whether anything changed.
///
/// # Errors
///
/// Returns an error, and leaves the control property as it was, if the bytes are not the size of a
/// control property, if an override is longer than its field, or if the file names neither a title
/// nor a publisher and no override supplies one.
pub fn process(control: &mut [u8], patch: &Patch) -> (out: Result<bool, ProcessError>)
    ensures
        match refused(old(control)@, *patch) {
            Some(error) => out == Err::<bool, ProcessError>(error) && final(control)@ == old(
                control,
            )@,
            None => {
                &&& final(control)@ == patched(old(control)@, *patch)
                &&& out == Ok::<bool, ProcessError>(final(control)@ != old(control)@)
            },
        },
{
    let before = vstd::slice::slice_to_vec(control);
    if control.len() != NACP_SIZE {
        return Err(ProcessError::WrongSize { length: control.len(), expected: NACP_SIZE });
    }
    if let Err(error) = check_field(control, Field::Name, &patch.name) {
        return Err(error);
    }
    if let Err(error) = check_field(control, Field::Publisher, &patch.publisher) {
        return Err(error);
    }
    if let Some(name) = &patch.name {
        set_language_field(control, name.as_str().as_bytes(), Field::Name);
    }
    if let Some(publisher) = &patch.publisher {
        set_language_field(control, publisher.as_str().as_bytes(), Field::Publisher);
    }
    if patch.logo_handling_auto {
        control[LOGO_HANDLING] = LOGO_HANDLING_AUTO;
    }
    if let Some(title_id) = patch.title_id {
        stamp(control, title_id);
    }
    assert(control@ =~= patched(before@, *patch));
    Ok(!same_bytes(control, before.as_slice()))
}

/// Check that `value` fits `field`, or that the file carries one when there is no `value`.
fn check_field(control: &[u8], field: Field, value: &Option<String>) -> (out: Result<
    (),
    ProcessError,
>)
    requires
        control@.len() == NACP_SIZE,
    ensures
        match field_refused(control@, field, *value) {
            Some(error) => out == Err::<(), ProcessError>(error),
            None => out is Ok,
        },
{
    match value {
        Some(value) => {
            let length = value.as_str().as_bytes().len();
            let (label, max_len) = match field {
                Field::Name => ("title name", MAX_NAME_LEN),
                Field::Publisher => ("title publisher", MAX_PUBLISHER_LEN),
            };
            if length > max_len {
                Err(ProcessError::OverrideTooLong { field: label, length, max_len })
            } else {
                Ok(())
            }
        },
        None => {
            if carries(control, field) {
                Ok(())
            } else {
                match field {
                    Field::Name => Err(ProcessError::MissingName),
                    Field::Publisher => Err(ProcessError::MissingPublisher),
                }
            }
        },
    }
}

/// Whether any language entry carries a non-empty `field`.
fn carries(control: &[u8], field: Field) -> (carries: bool)
    requires
        control@.len() == NACP_SIZE,
    ensures
        carries == has_any(control@, field),
{
    let offset: usize = match field {
        Field::Name => 0,
        Field::Publisher => 0x200,
    };
    let mut language: usize = 0;
    while language < LANGUAGES
        invariant
            language <= LANGUAGES,
            control@.len() == NACP_SIZE,
            offset == field.offset(),
            offset <= 0x200,
            forall|i: int|
                0 <= i < language ==> #[trigger] control@[i * LANGUAGE_SIZE + field.offset()] == 0,
        decreases LANGUAGES - language,
    {
        if control[language * LANGUAGE_SIZE + offset] != 0 {
            assert(control@[language as int * LANGUAGE_SIZE + field.offset()] != 0);
            return true;
        }
        language += 1;
    }
    false
}

/// Write `value` into `field` for every language the console has an interface for.
fn set_language_field(control: &mut [u8], value: &[u8], field: Field)
    requires
        old(control)@.len() == NACP_SIZE,
        value@.len() <= field.max_len(),
    ensures
        final(control)@ == language_set(old(control)@, field, value@),
{
    let ghost before = control@;
    let (offset, size): (usize, usize) = match field {
        Field::Name => (0, 0x200),
        Field::Publisher => (0x200, 0x100),
    };
    let mut slot = vstd::slice::slice_to_vec(value);
    while slot.len() < size
        invariant
            size == field.size(),
            value@.len() <= slot@.len() <= size,
            forall|i: int|
                0 <= i < slot@.len() ==> #[trigger] slot@[i] == if i < value@.len() {
                    value@[i]
                } else {
                    0
                },
        decreases size - slot@.len(),
    {
        slot.push(0);
    }
    let mut language: usize = 0;
    while language < OVERRIDDEN_LANGUAGES
        invariant
            language <= OVERRIDDEN_LANGUAGES,
            offset == field.offset(),
            size == field.size(),
            slot@.len() == size,
            before.len() == NACP_SIZE,
            control@.len() == NACP_SIZE,
            forall|p: int|
                0 <= p < NACP_SIZE ==> #[trigger] control@[p] == if p < language * LANGUAGE_SIZE
                    && field.overridden_at(p) {
                    slot@[p % 0x300 - field.offset()]
                } else {
                    before[p]
                },
        decreases OVERRIDDEN_LANGUAGES - language,
    {
        let ghost previous = control@;
        let at = language * LANGUAGE_SIZE + offset;
        store(control, at, slot.as_slice());
        proof {
            assert forall|p: int| 0 <= p < NACP_SIZE implies #[trigger] control@[p] == if p < (language
                + 1) * LANGUAGE_SIZE && field.overridden_at(p) {
                slot@[p % 0x300 - field.offset()]
            } else {
                before[p]
            } by {
                if language * LANGUAGE_SIZE <= p < (language + 1) * LANGUAGE_SIZE {
                    assert(p % 0x300 == p - language * LANGUAGE_SIZE);
                }
            }
        }
        language += 1;
    }
    assert(control@ =~= language_set(before, field, value@));
}

/// Write `title_id` into every ID field.
fn stamp(control: &mut [u8], title_id: TitleId)
    requires
        old(control)@.len() == NACP_SIZE,
    ensures
        final(control)@ == stamped(old(control)@, title_id@),
{
    broadcast use lemma_le_bytes_len;

    let ghost before = control@;
    let own = le_u64(title_id.to_u64());
    let add_on = le_u64(title_id.add_on_content_base());
    store(control, PRESENCE_GROUP_ID, &own);
    store(control, SAVE_DATA_OWNER_ID, &own);
    store(control, ADD_ON_CONTENT_BASE_ID, &add_on);
    let ghost middle = control@;
    let mut index: usize = 0;
    while index < 8
        invariant
            index <= 8,
            own@.len() == 8,
            middle.len() == NACP_SIZE,
            control@.len() == NACP_SIZE,
            forall|p: int|
                0 <= p < NACP_SIZE ==> #[trigger] control@[p] == if LOCAL_COMMUNICATION_ID <= p
                    < LOCAL_COMMUNICATION_ID + 8 * index {
                    own@[(p - LOCAL_COMMUNICATION_ID) % 8]
                } else {
                    middle[p]
                },
        decreases 8 - index,
    {
        store(control, LOCAL_COMMUNICATION_ID + 8 * index, &own);
        index += 1;
    }
    assert(control@ =~= stamped(before, title_id@));
}

/// Error returned by [`process`].
#[derive(Debug, Clone, Copy, PartialEq, Eq)]
pub enum ProcessError {
    /// The bytes are not the size of a control property.
    ///
    /// Holds the length read and the length the structure requires.
    WrongSize {
        /// The length read.
        length: usize,
        /// The length the structure requires.
        expected: usize,
    },
    /// No language entry names the title and no override supplies one.
    MissingName,
    /// No language entry names the publisher and no override supplies one.
    MissingPublisher,
    /// An override is longer than the field it is written into.
    ///
    /// Holds which field, the length given, and the length allowed.
    OverrideTooLong {
        /// Which field was too long.
        field: &'static str,
        /// The length given.
        length: usize,
        /// The length allowed.
        max_len: usize,
    },
}

/// Whether `patch` may change byte `p`.
pub open spec fn touches(patch: Patch, p: int) -> bool {
    ||| patch.name is Some && Field::Name.overridden_at(p)
    ||| patch.publisher is Some && Field::Publisher.overridden_at(p)
    ||| patch.logo_handling_auto && p == LOGO_HANDLING
    ||| patch.title_id is Some && {
        ||| PRESENCE_GROUP_ID <= p < PRESENCE_GROUP_ID + 8
        ||| ADD_ON_CONTENT_BASE_ID <= p < ADD_ON_CONTENT_BASE_ID + 8
        ||| SAVE_DATA_OWNER_ID <= p < SAVE_DATA_OWNER_ID + 8
        ||| LOCAL_COMMUNICATION_ID <= p < LOCAL_COMMUNICATION_ID + 0x40
    }
}

/// A patch changes the fields it names and no other byte: the reserved languages, and every field it
/// does not name, stay as the caller supplied them.
pub proof fn law_only_the_named_fields_change(control: Seq<u8>, patch: Patch, p: int)
    requires
        control.len() == NACP_SIZE,
        0 <= p < NACP_SIZE,
        !touches(patch, p),
    ensures
        patched(control, patch)[p] == control[p],
{
}

/// A patch that asks for nothing changes nothing.
pub proof fn law_no_change_asked_for_is_no_change(control: Seq<u8>, patch: Patch)
    requires
        !patch.asks_for_a_change(),
    ensures
        patched(control, patch) == control,
{
}

/// A rename reaches every interface language: the name stands, terminated, in each of them.
pub proof fn law_a_rename_reaches_every_interface_language(
    control: Seq<u8>,
    patch: Patch,
    language: int,
    i: int,
)
    requires
        refused(control, patch) is None,
        patch.name is Some,
        0 <= language < OVERRIDDEN_LANGUAGES,
        0 <= i < Field::Name.size(),
    ensures
        patched(control, patch)[language * LANGUAGE_SIZE + i] == if i < encode_utf8(
            patch.name->0@,
        ).len() {
            encode_utf8(patch.name->0@)[i]
        } else {
            0
        },
        encode_utf8(patch.name->0@).len() < Field::Name.size(),
{
    let p = language * LANGUAGE_SIZE + i;
    assert(p % 0x300 == i);
    assert(Field::Name.overridden_at(p));
    assert(!Field::Publisher.overridden_at(p));
}

/// Applying a patch to a control property that already has it applied is accepted and changes
/// nothing: packing the same title twice gives the same file.
pub proof fn law_patching_again_changes_nothing(control: Seq<u8>, patch: Patch)
    requires
        refused(control, patch) is None,
    ensures
        refused(patched(control, patch), patch) is None,
        patched(patched(control, patch), patch) == patched(control, patch),
{
    let once = patched(control, patch);
    assert forall|field: Field, language: int|
        0 <= language < LANGUAGES && (match field {
            Field::Name => patch.name is None,
            Field::Publisher => patch.publisher is None,
        }) implies #[trigger] once[language * LANGUAGE_SIZE + field.offset()] == control[language
        * LANGUAGE_SIZE + field.offset()] by {
        let p = language * LANGUAGE_SIZE + field.offset();
        assert(p % 0x300 == field.offset());
        assert(!touches(patch, p));
    }
    if patch.name is None {
        let language = choose|language: int|
            0 <= language < LANGUAGES && #[trigger] control[language * LANGUAGE_SIZE
                + Field::Name.offset()] != 0;
        assert(once[language * LANGUAGE_SIZE + Field::Name.offset()] != 0);
    }
    if patch.publisher is None {
        let language = choose|language: int|
            0 <= language < LANGUAGES && #[trigger] control[language * LANGUAGE_SIZE
                + Field::Publisher.offset()] != 0;
        assert(once[language * LANGUAGE_SIZE + Field::Publisher.offset()] != 0);
    }
    assert(patched(once, patch) =~= once);
}

/// A name, and a publisher, reaches the first twelve language entries, which are `0x300` bytes each:
/// the name fills the first `0x200` bytes of an entry and the publisher the `0x100` after them, each
/// followed by zeros to the end of its field.
pub proof fn law_overrides_reach_twelve_languages(
    control: Seq<u8>,
    patch: Patch,
    language: int,
    i: int,
)
    requires
        refused(control, patch) is None,
        0 <= language < 12,
    ensures
        patched(control, patch).len() == 0x4000,
        patch.name is Some && 0 <= i < 0x200 ==> patched(control, patch)[language * 0x300 + i]
            == if i < encode_utf8(patch.name->0@).len() {
            encode_utf8(patch.name->0@)[i]
        } else {
            0
        },
        patch.publisher is Some && 0 <= i < 0x100 ==> patched(control, patch)[language * 0x300
            + 0x200 + i] == if i < encode_utf8(patch.publisher->0@).len() {
            encode_utf8(patch.publisher->0@)[i]
        } else {
            0
        },
{
    if 0 <= i < 0x200 {
        let p = language * 0x300 + i;
        assert(p % 0x300 == i);
    }
    if 0 <= i < 0x100 {
        let p = language * 0x300 + 0x200 + i;
        assert(p % 0x300 == 0x200 + i);
    }
}

/// A title ID is stamped, least significant byte first, into the presence group, the save data owner
/// and each of the eight local communication IDs, and the ID `0x1000` above it into the base of
/// downloadable content; and logo handling left to the console is a zero.
pub proof fn law_ids_and_logo_handling_are_stamped_in(
    control: Seq<u8>,
    patch: Patch,
    slot: int,
    i: int,
)
    requires
        refused(control, patch) is None,
        0 <= slot < 8,
        0 <= i < 8,
        patch.title_id is Some ==> patch.title_id->0@ <= 0x0FFFFFFFFFFFFFFF,
    ensures
        patch.title_id matches Some(title_id) ==> {
            let own = le_bytes(title_id@ as nat, 8)[i];
            &&& patched(control, patch)[0x3038 + i] == own
            &&& patched(control, patch)[0x3078 + i] == own
            &&& patched(control, patch)[0x30B0 + 8 * slot + i] == own
            &&& patched(control, patch)[0x3070 + i] == le_bytes((title_id@ + 0x1000) as nat, 8)[i]
        },
        patch.logo_handling_auto ==> patched(control, patch)[0x30F1] == 0,
{
    lemma_le_bytes_len(patch.title_id->0@ as nat, 8);
    lemma_le_bytes_len((patch.title_id->0@ + 0x1000) as nat, 8);
    assert((8 * slot + i) % 8 == i);
}

/// Nothing else changes: not the last four languages, not a name or a publisher without an override,
/// not an ID without a title ID, not the logo handling unless that is asked for, and no other byte.
pub proof fn law_every_other_byte_of_a_control_property_stays(
    control: Seq<u8>,
    patch: Patch,
    p: int,
)
    requires
        refused(control, patch) is None,
        0 <= p < 0x4000,
        patch.name is Some ==> !(p < 12 * 0x300 && p % 0x300 < 0x200),
        patch.publisher is Some ==> !(p < 12 * 0x300 && p % 0x300 >= 0x200),
        patch.logo_handling_auto ==> p != 0x30F1,
        patch.title_id is Some ==> !(0x3038 <= p < 0x3040) && !(0x3070 <= p < 0x3080) && !(0x30B0
            <= p < 0x30F0),
    ensures
        patched(control, patch)[p] == control[p],
{
}

/// A control property is `0x4000` bytes, and needs a name and a publisher: an override no longer than
/// the field less its terminator, or a first byte that is not zero in any of its sixteen languages.
/// What is wrong is reported in that order, a size before a name before a publisher.
pub proof fn law_a_control_property_needs_a_name_and_a_publisher(control: Seq<u8>, patch: Patch)
    requires
        control.len() <= usize::MAX,
    ensures
        ({
            let named = exists|language: int|
                0 <= language < 16 && #[trigger] control[language * 0x300] != 0;
            let published = exists|language: int|
                0 <= language < 16 && #[trigger] control[language * 0x300 + 0x200] != 0;
            let name_len = encode_utf8(patch.name->0@).len();
            let publisher_len = encode_utf8(patch.publisher->0@).len();
            if control.len() != 0x4000 {
                refused(control, patch) == Some(
                    ProcessError::WrongSize { length: control.len() as usize, expected: 0x4000 },
                )
            } else if patch.name is Some && name_len > 0x1FF {
                refused(control, patch) matches Some(
                    ProcessError::OverrideTooLong { field, length, max_len },
                ) && field@ == "title name"@ && length == name_len as usize && max_len == 0x1FF
            } else if patch.name is None && !named {
                refused(control, patch) == Some(ProcessError::MissingName)
            } else if patch.publisher is Some && publisher_len > 0xFF {
                refused(control, patch) matches Some(
                    ProcessError::OverrideTooLong { field, length, max_len },
                ) && field@ == "title publisher"@ && length == publisher_len as usize && max_len
                    == 0xFF
            } else if patch.publisher is None && !published {
                refused(control, patch) == Some(ProcessError::MissingPublisher)
            } else {
                refused(control, patch) is None
            }
        }),
{
    if exists|language: int| 0 <= language < 16 && #[trigger] control[language * 0x300] != 0 {
        let language = choose|language: int|
            0 <= language < 16 && #[trigger] control[language * 0x300] != 0;
        assert(control[language * LANGUAGE_SIZE + Field::Name.offset()] != 0);
    }
    if has_any(control, Field::Name) {
        let language = choose|language: int|
            0 <= language < LANGUAGES && #[trigger] control[language * LANGUAGE_SIZE
                + Field::Name.offset()] != 0;
        assert(control[language * 0x300] != 0);
    }
    if exists|language: int|
        0 <= language < 16 && #[trigger] control[language * 0x300 + 0x200] != 0 {
        let language = choose|language: int|
            0 <= language < 16 && #[trigger] control[language * 0x300 + 0x200] != 0;
        assert(control[language * LANGUAGE_SIZE + Field::Publisher.offset()] != 0);
    }
    if has_any(control, Field::Publisher) {
        let language = choose|language: int|
            0 <= language < LANGUAGES && #[trigger] control[language * LANGUAGE_SIZE
                + Field::Publisher.offset()] != 0;
        assert(control[language * 0x300 + 0x200] != 0);
    }
}

/// A patch asks for a change exactly when it names something to change.
pub proof fn law_a_patch_that_names_anything_asks_for_a_change(patch: Patch)
    ensures
        patch.asks_for_a_change() <==> !(patch.name is None && patch.publisher is None
            && patch.title_id is None && !patch.logo_handling_auto),
{
}

} // verus!
