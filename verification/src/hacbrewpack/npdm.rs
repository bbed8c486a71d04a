//! Taking the title ID out of `main.npdm` and patching what the archive needs changed.
//!
//! Two things can change in an NPDM on the way into an archive. The title ID is overwritten when the
//! caller names one, so that every archive of the title agrees with it. And the ACID's public key is
//! replaced by the one that will sign the program NCA's header, which is what makes the console's
//! second signature check pass.
//!
//! Both patches are byte edits at offsets the header itself gives, applied to a descriptor a reader
//! has already parsed and validated: the layout is proven before anything is written into it.

use super::title_id::{is_application_id, ParseTitleIdError, TitleId};
use crate::bytes::{
    law_only_the_part_written_over_changes, le_bytes, le_u64, spliced, store,
};
use crate::signing::{acid_public_key, PUBLIC_MODULUS};
use vstd::prelude::*;

verus! {

/// Offset of the title ID within the ACI0 section.
pub const ACI0_PROGRAM_ID_OFFSET: u64 = 0x10;

/// Offset of the public key within the ACID section, which follows the signature.
pub const ACID_PUBLIC_KEY_OFFSET: u64 = 0x100;

/// What the caller wants changed in the descriptor.
#[derive(Debug, Clone, Copy)]
pub struct Patch {
    /// Title ID to stamp in, or `None` to keep the one the descriptor already carries.
    pub title_id: Option<TitleId>,
    /// Whether to advertise the key that will sign the program NCA's header.
    pub sign_program_header: bool,
}

impl Patch {
    /// Whether the patch asks for any change, and so for the file to be backed up and rewritten.
    pub fn changes(&self) -> (changes: bool)
        ensures
            changes == (self.title_id is Some || self.sign_program_header),
    {
        self.title_id.is_some() || self.sign_program_header
    }
}

/// What a reader found in a well-formed descriptor.
#[derive(Debug, Clone, Copy)]
pub struct NpdmLayout {
    /// Where the ACID section starts.
    pub acid_offset: u32,
    /// Where the ACI0 section starts.
    pub aci_offset: u32,
    /// The title ID the descriptor carries.
    pub program_id: u64,
}

impl NpdmLayout {
    /// Where the title ID stands in the descriptor.
    pub open spec fn title_id_at(self) -> u64 {
        (self.aci_offset + ACI0_PROGRAM_ID_OFFSET) as u64
    }

    /// Where the public key stands in the descriptor.
    pub open spec fn public_key_at(self) -> u64 {
        (self.acid_offset + ACID_PUBLIC_KEY_OFFSET) as u64
    }
}

/// The title ID a build is stamped with, if an application may use it.
pub open spec fn chosen_title_id(layout: NpdmLayout, patch: Patch) -> Result<
    u64,
    ParseTitleIdError,
> {
    match patch.title_id {
        Some(title_id) => Ok(title_id@),
        None => if is_application_id(layout.program_id) {
            Ok(layout.program_id)
        } else {
            Err(ParseTitleIdError::OutOfRange { value: layout.program_id })
        },
    }
}

/// `descriptor` with the title ID `patch` names, if it names one, in place.
pub open spec fn title_id_placed(descriptor: Seq<u8>, layout: NpdmLayout, patch: Patch) -> Seq<
    u8,
> {
    match patch.title_id {
        Some(title_id) => spliced(
            descriptor,
            layout.title_id_at() as int,
            le_bytes(title_id@ as nat, 8),
        ),
        None => descriptor,
    }
}

/// `descriptor` with the advertised public key in place, if `patch` asks for it.
pub open spec fn public_key_placed(descriptor: Seq<u8>, layout: NpdmLayout, patch: Patch) -> Seq<
    u8,
> {
    if patch.sign_program_header {
        spliced(descriptor, layout.public_key_at() as int, PUBLIC_MODULUS@)
    } else {
        descriptor
    }
}

/// How patching `descriptor` ends, and what it leaves there. A title ID already in place stays when
/// the public key turns out not to fit.
pub open spec fn npdm_outcome(
    descriptor: Seq<u8>,
    layout: Option<NpdmLayout>,
    patch: Patch,
) -> (Result<u64, ProcessError>, Seq<u8>) {
    match layout {
        None => (Err(ProcessError::Malformed), descriptor),
        Some(layout) => match chosen_title_id(layout, patch) {
            Err(error) => (Err(ProcessError::TitleId(error)), descriptor),
            Ok(title_id) => {
                let named = title_id_placed(descriptor, layout, patch);
                if patch.title_id is Some && layout.title_id_at() + 8 > descriptor.len() {
                    (
                        Err(ProcessError::PatchOutOfBounds { offset: layout.title_id_at() }),
                        descriptor,
                    )
                } else if patch.sign_program_header && layout.public_key_at() + 0x100
                    > descriptor.len() {
                    (Err(ProcessError::PatchOutOfBounds { offset: layout.public_key_at() }), named)
                } else {
                    (Ok(title_id), public_key_placed(named, layout, patch))
                }
            },
        },
    }
}

/// Apply `patch` to `descriptor` in place and return the title ID it now names.
///
/// `layout` is what a reader found in the descriptor, `None` if it is not a well-formed NPDM.
///
/// # Errors
///
/// Returns an error if the descriptor is not a well-formed NPDM, if the title ID it carries is
/// outside the application range and no override was given, or if a patch would fall outside the
/// bytes handed in.
pub fn process(descriptor: &mut [u8], layout: Option<NpdmLayout>, patch: &Patch) -> (out: Result<
    TitleId,
    ProcessError,
>)
    ensures
        match npdm_outcome(old(descriptor)@, layout, *patch).0 {
            Ok(title_id) => out matches Ok(found) && found@ == title_id,
            Err(error) => out == Err::<TitleId, ProcessError>(error),
        },
        final(descriptor)@ == npdm_outcome(old(descriptor)@, layout, *patch).1,
{
    let layout = match layout {
        Some(layout) => layout,
        None => return Err(ProcessError::Malformed),
    };
    let title_id = match patch.title_id {
        Some(title_id) => title_id,
        None => match TitleId::try_from(layout.program_id) {
            Ok(title_id) => title_id,
            Err(error) => return Err(ProcessError::TitleId(error)),
        },
    };
    let len = descriptor.len() as u64;
    if patch.title_id.is_some() {
        let start = layout.aci_offset as u64 + ACI0_PROGRAM_ID_OFFSET;
        if start + 8 > len {
            return Err(ProcessError::PatchOutOfBounds { offset: start });
        }
        store(descriptor, start as usize, &le_u64(title_id.to_u64()));
    }
    if patch.sign_program_header {
        let start = layout.acid_offset as u64 + ACID_PUBLIC_KEY_OFFSET;
        if start + 0x100 > len {
            return Err(ProcessError::PatchOutOfBounds { offset: start });
        }
        store(descriptor, start as usize, acid_public_key());
    }
    Ok(title_id)
}

/// Error returned by [`process`].
#[derive(Debug, Clone, Copy, PartialEq, Eq, Structural)]
pub enum ProcessError {
    /// The bytes are not a well-formed NPDM.
    Malformed,
    /// The descriptor's own title ID is not one an application may use.
    TitleId(ParseTitleIdError),
    /// A patch would run past the end of the descriptor.
    ///
    /// Holds the offset the patch would have started at.
    PatchOutOfBounds {
        /// The offset the patch would have started at.
        offset: u64,
    },
}

/// Patching a descriptor writes the title ID, when one is named, and the public key, when it is
/// asked for, and changes no other byte.
pub proof fn law_only_the_two_windows_change(
    descriptor: Seq<u8>,
    layout: NpdmLayout,
    patch: Patch,
    p: int,
)
    requires
        0 <= p < descriptor.len(),
        patch.title_id is Some ==> !(layout.title_id_at() <= p < layout.title_id_at() + 8),
        patch.sign_program_header ==> !(layout.public_key_at() <= p < layout.public_key_at()
            + 0x100),
    ensures
        npdm_outcome(descriptor, Some(layout), patch).1[p] == descriptor[p],
        npdm_outcome(descriptor, Some(layout), patch).1.len() == descriptor.len(),
{
    crate::bytes::lemma_le_bytes_len(patch.title_id->0@ as nat, 8);
}

/// Applying a patch to a descriptor that already has it applied ends the same way and changes
/// nothing.
pub proof fn law_patching_again_changes_nothing(
    descriptor: Seq<u8>,
    layout: NpdmLayout,
    patch: Patch,
)
    ensures
        npdm_outcome(npdm_outcome(descriptor, Some(layout), patch).1, Some(layout), patch)
            == npdm_outcome(descriptor, Some(layout), patch),
{
    crate::bytes::lemma_le_bytes_len(patch.title_id->0@ as nat, 8);
    let (out, once) = npdm_outcome(descriptor, Some(layout), patch);
    let (again, twice) = npdm_outcome(once, Some(layout), patch);
    assert(twice =~= once);
}

/// A descriptor that is patched to advertise the signing key carries exactly that key.
pub proof fn law_the_advertised_key_is_in_place(
    descriptor: Seq<u8>,
    layout: NpdmLayout,
    patch: Patch,
)
    requires
        patch.sign_program_header,
        npdm_outcome(descriptor, Some(layout), patch).0 is Ok,
    ensures
        npdm_outcome(descriptor, Some(layout), patch).1.subrange(
            layout.public_key_at() as int,
            layout.public_key_at() + 0x100,
        ) == PUBLIC_MODULUS@,
{
    let (out, once) = npdm_outcome(descriptor, Some(layout), patch);
    assert(once.subrange(layout.public_key_at() as int, layout.public_key_at() + 0x100)
        =~= PUBLIC_MODULUS@);
}

/// The title ID stands `0x10` bytes into the ACI0 section, eight bytes with the least significant
/// first, and the public key `0x100` bytes into the ACID section. Patched, each holds what was asked
/// for, the key last where the two overlap, and every other byte stays. The title ID that comes back
/// is the one named, or else the descriptor's own.
pub proof fn law_the_title_id_and_the_key_are_put_where_they_stand(
    descriptor: Seq<u8>,
    layout: NpdmLayout,
    patch: Patch,
)
    requires
        npdm_outcome(descriptor, Some(layout), patch).0 is Ok,
    ensures
        ({
            let (out, after) = npdm_outcome(descriptor, Some(layout), patch);
            let id = layout.aci_offset + 0x10;
            let key = layout.acid_offset + 0x100;
            &&& out == Ok::<u64, ProcessError>(
                match patch.title_id {
                    Some(title_id) => title_id@,
                    None => layout.program_id,
                },
            )
            &&& after.len() == descriptor.len()
            &&& forall|p: int|
                0 <= p < descriptor.len() ==> #[trigger] after[p] == if patch.sign_program_header
                    && key <= p < key + 0x100 {
                    PUBLIC_MODULUS@[p - key]
                } else if patch.title_id is Some && id <= p < id + 8 {
                    le_bytes(patch.title_id->0@ as nat, 8)[p - id]
                } else {
                    descriptor[p]
                }
        }),
{
    let id = layout.aci_offset + 0x10;
    let key = layout.acid_offset + 0x100;
    assert(layout.title_id_at() == id);
    assert(layout.public_key_at() == key);
    if patch.title_id is Some {
        crate::bytes::lemma_le_bytes_len(patch.title_id->0@ as nat, 8);
    }
}

/// A descriptor is refused, and left as it is, if it is not well formed, if it carries an ID no
/// application may use and none is named, or if the title ID named would run past its end; and a
/// public key that would is refused too, with the title ID in place by then. There is no other reason.
pub proof fn law_a_descriptor_is_refused_for_these_reasons_alone(
    descriptor: Seq<u8>,
    layout: Option<NpdmLayout>,
    patch: Patch,
)
    ensures
        layout is None ==> npdm_outcome(descriptor, layout, patch) == (
            Err::<u64, ProcessError>(ProcessError::Malformed),
            descriptor,
        ),
        layout matches Some(found) ==> {
            let id = found.aci_offset + 0x10;
            let key = found.acid_offset + 0x100;
            let (out, after) = npdm_outcome(descriptor, layout, patch);
            if patch.title_id is None && !(0x0100000000000000 <= found.program_id
                <= 0x0FFFFFFFFFFFFFFF) {
                out == Err::<u64, ProcessError>(
                    ProcessError::TitleId(
                        ParseTitleIdError::OutOfRange { value: found.program_id },
                    ),
                ) && after == descriptor
            } else if patch.title_id is Some && id + 8 > descriptor.len() {
                out == Err::<u64, ProcessError>(
                    ProcessError::PatchOutOfBounds { offset: id as u64 },
                ) && after == descriptor
            } else if patch.sign_program_header && key + 0x100 > descriptor.len() {
                out == Err::<u64, ProcessError>(
                    ProcessError::PatchOutOfBounds { offset: key as u64 },
                ) && after == match patch.title_id {
                    Some(title_id) => descriptor.subrange(0, id) + le_bytes(title_id@ as nat, 8)
                        + descriptor.subrange(id + 8, descriptor.len() as int),
                    None => descriptor,
                }
            } else {
                out is Ok
            }
        },
{
    if layout is Some && patch.title_id is Some {
        let id = layout->0.aci_offset + 0x10;
        crate::bytes::lemma_le_bytes_len(patch.title_id->0@ as nat, 8);
        if id + 8 <= descriptor.len() {
            law_only_the_part_written_over_changes(
                descriptor,
                id,
                le_bytes(patch.title_id->0@ as nat, 8),
            );
        }
    }
}

} // verus!
