//! Decrypting an NCA into the plaintext container it was built from.
//!
//! This inverts what packing seals, and the steps run in the reverse order for the same reason the
//! forward ones run in theirs:
//!
//! 1. Decrypt the header, which is what makes every other field in the archive readable.
//! 2. Unwrap the key area, using the generation the header itself names.
//! 3. Decrypt the sections the header marks as CTR-encrypted, with the key the area holds.
//!
//! The generation is discovered rather than chosen: it is stored in the archive, so a caller
//! supplies a whole keyset here instead of the single key area key that packing takes.
//!
//! The header's key area field is left as it was found, wrapped. The unwrapped copy is returned
//! beside the image rather than written back into it, so the bytes stay the ones whose hashes and
//! signature were computed and [`crate::unpack::verify`] can still check them.
//!
//! Reading the fields of a decrypted header is the reader's part, which a caller hands to
//! [`decrypt`].

use crate::container::{
    KeyGeneration, NcaCryptType, NcaLayout, SectionLayout, HEADER_SECTOR_SIZE, NCA_HEADER_SIZE,
    SECTION_KEY_INDEX,
};
use crate::crypto::{
    aes_ecb_decrypt, aes_xts_decrypt, ctr_applied, ecb_decrypted, xts_decrypted,
};
use crate::keyset::Keyset;
use crate::sections::{
    apply_sections, flatten, flattened, law_each_section_is_encrypted_from_its_own_counter,
    section_key, sections_applied, sections_fit, unflatten, CtrSection,
};
use vstd::prelude::*;
use vstd::slice::slice_to_vec;

verus! {

/// A decrypted archive: the plaintext bytes and the key area they were sealed with.
#[derive(Debug)]
pub struct PlainNca {
    /// The whole archive with its header and CTR sections decrypted.
    pub bytes: Vec<u8>,
    /// The key area, unwrapped.
    ///
    /// The copy inside `bytes` is still wrapped, because unwrapping it there would change the range
    /// the header signature covers.
    pub key_area: [[u8; 0x10]; 4],
}

/// `image` with its header decrypted under `key`.
pub open spec fn header_opened(image: Seq<u8>, key: Seq<u8>) -> Seq<u8> {
    xts_decrypted(key, image.take(NCA_HEADER_SIZE as int), HEADER_SECTOR_SIZE as int) + image.skip(
        NCA_HEADER_SIZE as int,
    )
}

/// The sections from `from` on that await AES-CTR decryption, in order. The first section encrypted
/// in a way that cannot be undone is reported instead.
pub open spec fn planned(sections: Seq<SectionLayout>, from: int) -> Result<
    Seq<CtrSection>,
    DecryptError,
>
    decreases sections.len() - from,
{
    if from >= sections.len() {
        Ok(seq![])
    } else {
        let section = sections[from];
        match section.encryption {
            NcaCryptType::Plaintext => planned(sections, from + 1),
            NcaCryptType::Ctr => match section.counter {
                None => Err(DecryptError::MissingCounter { section_index: section.index }),
                Some(counter) => match planned(sections, from + 1) {
                    Ok(rest) => Ok(
                        seq![CtrSection { start: section.start, end: section.end, counter }] + rest,
                    ),
                    Err(error) => Err(error),
                },
            },
            scheme => Err(
                DecryptError::UnsupportedEncryption {
                    section_index: section.index,
                    scheme: scheme.number(),
                },
            ),
        }
    }
}

/// Whether every section of a layout lies inside `len` bytes.
pub open spec fn layout_fits(sections: Seq<SectionLayout>, len: int) -> bool {
    forall|i: int|
        0 <= i < sections.len() ==> (#[trigger] sections[i]).start <= sections[i].end <= len
}

/// What decrypting the sections of `bytes`, whose header is plain already, yields: the plaintext and
/// the unwrapped key area. `layout` is what a reader made of the header, `None` if it is no NCA.
pub open spec fn sections_opened(
    bytes: Seq<u8>,
    layout: Option<NcaLayout>,
    keyset: Keyset,
) -> Result<(Seq<u8>, Seq<u8>), DecryptError> {
    match layout {
        None => Err(DecryptError::Parse),
        Some(layout) => if !layout_fits(layout.sections@, bytes.len() as int) {
            Err(DecryptError::Parse)
        } else {
            match planned(layout.sections@, 0) {
                Err(error) => Err(error),
                Ok(sections) => {
                    let generation = layout.key_generation;
                    if !(1 <= generation <= KeyGeneration::MAX) {
                        Err(DecryptError::UnknownKeyGeneration { generation })
                    } else {
                        match keyset.area_key(generation) {
                            None => Err(DecryptError::MissingKeyAreaKey { generation }),
                            Some(key) => {
                                let area = ecb_decrypted(key, flattened(layout.encrypted_keys));
                                Ok((sections_applied(section_key(area), sections, bytes), area))
                            },
                        }
                    }
                },
            }
        },
    }
}

/// What decrypting `image` yields, where `layout` is what a reader made of its decrypted header.
pub open spec fn opened(image: Seq<u8>, layout: Option<NcaLayout>, keyset: Keyset) -> Result<
    (Seq<u8>, Seq<u8>),
    DecryptError,
> {
    match keyset.header() {
        None => Err(DecryptError::MissingHeaderKey),
        Some(key) => if image.len() < NCA_HEADER_SIZE {
            Err(DecryptError::TooSmall { available: image.len() as usize })
        } else {
            sections_opened(header_opened(image, key), layout, keyset)
        },
    }
}

/// What a decryption returned: the plaintext and the flattened key area, or the error.
pub open spec fn decrypted(out: Result<PlainNca, DecryptError>) -> Result<
    (Seq<u8>, Seq<u8>),
    DecryptError,
> {
    match out {
        Ok(plain) => Ok((plain.bytes@, flattened(plain.key_area))),
        Err(error) => Err(error),
    }
}

/// Decrypt `image` with the keys `keyset` holds for the generation it names.
///
/// `read` reads the fields of a decrypted header, and gives `None` for bytes that are no NCA. It
/// runs while the sections are still ciphertext, which is sound because it only ever looks at the
/// header: it locates the sections without reading what is inside them.
///
/// # Errors
///
/// Returns an error if the keyset lacks the header key, before anything else is looked at; if the
/// image is shorter than a header, if the keyset lacks a key area key for the generation the archive
/// names, if the decrypted header is not a valid NCA
/// (which is what a wrong header key produces), or if a section is encrypted with a scheme that is
/// not implemented here.
pub fn decrypt<R: Fn(&[u8]) -> Option<NcaLayout>>(image: &[u8], keyset: &Keyset, read: R) -> (out:
    Result<PlainNca, DecryptError>)
    requires
        forall|bytes: &[u8]| call_requires(read, (bytes,)),
    ensures
        image@.len() < NCA_HEADER_SIZE || keyset.header() is None ==> decrypted(out) == opened(
            image@,
            None,
            *keyset,
        ),
        image@.len() >= NCA_HEADER_SIZE && keyset.header() is Some ==> exists|
            bytes: &[u8],
            layout: Option<NcaLayout>,
        |
            {
                &&& bytes@ == header_opened(image@, keyset.header()->0)
                &&& #[trigger] call_ensures(read, (bytes,), layout)
                &&& decrypted(out) == opened(image@, layout, *keyset)
            },
{
    let bytes = match decrypt_header(image, keyset) {
        Ok(bytes) => bytes,
        Err(error) => return Err(error),
    };
    let layout = read(bytes.as_slice());
    decrypt_sections(bytes, &layout, keyset)
}

/// Decrypt the header of `image` with the header key `keyset` holds, leaving the rest as it is.
///
/// # Errors
///
/// Returns an error if the keyset lacks the header key, or else if the image is shorter than a
/// header.
pub fn decrypt_header(image: &[u8], keyset: &Keyset) -> (out: Result<Vec<u8>, DecryptError>)
    ensures
        match keyset.header() {
            None => out == Err::<Vec<u8>, DecryptError>(DecryptError::MissingHeaderKey),
            Some(key) => if image@.len() < NCA_HEADER_SIZE {
                out == Err::<Vec<u8>, DecryptError>(
                    DecryptError::TooSmall { available: image.len() },
                )
            } else {
                out matches Ok(bytes) && bytes@ == header_opened(image@, key)
            },
        },
{
    let key = match keyset.header_key() {
        Some(key) => key,
        None => return Err(DecryptError::MissingHeaderKey),
    };
    if image.len() < NCA_HEADER_SIZE {
        return Err(DecryptError::TooSmall { available: image.len() });
    }
    let mut bytes = slice_to_vec(image);
    let (header, _) = bytes.as_mut_slice().split_at_mut(NCA_HEADER_SIZE);
    aes_xts_decrypt(key, header, HEADER_SECTOR_SIZE);
    assert(bytes@ =~= header_opened(image@, key@));
    Ok(bytes)
}

/// Decrypt the sections of `bytes`, whose header is plain already, as `layout` says they need.
///
/// # Errors
///
/// Returns an error if `layout` is `None` or locates a section outside the bytes, if it names a key
/// generation the keyset has no key for, or if a section is encrypted with a scheme that is not
/// implemented here.
pub fn decrypt_sections(bytes: Vec<u8>, layout: &Option<NcaLayout>, keyset: &Keyset) -> (out:
    Result<PlainNca, DecryptError>)
    ensures
        decrypted(out) == sections_opened(bytes@, *layout, *keyset),
{
    let layout = match layout {
        Some(layout) => layout,
        None => return Err(DecryptError::Parse),
    };
    if !fits(layout, bytes.len()) {
        return Err(DecryptError::Parse);
    }
    let plan = match plan_sections(layout) {
        Ok(plan) => plan,
        Err(error) => return Err(error),
    };
    let generation = match KeyGeneration::try_from(plan.key_generation) {
        Some(generation) => generation,
        None => {
            return Err(
                DecryptError::UnknownKeyGeneration { generation: plan.key_generation },
            );
        },
    };
    let key_area_key = match keyset.key_area_key_application(generation) {
        Some(key) => key,
        None => {
            return Err(DecryptError::MissingKeyAreaKey { generation: plan.key_generation });
        },
    };
    let mut area = flatten(&plan.key_area);
    aes_ecb_decrypt(key_area_key, &mut area);
    let key_area = unflatten(&area);
    let mut bytes = bytes;
    apply_sections(
        &key_area[SECTION_KEY_INDEX],
        plan.ctr_sections.as_slice(),
        bytes.as_mut_slice(),
    );
    Ok(PlainNca { bytes, key_area })
}

/// Error returned by [`decrypt`].
#[derive(Debug, Clone, Copy, PartialEq, Eq, Structural)]
pub enum DecryptError {
    /// The image is shorter than the header an NCA opens with.
    ///
    /// Holds what the file actually contained.
    TooSmall {
        /// Number of bytes the image holds.
        available: usize,
    },
    /// The keyset carries no header key, and none can be derived from it.
    ///
    /// Without it nothing in the archive can be read, so this fails before any other check.
    MissingHeaderKey,
    /// The archive names a key generation outside the range a keyset can express.
    ///
    /// Holds the generation the header carried. This means the header decrypted to something that
    /// is not a generation, which in practice means the header key was the wrong one.
    UnknownKeyGeneration {
        /// The generation the header carried.
        generation: u8,
    },
    /// The keyset has no application key area key for the generation the archive names.
    ///
    /// Holds the generation that was looked up. The keyset is for an older console than the archive
    /// was built for, or it stops at a master key that does not reach this generation.
    MissingKeyAreaKey {
        /// The generation that was looked up.
        generation: u8,
    },
    /// The decrypted header is not a valid NCA.
    ///
    /// Almost always means the header key was wrong: a header decrypted with the wrong key is
    /// indistinguishable from noise, so it fails at the magic rather than at a field.
    Parse,
    /// A CTR-encrypted section produced no counter.
    ///
    /// Holds the section that was being planned. A reader derives a counter for every section it
    /// reports as CTR-encrypted, so this indicates a defect there rather than a malformed archive.
    MissingCounter {
        /// Index of the section in the header.
        section_index: usize,
    },
    /// A section is encrypted with a scheme that is not implemented here.
    ///
    /// Holds the section and the scheme it named. AES-XTS sections and the relocating BKTR scheme
    /// belong to update partitions and to archives that are not packed here.
    UnsupportedEncryption {
        /// Index of the section in the header.
        section_index: usize,
        /// The scheme the FS header named.
        scheme: u8,
    },
}

/// What the decrypted header says still has to be decrypted.
#[derive(Debug)]
pub struct Plan {
    /// The key generation the key area is wrapped with.
    pub key_generation: u8,
    /// The key area, wrapped.
    pub key_area: [[u8; 0x10]; 4],
    /// The sections awaiting AES-CTR decryption.
    pub ctr_sections: Vec<CtrSection>,
}

/// Whether every section of `layout` lies inside `len` bytes.
fn fits(layout: &NcaLayout, len: usize) -> (fits: bool)
    ensures
        fits == layout_fits(layout.sections@, len as int),
{
    let mut index: usize = 0;
    while index < layout.sections.len()
        invariant
            index <= layout.sections@.len(),
            layout_fits(layout.sections@.take(index as int), len as int),
        decreases layout.sections@.len() - index,
    {
        let section = layout.sections[index];
        assert(section == layout.sections@[index as int]);
        if section.start > section.end || section.end > len {
            return false;
        }
        proof {
            let more = layout.sections@.take(index + 1);
            assert forall|i: int| 0 <= i < more.len() implies (#[trigger] more[i]).start
                <= more[i].end <= len by {
                if i < index {
                    assert(more[i] == layout.sections@.take(index as int)[i]);
                }
            }
        }
        index += 1;
    }
    assert(layout.sections@.take(index as int) =~= layout.sections@);
    true
}

/// List the work the sections a decrypted header describes imply.
///
/// # Errors
///
/// Returns an error for the first section encrypted with a scheme that is not implemented here, or
/// reported as CTR-encrypted without a counter.
pub fn plan_sections(layout: &NcaLayout) -> (out: Result<Plan, DecryptError>)
    ensures
        match planned(layout.sections@, 0) {
            Ok(sections) => {
                &&& out matches Ok(plan)
                &&& plan.ctr_sections@ == sections
                &&& plan.key_generation == layout.key_generation
                &&& plan.key_area == layout.encrypted_keys
            },
            Err(error) => out == Err::<Plan, DecryptError>(error),
        },
        out matches Ok(plan) ==> forall|len: int|
            layout_fits(layout.sections@, len) ==> #[trigger] sections_fit(
                plan.ctr_sections@,
                len,
            ),
{
    let mut ctr_sections: Vec<CtrSection> = Vec::new();
    let mut index: usize = 0;
    while index < layout.sections.len()
        invariant
            index <= layout.sections@.len(),
            planned(layout.sections@, 0) == match planned(layout.sections@, index as int) {
                Ok(rest) => Ok(ctr_sections@ + rest),
                Err(error) => Err(error),
            },
            forall|len: int|
                layout_fits(layout.sections@, len) ==> #[trigger] sections_fit(ctr_sections@, len),
        decreases layout.sections@.len() - index,
    {
        let section = layout.sections[index];
        let ghost earlier = ctr_sections@;
        let ghost rest = planned(layout.sections@, index + 1);
        match section.encryption {
            NcaCryptType::Plaintext => {},
            NcaCryptType::Ctr => {
                let counter = match section.counter {
                    Some(counter) => counter,
                    None => {
                        return Err(DecryptError::MissingCounter { section_index: section.index });
                    },
                };
                let ctr = CtrSection { start: section.start, end: section.end, counter };
                ctr_sections.push(ctr);
                proof {
                    if let Ok(rest) = rest {
                        assert(earlier + (seq![ctr] + rest) =~= ctr_sections@ + rest);
                    }
                    assert forall|len: int| layout_fits(layout.sections@, len) implies #[trigger] sections_fit(
                        ctr_sections@,
                        len,
                    ) by {
                        assert(sections_fit(earlier, len));
                        assert(layout.sections@[index as int] == section);
                        assert forall|i: int| 0 <= i < ctr_sections@.len() implies (
                        #[trigger] ctr_sections@[i]).start <= ctr_sections@[i].end <= len by {
                            if i < earlier.len() {
                                assert(ctr_sections@[i] == earlier[i]);
                            }
                        }
                    }
                }
            },
            scheme => {
                return Err(
                    DecryptError::UnsupportedEncryption {
                        section_index: section.index,
                        scheme: scheme.to_u8(),
                    },
                );
            },
        }
        index += 1;
    }
    assert(ctr_sections@ + seq![] =~= ctr_sections@);
    Ok(Plan { key_generation: layout.key_generation, key_area: layout.encrypted_keys, ctr_sections })
}

/// The sections from `from` on, if none of them stands in the way, are planned as the CTR sections
/// among them.
proof fn lemma_planned_from(sections: Seq<SectionLayout>, from: int)
    requires
        0 <= from <= sections.len(),
        forall|i: int|
            from <= i < sections.len() ==> (#[trigger] sections[i]).encryption is Plaintext || (
            sections[i].encryption is Ctr && sections[i].counter is Some),
    ensures
        planned(sections, from) == Ok::<Seq<CtrSection>, DecryptError>(
            sections.skip(from).filter(|s: SectionLayout| s.encryption is Ctr).map_values(
                |s: SectionLayout|
                    CtrSection { start: s.start, end: s.end, counter: s.counter->0 },
            ),
        ),
    decreases sections.len() - from,
{
    let kept = |s: SectionLayout| s.encryption is Ctr;
    let made = |s: SectionLayout|
        CtrSection { start: s.start, end: s.end, counter: s.counter->0 };
    if from == sections.len() {
        reveal(Seq::filter);
        assert(sections.skip(from).filter(kept).map_values(made) =~= seq![]);
    } else {
        lemma_planned_from(sections, from + 1);
        let rest = sections.skip(from + 1);
        assert(sections.skip(from) =~= seq![sections[from]] + rest);
        rest.lemma_filter_prepend(sections[from], kept);
        if kept(sections[from]) {
            assert((seq![sections[from]] + rest.filter(kept)).map_values(made) =~= seq![
                made(sections[from]),
            ] + rest.filter(kept).map_values(made));
        } else {
            assert(Seq::<SectionLayout>::empty() + rest.filter(kept) =~= rest.filter(kept));
        }
    }
}

/// The first section that stands in the way decides how planning ends.
proof fn lemma_planning_ends_at(sections: Seq<SectionLayout>, from: int, first: int)
    requires
        0 <= from <= first < sections.len(),
        forall|i: int|
            from <= i < first ==> (#[trigger] sections[i]).encryption is Plaintext || (
            sections[i].encryption is Ctr && sections[i].counter is Some),
    ensures
        planned(sections, first) is Err ==> planned(sections, from) == planned(sections, first),
    decreases first - from,
{
    if from < first {
        lemma_planning_ends_at(sections, from + 1, first);
    }
}

/// A layout whose sections are each in the clear, or CTR-encrypted with a counter, in whatever order,
/// is planned as exactly its CTR sections, in order, each with its own bounds and counter.
pub proof fn law_plaintext_and_ctr_sections_are_planned(sections: Seq<SectionLayout>)
    requires
        forall|i: int|
            0 <= i < sections.len() ==> (#[trigger] sections[i]).encryption is Plaintext || (
            sections[i].encryption is Ctr && sections[i].counter is Some),
    ensures
        planned(sections, 0) == Ok::<Seq<CtrSection>, DecryptError>(
            sections.filter(|s: SectionLayout| s.encryption is Ctr).map_values(
                |s: SectionLayout|
                    CtrSection { start: s.start, end: s.end, counter: s.counter->0 },
            ),
        ),
{
    lemma_planned_from(sections, 0);
    assert(sections.skip(0) =~= sections);
}

/// Planning fails exactly on the first section that is XTS- or BKTR-encrypted, or CTR-encrypted
/// without a counter, and says which it is and why.
pub proof fn law_planning_fails_on_the_first_section_it_cannot_undo(
    sections: Seq<SectionLayout>,
    first: int,
)
    requires
        0 <= first < sections.len(),
        !(sections[first].encryption is Plaintext),
        !(sections[first].encryption is Ctr && sections[first].counter is Some),
        forall|i: int|
            0 <= i < first ==> (#[trigger] sections[i]).encryption is Plaintext || (
            sections[i].encryption is Ctr && sections[i].counter is Some),
    ensures
        planned(sections, 0) == Err::<Seq<CtrSection>, DecryptError>(
            match sections[first].encryption {
                NcaCryptType::Xts => DecryptError::UnsupportedEncryption {
                    section_index: sections[first].index,
                    scheme: 2,
                },
                NcaCryptType::Bktr => DecryptError::UnsupportedEncryption {
                    section_index: sections[first].index,
                    scheme: 4,
                },
                _ => DecryptError::MissingCounter { section_index: sections[first].index },
            },
        ),
{
    lemma_planning_ends_at(sections, 0, first);
}

/// Only the header is decrypted at first: its `0xC00` bytes become what AES-XTS in sectors of `0x200`
/// makes of them, and everything after them stays.
pub proof fn law_only_the_header_is_opened_first(image: Seq<u8>, key: Seq<u8>)
    requires
        image.len() >= 0xC00,
    ensures
        header_opened(image, key).len() == image.len(),
        header_opened(image, key).subrange(0, 0xC00) == xts_decrypted(
            key,
            image.subrange(0, 0xC00),
            0x200,
        ),
        forall|p: int|
            0xC00 <= p < image.len() ==> #[trigger] header_opened(image, key)[p] == image[p],
{
    assert(image.take(0xC00) =~= image.subrange(0, 0xC00));
    assert(header_opened(image, key).subrange(0, 0xC00) =~= xts_decrypted(
        key,
        image.subrange(0, 0xC00),
        0x200,
    ));
}

/// What stands in the way of a decryption, in the order it is found: no header key; less than a
/// header; a header that is no NCA's, or that puts a section outside the archive; a section that
/// cannot be undone; a generation no keyset has; and no key area key for it. Without any of these the
/// archive is opened.
pub proof fn law_decryption_fails_for_these_reasons_alone(
    image: Seq<u8>,
    layout: Option<NcaLayout>,
    keyset: Keyset,
)
    requires
        image.len() <= usize::MAX,
    ensures
        match opened(image, layout, keyset) {
            Err(DecryptError::MissingHeaderKey) => keyset.header() is None,
            Err(DecryptError::TooSmall { available }) => {
                &&& keyset.header() is Some
                &&& image.len() < 0xC00
                &&& available == image.len()
            },
            Err(error) => {
                &&& keyset.header() is Some
                &&& image.len() >= 0xC00
                &&& match layout {
                    None => error is Parse,
                    Some(layout) => if exists|i: int|
                        0 <= i < layout.sections@.len() && !((#[trigger] layout.sections@[i]).start
                            <= layout.sections@[i].end <= image.len()) {
                        error is Parse
                    } else if planned(layout.sections@, 0) is Err {
                        planned(layout.sections@, 0) == Err::<Seq<CtrSection>, DecryptError>(error)
                    } else if layout.key_generation < 1 || layout.key_generation > 32 {
                        error == (DecryptError::UnknownKeyGeneration {
                            generation: layout.key_generation,
                        })
                    } else {
                        keyset.area_key(layout.key_generation) is None && error
                            == (DecryptError::MissingKeyAreaKey {
                            generation: layout.key_generation,
                        })
                    },
                }
            },
            Ok(_) => {
                &&& keyset.header() is Some
                &&& image.len() >= 0xC00
                &&& layout matches Some(layout)
                &&& forall|i: int|
                    0 <= i < layout.sections@.len() ==> (#[trigger] layout.sections@[i]).start
                        <= layout.sections@[i].end <= image.len()
                &&& planned(layout.sections@, 0) is Ok
                &&& 1 <= layout.key_generation <= 32
                &&& keyset.area_key(layout.key_generation) is Some
            },
        },
{
    if keyset.header() is Some && image.len() >= 0xC00 {
        let bytes = header_opened(image, keyset.header()->0);
        law_only_the_header_is_opened_first(image, keyset.header()->0);
        assert(bytes.len() == image.len());
        if layout is Some {
            lemma_planning_errs_on_a_section(layout->0.sections@, 0);
        }
    }
}

/// Planning fails on a section, and in no other way.
proof fn lemma_planning_errs_on_a_section(sections: Seq<SectionLayout>, from: int)
    ensures
        planned(sections, from) matches Err(error) ==> error is MissingCounter
            || error is UnsupportedEncryption,
    decreases sections.len() - from,
{
    if from < sections.len() {
        lemma_planning_errs_on_a_section(sections, from + 1);
    }
}

/// A CTR section of a layout, as it is planned.
spec fn ctr_of(section: SectionLayout) -> CtrSection {
    CtrSection { start: section.start, end: section.end, counter: section.counter->0 }
}

/// Whether `planned` is what section `i` is planned as.
spec fn plans(sections: Seq<SectionLayout>, i: int, planned: CtrSection) -> bool {
    sections[i].encryption is Ctr && sections[i].counter is Some && planned == ctr_of(sections[i])
}

/// Whether `planned` is what some section from `from` on is planned as.
spec fn comes_from(sections: Seq<SectionLayout>, from: int, planned: CtrSection) -> bool {
    exists|i: int| from <= i < sections.len() && #[trigger] plans(sections, i, planned)
}

/// The sections planned are CTR sections of the layout, no two of them at the same place, and every
/// CTR section of the layout is among them.
proof fn lemma_planned_sections(sections: Seq<SectionLayout>, from: int)
    requires
        0 <= from,
        planned(sections, from) is Ok,
        forall|i: int, j: int|
            0 <= i < j < sections.len() ==> (#[trigger] sections[i]).end <= (
            #[trigger] sections[j]).start || sections[j].end <= sections[i].start,
    ensures
        forall|k: int|
            0 <= k < planned(sections, from)->Ok_0.len() ==> comes_from(
                sections,
                from,
                #[trigger] planned(sections, from)->Ok_0[k],
            ),
        forall|i: int|
            from <= i < sections.len() && (#[trigger] sections[i]).encryption is Ctr
                ==> sections[i].counter is Some && planned(sections, from)->Ok_0.contains(
                ctr_of(sections[i]),
            ),
        forall|k: int, l: int|
            0 <= k < l < planned(sections, from)->Ok_0.len() ==> (
            #[trigger] planned(sections, from)->Ok_0[k]).end <= (
            #[trigger] planned(sections, from)->Ok_0[l]).start
                || planned(sections, from)->Ok_0[l].end <= planned(sections, from)->Ok_0[k].start,
    decreases sections.len() - from,
{
    let list = planned(sections, from)->Ok_0;
    if from < sections.len() {
        lemma_planned_sections(sections, from + 1);
        let rest = planned(sections, from + 1)->Ok_0;
        let section = sections[from];
        if section.encryption is Ctr {
            let own = ctr_of(section);
            assert(list == seq![own] + rest);
            assert forall|k: int| 0 <= k < list.len() implies comes_from(
                sections,
                from,
                #[trigger] list[k],
            ) by {
                if k == 0 {
                    assert(plans(sections, from, list[0]));
                } else {
                    assert(list[k] == rest[k - 1]);
                    assert(comes_from(sections, from + 1, rest[k - 1]));
                    let i = choose|i: int|
                        from + 1 <= i < sections.len() && #[trigger] plans(
                            sections,
                            i,
                            rest[k - 1],
                        );
                    assert(plans(sections, i, list[k]));
                }
            }
            assert forall|i: int|
                from <= i < sections.len() && (
                #[trigger] sections[i]).encryption is Ctr implies sections[i].counter is Some
                && list.contains(ctr_of(sections[i])) by {
                let wanted = ctr_of(sections[i]);
                if i == from {
                    assert(list[0] == wanted);
                } else {
                    let k = choose|k: int| 0 <= k < rest.len() && rest[k] == wanted;
                    assert(list[k + 1] == wanted);
                }
            }
            assert forall|k: int, l: int| 0 <= k < l < list.len() implies (#[trigger] list[k]).end
                <= (#[trigger] list[l]).start || list[l].end <= list[k].start by {
                assert(list[l] == rest[l - 1]);
                if k == 0 {
                    assert(comes_from(sections, from + 1, rest[l - 1]));
                    let i = choose|i: int|
                        from + 1 <= i < sections.len() && #[trigger] plans(
                            sections,
                            i,
                            rest[l - 1],
                        );
                    assert(sections[from].end <= sections[i].start || sections[i].end
                        <= sections[from].start);
                } else {
                    assert(list[k] == rest[k - 1]);
                }
            }
        } else {
            assert(list == rest);
            assert forall|k: int| 0 <= k < list.len() implies comes_from(
                sections,
                from,
                #[trigger] list[k],
            ) by {
                assert(comes_from(sections, from + 1, rest[k]));
                let i = choose|i: int|
                    from + 1 <= i < sections.len() && #[trigger] plans(sections, i, rest[k]);
                assert(plans(sections, i, list[k]));
            }
        }
    }
}

/// An archive whose sections lie after its header and do not overlap is opened with the third key of
/// its unwrapped key area: each CTR section becomes what AES-CTR from that section's own counter makes
/// of it, whatever the section before it holds, the header is decrypted on its own, and every other
/// byte stays as it is. The key area is what the key area key of the archive's own generation unwraps.
pub proof fn law_an_archive_is_opened_section_by_section(
    image: Seq<u8>,
    layout: NcaLayout,
    keyset: Keyset,
)
    requires
        opened(image, Some(layout), keyset) is Ok,
        forall|i: int| 0 <= i < layout.sections@.len() ==> (#[trigger] layout.sections@[i]).start
            >= 0xC00,
        forall|i: int, j: int|
            0 <= i < j < layout.sections@.len() ==> (#[trigger] layout.sections@[i]).end <= (
            #[trigger] layout.sections@[j]).start || layout.sections@[j].end
                <= layout.sections@[i].start,
    ensures
        ({
            let (bytes, area) = opened(image, Some(layout), keyset)->Ok_0;
            let keys = layout.encrypted_keys@;
            &&& area == ecb_decrypted(
                keyset.area_key(layout.key_generation)->0,
                keys[0]@ + keys[1]@ + keys[2]@ + keys[3]@,
            )
            &&& bytes.len() == image.len()
            &&& bytes.subrange(0, 0xC00) == xts_decrypted(
                keyset.header()->0,
                image.subrange(0, 0xC00),
                0x200,
            )
            &&& forall|i: int|
                0 <= i < layout.sections@.len() && (
                #[trigger] layout.sections@[i]).encryption is Ctr ==> {
                    let section = layout.sections@[i];
                    &&& section.counter is Some
                    &&& bytes.subrange(section.start as int, section.end as int) == ctr_applied(
                        area.subrange(0x20, 0x30),
                        section.counter->0@,
                        image.subrange(section.start as int, section.end as int),
                    )
                }
            &&& forall|p: int|
                0xC00 <= p < image.len() && (forall|i: int|
                    0 <= i < layout.sections@.len() && (
                    #[trigger] layout.sections@[i]).encryption is Ctr ==> !(
                    layout.sections@[i].start <= p < layout.sections@[i].end))
                    ==> #[trigger] bytes[p] == image[p]
        }),
{
    let sections = layout.sections@;
    let key = keyset.header()->0;
    let plain_header = header_opened(image, key);
    law_only_the_header_is_opened_first(image, key);
    let (bytes, area) = opened(image, Some(layout), keyset)->Ok_0;
    let list = planned(sections, 0)->Ok_0;
    lemma_planned_sections(sections, 0);
    let used = area.subrange(0x20, 0x30);
    assert(section_key(area) =~= used);
    assert(bytes == sections_applied(used, list, plain_header));
    assert forall|k: int| 0 <= k < list.len() implies (#[trigger] list[k]).start <= list[k].end
        <= plain_header.len() && list[k].start >= 0xC00 by {
        assert(comes_from(sections, 0, list[k]));
        let i = choose|i: int| 0 <= i < sections.len() && #[trigger] plans(sections, i, list[k]);
        assert(sections[i].start <= sections[i].end <= plain_header.len());
    }
    law_each_section_is_encrypted_from_its_own_counter(used, list, plain_header);
    assert forall|i: int| 0 <= i < sections.len() && (
    #[trigger] sections[i]).encryption is Ctr implies ({
        let section = sections[i];
        &&& section.counter is Some
        &&& bytes.subrange(section.start as int, section.end as int) == ctr_applied(
            used,
            section.counter->0@,
            image.subrange(section.start as int, section.end as int),
        )
    }) by {
        let section = sections[i];
        let wanted = ctr_of(section);
        assert(list.contains(wanted));
        let k = choose|k: int| 0 <= k < list.len() && list[k] == wanted;
        assert(list[k].start >= 0xC00);
        assert(plain_header.subrange(section.start as int, section.end as int) =~= image.subrange(
            section.start as int,
            section.end as int,
        ));
    }
    assert forall|p: int| 0 <= p < 0xC00 implies #[trigger] bytes[p] == plain_header[p] by {
        assert forall|k: int| 0 <= k < list.len() implies !((#[trigger] list[k]).start <= p
            < list[k].end) by {
            assert(list[k].start >= 0xC00);
        }
    }
    assert(bytes.subrange(0, 0xC00) =~= plain_header.subrange(0, 0xC00));
    assert forall|p: int|
        0xC00 <= p < image.len() && (forall|i: int|
            0 <= i < sections.len() && (#[trigger] sections[i]).encryption is Ctr ==> !(
            sections[i].start <= p < sections[i].end)) implies #[trigger] bytes[p] == image[p] by {
        assert forall|k: int| 0 <= k < list.len() implies !((#[trigger] list[k]).start <= p
            < list[k].end) by {
            assert(comes_from(sections, 0, list[k]));
            let i = choose|i: int|
                0 <= i < sections.len() && #[trigger] plans(sections, i, list[k]);
            assert(!(sections[i].start <= p < sections[i].end));
        }
        assert(bytes[p] == plain_header[p]);
    }
}

/// An archive is opened with the third key of its key area, over every section that is planned, in
/// order, once its header is plain.
pub proof fn law_the_third_key_opens_the_sections(
    image: Seq<u8>,
    layout: NcaLayout,
    keyset: Keyset,
)
    requires
        opened(image, Some(layout), keyset) is Ok,
    ensures
        ({
            let (bytes, area) = opened(image, Some(layout), keyset)->Ok_0;
            let keys = layout.encrypted_keys@;
            &&& area == ecb_decrypted(
                keyset.area_key(layout.key_generation)->0,
                keys[0]@ + keys[1]@ + keys[2]@ + keys[3]@,
            )
            &&& bytes == sections_applied(
                area.subrange(0x20, 0x30),
                planned(layout.sections@, 0)->Ok_0,
                header_opened(image, keyset.header()->0),
            )
        }),
{
}

} // verus!
