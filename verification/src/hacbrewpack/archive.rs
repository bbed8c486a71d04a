//! Turning a plaintext container into the encrypted archive the console loads.
//!
//! A builder hands over a container whose every field and hash is correct and whose bytes are all
//! in the clear. Four steps finish it, and their order is fixed by what each one covers:
//!
//! 1. Encrypt the sections the container names, with the key area's section key taken while it is
//!    still readable.
//! 2. Wrap the key area, which sits inside the range the header signature covers.
//! 3. Sign the header, now that the wrapped key area is in place.
//! 4. Encrypt the header, which is what the signature was computed over.
//!
//! The archive's name follows from the result rather than being chosen: an NCA is named by the first
//! sixteen bytes of its own hash, so it cannot be known until the bytes are final.

use crate::bytes::{all_zero, load, spliced, store};
use crate::container::{
    KeyGeneration, NcaLayout, HEADER_SECTOR_SIZE, KEY_AREA_OFFSET, KEY_AREA_SIZE, NCA_HEADER_SIZE,
    SECTION_KEY_INDEX,
};
use crate::crypto::{
    aes_ecb_encrypt, aes_xts_encrypt, ctr_applied, ecb_decrypted, ecb_encrypted, sha256,
    sha256_digest, xts_decrypted, xts_encrypted,
};
use crate::keyset::Keyset;
use crate::sections::{
    apply_sections, flattened, law_bytes_outside_every_section_are_untouched,
    law_each_section_is_encrypted_from_its_own_counter, law_sections_are_their_own_inverse, lemma_moved_mask, section_key, sections_applied, sections_fit, CtrSection,
};
use crate::signing::{
    is_advertised, rsa_public_half, sign_header, signed_range, signing_may_fail,
    stored_signature, verifies_under, SignError, SIGNATURE_SIZE, SIGNED_END, SIGNED_START,
};
use crate::text::{
    hex, hex_bytes, hex_text, law_each_byte_is_rendered_as_two_digits, lemma_hex_text_decodes_back,
};
use crate::unpack::nca::{header_opened, layout_fits, opened, planned, DecryptError};
use crate::unpack::verify::{signature_outcome, HeaderSignatureError, SignatureCheck};
use vstd::prelude::*;
use vstd::slice::slice_subrange;

verus! {

/// The keys one archive is finished with.
pub struct ArchiveKeys<'a> {
    /// Encrypts the header.
    pub header_key: &'a [u8; 0x20],
    /// Wraps the key area, which in turn holds the key the sections are encrypted with.
    pub key_area_key: &'a [u8; 0x10],
}

/// A container laid out and filled in, with every byte still in the clear.
pub struct PlainContainer {
    /// The header, its key area unwrapped and its second signature blank.
    pub header: [u8; 0xC00],
    /// Everything after the header.
    pub body: Vec<u8>,
    /// The sections of the body that are to be encrypted.
    pub ctr_sections: Vec<CtrSection>,
}

impl PlainContainer {
    /// Whether every section to be encrypted lies inside the body.
    pub open spec fn wf(&self) -> bool {
        sections_fit(self.ctr_sections@, self.body@.len() as int)
    }

    /// The key area, unwrapped.
    pub open spec fn key_area(&self) -> Seq<u8> {
        key_area_of(self.header@)
    }
}

/// The key area field of `header`.
pub open spec fn key_area_of(header: Seq<u8>) -> Seq<u8> {
    header.subrange(KEY_AREA_OFFSET as int, KEY_AREA_OFFSET + KEY_AREA_SIZE)
}

/// `header` with its key area wrapped under `key`.
pub open spec fn area_wrapped(header: Seq<u8>, key: Seq<u8>) -> Seq<u8> {
    spliced(header, KEY_AREA_OFFSET as int, ecb_encrypted(key, key_area_of(header)))
}

/// `header` with `signature`, if there is one, in its second signature field.
pub open spec fn signature_placed(header: Seq<u8>, signature: Option<[u8; 0x100]>) -> Seq<u8> {
    match signature {
        Some(signature) => spliced(header, SIGNATURE_SIZE as int, signature@),
        None => header,
    }
}

/// The header of `plain` as the finished archive carries it before it is encrypted: the key area
/// wrapped, and then signed.
pub open spec fn final_header(
    plain: PlainContainer,
    keys: ArchiveKeys<'_>,
    signature: Option<[u8; 0x100]>,
) -> Seq<u8> {
    signature_placed(area_wrapped(plain.header@, keys.key_area_key@), signature)
}

/// The archive `plain` is sealed into.
pub open spec fn sealed(
    plain: PlainContainer,
    keys: ArchiveKeys<'_>,
    signature: Option<[u8; 0x100]>,
) -> Seq<u8> {
    xts_encrypted(
        keys.header_key@,
        final_header(plain, keys, signature),
        HEADER_SECTOR_SIZE as int,
    ) + sections_applied(section_key(plain.key_area()), plain.ctr_sections@, plain.body@)
}

/// Whether `layout` is what a reader finds in the decrypted header of the archive `plain` is sealed
/// into: the wrapped key area, and the encrypted sections of the body where the archive has them.
pub open spec fn describes(layout: NcaLayout, plain: PlainContainer, header: Seq<u8>) -> bool {
    &&& flattened(layout.encrypted_keys) == key_area_of(header)
    &&& 1 <= layout.key_generation <= KeyGeneration::MAX
    &&& layout_fits(layout.sections@, NCA_HEADER_SIZE + plain.body@.len())
    &&& planned(layout.sections@, 0) == Ok::<Seq<CtrSection>, DecryptError>(
        plain.ctr_sections@.map_values(|section: CtrSection| section.moved(NCA_HEADER_SIZE)),
    )
}

/// Whether decrypting `image` with a keyset that holds `keys` gives back `header`, the body of
/// `plain`, and its key area, whatever keyset that is.
pub open spec fn reads_back(
    image: Seq<u8>,
    plain: PlainContainer,
    keys: ArchiveKeys<'_>,
    header: Seq<u8>,
) -> bool {
    forall|layout: NcaLayout, keyset: Keyset|
        {
            &&& describes(layout, plain, header)
            &&& keyset.header() == Some(keys.header_key@)
            &&& keyset.area_key(layout.key_generation) == Some(keys.key_area_key@)
        } ==> #[trigger] opened(image, Some(layout), keyset) == Ok::<
            (Seq<u8>, Seq<u8>),
            DecryptError,
        >((header + plain.body@, plain.key_area()))
}

/// A finished archive: the bytes to write and the identity they give it.
#[derive(Debug)]
pub struct Archive {
    /// The encrypted archive, header first.
    pub bytes: Vec<u8>,
    /// SHA-256 of `bytes`, which is what the content meta records.
    pub hash: [u8; 0x20],
}

/// The file name of an archive whose hash is `hash`, with `suffix` before `.nca`.
pub open spec fn archive_name(hash: Seq<u8>, suffix: Seq<char>) -> Seq<char> {
    if suffix.len() == 0 {
        hex_text(hash.take(0x10)) + ".nca"@
    } else {
        hex_text(hash.take(0x10)) + "."@ + suffix + ".nca"@
    }
}

impl Archive {
    /// The name the archive is stored under, which is the head of its own hash.
    pub fn nca_id(&self) -> (id: [u8; 0x10])
        ensures
            id@ == self.hash@.take(0x10),
    {
        load::<0x10>(&self.hash, 0)
    }

    /// The file name the archive is written as, with `suffix` appended before `.nca`.
    ///
    /// The metadata archive carries `cnmt` as its suffix, which is how a reader tells it apart from
    /// the contents it describes; every other archive passes an empty suffix.
    pub fn file_name(&self, suffix: &str) -> (name: String)
        ensures
            name@ == archive_name(self.hash@, suffix@),
    {
        let mut name = hex(&self.nca_id());
        if suffix.unicode_len() > 0 {
            name.append(".");
            name.append(suffix);
        }
        name.append(".nca");
        name
    }
}

/// Encrypt, sign, and seal `plain` into the archive the console loads.
///
/// The header is signed with the key in `signing_key`, and left unsigned when there is none.
/// Decrypting the result with the same keys gives back the header as it was signed, the body, and
/// the key area; signed with the advertised key, the header verifies, and left unsigned, it is found
/// to carry no signature.
///
/// # Errors
///
/// Returns an error if the header signature cannot be produced, which does not depend on the
/// container and so means the key is unusable rather than the title.
pub fn finish(
    plain: PlainContainer,
    keys: &ArchiveKeys<'_>,
    signing_key: Option<&str>,
) -> (out: Result<Archive, FinishError>)
    requires
        plain.wf(),
        NCA_HEADER_SIZE + plain.body@.len() <= usize::MAX,
    ensures
        signing_key is None ==> {
            &&& out matches Ok(archive)
            &&& archive.bytes@ == sealed(plain, *keys, None)
            &&& reads_back(archive.bytes@, plain, *keys, final_header(plain, *keys, None))
            &&& all_zero(stored_signature(plain.header@))
                ==> signature_outcome(final_header(plain, *keys, None) + plain.body@) == Ok::<
                SignatureCheck,
                HeaderSignatureError,
            >(SignatureCheck::Absent)
        },
        signing_key matches Some(pem) ==> match out {
            Ok(archive) => exists|signature: [u8; 0x100]|
                {
                    let header = final_header(plain, *keys, Some(signature));
                    &&& verifies_under(pem@, signed_range(header), signature@)
                    &&& archive.bytes@ == #[trigger] sealed(plain, *keys, Some(signature))
                    &&& reads_back(archive.bytes@, plain, *keys, header)
                    &&& is_advertised(pem@) ==> signature_outcome(header + plain.body@) == Ok::<
                        SignatureCheck,
                        HeaderSignatureError,
                    >(SignatureCheck::Verified)
                },
            Err(error) => {
                &&& (error.0 == SignError::ParseKey) == (rsa_public_half(pem@) is None)
                &&& signing_may_fail(pem@, error.0)
            },
        },
        out matches Ok(archive) ==> archive.hash@ == sha256(archive.bytes@),
{
    let signature = match signing_key {
        Some(pem) => {
            let mut header = plain.header;
            wrap_key_area(&mut header, keys.key_area_key);
            match sign_header(pem, slice_subrange(&header, SIGNED_START, SIGNED_END)) {
                Ok(signature) => Some(signature),
                Err(error) => return Err(FinishError(error)),
            }
        },
        None => None,
    };
    proof {
        if let Some(signature) = signature {
            lemma_signature_is_read_back(plain, *keys, signature);
        } else {
            let header = final_header(plain, *keys, None);
            assert(stored_signature(header + plain.body@) =~= stored_signature(plain.header@));
        }
    }
    Ok(seal(plain, keys, signature))
}

/// Encrypt and seal `plain` with `signature`, if there is one, in its second signature field.
///
/// Decrypting the result with the same keys gives back the header as it was sealed, the body, and
/// the key area.
pub fn seal(plain: PlainContainer, keys: &ArchiveKeys<'_>, signature: Option<[u8; 0x100]>) -> (out:
    Archive)
    requires
        plain.wf(),
        NCA_HEADER_SIZE + plain.body@.len() <= usize::MAX,
    ensures
        out.bytes@ == sealed(plain, *keys, signature),
        out.hash@ == sha256(out.bytes@),
        reads_back(out.bytes@, plain, *keys, final_header(plain, *keys, signature)),
{
    let mut header = plain.header;
    let mut body = plain.body;
    // Taken before the key area is wrapped, which is the last moment it can be read.
    let section_key_bytes = load::<0x10>(&header, KEY_AREA_OFFSET + SECTION_KEY_INDEX * 0x10);
    assert(section_key_bytes@ =~= section_key(plain.key_area()));
    apply_sections(&section_key_bytes, plain.ctr_sections.as_slice(), body.as_mut_slice());
    wrap_key_area(&mut header, keys.key_area_key);
    let ghost wrapped = header@;
    if let Some(signature) = &signature {
        store(&mut header, SIGNATURE_SIZE, signature);
    }
    let ghost finished = header@;
    assert(key_area_of(finished) =~= key_area_of(wrapped));
    assert(finished == final_header(plain, *keys, signature));
    aes_xts_encrypt(keys.header_key, &mut header, HEADER_SECTOR_SIZE);
    let ghost closed_header = header@;
    let ghost closed_body = body@;
    let mut bytes = vstd::slice::slice_to_vec(&header);
    bytes.append(&mut body);
    proof {
        assert(bytes@ == closed_header + closed_body);
        lemma_reads_back(plain, *keys, finished, closed_header, closed_body);
    }
    let hash = sha256_digest(bytes.as_slice());
    Archive { bytes, hash }
}

/// Wrap the key area of `header` under `key`.
fn wrap_key_area(header: &mut [u8; 0xC00], key: &[u8; 0x10])
    ensures
        final(header)@ == area_wrapped(old(header)@, key@),
        ecb_decrypted(key@, key_area_of(final(header)@)) == key_area_of(old(header)@),
{
    let ghost before = header@;
    let mut area = load::<0x40>(header, KEY_AREA_OFFSET);
    aes_ecb_encrypt(key, &mut area);
    store(header, KEY_AREA_OFFSET, &area);
    assert(key_area_of(header@) =~= area@);
}

/// A signature placed in a header leaves the range it covers as it was, and is found there when the
/// header is checked.
proof fn lemma_signature_is_read_back(
    plain: PlainContainer,
    keys: ArchiveKeys<'_>,
    signature: [u8; 0x100],
)
    ensures
        ({
            let header = final_header(plain, keys, Some(signature));
            let image = header + plain.body@;
            &&& signed_range(header) == signed_range(area_wrapped(plain.header@, keys.key_area_key@))
            &&& image.len() >= SIGNED_END
            &&& signed_range(image) == signed_range(header)
            &&& stored_signature(image) == signature@
        }),
{
    let header = final_header(plain, keys, Some(signature));
    let image = header + plain.body@;
    assert(signed_range(header) =~= signed_range(area_wrapped(plain.header@, keys.key_area_key@)));
    assert(signed_range(image) =~= signed_range(header));
    assert(stored_signature(image) =~= signature@);
}

/// Decrypting a sealed archive undoes each step of sealing it.
proof fn lemma_reads_back(
    plain: PlainContainer,
    keys: ArchiveKeys<'_>,
    header: Seq<u8>,
    closed_header: Seq<u8>,
    closed_body: Seq<u8>,
)
    requires
        plain.wf(),
        NCA_HEADER_SIZE + plain.body@.len() <= usize::MAX,
        header.len() == NCA_HEADER_SIZE,
        closed_header.len() == NCA_HEADER_SIZE,
        xts_decrypted(keys.header_key@, closed_header, HEADER_SECTOR_SIZE as int) == header,
        ecb_decrypted(keys.key_area_key@, key_area_of(header)) == plain.key_area(),
        closed_body == sections_applied(
            section_key(plain.key_area()),
            plain.ctr_sections@,
            plain.body@,
        ),
    ensures
        reads_back(closed_header + closed_body, plain, keys, header),
{
    let image = closed_header + closed_body;
    let key = section_key(plain.key_area());
    let moved = plain.ctr_sections@.map_values(
        |section: CtrSection| section.moved(NCA_HEADER_SIZE),
    );
    assert(image.take(NCA_HEADER_SIZE as int) =~= closed_header);
    assert(image.skip(NCA_HEADER_SIZE as int) =~= closed_body);
    let bytes = header_opened(image, keys.header_key@);
    assert(bytes == header + closed_body);
    let recovered = sections_applied(key, moved, bytes);
    assert forall|p: int| 0 <= p < recovered.len() implies recovered[p] == (header + plain.body@)[p] by {
        if p < NCA_HEADER_SIZE {
            assert forall|i: int| 0 <= i < moved.len() implies !(#[trigger] moved[i]).covers(p) by {
                assert(plain.ctr_sections@[i].start <= plain.ctr_sections@[i].end);
            }
            law_bytes_outside_every_section_are_untouched(key, moved, bytes, p);
        } else {
            let q = p - NCA_HEADER_SIZE;
            lemma_moved_mask(
                key,
                plain.ctr_sections@,
                NCA_HEADER_SIZE,
                plain.body@.len() as int,
                q,
            );
            law_sections_are_their_own_inverse(key, plain.ctr_sections@, plain.body@);
            assert(sections_applied(key, plain.ctr_sections@, closed_body)[q] == plain.body@[q]);
        }
    }
    assert(recovered =~= header + plain.body@);
}

/// The header signature could not be produced.
///
/// Returned by [`finish`], which fails in no other way: the ciphers it runs are total over the bytes
/// a builder produces.
#[derive(Debug, Clone, Copy, PartialEq, Eq)]
pub struct FinishError(pub SignError);

/// Both signatures cover the `0x200` bytes from the magic at `0x200` on, and the second stands in the
/// `0x100` bytes before them.
pub proof fn law_the_signature_stands_before_what_it_covers(image: Seq<u8>)
    ensures
        signed_range(image) == image.subrange(0x200, 0x400),
        stored_signature(image) == image.subrange(0x100, 0x200),
{
}

/// The header an archive is sealed with is the one handed over, but for its key area, the `0x40` bytes
/// at `0x300`, which is wrapped under the key area key, and its second signature, if there is one.
pub proof fn law_a_header_is_wrapped_and_then_signed(
    plain: PlainContainer,
    keys: ArchiveKeys<'_>,
    signature: Option<[u8; 0x100]>,
)
    ensures
        ({
            let header = final_header(plain, keys, signature);
            &&& header.len() == 0xC00
            &&& header.subrange(0x300, 0x340) == ecb_encrypted(
                keys.key_area_key@,
                plain.header@.subrange(0x300, 0x340),
            )
            &&& header.subrange(0x100, 0x200) == match signature {
                Some(signature) => signature@,
                None => plain.header@.subrange(0x100, 0x200),
            }
            &&& forall|p: int|
                0 <= p < 0xC00 && !(0x100 <= p < 0x200) && !(0x300 <= p < 0x340) ==> (
                #[trigger] header[p]) == plain.header@[p]
        }),
{
    let header = final_header(plain, keys, signature);
    assert(header.subrange(0x300, 0x340) =~= ecb_encrypted(
        keys.key_area_key@,
        plain.header@.subrange(0x300, 0x340),
    ));
    assert(header.subrange(0x100, 0x200) =~= match signature {
        Some(signature) => signature@,
        None => plain.header@.subrange(0x100, 0x200),
    });
}

/// An archive is its header, encrypted with AES-XTS in sectors of `0x200`, and then its body. Of a body
/// whose sections do not overlap, each section is what AES-CTR under the third key of the unwrapped
/// key area, from that section's own counter, makes of it, and every other byte stays as it is.
pub proof fn law_an_archive_is_sealed_section_by_section(
    plain: PlainContainer,
    keys: ArchiveKeys<'_>,
    signature: Option<[u8; 0x100]>,
)
    requires
        forall|i: int|
            0 <= i < plain.ctr_sections@.len() ==> (#[trigger] plain.ctr_sections@[i]).start
                <= plain.ctr_sections@[i].end <= plain.body@.len(),
        forall|i: int, j: int|
            0 <= i < j < plain.ctr_sections@.len() ==> (#[trigger] plain.ctr_sections@[i]).end <= (
            #[trigger] plain.ctr_sections@[j]).start || plain.ctr_sections@[j].end
                <= plain.ctr_sections@[i].start,
    ensures
        ({
            let bytes = sealed(plain, keys, signature);
            let key = plain.header@.subrange(0x320, 0x330);
            &&& bytes.len() == 0xC00 + plain.body@.len()
            &&& bytes.subrange(0, 0xC00) == xts_encrypted(
                keys.header_key@,
                final_header(plain, keys, signature),
                0x200,
            )
            &&& forall|i: int|
                0 <= i < plain.ctr_sections@.len() ==> bytes.subrange(
                    0xC00 + (#[trigger] plain.ctr_sections@[i]).start,
                    0xC00 + plain.ctr_sections@[i].end,
                ) == ctr_applied(
                    key,
                    plain.ctr_sections@[i].counter@,
                    plain.body@.subrange(
                        plain.ctr_sections@[i].start as int,
                        plain.ctr_sections@[i].end as int,
                    ),
                )
            &&& forall|p: int|
                0 <= p < plain.body@.len() && (forall|i: int|
                    0 <= i < plain.ctr_sections@.len() ==> !((
                    #[trigger] plain.ctr_sections@[i]).start <= p < plain.ctr_sections@[i].end))
                    ==> bytes[0xC00 + p] == #[trigger] plain.body@[p]
        }),
{
    let bytes = sealed(plain, keys, signature);
    let key = plain.header@.subrange(0x320, 0x330);
    let sections = plain.ctr_sections@;
    let closed = sections_applied(key, sections, plain.body@);
    assert(section_key(plain.key_area()) =~= key);
    law_each_section_is_encrypted_from_its_own_counter(key, sections, plain.body@);
    law_a_header_is_wrapped_and_then_signed(plain, keys, signature);
    let head = xts_encrypted(keys.header_key@, final_header(plain, keys, signature), 0x200);
    assert(bytes == head + closed);
    assert(bytes.subrange(0, 0xC00) =~= head);
    assert forall|i: int| 0 <= i < sections.len() implies bytes.subrange(
        0xC00 + (#[trigger] sections[i]).start,
        0xC00 + sections[i].end,
    ) == ctr_applied(
        key,
        sections[i].counter@,
        plain.body@.subrange(sections[i].start as int, sections[i].end as int),
    ) by {
        assert(bytes.subrange(0xC00 + sections[i].start, 0xC00 + sections[i].end)
            =~= closed.subrange(sections[i].start as int, sections[i].end as int));
    }
    assert forall|p: int|
        0 <= p < plain.body@.len() && (forall|i: int|
            0 <= i < sections.len() ==> !((#[trigger] sections[i]).start <= p
                < sections[i].end)) implies bytes[0xC00 + p] == #[trigger] plain.body@[p] by {
        assert(closed[p] == plain.body@[p]);
    }
}

/// An archive is named by the thirty-two lowercase digits of the first half of its hash, and after
/// them a suffix, if it has one, between dots.
pub proof fn law_an_archive_is_named_by_the_head_of_its_hash(hash: Seq<u8>, suffix: Seq<char>)
    requires
        hash.len() == 0x20,
    ensures
        ({
            let name = archive_name(hash, suffix);
            &&& hex_bytes(name.take(32)) == Some(hash.subrange(0, 16))
            &&& forall|i: int|
                0 <= i < 32 ==> "0123456789abcdef"@.contains(#[trigger] name[i])
            &&& suffix.len() == 0 ==> name.skip(32) == seq!['.', 'n', 'c', 'a']
            &&& suffix.len() > 0 ==> name.skip(32) == seq!['.'] + suffix + seq!['.', 'n', 'c', 'a']
        }),
{
    reveal_strlit(".");
    reveal_strlit(".nca");
    reveal_strlit("0123456789abcdef");
    let name = archive_name(hash, suffix);
    let head = hash.subrange(0, 16);
    assert(hash.take(0x10) =~= head);
    lemma_hex_text_decodes_back(head);
    assert(name.take(32) =~= hex_text(head));
    assert(".nca"@ =~= seq!['.', 'n', 'c', 'a']);
    assert("."@ =~= seq!['.']);
    if suffix.len() == 0 {
        assert(name.skip(32) =~= seq!['.', 'n', 'c', 'a']);
    } else {
        assert(name.skip(32) =~= seq!['.'] + suffix + seq!['.', 'n', 'c', 'a']);
    }
    assert forall|i: int| 0 <= i < 32 implies "0123456789abcdef"@.contains(#[trigger] name[i]) by {
        law_each_byte_is_rendered_as_two_digits(head, i / 2);
        assert(name[i] == hex_text(head)[i]);
        let at = if i % 2 == 0 { head[i / 2] as int / 16 } else { head[i / 2] as int % 16 };
        assert("0123456789abcdef"@[at] == name[i]);
    }
}

/// An archive is its encrypted header and then its body with every section encrypted, in order, under
/// the third key of the key area as it was before it was wrapped.
pub proof fn law_the_third_key_seals_the_sections(
    plain: PlainContainer,
    keys: ArchiveKeys<'_>,
    signature: Option<[u8; 0x100]>,
)
    ensures
        sealed(plain, keys, signature) == xts_encrypted(
            keys.header_key@,
            final_header(plain, keys, signature),
            0x200,
        ) + sections_applied(
            plain.header@.subrange(0x320, 0x330),
            plain.ctr_sections@,
            plain.body@,
        ),
{
    assert(section_key(plain.key_area()) =~= plain.header@.subrange(0x320, 0x330));
}

} // verus!
