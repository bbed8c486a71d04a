//! The two hexadecimal settings an archive is stamped with, parsed once at the boundary.

use crate::bytes::{be_array, be_bytes};
use crate::text::{
    chars_of, dec_u64, decimal, decode_hex, hex, hex_bytes, hex_reading, hex_text, hex_value,
    law_a_number_is_read_as_what_its_digits_stand_for, law_a_plus_and_a_prefix_are_optional,
    law_digits_are_decoded_two_by_two, law_what_is_no_digit_is_refused,
    lemma_hex_text_decodes_back, parse_hex, place_value, without_prefix, NumberError,
};
use vstd::prelude::*;
use vstd::utf8::{encode_utf8, is_ascii_chars, is_ascii_chars_encode_utf8};

verus! {

/// The SDK an archive claims to have been built with.
///
/// Stored as one word that unpacks into `major.minor.micro.revision`. The floor is not arbitrary:
/// the loader rejects an archive claiming an SDK older than the one that introduced the container
/// layout written here.
#[derive(Debug, Clone, Copy, PartialEq, Eq, PartialOrd, Ord)]
pub struct SdkVersion(u32);

impl View for SdkVersion {
    type V = u32;

    closed spec fn view(&self) -> u32 {
        self.0
    }
}

/// Whether the loader accepts `value` as an SDK version.
pub open spec fn is_sdk_version(value: u32) -> bool {
    SdkVersion::MIN <= value <= SdkVersion::MAX
}

/// The version `text` names, or why it names none.
pub open spec fn sdk_version_of(text: Seq<char>) -> Result<u32, ParseSdkVersionError> {
    match hex_reading(without_prefix(text), u32::MAX as nat) {
        Err(error) => Err(ParseSdkVersionError::Malformed(error)),
        Ok(value) => if is_sdk_version(value as u32) {
            Ok(value as u32)
        } else {
            Err(ParseSdkVersionError::OutOfRange { value: value as u32 })
        },
    }
}

/// `value` as the dotted `major.minor.micro.revision` the console reports.
pub open spec fn dotted(value: u32) -> Seq<char> {
    let parts = be_bytes(value as nat, 4);
    decimal(parts[0] as int) + "."@ + decimal(parts[1] as int) + "."@ + decimal(parts[2] as int)
        + "."@ + decimal(parts[3] as int)
}

impl SdkVersion {
    /// Oldest SDK the loader accepts for this container layout.
    pub const MIN: u32 = 0x000B0000;

    /// Newest SDK the field can express.
    pub const MAX: u32 = 0x00FFFFFF;

    #[verifier::type_invariant]
    spec fn in_range(self) -> bool {
        is_sdk_version(self.0)
    }

    /// The version as the packed word the header stores.
    pub fn to_u32(self) -> (value: u32)
        ensures
            value == self@,
            is_sdk_version(value),
    {
        proof {
            use_type_invariant(&self);
        }
        self.0
    }

    /// The version `value` packs, if the loader accepts it.
    ///
    /// # Errors
    ///
    /// Returns an error if the value is outside what the loader accepts.
    pub fn try_from(value: u32) -> (out: Result<Self, ParseSdkVersionError>)
        ensures
            match out {
                Ok(version) => is_sdk_version(value) && version@ == value,
                Err(error) => !is_sdk_version(value) && error
                    == (ParseSdkVersionError::OutOfRange { value }),
            },
    {
        if value < Self::MIN || value > Self::MAX {
            return Err(ParseSdkVersionError::OutOfRange { value });
        }
        Ok(SdkVersion(value))
    }

    /// Read a version written in hex, with or without a leading `0x`.
    ///
    /// # Errors
    ///
    /// Returns an error if the text is not a hexadecimal number, or names a version outside what
    /// the loader accepts.
    pub fn from_str(input: &str) -> (out: Result<Self, ParseSdkVersionError>)
        ensures
            match out {
                Ok(version) => sdk_version_of(input@) == Ok::<u32, ParseSdkVersionError>(version@),
                Err(error) => sdk_version_of(input@) == Err::<u32, ParseSdkVersionError>(error),
            },
    {
        let chars = chars_of(input);
        let start: usize = if chars.len() >= 2 && chars[0] == '0' && chars[1] == 'x' {
            2
        } else {
            0
        };
        assert(chars@.skip(start as int) =~= without_prefix(input@));
        match parse_hex(chars.as_slice(), start, u32::MAX as u64) {
            Ok(value) => Self::try_from(value as u32),
            Err(error) => Err(ParseSdkVersionError::Malformed(error)),
        }
    }

    /// Render as the dotted `major.minor.micro.revision` the console reports, so `0x000C1100` reads
    /// as `0.12.17.0`.
    pub fn to_string(&self) -> (out: String)
        ensures
            out@ == dotted(self@),
    {
        let parts = be_array::<4>(self.0 as u128);
        let mut out = dec_u64(parts[0] as u64);
        out.append(".");
        out.append(dec_u64(parts[1] as u64).as_str());
        out.append(".");
        out.append(dec_u64(parts[2] as u64).as_str());
        out.append(".");
        out.append(dec_u64(parts[3] as u64).as_str());
        out
    }
}

impl Default for SdkVersion {
    fn default() -> (version: Self)
        ensures
            version@ == 0x000C1100,
    {
        SdkVersion(0x000C1100)
    }
}

impl std::str::FromStr for SdkVersion {
    type Err = ParseSdkVersionError;

    fn from_str(input: &str) -> (out: Result<Self, ParseSdkVersionError>)
        ensures
            match out {
                Ok(version) => sdk_version_of(input@) == Ok::<u32, ParseSdkVersionError>(version@),
                Err(error) => sdk_version_of(input@) == Err::<u32, ParseSdkVersionError>(error),
            },
    {
        SdkVersion::from_str(input)
    }
}

/// Error returned when an SDK version cannot be built.
#[derive(Debug, Clone, Copy, PartialEq, Eq, Structural)]
pub enum ParseSdkVersionError {
    /// The input is not a hexadecimal number.
    Malformed(NumberError),
    /// The version is outside what the loader accepts.
    ///
    /// Holds the rejected value.
    OutOfRange {
        /// The rejected value.
        value: u32,
    },
}

/// The AES-128 key an archive's sections are encrypted with, before the key area wraps it.
///
/// Any sixteen bytes work: the key travels inside the archive's own key area, so it is a per-archive
/// value rather than a shared secret.
#[derive(Debug, Clone, Copy, PartialEq, Eq)]
pub struct KeyAreaKey([u8; 0x10]);

impl View for KeyAreaKey {
    type V = Seq<u8>;

    closed spec fn view(&self) -> Seq<u8> {
        self.0@
    }
}

/// The key `text` writes out, or why it writes none. The length that counts is in bytes.
pub open spec fn key_area_key_of(text: Seq<char>) -> Result<Seq<u8>, ParseKeyAreaKeyError> {
    if encode_utf8(text).len() != 0x20 {
        Err(ParseKeyAreaKeyError::WrongLength { length: encode_utf8(text).len() as usize })
    } else {
        match hex_bytes(text) {
            Some(key) => Ok(key),
            None => Err(ParseKeyAreaKeyError::Malformed),
        }
    }
}

impl KeyAreaKey {
    /// The key as the bytes that go into the key area.
    pub fn to_bytes(self) -> (bytes: [u8; 0x10])
        ensures
            bytes@ == self@,
    {
        self.0
    }

    /// Read a key written as thirty-two hex digits.
    ///
    /// # Errors
    ///
    /// Returns an error if the text is not thirty-two bytes long, or is not hexadecimal.
    pub fn from_str(input: &str) -> (out: Result<Self, ParseKeyAreaKeyError>)
        ensures
            match out {
                Ok(key) => key_area_key_of(input@) == Ok::<
                    Seq<u8>,
                    ParseKeyAreaKeyError,
                >(key@) && key@.len() == 0x10,
                Err(error) => key_area_key_of(input@) == Err::<
                    Seq<u8>,
                    ParseKeyAreaKeyError,
                >(error),
            },
    {
        let length = input.as_bytes().len();
        if length != 0x20 {
            return Err(ParseKeyAreaKeyError::WrongLength { length });
        }
        let chars = chars_of(input);
        assert(chars@.subrange(0, chars@.len() as int) =~= input@);
        match decode_hex(chars.as_slice(), 0, chars.len()) {
            Some(bytes) => {
                proof {
                    lemma_hex_is_one_byte_per_digit(input@);
                }
                let key = crate::bytes::load::<0x10>(bytes.as_slice(), 0);
                assert(bytes@.subrange(0, 0x10) =~= bytes@);
                Ok(KeyAreaKey(key))
            },
            None => Err(ParseKeyAreaKeyError::Malformed),
        }
    }

    /// Render as the thirty-two lowercase hex digits the key is written as, with no separators.
    pub fn to_hex_string(&self) -> (out: String)
        ensures
            out@ == hex_text(self@),
    {
        hex(&self.0)
    }
}

impl Default for KeyAreaKey {
    fn default() -> (key: Self)
        ensures
            key@ == Seq::new(0x10, |i: int| 4u8),
    {
        let key = KeyAreaKey([4; 0x10]);
        assert(key@ =~= Seq::new(0x10, |i: int| 4u8));
        key
    }
}

impl std::str::FromStr for KeyAreaKey {
    type Err = ParseKeyAreaKeyError;

    fn from_str(input: &str) -> (out: Result<Self, ParseKeyAreaKeyError>)
        ensures
            match out {
                Ok(key) => key_area_key_of(input@) == Ok::<Seq<u8>, ParseKeyAreaKeyError>(key@)
                    && key@.len() == 0x10,
                Err(error) => key_area_key_of(input@) == Err::<Seq<u8>, ParseKeyAreaKeyError>(
                    error,
                ),
            },
    {
        KeyAreaKey::from_str(input)
    }
}

/// Error returned when a key area key cannot be parsed.
#[derive(Debug, Clone, Copy, PartialEq, Eq, Structural)]
pub enum ParseKeyAreaKeyError {
    /// The input is not thirty-two hex digits.
    ///
    /// Holds the length that was given.
    WrongLength {
        /// The length that was given.
        length: usize,
    },
    /// The input is the right length but is not hexadecimal.
    Malformed,
}

/// A hex digit is an ASCII character.
proof fn lemma_hex_digit_is_ascii(c: char)
    requires
        hex_value(c) is Some,
    ensures
        '\0' <= c <= '\u{7f}',
{
}

/// Text that is all hex digits is as long in bytes as in digits.
proof fn lemma_hex_is_one_byte_per_digit(text: Seq<char>)
    requires
        hex_bytes(text) is Some,
    ensures
        encode_utf8(text).len() == text.len(),
{
    assert forall|i: int| 0 <= i < text.len() implies '\0' <= #[trigger] text[i] <= '\u{7f}' by {
        lemma_hex_digit_is_ascii(text[i]);
    }
    assert(is_ascii_chars(text));
    is_ascii_chars_encode_utf8(text);
}

/// Reading a key back from its own rendering gives the same key.
pub proof fn law_key_area_key_reads_back(key: Seq<u8>)
    requires
        key.len() == 0x10,
    ensures
        key_area_key_of(hex_text(key)) == Ok::<Seq<u8>, ParseKeyAreaKeyError>(key),
{
    lemma_hex_text_decodes_back(key);
    lemma_hex_is_one_byte_per_digit(hex_text(key));
}

/// An SDK version is accepted exactly from `0x000B0000` to `0x00FFFFFF`.
pub proof fn law_the_loader_accepts_these_sdk_versions(value: u32)
    ensures
        is_sdk_version(value) <==> 0x000B0000 <= value && value <= 0x00FFFFFF,
{
}

/// A version written in digits is the number they stand for, with or without a `0x` before them and a
/// plus between; it is refused if it does not fit a word or if the loader does not accept it.
pub proof fn law_an_sdk_version_is_read_in_hex(text: Seq<char>)
    requires
        text.len() > 0,
        forall|i: int| 0 <= i < text.len() ==> hex_value(#[trigger] text[i]) is Some,
    ensures
        ({
            let value = place_value(text, 16);
            let read = if value > 0xFFFFFFFF {
                Err::<u32, ParseSdkVersionError>(
                    ParseSdkVersionError::Malformed(NumberError::Overflow),
                )
            } else if 0x000B0000 <= value <= 0x00FFFFFF {
                Ok(value as u32)
            } else {
                Err(ParseSdkVersionError::OutOfRange { value: value as u32 })
            };
            &&& sdk_version_of(text) == read
            &&& sdk_version_of(seq!['+'] + text) == read
            &&& sdk_version_of(seq!['0', 'x'] + text) == read
            &&& sdk_version_of(seq!['0', 'x'] + (seq!['+'] + text)) == read
        }),
{
    let max = u32::MAX as nat;
    law_a_number_is_read_as_what_its_digits_stand_for(text, max);
    law_a_plus_and_a_prefix_are_optional(text, max);
    law_a_plus_and_a_prefix_are_optional(seq!['+'] + text, max);
    assert(hex_value('+') is None);
    assert(hex_value('x') is None);
    assert(hex_value(text[0]) is Some);
    if text.len() >= 2 {
        assert(hex_value(text[1]) is Some);
    }
}

/// Text that is empty, or has something other than a digit after its prefix and its plus, is refused
/// as malformed.
pub proof fn law_what_is_no_number_is_no_sdk_version(
    head: Seq<char>,
    bad: char,
    tail: Seq<char>,
)
    requires
        forall|i: int| 0 <= i < head.len() ==> hex_value(#[trigger] head[i]) is Some,
        hex_value(bad) is None,
        bad != '+' || head.len() > 0,
        !(bad == 'x' && head == seq!['0']),
    ensures
        sdk_version_of(seq![]) == Err::<u32, ParseSdkVersionError>(
            ParseSdkVersionError::Malformed(NumberError::Empty),
        ),
        sdk_version_of(head.push(bad) + tail) == Err::<u32, ParseSdkVersionError>(
            ParseSdkVersionError::Malformed(
                if place_value(head, 16) <= 0xFFFFFFFF {
                    NumberError::InvalidDigit
                } else {
                    NumberError::Overflow
                },
            ),
        ),
{
    let max = u32::MAX as nat;
    let text = head.push(bad) + tail;
    law_what_is_no_digit_is_refused(head, bad, tail, max);
    law_a_plus_and_a_prefix_are_optional(text, max);
    assert(hex_value('+') is None);
    assert(hex_value('x') is None);
    assert(text[0] == if head.len() > 0 { head[0] } else { bad });
    if head.len() > 0 {
        assert(hex_value(head[0]) is Some);
    }
    if head.len() >= 2 {
        assert(text[1] == head[1]);
        assert(hex_value(head[1]) is Some);
    }
    if head.len() == 1 && bad == 'x' {
        assert(head =~= seq![head[0]]);
    }
    if head.len() == 0 {
        assert(hex_value('0') is Some);
    }
}

/// A version is shown as its four bytes in decimal, the most significant first, between dots.
pub proof fn law_a_version_is_shown_byte_by_byte(value: u32)
    ensures
        dotted(value) == decimal(value as int / 0x1000000) + seq!['.'] + decimal(
            (value as int / 0x10000) % 256,
        ) + seq!['.'] + decimal((value as int / 0x100) % 256) + seq!['.'] + decimal(
            value as int % 256,
        ),
{
    reveal_strlit(".");
    assert("."@ =~= seq!['.']);
    reveal_with_fuel(be_bytes, 5);
    let parts = be_bytes(value as nat, 4);
    assert(parts[3] == value as int % 256);
    assert(parts[2] == (value as int / 0x100) % 256);
    assert(parts[1] == (value as int / 0x10000) % 256);
    assert(parts[0] == (value as int / 0x1000000) % 256);
}

/// A key is written as thirty-two digits, two for each of its bytes in order and the high half first;
/// text of another length, in bytes, is refused with that length, and anything else as malformed.
pub proof fn law_a_key_is_thirty_two_digits(text: Seq<char>, i: int)
    requires
        encode_utf8(text).len() <= usize::MAX,
    ensures
        encode_utf8(text).len() != 32 ==> key_area_key_of(text) == Err::<
            Seq<u8>,
            ParseKeyAreaKeyError,
        >(ParseKeyAreaKeyError::WrongLength { length: encode_utf8(text).len() as usize }),
        encode_utf8(text).len() == 32 && !(forall|k: int|
            0 <= k < text.len() ==> hex_value(#[trigger] text[k]) is Some) ==> key_area_key_of(text)
            == Err::<Seq<u8>, ParseKeyAreaKeyError>(ParseKeyAreaKeyError::Malformed),
        text.len() == 32 && (forall|k: int|
            0 <= k < text.len() ==> hex_value(#[trigger] text[k]) is Some) ==> {
            &&& key_area_key_of(text) matches Ok(key)
            &&& key.len() == 16
            &&& 0 <= i < 16 ==> hex_value(text[2 * i]) == Some(key[i] as int / 16) && hex_value(
                text[2 * i + 1],
            ) == Some(key[i] as int % 16)
        },
{
    law_digits_are_decoded_two_by_two(text, i);
    if hex_bytes(text) is Some {
        lemma_hex_is_one_byte_per_digit(text);
    }
}

} // verus!
