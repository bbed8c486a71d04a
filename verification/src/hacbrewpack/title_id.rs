//! The title ID every archive of a title is stamped with.

use crate::bytes::{be_array, be_bytes};
use crate::text::{
    chars_of, digit, hex, hex_reading, hex_text, hex_value,
    law_a_number_is_read_as_what_its_digits_stand_for, law_a_plus_and_a_prefix_are_optional,
    law_each_byte_is_rendered_as_two_digits, law_what_is_no_digit_is_refused,
    lemma_digit_reads_back, lemma_hex_text_reads_back, parse_hex, place_value, unsigned,
    without_prefix, NumberError,
};
use vstd::prelude::*;

verus! {

/// A title ID that falls inside the range the console accepts for an application.
///
/// The range is not cosmetic: an ID below it names a system title and one above it names something
/// the loader will not mount as an application, so the value is checked once here and trusted
/// everywhere it is written afterwards.
#[derive(Debug, Clone, Copy, PartialEq, Eq, PartialOrd, Ord)]
pub struct TitleId(u64);

impl View for TitleId {
    type V = u64;

    closed spec fn view(&self) -> u64 {
        self.0
    }
}

/// Whether the console accepts `value` as an application's title ID.
pub open spec fn is_application_id(value: u64) -> bool {
    TitleId::MIN <= value <= TitleId::MAX
}

/// The ID `text` names, or why it names none.
pub open spec fn title_id_of(text: Seq<char>) -> Result<u64, ParseTitleIdError> {
    match hex_reading(without_prefix(text), u64::MAX as nat) {
        Err(error) => Err(ParseTitleIdError::Malformed(error)),
        Ok(value) => if is_application_id(value as u64) {
            Ok(value as u64)
        } else {
            Err(ParseTitleIdError::OutOfRange { value: value as u64 })
        },
    }
}

/// `value` as the sixteen lowercase hex digits every file name and log line uses.
pub open spec fn title_text(value: u64) -> Seq<char> {
    hex_text(be_bytes(value as nat, 8))
}

impl TitleId {
    /// Lowest ID the console treats as an application.
    pub const MIN: u64 = 0x0100000000000000;

    /// Highest ID the console treats as an application.
    pub const MAX: u64 = 0x0FFFFFFFFFFFFFFF;

    /// Highest ID that is conventional for a homebrew title.
    ///
    /// Above this the ID is still accepted, but it overlaps the space published titles are assigned
    /// from, so the command warns rather than refusing.
    pub const CONVENTIONAL_MAX: u64 = 0x01FFFFFFFFFFFFFF;

    #[verifier::type_invariant]
    spec fn in_range(self) -> bool {
        is_application_id(self.0)
    }

    /// The ID as the plain number every header stores.
    pub fn to_u64(self) -> (value: u64)
        ensures
            value == self@,
            is_application_id(value),
    {
        proof {
            use_type_invariant(&self);
        }
        self.0
    }

    /// The base ID downloadable content for this title is published under.
    pub fn add_on_content_base(self) -> (base: u64)
        ensures
            base == self@ + 0x1000,
    {
        self.to_u64() + 0x1000
    }

    /// Whether the ID sits above the range homebrew conventionally uses.
    pub fn is_above_conventional_range(self) -> (above: bool)
        ensures
            above == (self@ > Self::CONVENTIONAL_MAX),
    {
        self.to_u64() > Self::CONVENTIONAL_MAX
    }

    /// The title ID `value` is, if the console accepts it for an application.
    ///
    /// # Errors
    ///
    /// Returns an error if the value is outside the application range.
    pub fn try_from(value: u64) -> (out: Result<Self, ParseTitleIdError>)
        ensures
            match out {
                Ok(title_id) => is_application_id(value) && title_id@ == value,
                Err(error) => !is_application_id(value) && error
                    == (ParseTitleIdError::OutOfRange { value }),
            },
    {
        if value < Self::MIN || value > Self::MAX {
            return Err(ParseTitleIdError::OutOfRange { value });
        }
        Ok(TitleId(value))
    }

    /// Read a title ID written in hex, with or without a leading `0x`.
    ///
    /// # Errors
    ///
    /// Returns an error if the text is not a hexadecimal number, or names an ID outside the
    /// application range.
    pub fn from_str(input: &str) -> (out: Result<Self, ParseTitleIdError>)
        ensures
            match out {
                Ok(title_id) => title_id_of(input@) == Ok::<u64, ParseTitleIdError>(title_id@),
                Err(error) => title_id_of(input@) == Err::<u64, ParseTitleIdError>(error),
            },
    {
        let chars = chars_of(input);
        let start: usize = if chars.len() >= 2 && chars[0] == '0' && chars[1] == 'x' {
            2
        } else {
            0
        };
        assert(chars@.skip(start as int) =~= without_prefix(input@));
        match parse_hex(chars.as_slice(), start, u64::MAX) {
            Ok(value) => Self::try_from(value),
            Err(error) => Err(ParseTitleIdError::Malformed(error)),
        }
    }

    /// Render as the sixteen lowercase hex digits every file name and log line uses, so
    /// `0x100000000001000` reads as `0100000000001000`.
    pub fn to_string(&self) -> (out: String)
        ensures
            out@ == title_text(self@),
    {
        hex(&be_array::<8>(self.0 as u128))
    }
}

impl std::str::FromStr for TitleId {
    type Err = ParseTitleIdError;

    fn from_str(input: &str) -> (out: Result<Self, ParseTitleIdError>)
        ensures
            match out {
                Ok(title_id) => title_id_of(input@) == Ok::<u64, ParseTitleIdError>(title_id@),
                Err(error) => title_id_of(input@) == Err::<u64, ParseTitleIdError>(error),
            },
    {
        TitleId::from_str(input)
    }
}

/// Error returned when a title ID cannot be built.
#[derive(Debug, Clone, Copy, PartialEq, Eq, Structural)]
pub enum ParseTitleIdError {
    /// The input is not a hexadecimal number.
    Malformed(NumberError),
    /// The ID is outside the range the console accepts for an application.
    ///
    /// Holds the rejected value.
    OutOfRange {
        /// The rejected value.
        value: u64,
    },
}

/// Reading a title ID back from its own rendering gives the same ID.
pub proof fn law_title_id_reads_back(value: u64)
    requires
        is_application_id(value),
    ensures
        title_id_of(title_text(value)) == Ok::<u64, ParseTitleIdError>(value),
{
    let text = title_text(value);
    let bytes = be_bytes(value as nat, 8);
    crate::bytes::lemma_be_bytes_len(value as nat, 8);
    lemma_digit_reads_back(bytes[0] as int / 16);
    lemma_digit_reads_back(bytes[0] as int % 16);
    assert(text[0] == digit(bytes[0] as int / 16));
    assert(text[1] == digit(bytes[0] as int % 16));
    assert(without_prefix(text) == text);
    assert(unsigned(text) == text);
    assert(value < vstd::arithmetic::power::pow(256, 8)) by {
        reveal_with_fuel(vstd::arithmetic::power::pow, 9);
    }
    lemma_hex_text_reads_back(value as nat, 8, u64::MAX as nat);
}

/// Two IDs with the same rendering are the same ID, so file names never collide.
pub proof fn law_title_ids_render_apart(left: u64, right: u64)
    requires
        is_application_id(left),
        is_application_id(right),
        title_text(left) == title_text(right),
    ensures
        left == right,
{
    law_title_id_reads_back(left);
    law_title_id_reads_back(right);
}

/// An application's title ID lies from `0x0100000000000000` to `0x0FFFFFFFFFFFFFFF`.
pub proof fn law_applications_have_these_title_ids(value: u64)
    ensures
        is_application_id(value) <==> 0x0100000000000000 <= value && value <= 0x0FFFFFFFFFFFFFFF,
        TitleId::CONVENTIONAL_MAX == 0x01FFFFFFFFFFFFFF,
{
}

/// An ID written in digits is the number they stand for, with or without a `0x` before them and a plus
/// between; it is refused if it does not fit or if no application may use it.
pub proof fn law_a_title_id_is_read_in_hex(text: Seq<char>)
    requires
        text.len() > 0,
        forall|i: int| 0 <= i < text.len() ==> hex_value(#[trigger] text[i]) is Some,
    ensures
        ({
            let value = place_value(text, 16);
            let read = if value > 0xFFFFFFFFFFFFFFFF {
                Err::<u64, ParseTitleIdError>(ParseTitleIdError::Malformed(NumberError::Overflow))
            } else if 0x0100000000000000 <= value <= 0x0FFFFFFFFFFFFFFF {
                Ok(value as u64)
            } else {
                Err(ParseTitleIdError::OutOfRange { value: value as u64 })
            };
            &&& title_id_of(text) == read
            &&& title_id_of(seq!['+'] + text) == read
            &&& title_id_of(seq!['0', 'x'] + text) == read
            &&& title_id_of(seq!['0', 'x'] + (seq!['+'] + text)) == read
        }),
{
    let max = u64::MAX as nat;
    law_a_number_is_read_as_what_its_digits_stand_for(text, max);
    law_a_plus_and_a_prefix_are_optional(text, max);
    law_a_plus_and_a_prefix_are_optional(seq!['+'] + text, max);
    assert(hex_value('+') is None);
    assert(hex_value('x') is None);
    assert(hex_value(text[0]) is Some);
    if text.len() >= 2 {
        assert(hex_value(text[1]) is Some);
    }
}

/// Text that is empty, or has something other than a digit after its prefix and its plus, is refused
/// as malformed.
pub proof fn law_what_is_no_number_is_no_title_id(head: Seq<char>, bad: char, tail: Seq<char>)
    requires
        forall|i: int| 0 <= i < head.len() ==> hex_value(#[trigger] head[i]) is Some,
        hex_value(bad) is None,
        bad != '+' || head.len() > 0,
        !(bad == 'x' && head == seq!['0']),
    ensures
        title_id_of(seq![]) == Err::<u64, ParseTitleIdError>(
            ParseTitleIdError::Malformed(NumberError::Empty),
        ),
        title_id_of(head.push(bad) + tail) == Err::<u64, ParseTitleIdError>(
            ParseTitleIdError::Malformed(
                if place_value(head, 16) <= 0xFFFFFFFFFFFFFFFF {
                    NumberError::InvalidDigit
                } else {
                    NumberError::Overflow
                },
            ),
        ),
{
    let max = u64::MAX as nat;
    let text = head.push(bad) + tail;
    law_what_is_no_digit_is_refused(head, bad, tail, max);
    law_a_plus_and_a_prefix_are_optional(text, max);
    assert(hex_value('+') is None);
    assert(hex_value('x') is None);
    assert(text[0] == if head.len() > 0 { head[0] } else { bad });
    if head.len() > 0 {
        assert(hex_value(head[0]) is Some);
    }
    if head.len() >= 2 {
        assert(text[1] == head[1]);
        assert(hex_value(head[1]) is Some);
    }
    if head.len() == 1 && bad == 'x' {
        assert(head =~= seq![head[0]]);
    }
    if head.len() == 0 {
        assert(hex_value('0') is Some);
    }
}

/// An ID is shown in sixteen lowercase digits, zeros in front included, that stand for it.
pub proof fn law_a_title_id_is_shown_in_sixteen_digits(value: u64, i: int)
    requires
        0 <= i < 16,
    ensures
        title_text(value).len() == 16,
        "0123456789abcdef"@.contains(title_text(value)[i]),
        place_value(title_text(value), 16) == value,
{
    reveal_strlit("0123456789abcdef");
    let bytes = be_bytes(value as nat, 8);
    let text = title_text(value);
    crate::bytes::lemma_be_bytes_len(value as nat, 8);
    assert forall|k: int| 0 <= k < 16 implies hex_value(#[trigger] text[k]) is Some
        && "0123456789abcdef"@.contains(text[k]) by {
        law_each_byte_is_rendered_as_two_digits(bytes, k / 2);
        lemma_digit_reads_back(bytes[k / 2] as int / 16);
        lemma_digit_reads_back(bytes[k / 2] as int % 16);
        let at = if k % 2 == 0 { bytes[k / 2] as int / 16 } else { bytes[k / 2] as int % 16 };
        assert("0123456789abcdef"@[at] == text[k]);
    }
    assert("0123456789abcdef"@.contains(text[i]));
    assert(value < vstd::arithmetic::power::pow(256, 8)) by {
        reveal_with_fuel(vstd::arithmetic::power::pow, 9);
    }
    lemma_hex_text_reads_back(value as nat, 8, u64::MAX as nat);
    law_a_number_is_read_as_what_its_digits_stand_for(text, u64::MAX as nat);
}

} // verus!
