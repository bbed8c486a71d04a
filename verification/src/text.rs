//! Text the reports, names, and settings are written and read in.

use crate::bytes::{be_bytes, lemma_be_bytes_len};
use vstd::prelude::*;

verus! {

/// The digit that stands for `value`, lowercase past nine.
pub open spec fn digit(value: int) -> char {
    if value < 10 {
        (('0' as u32) + value) as char
    } else {
        (('a' as u32) + (value - 10)) as char
    }
}

/// `value` in `base`, with no leading zeros beyond the one that zero itself needs.
pub open spec fn digits(value: nat, base: nat) -> Seq<char>
    decreases value,
{
    if value < base || base < 2 {
        seq![digit(value as int)]
    } else {
        proof {
            assert(value / base < value) by (nonlinear_arith)
                requires
                    value > 0,
                    base >= 2,
            ;
        }
        digits(value / base, base).push(digit((value % base) as int))
    }
}

/// `value` in decimal, with a leading minus when it is negative.
pub open spec fn decimal(value: int) -> Seq<char> {
    if value < 0 {
        "-"@ + digits((-value) as nat, 10)
    } else {
        digits(value as nat, 10)
    }
}

/// `bytes` as lowercase hex, two digits per byte.
pub open spec fn hex_text(bytes: Seq<u8>) -> Seq<char> {
    Seq::new(
        2 * bytes.len(),
        |i: int|
            if i % 2 == 0 {
                digit(bytes[i / 2] as int / 16)
            } else {
                digit(bytes[i / 2] as int % 16)
            },
    )
}

/// `text` followed by as many spaces as it takes to reach `width` characters.
pub open spec fn padded(text: Seq<char>, width: nat) -> Seq<char> {
    text + Seq::new(
        if text.len() < width {
            (width - text.len()) as nat
        } else {
            0
        },
        |i: int| ' ',
    )
}

/// What the hexadecimal digit `c` stands for, in either case.
pub open spec fn hex_value(c: char) -> Option<int> {
    let code = c as u32;
    if '0' as u32 <= code <= '9' as u32 {
        Some(code - '0' as u32)
    } else if 'a' as u32 <= code <= 'f' as u32 {
        Some(code - 'a' as u32 + 10)
    } else if 'A' as u32 <= code <= 'F' as u32 {
        Some(code - 'A' as u32 + 10)
    } else {
        None
    }
}

/// Whether `text` holds nothing but hexadecimal digits.
pub open spec fn all_hex(text: Seq<char>) -> bool {
    forall|i: int| 0 <= i < text.len() ==> hex_value(#[trigger] text[i]) is Some
}

/// `text` without the single leading plus sign a number may carry.
pub open spec fn unsigned(text: Seq<char>) -> Seq<char> {
    if text.len() > 0 && text[0] == '+' {
        text.skip(1)
    } else {
        text
    }
}

/// `text` without a leading `0x`.
pub open spec fn without_prefix(text: Seq<char>) -> Seq<char> {
    if text.len() >= 2 && text[0] == '0' && text[1] == 'x' {
        text.skip(2)
    } else {
        text
    }
}

/// Why a piece of text is not a number.
#[derive(Debug, Clone, Copy, PartialEq, Eq, Structural)]
pub enum NumberError {
    /// There is nothing to read.
    Empty,
    /// Something other than a hexadecimal digit stands where one is needed.
    InvalidDigit,
    /// The number does not fit the type it is read into.
    Overflow,
}

/// How reading `text` digit by digit, as a number no larger than `max`, ends: the first digit that
/// cannot be taken decides.
pub open spec fn hex_number(text: Seq<char>, max: nat) -> Result<nat, NumberError>
    decreases text.len(),
{
    if text.len() == 0 {
        Ok(0)
    } else {
        match hex_number(text.drop_last(), max) {
            Err(error) => Err(error),
            Ok(head) => match hex_value(text.last()) {
                None => Err(NumberError::InvalidDigit),
                Some(digit) => if head * 16 + digit > max {
                    Err(NumberError::Overflow)
                } else {
                    Ok((head * 16 + digit) as nat)
                },
            },
        }
    }
}

/// How reading `text` as a hexadecimal number no larger than `max` ends: an optional plus sign,
/// then at least one digit.
pub open spec fn hex_reading(text: Seq<char>, max: nat) -> Result<nat, NumberError> {
    if text.len() == 0 {
        Err(NumberError::Empty)
    } else if unsigned(text).len() == 0 {
        Err(NumberError::InvalidDigit)
    } else {
        hex_number(unsigned(text), max)
    }
}

/// The bytes a run of hexadecimal digits stands for, two digits a byte, if the run is not empty and
/// comes out even.
pub open spec fn hex_bytes(text: Seq<char>) -> Option<Seq<u8>> {
    if text.len() == 0 || text.len() % 2 != 0 || !all_hex(text) {
        None
    } else {
        Some(
            Seq::new(
                text.len() / 2,
                |i: int|
                    (hex_value(text[2 * i])->0 * 16 + hex_value(text[2 * i + 1])->0) as u8,
            ),
        )
    }
}

/// Whether `c` carries the Unicode `White_Space` property.
pub open spec fn is_space(c: char) -> bool {
    let code = c as u32;
    ||| 0x9 <= code <= 0xd
    ||| code == 0x20
    ||| code == 0x85
    ||| code == 0xa0
    ||| code == 0x1680
    ||| 0x2000 <= code <= 0x200a
    ||| code == 0x2028
    ||| code == 0x2029
    ||| code == 0x202f
    ||| code == 0x205f
    ||| code == 0x3000
}

/// `text` without leading whitespace.
pub open spec fn trimmed_start(text: Seq<char>) -> Seq<char>
    decreases text.len(),
{
    if text.len() > 0 && is_space(text[0]) {
        trimmed_start(text.skip(1))
    } else {
        text
    }
}

/// `text` without trailing whitespace.
pub open spec fn trimmed_end(text: Seq<char>) -> Seq<char>
    decreases text.len(),
{
    if text.len() > 0 && is_space(text.last()) {
        trimmed_end(text.drop_last())
    } else {
        text
    }
}

/// `text` without whitespace at either end.
pub open spec fn trimmed(text: Seq<char>) -> Seq<char> {
    trimmed_end(trimmed_start(text))
}

/// The characters of `text`, one by one.
pub(crate) fn chars_of(text: &str) -> (out: Vec<char>)
    ensures
        out@ == text@,
{
    let mut out: Vec<char> = Vec::new();
    for c in it: text.chars()
        invariant
            out@ == it.seq().take(it.index()),
            it.seq() == text@,
    {
        out.push(c);
        assert(it.seq().take(it.index() + 1) =~= it.seq().take(it.index()).push(c));
    }
    assert(text@.take(text@.len() as int) =~= text@);
    out
}

/// The digit for `value`, as text.
fn digit_str(value: u8) -> (out: &'static str)
    requires
        value < 16,
    ensures
        out@ == seq![digit(value as int)],
{
    proof {
        reveal_strlit("0");
        reveal_strlit("1");
        reveal_strlit("2");
        reveal_strlit("3");
        reveal_strlit("4");
        reveal_strlit("5");
        reveal_strlit("6");
        reveal_strlit("7");
        reveal_strlit("8");
        reveal_strlit("9");
        reveal_strlit("a");
        reveal_strlit("b");
        reveal_strlit("c");
        reveal_strlit("d");
        reveal_strlit("e");
        reveal_strlit("f");
    }
    let out = match value {
        0 => "0",
        1 => "1",
        2 => "2",
        3 => "3",
        4 => "4",
        5 => "5",
        6 => "6",
        7 => "7",
        8 => "8",
        9 => "9",
        10 => "a",
        11 => "b",
        12 => "c",
        13 => "d",
        14 => "e",
        _ => "f",
    };
    assert(out@ =~= seq![digit(value as int)]);
    out
}

/// Render `bytes` as lowercase hex.
pub fn hex(bytes: &[u8]) -> (out: String)
    ensures
        out@ == hex_text(bytes@),
{
    let mut out = String::new();
    let mut index: usize = 0;
    while index < bytes.len()
        invariant
            index <= bytes@.len(),
            out@ == hex_text(bytes@.take(index as int)),
        decreases bytes@.len() - index,
    {
        let byte = bytes[index];
        out.append(digit_str(byte / 16));
        out.append(digit_str(byte % 16));
        index += 1;
        assert(out@ =~= hex_text(bytes@.take(index as int)));
    }
    assert(bytes@.take(bytes@.len() as int) =~= bytes@);
    out
}

/// Write `value` in `base` at the end of `out`.
fn push_digits(out: &mut String, value: u64, base: u64)
    requires
        2 <= base <= 16,
    ensures
        final(out)@ == old(out)@ + digits(value as nat, base as nat),
    decreases value,
{
    let ghost before = out@;
    if value < base {
        out.append(digit_str(value as u8));
    } else {
        assert(value / base < value) by (nonlinear_arith)
            requires
                value > 0,
                base >= 2,
        ;
        push_digits(out, value / base, base);
        assert(value % base < base) by (nonlinear_arith)
            requires
                base >= 2,
        ;
        out.append(digit_str((value % base) as u8));
        assert(out@ =~= before + digits(value as nat, base as nat));
    }
}

/// Render `value` in decimal.
pub(crate) fn dec_u64(value: u64) -> (out: String)
    ensures
        out@ == decimal(value as int),
{
    let mut out = String::new();
    push_digits(&mut out, value, 10);
    assert(out@ =~= decimal(value as int));
    out
}

/// Render `value` in decimal, with its sign.
pub(crate) fn dec_i64(value: i64) -> (out: String)
    ensures
        out@ == decimal(value as int),
{
    let mut out = String::new();
    if value < 0 {
        out.append("-");
        let magnitude: u64 = (-(value as i128)) as u64;
        push_digits(&mut out, magnitude, 10);
    } else {
        push_digits(&mut out, value as u64, 10);
    }
    assert(out@ =~= decimal(value as int));
    out
}

/// Render `value` in lowercase hex, with no leading zeros.
pub(crate) fn hex_u64(value: u64) -> (out: String)
    ensures
        out@ == digits(value as nat, 16),
{
    let mut out = String::new();
    push_digits(&mut out, value, 16);
    assert(out@ =~= digits(value as nat, 16));
    out
}

/// Fill `text` up to `width` characters with trailing spaces.
pub(crate) fn pad_right(text: &str, width: usize) -> (out: String)
    ensures
        out@ == padded(text@, width as nat),
{
    proof {
        reveal_strlit(" ");
    }
    let mut out = String::new();
    out.append(text);
    let mut length: usize = text.unicode_len();
    while length < width
        invariant
            length >= text@.len(),
            length <= width || length == text@.len(),
            out@ == padded(text@, length as nat),
            " "@ == seq![' '],
        decreases width - length,
    {
        out.append(" ");
        length += 1;
        assert(out@ =~= padded(text@, length as nat));
    }
    assert(out@ =~= padded(text@, width as nat));
    out
}

/// What the hexadecimal digit `c` stands for.
pub(crate) fn hex_digit(c: char) -> (out: Option<u8>)
    ensures
        match out {
            Some(value) => hex_value(c) == Some(value as int) && value < 16,
            None => hex_value(c) is None,
        },
{
    let code = c as u32;
    if '0' as u32 <= code && code <= '9' as u32 {
        Some((code - '0' as u32) as u8)
    } else if 'a' as u32 <= code && code <= 'f' as u32 {
        Some((code - 'a' as u32 + 10) as u8)
    } else if 'A' as u32 <= code && code <= 'F' as u32 {
        Some((code - 'A' as u32 + 10) as u8)
    } else {
        None
    }
}

/// Once a digit cannot be taken, no digit after it changes how the reading ends.
proof fn lemma_first_bad_digit_decides(text: Seq<char>, max: nat, head: int)
    requires
        0 <= head <= text.len(),
        hex_number(text.take(head), max) is Err,
    ensures
        hex_number(text, max) == hex_number(text.take(head), max),
    decreases text.len() - head,
{
    if head < text.len() {
        assert(text.take(head + 1).drop_last() =~= text.take(head));
        lemma_first_bad_digit_decides(text, max, head + 1);
    } else {
        assert(text.take(head) =~= text);
    }
}

/// Read what follows `from` in `text` as a hexadecimal number no larger than `max`.
pub(crate) fn parse_hex(text: &[char], from: usize, max: u64) -> (out: Result<u64, NumberError>)
    requires
        from <= text@.len(),
    ensures
        match out {
            Ok(value) => hex_reading(text@.skip(from as int), max as nat) == Ok::<nat, NumberError>(
                value as nat,
            ),
            Err(error) => hex_reading(text@.skip(from as int), max as nat) == Err::<
                nat,
                NumberError,
            >(error),
        },
{
    let len = text.len();
    let ghost whole = text@.skip(from as int);
    if from == len {
        return Err(NumberError::Empty);
    }
    let start: usize = if text[from] == '+' { from + 1 } else { from };
    let ghost number = unsigned(whole);
    assert(number =~= text@.skip(start as int));
    if start == len {
        return Err(NumberError::InvalidDigit);
    }
    let mut value: u64 = 0;
    let mut index: usize = start;
    while index < len
        invariant
            start <= index <= len,
            len == text@.len(),
            number == text@.skip(start as int),
            hex_number(number.take(index - start), max as nat) == Ok::<nat, NumberError>(
                value as nat,
            ),
            value <= max,
            whole.len() > 0,
            number == unsigned(whole),
            number.len() > 0,
            whole == text@.skip(from as int),
        decreases len - index,
    {
        let ghost longer = number.take(index - start + 1);
        assert(longer.drop_last() =~= number.take(index - start));
        assert(longer.last() == text@[index as int]);
        let digit: u64 = match hex_digit(text[index]) {
            Some(digit) => digit as u64,
            None => {
                proof {
                    lemma_first_bad_digit_decides(number, max as nat, index - start + 1);
                }
                return Err(NumberError::InvalidDigit);
            },
        };
        if digit > max || value > (max - digit) / 16 {
            proof {
                lemma_first_bad_digit_decides(number, max as nat, index - start + 1);
            }
            return Err(NumberError::Overflow);
        }
        value = value * 16 + digit;
        index += 1;
    }
    assert(number.take(number.len() as int) =~= number);
    Ok(value)
}

/// A digit stands for the value it was written for.
pub proof fn lemma_digit_reads_back(value: int)
    requires
        0 <= value < 16,
    ensures
        hex_value(digit(value)) == Some(value),
{
}

/// The digits of `value` in `len` bytes, read back, are `value`.
pub proof fn lemma_hex_text_reads_back(value: nat, len: nat, max: nat)
    requires
        value <= max,
        value < vstd::arithmetic::power::pow(256, len),
    ensures
        hex_number(hex_text(be_bytes(value, len)), max) == Ok::<nat, NumberError>(value),
    decreases len,
{
    reveal(vstd::arithmetic::power::pow);
    if len > 0 {
        let head = be_bytes(value / 256, (len - 1) as nat);
        let text = hex_text(be_bytes(value, len));
        lemma_be_bytes_len(value, len);
        lemma_be_bytes_len(value / 256, (len - 1) as nat);
        assert(value / 256 < vstd::arithmetic::power::pow(256, (len - 1) as nat)) by {
            let power = vstd::arithmetic::power::pow(256, (len - 1) as nat);
            assert(value < 256 * power);
        }
        lemma_hex_text_reads_back(value / 256, (len - 1) as nat, max);
        let low = (value % 256) as u8;
        let middle = text.drop_last();
        assert(middle.drop_last() =~= hex_text(head));
        lemma_digit_reads_back(low as int / 16);
        lemma_digit_reads_back(low as int % 16);
        assert(middle.last() == digit(low as int / 16));
        assert(text.last() == digit(low as int % 16));
        assert((value / 256) * 16 + low as int / 16 == value / 16);
        assert(hex_number(middle, max) == Ok::<nat, NumberError>(value / 16));
        assert((value / 16) * 16 + low as int % 16 == value);
    } else {
        assert(vstd::arithmetic::power::pow(256, 0) == 1);
    }
}

/// The digits of `bytes`, decoded, are `bytes`.
pub proof fn lemma_hex_text_decodes_back(bytes: Seq<u8>)
    requires
        bytes.len() > 0,
    ensures
        hex_bytes(hex_text(bytes)) == Some(bytes),
{
    let text = hex_text(bytes);
    assert forall|i: int| 0 <= i < text.len() implies hex_value(#[trigger] text[i]) is Some by {
        lemma_digit_reads_back(bytes[i / 2] as int / 16);
        lemma_digit_reads_back(bytes[i / 2] as int % 16);
    }
    assert forall|i: int| 0 <= i < bytes.len() implies #[trigger] hex_bytes(text)->0[i] == bytes[i] by {
        lemma_digit_reads_back(bytes[i] as int / 16);
        lemma_digit_reads_back(bytes[i] as int % 16);
        assert((2 * i) / 2 == i && (2 * i + 1) / 2 == i);
    }
    assert(hex_bytes(text)->0 =~= bytes);
}

/// Decode the digits of `text` between `from` and `to` into bytes, or `None` if they are not an
/// even-length run of hex.
pub(crate) fn decode_hex(text: &[char], from: usize, to: usize) -> (out: Option<Vec<u8>>)
    requires
        from <= to <= text@.len(),
    ensures
        match out {
            Some(bytes) => hex_bytes(text@.subrange(from as int, to as int)) == Some(bytes@),
            None => hex_bytes(text@.subrange(from as int, to as int)) is None,
        },
{
    let ghost run = text@.subrange(from as int, to as int);
    if from == to || (to - from) % 2 != 0 {
        return None;
    }
    let mut bytes: Vec<u8> = Vec::new();
    let mut at: usize = from;
    while at < to
        invariant
            from <= at <= to <= text@.len(),
            run == text@.subrange(from as int, to as int),
            (to - from) % 2 == 0,
            at - from == 2 * bytes@.len(),
            forall|i: int| 0 <= i < at - from ==> hex_value(#[trigger] run[i]) is Some,
            forall|i: int|
                0 <= i < bytes@.len() ==> #[trigger] bytes@[i] == (hex_value(run[2 * i])->0 * 16
                    + hex_value(run[2 * i + 1])->0) as u8,
        decreases to - at,
    {
        assert(run[at - from] == text@[at as int]);
        assert(run[at - from + 1] == text@[at + 1]);
        let high = match hex_digit(text[at]) {
            Some(high) => high,
            None => return None,
        };
        let low = match hex_digit(text[at + 1]) {
            Some(low) => low,
            None => return None,
        };
        let ghost done = bytes@.len() as int;
        bytes.push(high * 16 + low);
        assert(2 * done == at - from);
        at += 2;
    }
    assert(bytes@ =~= hex_bytes(run)->0);
    Some(bytes)
}

/// Whether `c` is whitespace.
pub(crate) fn is_whitespace(c: char) -> (out: bool)
    ensures
        out == is_space(c),
{
    let code = c as u32;
    (0x9 <= code && code <= 0xd) || code == 0x20 || code == 0x85 || code == 0xa0 || code == 0x1680
        || (0x2000 <= code && code <= 0x200a) || code == 0x2028 || code == 0x2029 || code == 0x202f
        || code == 0x205f || code == 0x3000
}

/// The bounds of what is left of `text` between `from` and `to` once whitespace is trimmed.
pub(crate) fn trim(text: &[char], from: usize, to: usize) -> (out: (usize, usize))
    requires
        from <= to <= text@.len(),
    ensures
        from <= out.0 <= out.1 <= to,
        text@.subrange(out.0 as int, out.1 as int) == trimmed(
            text@.subrange(from as int, to as int),
        ),
{
    let ghost whole = text@.subrange(from as int, to as int);
    let mut start: usize = from;
    while start < to && is_whitespace(text[start])
        invariant
            from <= start <= to <= text@.len(),
            trimmed_start(text@.subrange(start as int, to as int)) == trimmed_start(whole),
        decreases to - start,
    {
        assert(text@.subrange(start as int, to as int).skip(1) =~= text@.subrange(
            start + 1,
            to as int,
        ));
        start += 1;
    }
    let mut end: usize = to;
    while start < end && is_whitespace(text[end - 1])
        invariant
            from <= start <= end <= to <= text@.len(),
            trimmed_end(text@.subrange(start as int, end as int)) == trimmed(whole),
        decreases end - start,
    {
        assert(text@.subrange(start as int, end as int).drop_last() =~= text@.subrange(
            start as int,
            end - 1,
        ));
        end -= 1;
    }
    (start, end)
}

/// The digits are `0` to `9` and then `a` to `f`, and a digit is read in either case.
pub proof fn law_digits_stand_for_their_place(value: int, c: char)
    ensures
        0 <= value < 16 ==> digit(value) == "0123456789abcdef"@[value],
        hex_value(c) == Some(value) <==> 0 <= value < 16 && (c == "0123456789abcdef"@[value] || c
            == "0123456789ABCDEF"@[value]),
        hex_value(c) is None <==> !"0123456789abcdef"@.contains(c) && !"0123456789ABCDEF"@.contains(
            c,
        ),
{
    reveal_strlit("0123456789abcdef");
    reveal_strlit("0123456789ABCDEF");
    let lower = "0123456789abcdef"@;
    let upper = "0123456789ABCDEF"@;
    assert(lower.len() == 16 && upper.len() == 16);
    assert(0 <= value < 16 ==> {
        ||| value == 0
        ||| value == 1
        ||| value == 2
        ||| value == 3
        ||| value == 4
        ||| value == 5
        ||| value == 6
        ||| value == 7
        ||| value == 8
        ||| value == 9
        ||| value == 10
        ||| value == 11
        ||| value == 12
        ||| value == 13
        ||| value == 14
        ||| value == 15
    });
    match hex_value(c) {
        Some(v) => {
            assert(0 <= v < 16);
            assert({
                ||| v == 0
                ||| v == 1
                ||| v == 2
                ||| v == 3
                ||| v == 4
                ||| v == 5
                ||| v == 6
                ||| v == 7
                ||| v == 8
                ||| v == 9
                ||| v == 10
                ||| v == 11
                ||| v == 12
                ||| v == 13
                ||| v == 14
                ||| v == 15
            });
            assert(c == lower[v] || c == upper[v]);
        },
        None => {},
    }
}

/// Rendering bytes gives two lowercase digits for each, the high half first.
pub proof fn law_each_byte_is_rendered_as_two_digits(bytes: Seq<u8>, i: int)
    requires
        0 <= i < bytes.len(),
    ensures
        hex_text(bytes).len() == 2 * bytes.len(),
        hex_text(bytes)[2 * i] == "0123456789abcdef"@[bytes[i] as int / 16],
        hex_text(bytes)[2 * i + 1] == "0123456789abcdef"@[bytes[i] as int % 16],
{
    law_digits_stand_for_their_place(bytes[i] as int / 16, '0');
    law_digits_stand_for_their_place(bytes[i] as int % 16, '0');
    assert((2 * i) / 2 == i && (2 * i + 1) / 2 == i);
}

/// A run of digits is decoded exactly when it is not empty, comes out even and holds nothing else, and
/// each two digits of it are one byte, the high half first.
pub proof fn law_digits_are_decoded_two_by_two(text: Seq<char>, i: int)
    ensures
        hex_bytes(text) is Some <==> text.len() > 0 && text.len() % 2 == 0 && (forall|k: int|
            0 <= k < text.len() ==> hex_value(#[trigger] text[k]) is Some),
        hex_bytes(text) matches Some(bytes) ==> 2 * bytes.len() == text.len(),
        hex_bytes(text) matches Some(bytes) ==> 0 <= i < bytes.len() ==> hex_value(text[2 * i])
            == Some(bytes[i] as int / 16) && hex_value(text[2 * i + 1]) == Some(
            bytes[i] as int % 16,
        ),
{
    if hex_bytes(text) is Some && 0 <= i < text.len() / 2 {
        assert(hex_value(text[2 * i]) is Some);
        assert(hex_value(text[2 * i + 1]) is Some);
        let high = hex_value(text[2 * i])->0;
        let low = hex_value(text[2 * i + 1])->0;
        law_digits_stand_for_their_place(high, text[2 * i]);
        law_digits_stand_for_their_place(low, text[2 * i + 1]);
        assert(0 <= high < 16 && 0 <= low < 16);
        assert((high * 16 + low) as u8 == high * 16 + low);
    }
}

/// The whitespace that is trimmed is what Unicode calls so, and nothing else.
pub proof fn law_whitespace_is_what_unicode_says(c: char)
    ensures
        is_space(c) <==> "\t\n\u{b}\u{c}\r \u{85}\u{a0}\u{1680}\u{2000}\u{2001}\u{2002}\u{2003}\u{2004}\u{2005}\u{2006}\u{2007}\u{2008}\u{2009}\u{200a}\u{2028}\u{2029}\u{202f}\u{205f}\u{3000}"@.contains(
            c,
        ),
{
    reveal_strlit(
        "\t\n\u{b}\u{c}\r \u{85}\u{a0}\u{1680}\u{2000}\u{2001}\u{2002}\u{2003}\u{2004}\u{2005}\u{2006}\u{2007}\u{2008}\u{2009}\u{200a}\u{2028}\u{2029}\u{202f}\u{205f}\u{3000}",
    );
    let all = "\t\n\u{b}\u{c}\r \u{85}\u{a0}\u{1680}\u{2000}\u{2001}\u{2002}\u{2003}\u{2004}\u{2005}\u{2006}\u{2007}\u{2008}\u{2009}\u{200a}\u{2028}\u{2029}\u{202f}\u{205f}\u{3000}"@;
    assert(all.len() == 25);
    if is_space(c) {
        assert({
            ||| c == all[0]
            ||| c == all[1]
            ||| c == all[2]
            ||| c == all[3]
            ||| c == all[4]
            ||| c == all[5]
            ||| c == all[6]
            ||| c == all[7]
            ||| c == all[8]
            ||| c == all[9]
            ||| c == all[10]
            ||| c == all[11]
            ||| c == all[12]
            ||| c == all[13]
            ||| c == all[14]
            ||| c == all[15]
            ||| c == all[16]
            ||| c == all[17]
            ||| c == all[18]
            ||| c == all[19]
            ||| c == all[20]
            ||| c == all[21]
            ||| c == all[22]
            ||| c == all[23]
            ||| c == all[24]
        });
    }
}

/// Leading whitespace is dropped, however much of it there is.
proof fn lemma_trimmed_start(lead: Seq<char>, rest: Seq<char>)
    requires
        forall|i: int| 0 <= i < lead.len() ==> is_space(#[trigger] lead[i]),
        rest.len() > 0 ==> !is_space(rest[0]),
    ensures
        trimmed_start(lead + rest) == rest,
    decreases lead.len(),
{
    if lead.len() > 0 {
        assert((lead + rest)[0] == lead[0]);
        assert((lead + rest).skip(1) =~= lead.skip(1) + rest);
        lemma_trimmed_start(lead.skip(1), rest);
    } else {
        assert(lead + rest =~= rest);
    }
}

/// Trailing whitespace is dropped, however much of it there is.
proof fn lemma_trimmed_end(rest: Seq<char>, tail: Seq<char>)
    requires
        forall|i: int| 0 <= i < tail.len() ==> is_space(#[trigger] tail[i]),
        rest.len() > 0 ==> !is_space(rest.last()),
    ensures
        trimmed_end(rest + tail) == rest,
    decreases tail.len(),
{
    if tail.len() > 0 {
        assert((rest + tail).last() == tail.last());
        assert((rest + tail).drop_last() =~= rest + tail.drop_last());
        lemma_trimmed_end(rest, tail.drop_last());
    } else {
        assert(rest + tail =~= rest);
    }
}

/// Trimming takes the whitespace off both ends and leaves everything between them, spaces inside it
/// too.
pub proof fn law_trimming_keeps_what_is_between(lead: Seq<char>, core: Seq<char>, tail: Seq<char>)
    requires
        forall|i: int| 0 <= i < lead.len() ==> is_space(#[trigger] lead[i]),
        forall|i: int| 0 <= i < tail.len() ==> is_space(#[trigger] tail[i]),
        core.len() > 0 ==> !is_space(core[0]) && !is_space(core.last()),
    ensures
        trimmed(lead + core + tail) == core,
{
    if core.len() > 0 {
        assert(lead + core + tail =~= lead + (core + tail));
        assert((core + tail)[0] == core[0]);
        lemma_trimmed_start(lead, core + tail);
        lemma_trimmed_end(core, tail);
    } else {
        let blank = lead + tail;
        assert(lead + core + tail =~= blank + core);
        assert forall|i: int| 0 <= i < blank.len() implies is_space(#[trigger] blank[i]) by {
            if i < lead.len() {
                assert(blank[i] == lead[i]);
            } else {
                assert(blank[i] == tail[i - lead.len()]);
            }
        }
        lemma_trimmed_start(blank, core);
        assert(core =~= seq![]);
    }
}

/// Padding keeps the text and adds spaces up to the width, and never cuts anything off.
pub proof fn law_padding_fills_up_with_spaces(text: Seq<char>, width: nat)
    ensures
        padded(text, width).len() == if text.len() < width {
            width
        } else {
            text.len()
        },
        padded(text, width).take(text.len() as int) == text,
        forall|i: int|
            text.len() <= i < padded(text, width).len() ==> #[trigger] padded(text, width)[i]
                == ' ',
{
    assert(padded(text, width).take(text.len() as int) =~= text);
}

/// The number a run of digits stands for in `base`: each digit counts as often as its place says.
pub open spec fn place_value(text: Seq<char>, base: nat) -> int
    decreases text.len(),
{
    if text.len() == 0 {
        0
    } else {
        hex_value(text[0])->0 * vstd::arithmetic::power::pow(base as int, (text.len() - 1) as nat)
            + place_value(text.skip(1), base)
    }
}

/// One more digit at the end counts once, and makes every other count for a place more.
proof fn lemma_place_value_push(text: Seq<char>, c: char, base: nat)
    ensures
        place_value(text.push(c), base) == place_value(text, base) * base + hex_value(c)->0,
    decreases text.len(),
{
    reveal(vstd::arithmetic::power::pow);
    let longer = text.push(c);
    if text.len() == 0 {
        assert(longer.skip(1) =~= seq![]);
        assert(vstd::arithmetic::power::pow(base as int, 0) == 1);
        assert(place_value(seq![], base) == 0);
        assert(hex_value(c)->0 * 1 == hex_value(c)->0);
        assert(0 * base == 0) by (nonlinear_arith);
    } else {
        assert(longer.skip(1) =~= text.skip(1).push(c));
        lemma_place_value_push(text.skip(1), c, base);
        let first = hex_value(text[0])->0;
        let power = vstd::arithmetic::power::pow(base as int, (text.len() - 1) as nat);
        let rest = place_value(text.skip(1), base);
        assert(vstd::arithmetic::power::pow(base as int, text.len()) == base * power);
        assert(first * (base * power) + (rest * base + hex_value(c)->0) == (first * power + rest)
            * base + hex_value(c)->0) by (nonlinear_arith);
    }
}

/// A run of digits never stands for less than nothing.
proof fn lemma_place_value_is_no_less_than_nothing(text: Seq<char>, base: nat)
    requires
        forall|i: int| 0 <= i < text.len() ==> hex_value(#[trigger] text[i]) is Some,
    ensures
        place_value(text, base) >= 0,
    decreases text.len(),
{
    if text.len() > 0 {
        let fewer = text.drop_last();
        lemma_place_value_is_no_less_than_nothing(fewer, base);
        assert(fewer.push(text.last()) =~= text);
        lemma_place_value_push(fewer, text.last(), base);
        assert(hex_value(text[text.len() - 1]) is Some);
        assert(place_value(fewer, base) * base >= 0) by (nonlinear_arith)
            requires
                place_value(fewer, base) >= 0,
                base >= 0,
        ;
    }
}

/// A number is rendered as digits that stand for it in its base, with no zero before the first that
/// counts.
pub proof fn law_digits_stand_for_the_number(value: nat, base: nat)
    requires
        2 <= base <= 16,
    ensures
        place_value(digits(value, base), base) == value,
        digits(value, base).len() > 0,
        digits(value, base).len() > 1 ==> digits(value, base)[0] != '0',
        forall|i: int|
            0 <= i < digits(value, base).len() ==> "0123456789abcdef"@.take(base as int).contains(
                #[trigger] digits(value, base)[i],
            ),
    decreases value,
{
    reveal(vstd::arithmetic::power::pow);
    reveal_strlit("0123456789abcdef");
    let low = (value % base) as int;
    assert(0 <= low < base && low <= value) by (nonlinear_arith)
        requires
            low == value % base,
            base >= 2,
    ;
    let text = digits(value, base);
    let alphabet = "0123456789abcdef"@.take(base as int);
    lemma_digit_reads_back(low);
    law_digits_stand_for_their_place(low, '0');
    assert(alphabet[low] == digit(low));
    if value < base {
        assert(low == value) by (nonlinear_arith)
            requires
                low == value % base,
                0 <= value < base,
        ;
        assert(text =~= Seq::<char>::empty().push(digit(low)));
        lemma_place_value_push(seq![], digit(low), base);
        assert(place_value(seq![], base) == 0);
        assert(0 * base == 0) by (nonlinear_arith);
    } else {
        assert(value / base < value && value / base >= 1 && (value / base) * base + low == value)
            by (nonlinear_arith)
            requires
                low == value % base,
                value >= base,
                base >= 2,
        ;
        law_digits_stand_for_the_number(value / base, base);
        let head = digits(value / base, base);
        assert(text == head.push(digit(low)));
        lemma_place_value_push(head, digit(low), base);
        assert(text[0] == head[0]);
        if head.len() == 1 && head[0] == '0' {
            assert(head =~= Seq::<char>::empty().push('0'));
            lemma_place_value_push(seq![], '0', base);
            assert(0 * base == 0) by (nonlinear_arith);
            assert(place_value(seq![], base) == 0);
            law_digits_stand_for_their_place(0, '0');
            assert(false);
        }
        assert forall|i: int| 0 <= i < text.len() implies alphabet.contains(#[trigger] text[i]) by {
            if i < head.len() {
                assert(text[i] == head[i]);
            }
        }
    }
}

/// A signed number is rendered in decimal, and a minus stands before one below zero and no other.
pub proof fn law_decimals_carry_their_sign(value: int)
    ensures
        value >= 0 ==> place_value(decimal(value), 10) == value && decimal(value)[0] != '-',
        value < 0 ==> decimal(value)[0] == '-' && place_value(decimal(value).skip(1), 10) == -value,
{
    reveal_strlit("-");
    reveal_strlit("0123456789abcdef");
    if value >= 0 {
        law_digits_stand_for_the_number(value as nat, 10);
        assert("0123456789abcdef"@.take(10).contains(digits(value as nat, 10)[0]));
    } else {
        law_digits_stand_for_the_number((-value) as nat, 10);
        assert(decimal(value).skip(1) =~= digits((-value) as nat, 10));
    }
}

/// A run of digits is read as the number it stands for, if that is no larger than `max`.
pub proof fn law_a_number_is_read_as_what_its_digits_stand_for(text: Seq<char>, max: nat)
    requires
        forall|i: int| 0 <= i < text.len() ==> hex_value(#[trigger] text[i]) is Some,
    ensures
        place_value(text, 16) >= 0,
        hex_number(text, max) == if place_value(text, 16) <= max {
            Ok::<nat, NumberError>(place_value(text, 16) as nat)
        } else {
            Err(NumberError::Overflow)
        },
    decreases text.len(),
{
    lemma_place_value_is_no_less_than_nothing(text, 16);
    if text.len() > 0 {
        let fewer = text.drop_last();
        law_a_number_is_read_as_what_its_digits_stand_for(fewer, max);
        assert(fewer.push(text.last()) =~= text);
        lemma_place_value_push(fewer, text.last(), 16);
        assert(hex_value(text[text.len() - 1]) is Some);
        assert(hex_value(text.last())->0 >= 0);
    }
}

/// Anything but a digit ends the reading, unless the number was too large before it came to that.
pub proof fn law_what_is_no_digit_is_refused(
    head: Seq<char>,
    bad: char,
    tail: Seq<char>,
    max: nat,
)
    requires
        forall|i: int| 0 <= i < head.len() ==> hex_value(#[trigger] head[i]) is Some,
        hex_value(bad) is None,
    ensures
        hex_number(head.push(bad) + tail, max) == Err::<nat, NumberError>(
            if place_value(head, 16) <= max {
                NumberError::InvalidDigit
            } else {
                NumberError::Overflow
            },
        ),
{
    let text = head.push(bad) + tail;
    law_a_number_is_read_as_what_its_digits_stand_for(head, max);
    assert(head.push(bad).drop_last() =~= head);
    assert(text.take(head.len() as int + 1) =~= head.push(bad));
    lemma_first_bad_digit_decides(text, max, head.len() as int + 1);
}

/// One plus sign may stand before a number, and then at least one digit has to follow; a leading `0x`
/// may be taken off, once.
pub proof fn law_a_plus_and_a_prefix_are_optional(text: Seq<char>, max: nat)
    ensures
        hex_reading(seq![], max) == Err::<nat, NumberError>(NumberError::Empty),
        hex_reading(seq!['+'], max) == Err::<nat, NumberError>(NumberError::InvalidDigit),
        text.len() > 0 && text[0] != '+' ==> hex_reading(text, max) == hex_number(text, max),
        text.len() > 0 ==> hex_reading(seq!['+'] + text, max) == hex_number(text, max),
        without_prefix(seq!['0', 'x'] + text) == text,
        !(text.len() >= 2 && text[0] == '0' && text[1] == 'x') ==> without_prefix(text) == text,
{
    assert((seq!['+'] + text).skip(1) =~= text);
    assert(seq!['+'].skip(1) =~= seq![]);
    assert((seq!['0', 'x'] + text).skip(2) =~= text);
}

/// A number below its base is one digit, and any other is the digits of what is left of it without its
/// last place, and then the digit of that place.
pub proof fn law_each_place_has_its_digit(rest: nat, last: nat, base: nat)
    requires
        2 <= base <= 16,
        last < base,
    ensures
        digits(last, base) == seq!["0123456789abcdef"@[last as int]],
        rest > 0 ==> digits(rest * base + last, base) == digits(rest, base).push(
            "0123456789abcdef"@[last as int],
        ),
        rest > 0 && base == 10 ==> decimal((rest * 10 + last) as int) == decimal(rest as int).push(
            "0123456789abcdef"@[last as int],
        ),
        rest > 0 ==> decimal(-rest) == seq!['-'] + decimal(rest as int),
{
    reveal_strlit("-");
    assert("-"@ =~= seq!['-']);
    law_digits_stand_for_their_place(last as int, '0');
    if rest > 0 {
        let value = rest * base + last;
        vstd::arithmetic::div_mod::lemma_fundamental_div_mod_converse(
            value as int,
            base as int,
            rest as int,
            last as int,
        );
        assert(value >= base) by (nonlinear_arith)
            requires
                value == rest * base + last,
                rest > 0,
                base >= 2,
        ;
    }
}

/// Reading one more digit makes the number so far count for a place more, and whatever ended the
/// reading before it ends it still.
pub proof fn law_a_number_is_read_digit_by_digit(text: Seq<char>, next: char, max: nat)
    ensures
        hex_number(seq![], max) == Ok::<nat, NumberError>(0),
        hex_number(text.push(next), max) == match hex_number(text, max) {
            Err(error) => Err::<nat, NumberError>(error),
            Ok(head) => if !("0123456789abcdef"@.contains(next) || "0123456789ABCDEF"@.contains(
                next,
            )) {
                Err(NumberError::InvalidDigit)
            } else if head * 16 + hex_value(next)->0 > max {
                Err(NumberError::Overflow)
            } else {
                Ok((head * 16 + hex_value(next)->0) as nat)
            },
        },
        place_value(seq![], 16) == 0,
        place_value(text.push(next), 16) == place_value(text, 16) * 16 + hex_value(next)->0,
{
    assert(text.push(next).drop_last() =~= text);
    law_digits_stand_for_their_place(0, next);
    lemma_place_value_push(text, next, 16);
}

} // verus!
