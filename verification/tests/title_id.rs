use nxarchive::hacbrewpack::title_id::{ParseTitleIdError, TitleId};
use nxarchive::text::NumberError;

#[test]
fn from_str_accepts_a_hexadecimal_id_inside_the_range() {
    let input = "0100000000001000";
    let title_id: TitleId = input.parse().expect("an in-range ID should parse");
    assert_eq!(title_id.to_u64(), 0x0100000000001000);
}

#[test]
fn from_str_accepts_a_leading_0x_prefix() {
    let input = "0x0100000000001000";
    let title_id: TitleId = input.parse().expect("a prefixed ID should parse");
    assert_eq!(title_id.to_u64(), 0x0100000000001000);
}

#[test]
fn display_renders_sixteen_lowercase_hex_digits() {
    // File names and the CNMT's own name are built from this rendering, so it is fixed.
    let title_id: TitleId = "0100000000001000".parse().expect("an in-range ID should parse");
    let rendered = title_id.to_string();
    assert_eq!(rendered, "0100000000001000");
}

#[test]
fn from_str_refuses_an_id_below_the_application_range() {
    // A system title, which the loader will not mount as an application.
    let input = "0000000000000042";
    let result = input.parse::<TitleId>();
    assert!(result.is_err());
    assert_eq!(result, Err(ParseTitleIdError::OutOfRange { value: 0x42 }));
}

#[test]
fn from_str_refuses_an_id_above_the_application_range() {
    let input = "1000000000000000";
    let result = input.parse::<TitleId>();
    assert!(result.is_err());
}

#[test]
fn is_above_conventional_range_flags_an_id_past_the_homebrew_space() {
    let input = "0200000000000000";
    let title_id: TitleId = input.parse().expect("it is still inside the accepted range");
    assert!(
        title_id.is_above_conventional_range(),
        "it overlaps the space published titles are assigned from"
    );
    let last: TitleId = "01ffffffffffffff".parse().expect("the last conventional ID");
    assert!(!last.is_above_conventional_range());
}

#[test]
fn try_from_accepts_both_ends_of_the_range_and_nothing_past_them() {
    assert_eq!(TitleId::try_from(TitleId::MIN).expect("the lowest").to_u64(), TitleId::MIN);
    assert_eq!(TitleId::try_from(TitleId::MAX).expect("the highest").to_u64(), TitleId::MAX);
    assert!(TitleId::try_from(TitleId::MIN - 1).is_err());
    assert!(TitleId::try_from(TitleId::MAX + 1).is_err());
}

#[test]
fn from_str_says_what_is_wrong_with_a_number() {
    assert_eq!("".parse::<TitleId>(), Err(ParseTitleIdError::Malformed(NumberError::Empty)));
    assert_eq!("0x".parse::<TitleId>(), Err(ParseTitleIdError::Malformed(NumberError::Empty)));
    assert_eq!(
        "+".parse::<TitleId>(),
        Err(ParseTitleIdError::Malformed(NumberError::InvalidDigit))
    );
    assert_eq!(
        "01000000000010zz".parse::<TitleId>(),
        Err(ParseTitleIdError::Malformed(NumberError::InvalidDigit))
    );
    assert_eq!(
        "10000000000000000".parse::<TitleId>(),
        Err(ParseTitleIdError::Malformed(NumberError::Overflow))
    );
    assert_eq!(
        "10000000000000000z".parse::<TitleId>(),
        Err(ParseTitleIdError::Malformed(NumberError::Overflow)),
        "the first digit that cannot be taken decides"
    );
    let signed: TitleId = "+0100000000001000".parse().expect("a plus sign is part of a number");
    assert_eq!(signed.to_u64(), 0x0100000000001000);
    let upper: TitleId = "0FFFFFFFFFFFFFFF".parse().expect("digits of either case are read");
    assert_eq!(upper.to_u64(), TitleId::MAX);
}

#[test]
fn a_title_id_reads_back_from_its_own_rendering() {
    for value in [TitleId::MIN, 0x0123456789ABCDEF, TitleId::MAX] {
        let title_id = TitleId::try_from(value).expect("the value is in range");
        let again: TitleId = title_id.to_string().parse().expect("a rendering reads back");
        assert_eq!(again, title_id);
    }
}

#[test]
fn add_on_content_base_sits_above_the_title() {
    let title_id = TitleId::try_from(0x0100000000001000).expect("the value is in range");
    assert_eq!(title_id.add_on_content_base(), 0x0100000000002000);
}
