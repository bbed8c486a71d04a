use nxarchive::hacbrewpack::settings::{
    KeyAreaKey, ParseKeyAreaKeyError, ParseSdkVersionError, SdkVersion,
};
use nxarchive::text::NumberError;

#[test]
fn from_str_accepts_an_sdk_version_at_or_above_the_floor() {
    let input = "000C1100";
    let version: SdkVersion = input.parse().expect("an in-range version should parse");
    assert_eq!(version.to_u32(), 0x000C1100);
}

#[test]
fn from_str_refuses_an_sdk_version_below_the_floor() {
    // The loader rejects an archive claiming an SDK older than the container layout.
    let input = "000A0000";
    let result = input.parse::<SdkVersion>();
    assert!(result.is_err());
    assert_eq!(result, Err(ParseSdkVersionError::OutOfRange { value: 0x000A0000 }));
}

#[test]
fn fmt_renders_an_sdk_version_in_the_dotted_form_the_console_reports() {
    let version: SdkVersion = "000C1100".parse().expect("an in-range version should parse");
    let rendered = version.to_string();
    assert_eq!(rendered, "0.12.17.0");
}

#[test]
fn from_str_accepts_a_key_area_key_of_thirty_two_hex_digits() {
    let input = "0102030405060708090a0b0c0d0e0f10";
    let key: KeyAreaKey = input.parse().expect("32 hex digits should parse");
    assert_eq!(key.to_bytes(), [1, 2, 3, 4, 5, 6, 7, 8, 9, 10, 11, 12, 13, 14, 15, 16]);
}

#[test]
fn from_str_refuses_a_key_area_key_of_the_wrong_length() {
    let input = "0102";
    let result = input.parse::<KeyAreaKey>();
    assert!(result.is_err(), "a short key would be padded into a different key");
    assert_eq!(result, Err(ParseKeyAreaKeyError::WrongLength { length: 4 }));
}

#[test]
fn fmt_renders_a_key_area_key_as_thirty_two_lowercase_digits() {
    let key = KeyAreaKey::default();
    let rendered = key.to_hex_string();
    assert_eq!(rendered, "04040404040404040404040404040404");
}

#[test]
fn sdk_versions_end_where_the_field_does() {
    let newest: SdkVersion = "0x00FFFFFF".parse().expect("the newest version should parse");
    assert_eq!(newest.to_u32(), SdkVersion::MAX);
    assert_eq!(newest.to_string(), "0.255.255.255");
    assert_eq!(
        "01000000".parse::<SdkVersion>(),
        Err(ParseSdkVersionError::OutOfRange { value: 0x01000000 })
    );
    assert_eq!(
        "100000000".parse::<SdkVersion>(),
        Err(ParseSdkVersionError::Malformed(NumberError::Overflow))
    );
    assert_eq!(
        "twelve".parse::<SdkVersion>(),
        Err(ParseSdkVersionError::Malformed(NumberError::InvalidDigit))
    );
    assert_eq!(SdkVersion::default().to_u32(), 0x000C1100);
    assert_eq!(SdkVersion::try_from(SdkVersion::MIN).expect("the floor").to_u32(), 0x000B0000);
}

#[test]
fn a_key_area_key_is_nothing_but_hex_digits() {
    assert_eq!(
        "0102030405060708090a0b0c0d0e0fzz".parse::<KeyAreaKey>(),
        Err(ParseKeyAreaKeyError::Malformed)
    );
    assert_eq!(
        "+1020304050607080900a0b0c0d0e0f0".parse::<KeyAreaKey>(),
        Err(ParseKeyAreaKeyError::Malformed)
    );
    // Sixteen characters of two bytes each: the length is right, the digits are not.
    assert_eq!("é".repeat(16).parse::<KeyAreaKey>(), Err(ParseKeyAreaKeyError::Malformed));
    assert_eq!(
        "é".repeat(32).parse::<KeyAreaKey>(),
        Err(ParseKeyAreaKeyError::WrongLength { length: 64 })
    );
}

#[test]
fn a_key_area_key_reads_back_from_its_own_rendering() {
    let key: KeyAreaKey = "00FFa1B2c3D4e5F60718293A4b5C6d7E".parse().expect("either case reads");
    let again: KeyAreaKey = key.to_hex_string().parse().expect("a rendering reads back");
    assert_eq!(again, key);
    assert_eq!(key.to_hex_string(), "00ffa1b2c3d4e5f60718293a4b5c6d7e");
}
