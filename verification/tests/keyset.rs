use nxarchive::container::KeyGeneration;
use nxarchive::crypto::{aes_ecb_decrypt, aes_ecb_encrypt};
use nxarchive::keyset::file::{
    load, locate, search, search_paths, Candidate, LoadError, Location,
};
use nxarchive::keyset::{Entry, Keyset, ParseKeysetError};

#[test]
fn from_str_takes_a_listed_header_key_as_given() {
    let text = format!("header_key = {}\n", "ab".repeat(0x20));
    let keyset: Keyset = text.parse().expect("a well-formed keyset should parse");
    assert_eq!(
        keyset.header_key(),
        Some(&[0xABu8; 0x20]),
        "the file's own value should be used"
    );
}

#[test]
fn key_area_key_application_finds_a_listed_key_at_its_generation() {
    let text = format!("key_area_key_application_02 = {}\n", "cd".repeat(0x10));
    let keyset: Keyset = text.parse().expect("a well-formed keyset should parse");
    let generation = KeyGeneration::try_from(3).expect("3 is a valid generation");
    assert_eq!(
        keyset.key_area_key_application(generation),
        Some(&[0xCDu8; 0x10]),
        "generation 3 is named `_02`, since the file numbers from zero"
    );
}

#[test]
fn key_area_key_application_reports_a_generation_the_file_omits_as_absent() {
    let text = format!("key_area_key_application_00 = {}\n", "11".repeat(0x10));
    let keyset: Keyset = text.parse().expect("a well-formed keyset should parse");
    let generation = KeyGeneration::try_from(9).expect("9 is a valid generation");
    let key = keyset.key_area_key_application(generation);
    assert!(key.is_none(), "nothing in the file names generation 9");
}

#[test]
fn from_str_derives_a_key_area_key_from_a_master_key_and_the_seeds() {
    // Only the seeds and a master key: nothing lists the key area key itself.
    let text = format!(
        "master_key_00 = {}\n\
         aes_kek_generation_source = {}\n\
         aes_key_generation_source = {}\n\
         key_area_key_application_source = {}\n",
        "01".repeat(0x10),
        "02".repeat(0x10),
        "03".repeat(0x10),
        "04".repeat(0x10),
    );
    let keyset: Keyset = text.parse().expect("a well-formed keyset should parse");
    assert!(
        keyset.key_area_key_application(KeyGeneration::first()).is_some(),
        "the master key and the seeds are enough to produce it"
    );
}

#[test]
fn from_str_ignores_comments_blank_lines_and_unknown_names() {
    let text = format!(
        "# a comment\n\
         \n\
         titlekek_00 = {}\n\
         header_key = {}\n",
        "ff".repeat(0x10),
        "ab".repeat(0x20),
    );
    let keyset: Keyset = text.parse().expect("unknown names are not an error");
    assert_eq!(keyset.header_key(), Some(&[0xABu8; 0x20]));
}

#[test]
fn from_str_refuses_a_line_without_a_separator() {
    let text = "header_key\n";
    let result = text.parse::<Keyset>();
    assert!(result.is_err(), "a line naming nothing cannot be read");
    assert!(matches!(result, Err(ParseKeysetError::MalformedLine { line: 1 })));
}

#[test]
fn from_str_refuses_a_value_that_is_not_hexadecimal() {
    let text = "header_key = not-hex\n";
    let result = text.parse::<Keyset>();
    assert!(
        result.is_err(),
        "a key that cannot be decoded would silently become the wrong key"
    );
    assert_eq!(
        result.err(),
        Some(ParseKeysetError::MalformedValue { line: 1, name: "header_key".to_owned() })
    );
}

/// The key three chained decryptions unwrap.
fn unwrapped(source: [u8; 0x10], master: [u8; 0x10], kek: [u8; 0x10], key: [u8; 0x10]) -> [u8; 0x10] {
    let mut first = kek;
    aes_ecb_decrypt(&master, &mut first);
    let mut second = source;
    aes_ecb_decrypt(&first, &mut second);
    let mut third = key;
    aes_ecb_decrypt(&second, &mut third);
    third
}

#[test]
fn from_str_derives_the_keys_the_console_would() {
    let text = format!(
        "master_key_00 = {}\n\
         master_key_1f = {}\n\
         aes_kek_generation_source = {}\n\
         aes_key_generation_source = {}\n\
         key_area_key_application_source = {}\n\
         header_kek_source = {}\n\
         header_key_source = {}\n",
        "01".repeat(0x10),
        "11".repeat(0x10),
        "02".repeat(0x10),
        "03".repeat(0x10),
        "04".repeat(0x10),
        "05".repeat(0x10),
        "06".repeat(0x20),
    );
    let keyset: Keyset = text.parse().expect("a well-formed keyset should parse");

    let first = unwrapped([4; 0x10], [1; 0x10], [2; 0x10], [3; 0x10]);
    assert_eq!(keyset.key_area_key_application(KeyGeneration::first()), Some(&first));
    let last = unwrapped([4; 0x10], [0x11; 0x10], [2; 0x10], [3; 0x10]);
    let generation = KeyGeneration::try_from(32).expect("32 is a valid generation");
    assert_eq!(keyset.key_area_key_application(generation), Some(&last));
    let generation = KeyGeneration::try_from(2).expect("2 is a valid generation");
    assert!(keyset.key_area_key_application(generation).is_none(), "no master key reaches it");

    let kek = unwrapped([5; 0x10], [1; 0x10], [2; 0x10], [3; 0x10]);
    let mut header_key = *keyset.header_key().expect("the header key should derive");
    aes_ecb_encrypt(&kek, &mut header_key);
    assert_eq!(header_key, [6; 0x20]);
}

#[test]
fn a_listed_key_wins_over_one_that_could_be_derived() {
    let text = format!(
        "master_key_00 = {}\n\
         aes_kek_generation_source = {}\n\
         aes_key_generation_source = {}\n\
         key_area_key_application_source = {}\n\
         key_area_key_application_00 = {}\n",
        "01".repeat(0x10),
        "02".repeat(0x10),
        "03".repeat(0x10),
        "04".repeat(0x10),
        "ee".repeat(0x10),
    );
    let keyset: Keyset = text.parse().expect("a well-formed keyset should parse");
    assert_eq!(
        keyset.key_area_key_application(KeyGeneration::first()),
        Some(&[0xEEu8; 0x10])
    );
}

#[test]
fn nothing_is_derived_without_both_seeds() {
    let text = format!(
        "master_key_00 = {}\n\
         aes_kek_generation_source = {}\n\
         key_area_key_application_source = {}\n",
        "01".repeat(0x10),
        "02".repeat(0x10),
        "04".repeat(0x10),
    );
    let keyset: Keyset = text.parse().expect("a well-formed keyset should parse");
    assert!(keyset.key_area_key_application(KeyGeneration::first()).is_none());
    assert!(keyset.header_key().is_none());
}

#[test]
fn a_key_of_the_wrong_length_is_absent() {
    let text = format!("header_key = {}\n", "ab".repeat(0x10));
    let keyset: Keyset = text.parse().expect("a length is no reason to refuse the file");
    assert!(keyset.header_key().is_none());
}

#[test]
fn a_name_listed_twice_takes_the_later_value() {
    let text = format!(
        "header_key = {}\nHEADER_KEY , {}\r\n; the end",
        "11".repeat(0x20),
        "Ab".repeat(0x20),
    );
    let keyset: Keyset = text.parse().expect("either separator is accepted");
    assert_eq!(keyset.header_key(), Some(&[0xABu8; 0x20]));
}

#[test]
fn a_name_is_lowercased_whatever_alphabet_it_is_written_in() {
    // The Kelvin sign lowercases to an ordinary `k`.
    let text = format!("header_\u{212A}ey = {}\n", "cd".repeat(0x20));
    let keyset: Keyset = text.parse().expect("a well-formed keyset should parse");
    assert_eq!(keyset.header_key(), Some(&[0xCDu8; 0x20]));
}

#[test]
fn the_first_line_at_fault_is_reported_by_its_number() {
    let text = "# comment\n\n  \nHeader_Key = abc\nno separator here\n";
    assert_eq!(
        text.parse::<Keyset>().err(),
        Some(ParseKeysetError::MalformedValue { line: 4, name: "header_key".to_owned() })
    );
    let text = "titlekek_00 = ff\nno separator here";
    assert_eq!(
        text.parse::<Keyset>().err(),
        Some(ParseKeysetError::MalformedLine { line: 2 })
    );
    assert_eq!(
        "key =\n".parse::<Keyset>().err(),
        Some(ParseKeysetError::MalformedValue { line: 1, name: "key".to_owned() })
    );
    assert_eq!(
        "key = +1+2".parse::<Keyset>().err(),
        Some(ParseKeysetError::MalformedValue { line: 1, name: "key".to_owned() })
    );
    assert_eq!(
        "key = aéé".parse::<Keyset>().err(),
        Some(ParseKeysetError::MalformedValue { line: 1, name: "key".to_owned() })
    );
    assert!("".parse::<Keyset>().is_ok());
}

#[test]
fn key_generations_are_counted_from_one_to_thirty_two() {
    assert!(KeyGeneration::try_from(0).is_none());
    assert!(KeyGeneration::try_from(33).is_none());
    assert_eq!(KeyGeneration::try_from(32).expect("the last").to_u8(), 32);
    assert_eq!(KeyGeneration::first().to_u8(), 1);
}

#[test]
fn a_project_keyset_wins_over_the_one_installed_for_the_account() {
    let locations = search_paths(true);
    assert_eq!(
        locations,
        vec![
            Location::WorkingDirectory("keys.dat"),
            Location::WorkingDirectory("keys.txt"),
            Location::WorkingDirectory("keys.ini"),
            Location::WorkingDirectory("prod.keys"),
            Location::Home,
        ]
    );
    assert_eq!(search_paths(false).len(), 4);
    assert_eq!(search(&[false, false, true, false, true]), Some(2));
    assert_eq!(search(&[false, false, false, false, true]), Some(4));
    assert_eq!(search(&[false, false, false, false]), None);
}

#[test]
fn load_reports_what_became_of_the_file() {
    let missing = load(None, None, vec!["keys.dat".to_owned()]);
    assert!(matches!(missing, Err(LoadError::NotFound { searched }) if searched == ["keys.dat"]));
    let unread = load(Some("prod.keys".to_owned()), None, vec![]);
    assert!(matches!(unread, Err(LoadError::Read { path }) if path == "prod.keys"));
    let unparsed = load(Some("prod.keys".to_owned()), Some("header_key\n"), vec![]);
    assert!(matches!(
        unparsed,
        Err(LoadError::Parse { path, source: ParseKeysetError::MalformedLine { line: 1 } })
            if path == "prod.keys"
    ));
    let text = format!("header_key = {}\n", "ab".repeat(0x20));
    let loaded = load(Some("prod.keys".to_owned()), Some(&text), vec![]).expect("a keyset");
    assert_eq!(loaded.header_key(), Some(&[0xABu8; 0x20]));
}

/// The conventional paths of an account, of which those at `present` are files.
fn candidates(present: &[usize]) -> Vec<Candidate> {
    search_paths(true)
        .into_iter()
        .enumerate()
        .map(|(index, location)| Candidate {
            path: match location {
                Location::WorkingDirectory(name) => name.to_owned(),
                Location::Home => "/home/me/.switch/prod.keys".to_owned(),
            },
            is_file: present.contains(&index),
        })
        .collect()
}

#[test]
fn naming_no_file_loads_what_naming_the_first_present_one_would() {
    let searched = candidates(&[3, 4]);
    assert_eq!(locate(None, &searched).as_deref(), Some("prod.keys"));
    assert_eq!(
        locate(Some("prod.keys".to_owned()), &candidates(&[0])).as_deref(),
        Some("prod.keys"),
        "a named file is the one read, whatever else is there"
    );
    assert_eq!(locate(None, &candidates(&[4])).as_deref(), Some("/home/me/.switch/prod.keys"));

    assert_eq!(locate(None, &candidates(&[])), None);
    let paths: Vec<String> = searched.iter().map(|candidate| candidate.path.clone()).collect();
    let missing = load(None, None, paths.clone());
    assert!(matches!(missing, Err(LoadError::NotFound { searched }) if searched == paths));
}

#[test]
fn the_header_key_rests_on_the_first_generation_alone() {
    let first = format!(
        "master_key_00 = {}\n\
         aes_kek_generation_source = {}\n\
         aes_key_generation_source = {}\n\
         header_kek_source = {}\n\
         header_key_source = {}\n",
        "01".repeat(0x10),
        "02".repeat(0x10),
        "03".repeat(0x10),
        "05".repeat(0x10),
        "06".repeat(0x20),
    );
    let more = format!(
        "{first}master_key_01 = {}\nkey_area_key_application_source = {}\nheader_key = {}\n",
        "77".repeat(0x10),
        "88".repeat(0x10),
        "99".repeat(0x10),
    );
    let left: Keyset = first.parse().expect("a well-formed keyset should parse");
    let right: Keyset = more.parse().expect("a well-formed keyset should parse");
    assert!(left.header_key().is_some());
    assert_eq!(left.header_key(), right.header_key(), "a short header key counts as absent too");
    let later: Keyset = first
        .replace("master_key_00", "master_key_01")
        .parse()
        .expect("a well-formed keyset should parse");
    assert!(later.header_key().is_none(), "no other generation's master key gives one");
}

/// Entries that list each name with that many bytes of one value.
fn entries(listed: &[(&str, u8, usize)]) -> Vec<Entry> {
    listed
        .iter()
        .map(|(name, byte, len)| Entry { name: name.to_string(), value: vec![*byte; *len] })
        .collect()
}

#[test]
fn derive_takes_the_header_key_from_the_first_generation_alone() {
    let first = [
        ("master_key_00", 1, 0x10),
        ("aes_kek_generation_source", 2, 0x10),
        ("aes_key_generation_source", 3, 0x10),
        ("header_kek_source", 4, 0x10),
        ("header_key_source", 5, 0x20),
    ];
    let left = nxarchive::keyset::derive(&entries(&first));
    let expected = unwrapped([4; 0x10], [1; 0x10], [2; 0x10], [3; 0x10]);
    let mut key = [5u8; 0x20];
    aes_ecb_decrypt(&expected, &mut key);
    assert_eq!(left.header_key(), Some(&key));

    // Every later master key, and a header key of another length, make no difference.
    let mut more = first.to_vec();
    more.push(("master_key_01", 9, 0x10));
    more.push(("master_key_1f", 8, 0x10));
    more.push(("header_key", 7, 0x10));
    assert_eq!(nxarchive::keyset::derive(&entries(&more)).header_key(), Some(&key));

    // One of its own length is the key, and the last of a name counts.
    more.push(("header_key", 6, 0x20));
    assert_eq!(nxarchive::keyset::derive(&entries(&more)).header_key(), Some(&[6u8; 0x20]));
}
