//! The console keys an NCA is encrypted with, read from the text of a keyset file.
//!
//! A keyset file is a flat list of `name = hex` lines. Every tool in this ecosystem reads the same
//! file, so it holds far more than any one of them needs; this module keeps the two keys an NCA
//! needs and ignores the rest rather than modelling a keyset in full.
//!
//! Those two are the header key, which encrypts an NCA header, and the application key area key for
//! the generation the archive is built for, which wraps its key area. Either may be listed
//! directly or derived from a master key and the seeds beside it, so parsing is followed by a
//! derivation pass. A keyset that lists a key wins over one that could produce it, which is the
//! same answer in practice and the one that does not silently override what the file said.
//!
//! Derivation stops at the master keys. The chain below them runs on the secure boot key and the
//! TSEC key, which are unique to one console and are not what a keyset distributed for packing
//! homebrew carries; a file that supplies neither a master key nor a derived key for the generation
//! asked for is reported as missing it.
//!
//! Parsing here takes text and nothing else: a keyset arrives already read, so this file has no
//! opinion on where one lives. Deciding where to look is [`file`]'s job.

pub mod file;

use crate::bytes::be_bytes;
use crate::container::KeyGeneration;
use crate::crypto::{aes_ecb_decrypt, ecb_decrypted};
use crate::text::{
    chars_of, decode_hex, hex, hex_bytes, hex_number, hex_text, hex_value, is_space,
    law_each_byte_is_rendered_as_two_digits, law_trimming_keeps_what_is_between,
    lemma_hex_text_decodes_back, lemma_hex_text_reads_back, trim, trimmed, trimmed_end,
    trimmed_start, NumberError,
};
use vstd::prelude::*;

verus! {

/// Number of key generations a keyset file can name.
pub const KEY_GENERATION_COUNT: usize = 32;

/// What `str::to_lowercase` makes of text that is not all ASCII.
pub uninterp spec fn unicode_lowercase(text: Seq<char>) -> Seq<char>;

/// Whether `text` is all ASCII.
pub open spec fn is_ascii_text(text: Seq<char>) -> bool {
    forall|i: int| 0 <= i < text.len() ==> #[trigger] text[i] as u32 <= 0x7f
}

/// `c` in lowercase, for an ASCII character.
pub open spec fn ascii_lower(c: char) -> char {
    if 'A' as u32 <= c as u32 <= 'Z' as u32 {
        ((c as u32) + 32) as char
    } else {
        c
    }
}

/// `text` in lowercase.
pub open spec fn lowercased(text: Seq<char>) -> Seq<char> {
    if is_ascii_text(text) {
        text.map_values(|c: char| ascii_lower(c))
    } else {
        unicode_lowercase(text)
    }
}

/// Lowercases `text`: `str::to_lowercase` of the standard library.
///
/// Trusted: text that is all ASCII keeps its length and has each letter replaced by its lowercase
/// form; what becomes of any other text depends on the text alone.
#[verifier::external_body]
fn lowercase(text: &str) -> (out: String)
    ensures
        is_ascii_text(text@) ==> out@ == text@.map_values(|c: char| ascii_lower(c)),
        !is_ascii_text(text@) ==> out@ == unicode_lowercase(text@),
{
    text.to_lowercase()
}

/// Where the line that starts at `at` ends: at the next line feed, or with the text.
pub open spec fn line_end(text: Seq<char>, at: int) -> int
    decreases text.len() - at,
{
    if 0 <= at < text.len() && text[at] != '\n' {
        line_end(text, at + 1)
    } else {
        at
    }
}

/// Where the first `=` or `,` of `line` from `at` on stands, or the line's length.
pub open spec fn separator(line: Seq<char>, at: int) -> int
    decreases line.len() - at,
{
    if 0 <= at < line.len() && line[at] != '=' && line[at] != ',' {
        separator(line, at + 1)
    } else {
        at
    }
}

/// What one line of a keyset file says: nothing, for a blank line or a comment, or a name and its
/// value. A line that names nothing is refused with `None`, one whose value is not hexadecimal with
/// the name.
pub open spec fn read_line(line: Seq<char>) -> Result<
    Option<(Seq<char>, Seq<u8>)>,
    Option<Seq<char>>,
> {
    let kept = trimmed(line);
    let at = separator(kept, 0);
    let name = lowercased(trimmed(kept.take(at)));
    if kept.len() == 0 || kept[0] == '#' || kept[0] == ';' {
        Ok(None)
    } else if at == kept.len() {
        Err(None)
    } else {
        match hex_bytes(trimmed(kept.skip(at + 1))) {
            Some(value) => Ok(Some((name, value))),
            None => Err(Some(name)),
        }
    }
}

/// What the lines of `text`, the first of them numbered `number`, add to `entries`: a name listed
/// twice keeps the later value. The first line that cannot be read is reported by its number.
pub open spec fn entries_of(
    text: Seq<char>,
    number: nat,
    entries: Map<Seq<char>, Seq<u8>>,
) -> Result<Map<Seq<char>, Seq<u8>>, (nat, Option<Seq<char>>)>
    decreases text.len(),
{
    if text.len() == 0 {
        Ok(entries)
    } else {
        let end = line_end(text, 0);
        proof {
            lemma_line_end(text, 0);
        }
        let rest = if end < text.len() {
            text.skip(end + 1)
        } else {
            seq![]
        };
        match read_line(text.take(end)) {
            Err(name) => Err((number, name)),
            Ok(None) => entries_of(rest, number + 1, entries),
            Ok(Some((name, value))) => entries_of(rest, number + 1, entries.insert(name, value)),
        }
    }
}

/// The entry named `name`, if it is present and exactly `size` bytes long.
pub open spec fn sized_entry(
    entries: Map<Seq<char>, Seq<u8>>,
    name: Seq<char>,
    size: nat,
) -> Option<Seq<u8>> {
    if entries.contains_key(name) && entries[name].len() == size {
        Some(entries[name])
    } else {
        None
    }
}

/// `prefix` followed by `generation` as two hex digits.
pub open spec fn numbered(prefix: Seq<char>, generation: u8) -> Seq<char> {
    prefix + hex_text(seq![generation])
}

/// The key three chained decryptions unwrap: the master key unwraps the generation seed into a key
/// encryption key, which unwraps `source` into a key-specific one, which unwraps the final seed.
pub open spec fn generated_kek(
    source: Seq<u8>,
    master_key: Seq<u8>,
    kek_generation_source: Seq<u8>,
    key_generation_source: Seq<u8>,
) -> Seq<u8> {
    let kek = ecb_decrypted(master_key, kek_generation_source);
    ecb_decrypted(ecb_decrypted(kek, source), key_generation_source)
}

/// The key `source` yields with the master key of `generation` and the two generation seeds, if the
/// entries carry all four.
pub open spec fn derivable(
    entries: Map<Seq<char>, Seq<u8>>,
    source: Seq<char>,
    generation: u8,
) -> Option<Seq<u8>> {
    match (
        sized_entry(entries, source, 0x10),
        sized_entry(entries, numbered("master_key_"@, generation), 0x10),
        sized_entry(entries, "aes_kek_generation_source"@, 0x10),
        sized_entry(entries, "aes_key_generation_source"@, 0x10),
    ) {
        (Some(source), Some(master_key), Some(kek_seed), Some(key_seed)) => Some(
            generated_kek(source, master_key, kek_seed, key_seed),
        ),
        _ => None,
    }
}

/// The header key the entries list, or else derive: the header key source unwrapped by the key the
/// first generation's master key yields.
pub open spec fn header_key_of(entries: Map<Seq<char>, Seq<u8>>) -> Option<Seq<u8>> {
    match sized_entry(entries, "header_key"@, 0x20) {
        Some(listed) => Some(listed),
        None => match (
            derivable(entries, "header_kek_source"@, 0),
            sized_entry(entries, "header_key_source"@, 0x20),
        ) {
            (Some(kek), Some(source)) => Some(ecb_decrypted(kek, source)),
            _ => None,
        },
    }
}

/// The application key area key the entries list for the generation a file numbers `generation`,
/// or else derive.
pub open spec fn area_key_of(entries: Map<Seq<char>, Seq<u8>>, generation: u8) -> Option<Seq<u8>> {
    match sized_entry(entries, numbered("key_area_key_application_"@, generation), 0x10) {
        Some(listed) => Some(listed),
        None => derivable(entries, "key_area_key_application_source"@, generation),
    }
}

/// A key of a fixed size as the bytes it holds.
pub open spec fn key_bytes<const N: usize>(key: Option<[u8; N]>) -> Option<Seq<u8>> {
    match key {
        Some(key) => Some(key@),
        None => None,
    }
}

/// The keys needed to encrypt an NCA, indexed by the generation they belong to.
pub struct Keyset {
    header_key: Option<[u8; 0x20]>,
    key_area_key_application: [Option<[u8; 0x10]>; 32],
}

impl Keyset {
    /// The header key, if the keyset has one.
    pub closed spec fn header(&self) -> Option<Seq<u8>> {
        key_bytes(self.header_key)
    }

    /// The application key area key at `generation`, if the keyset has it.
    pub closed spec fn area_key(&self, generation: u8) -> Option<Seq<u8>> {
        key_bytes(self.key_area_key_application@[generation - 1])
    }

    /// Whether the keyset holds exactly what `entries` list and derive.
    pub open spec fn holds(&self, entries: Map<Seq<char>, Seq<u8>>) -> bool {
        &&& self.header() == header_key_of(entries)
        &&& forall|generation: u8|
            1 <= generation <= 32 ==> #[trigger] self.area_key(generation) == area_key_of(
                entries,
                (generation - 1) as u8,
            )
    }

    /// The key an NCA header is encrypted with, if the keyset carries or can derive it.
    pub fn header_key(&self) -> (key: Option<&[u8; 0x20]>)
        ensures
            match key {
                Some(key) => self.header() == Some(key@),
                None => self.header() is None,
            },
    {
        match &self.header_key {
            Some(key) => Some(key),
            None => None,
        }
    }

    /// The key that wraps an application's key area at `generation`, if the keyset has it.
    pub fn key_area_key_application(&self, generation: KeyGeneration) -> (key: Option<&[u8; 0x10]>)
        ensures
            match key {
                Some(key) => self.area_key(generation@) == Some(key@),
                None => self.area_key(generation@) is None,
            },
    {
        let slot = (generation.to_u8() - 1) as usize;
        match &self.key_area_key_application[slot] {
            Some(key) => Some(key),
            None => None,
        }
    }

    /// Read a keyset from the text of a keyset file.
    ///
    /// # Errors
    ///
    /// Returns an error for the first line that is neither blank, a comment, nor a `name = value`
    /// pair whose value is hexadecimal.
    pub fn from_str(text: &str) -> (out: Result<Self, ParseKeysetError>)
        ensures
            match entries_of(text@, 1, Map::empty()) {
                Ok(entries) => out matches Ok(keyset) && keyset.holds(entries),
                Err(fault) => out matches Err(error) && error@ == fault,
            },
    {
        match parse_entries(text) {
            Ok(entries) => Ok(derive(&entries)),
            Err(error) => Err(error),
        }
    }
}

impl std::str::FromStr for Keyset {
    type Err = ParseKeysetError;

    fn from_str(text: &str) -> (out: Result<Self, ParseKeysetError>)
        ensures
            match entries_of(text@, 1, Map::empty()) {
                Ok(entries) => out matches Ok(keyset) && keyset.holds(entries),
                Err(fault) => out matches Err(error) && error@ == fault,
            },
    {
        Keyset::from_str(text)
    }
}

/// One `name = hex` pair of a keyset file, with the name lowercased.
pub struct Entry {
    /// What the value is listed under.
    pub name: String,
    /// The bytes listed.
    pub value: Vec<u8>,
}

/// What a list of entries says: the last one of a name decides.
pub open spec fn listed(entries: Seq<Entry>) -> Map<Seq<char>, Seq<u8>>
    decreases entries.len(),
{
    if entries.len() == 0 {
        Map::empty()
    } else {
        listed(entries.drop_last()).insert(entries.last().name@, entries.last().value@)
    }
}

/// A line never ends before it starts, nor after the text does.
pub proof fn lemma_line_end(text: Seq<char>, at: int)
    requires
        0 <= at <= text.len(),
    ensures
        at <= line_end(text, at) <= text.len(),
        line_end(text, at) < text.len() ==> text[line_end(text, at)] == '\n',
        forall|p: int| at <= p < line_end(text, at) ==> text[p] != '\n',
    decreases text.len() - at,
{
    if at < text.len() && text[at] != '\n' {
        lemma_line_end(text, at + 1);
    }
}

/// A line ends at its first line feed.
proof fn lemma_line_end_is_first(text: Seq<char>, at: int, end: int)
    requires
        0 <= at <= end <= text.len(),
        forall|p: int| at <= p < end ==> text[p] != '\n',
        end < text.len() ==> text[end] == '\n',
    ensures
        line_end(text, at) == end,
    decreases end - at,
{
    if at < end {
        lemma_line_end_is_first(text, at + 1, end);
    }
}

/// Split `text` into its named hex values.
///
/// Blank lines and comments are skipped, and a name there is no use for is kept rather than
/// rejected: a keyset file is shared with other tools and listing an unknown key is not an error.
fn parse_entries(text: &str) -> (out: Result<Vec<Entry>, ParseKeysetError>)
    ensures
        match entries_of(text@, 1, Map::empty()) {
            Ok(entries) => out matches Ok(list) && listed(list@) == entries,
            Err(fault) => out matches Err(error) && error@ == fault,
        },
{
    let chars = chars_of(text);
    let len = chars.len();
    let mut entries: Vec<Entry> = Vec::new();
    let mut at: usize = 0;
    let mut index: usize = 0;
    assert(text@.skip(0) =~= text@);
    while at < len
        invariant
            chars@ == text@,
            len == chars@.len(),
            at <= len,
            index <= at,
            entries_of(text@, 1, Map::empty()) == entries_of(
                text@.skip(at as int),
                index as nat + 1,
                listed(entries@),
            ),
        decreases len - at,
    {
        let ghost suffix = text@.skip(at as int);
        let mut end: usize = at;
        while end < len && chars[end] != '\n'
            invariant
                chars@ == text@,
                len == chars@.len(),
                at <= end <= len,
                suffix == text@.skip(at as int),
                forall|p: int| 0 <= p < end - at ==> suffix[p] != '\n',
            decreases len - end,
        {
            end += 1;
        }
        let ghost whole = suffix.take(end - at);
        proof {
            lemma_line_end_is_first(suffix, 0, end - at);
            assert(whole =~= text@.subrange(at as int, end as int));
        }
        let (start, stop) = trim(chars.as_slice(), at, end);
        let ghost kept = trimmed(whole);
        assert(kept == text@.subrange(start as int, stop as int));
        let ghost rest = if end < len {
            suffix.skip(end - at + 1)
        } else {
            seq![]
        };
        let next: usize = if end < len {
            end + 1
        } else {
            len
        };
        assert(rest =~= text@.skip(next as int));
        let skipped = start == stop || chars[start] == '#' || chars[start] == ';';
        assert(skipped == (kept.len() == 0 || kept[0] == '#' || kept[0] == ';'));
        if !skipped {
            let mut cut: usize = start;
            while cut < stop && chars[cut] != '=' && chars[cut] != ','
                invariant
                    chars@ == text@,
                    len == chars@.len(),
                    start <= cut <= stop <= len,
                    kept == text@.subrange(start as int, stop as int),
                    separator(kept, 0) == separator(kept, cut - start),
                decreases stop - cut,
            {
                assert(kept[cut - start] == text@[cut as int]);
                cut += 1;
            }
            assert(cut < stop ==> kept[cut - start] == text@[cut as int]);
            assert(separator(kept, 0) == cut - start);
            if cut == stop {
                return Err(ParseKeysetError::MalformedLine { line: index + 1 });
            }
            let (name_start, name_stop) = trim(chars.as_slice(), start, cut);
            assert(kept.take(cut - start) =~= text@.subrange(start as int, cut as int));
            let name = lowercase(text.substring_char(name_start, name_stop));
            let (value_start, value_stop) = trim(chars.as_slice(), cut + 1, stop);
            assert(kept.skip(cut - start + 1) =~= text@.subrange(cut + 1, stop as int));
            match decode_hex(chars.as_slice(), value_start, value_stop) {
                Some(value) => {
                    let ghost before = entries@;
                    entries.push(Entry { name, value });
                    assert(entries@.drop_last() =~= before);
                },
                None => {
                    return Err(ParseKeysetError::MalformedValue { line: index + 1, name });
                },
            }
        }
        index += 1;
        at = next;
    }
    assert(text@.skip(len as int) =~= seq![]);
    Ok(entries)
}

/// Read the entry named `name`, if it is present and exactly `N` bytes long.
///
/// A key of the wrong length is treated as absent rather than as an error: keyset files in the wild
/// carry entries whose names collide with these at other sizes, and refusing the whole file over one
/// would make it unusable for the keys that are fine.
fn fixed_size<const N: usize>(entries: &Vec<Entry>, name: &String) -> (key: Option<[u8; N]>)
    ensures
        key_bytes(key) == sized_entry(listed(entries@), name@, N as nat),
{
    let mut left = entries.len();
    assert(entries@.take(left as int) =~= entries@);
    while left > 0
        invariant
            left <= entries@.len(),
            sized_entry(listed(entries@), name@, N as nat) == sized_entry(
                listed(entries@.take(left as int)),
                name@,
                N as nat,
            ),
        decreases left,
    {
        let entry = &entries[left - 1];
        assert(entries@.take(left as int).drop_last() =~= entries@.take(left - 1));
        if entry.name == *name {
            if entry.value.len() != N {
                return None;
            }
            let key = crate::bytes::load::<N>(entry.value.as_slice(), 0);
            assert(entry.value@.subrange(0, N as int) =~= entry.value@);
            return Some(key);
        }
        left -= 1;
    }
    None
}

/// The name `prefix` numbers `generation` with.
fn numbered_name(prefix: &str, generation: u8) -> (name: String)
    ensures
        name@ == numbered(prefix@, generation),
{
    let mut name = prefix.to_owned();
    let byte = [generation];
    name.append(hex(&byte).as_str());
    assert(byte@ =~= seq![generation]);
    name
}

/// The key `source` yields with the master key of `generation` and the two seeds, if all four are
/// there.
fn derive_key(
    entries: &Vec<Entry>,
    source: &str,
    generation: u8,
) -> (key: Option<[u8; 0x10]>)
    ensures
        key_bytes(key) == derivable(listed(entries@), source@, generation),
{
    let kek_seed = fixed_size::<0x10>(entries, &"aes_kek_generation_source".to_owned());
    let key_seed = fixed_size::<0x10>(entries, &"aes_key_generation_source".to_owned());
    let source = fixed_size::<0x10>(entries, &source.to_owned());
    let master_key = fixed_size::<0x10>(entries, &numbered_name("master_key_", generation));
    match (source, master_key, kek_seed, key_seed) {
        (Some(source), Some(master_key), Some(kek_seed), Some(key_seed)) => Some(
            generate_kek(&source, &master_key, &kek_seed, &key_seed),
        ),
        _ => None,
    }
}

/// Take the keys the entries list, then fill in whatever the master keys can produce.
pub fn derive(entries: &Vec<Entry>) -> (keyset: Keyset)
    ensures
        keyset.holds(listed(entries@)),
{
    let ghost map = listed(entries@);
    let header_key = match fixed_size::<0x20>(entries, &"header_key".to_owned()) {
        Some(key) => Some(key),
        // The header key belongs to the first generation alone: an NCA header is encrypted with the
        // same key whatever generation its key area was wrapped with.
        None => match (
            derive_key(entries, "header_kek_source", 0),
            fixed_size::<0x20>(entries, &"header_key_source".to_owned()),
        ) {
            (Some(kek), Some(source)) => {
                let mut key = source;
                aes_ecb_decrypt(&kek, &mut key);
                Some(key)
            },
            _ => None,
        },
    };
    let mut keys: [Option<[u8; 0x10]>; 32] = [None; 32];
    let mut generation: usize = 0;
    while generation < KEY_GENERATION_COUNT
        invariant
            generation <= 32,
            map == listed(entries@),
            keys@.len() == 32,
            forall|i: int|
                0 <= i < generation ==> key_bytes(#[trigger] keys@[i]) == area_key_of(map, i as u8),
        decreases 32 - generation,
    {
        let number = generation as u8;
        let name = numbered_name("key_area_key_application_", number);
        let key = match fixed_size::<0x10>(entries, &name) {
            Some(key) => Some(key),
            None => derive_key(entries, "key_area_key_application_source", number),
        };
        keys[generation] = key;
        generation += 1;
    }
    Keyset { header_key, key_area_key_application: keys }
}

/// Unwrap one key from another, the way the console's key generation does.
///
/// Three chained ECB decryptions: the master key unwraps the generation seed into a KEK, the KEK
/// unwraps `source` into a key-specific KEK, and that unwraps the final seed into the key.
fn generate_kek(
    source: &[u8; 0x10],
    master_key: &[u8; 0x10],
    kek_generation_source: &[u8; 0x10],
    key_generation_source: &[u8; 0x10],
) -> (key: [u8; 0x10])
    ensures
        key@ == generated_kek(
            source@,
            master_key@,
            kek_generation_source@,
            key_generation_source@,
        ),
{
    let mut kek = *kek_generation_source;
    aes_ecb_decrypt(master_key, &mut kek);
    let mut source_kek = *source;
    aes_ecb_decrypt(&kek, &mut source_kek);
    let mut key = *key_generation_source;
    aes_ecb_decrypt(&source_kek, &mut key);
    key
}

/// Error returned when a keyset file cannot be parsed.
#[derive(Debug, PartialEq, Eq)]
pub enum ParseKeysetError {
    /// A line carries neither `=` nor `,` and so names nothing.
    ///
    /// Holds the 1-based line number.
    MalformedLine {
        /// The 1-based line number.
        line: usize,
    },
    /// A value is not an even-length run of hex digits.
    ///
    /// Holds the 1-based line number and the name whose value was rejected.
    MalformedValue {
        /// The 1-based line number.
        line: usize,
        /// The name whose value was rejected.
        name: String,
    },
}

impl View for ParseKeysetError {
    type V = (nat, Option<Seq<char>>);

    /// The line at fault and, where its value is, the name.
    open spec fn view(&self) -> (nat, Option<Seq<char>>) {
        match *self {
            ParseKeysetError::MalformedLine { line } => (line as nat, None),
            ParseKeysetError::MalformedValue { line, name } => (line as nat, Some(name@)),
        }
    }
}

/// Whether a keyset is read from the entry named `name` when it is `size` bytes long.
pub open spec fn is_consulted(name: Seq<char>, size: nat) -> bool {
    ||| size == 0x20 && (name == "header_key"@ || name == "header_key_source"@)
    ||| size == 0x10 && {
        ||| name == "aes_kek_generation_source"@
        ||| name == "aes_key_generation_source"@
        ||| name == "header_kek_source"@
        ||| name == "key_area_key_application_source"@
        ||| exists|generation: u8|
            generation < 32 && (name == #[trigger] numbered("master_key_"@, generation) || name
                == numbered("key_area_key_application_"@, generation))
    }
}

/// A key the file lists is the key used, whatever else the file could derive.
pub proof fn law_listed_keys_win(entries: Map<Seq<char>, Seq<u8>>, generation: u8)
    ensures
        sized_entry(entries, "header_key"@, 0x20) is Some ==> header_key_of(entries) == Some(
            entries["header_key"@],
        ),
        sized_entry(
            entries,
            numbered("key_area_key_application_"@, generation),
            0x10,
        ) is Some ==> area_key_of(entries, generation) == Some(
            entries[numbered("key_area_key_application_"@, generation)],
        ),
{
}

/// Without both generation seeds, whatever the file lists directly is all there is.
pub proof fn law_nothing_is_derived_without_the_seeds(
    entries: Map<Seq<char>, Seq<u8>>,
    generation: u8,
)
    requires
        sized_entry(entries, "aes_kek_generation_source"@, 0x10) is None || sized_entry(
            entries,
            "aes_key_generation_source"@,
            0x10,
        ) is None,
    ensures
        header_key_of(entries) == sized_entry(entries, "header_key"@, 0x20),
        area_key_of(entries, generation) == sized_entry(
            entries,
            numbered("key_area_key_application_"@, generation),
            0x10,
        ),
{
}

/// The master key of the first generation is named `master_key_00`.
proof fn lemma_first_master_key_name()
    ensures
        numbered("master_key_"@, 0) == "master_key_00"@,
{
    reveal_strlit("master_key_");
    reveal_strlit("master_key_00");
    assert(numbered("master_key_"@, 0) =~= "master_key_00"@);
}

/// Whether two sets of entries say the same of `name`.
pub open spec fn agree_on(
    left: Map<Seq<char>, Seq<u8>>,
    right: Map<Seq<char>, Seq<u8>>,
    name: Seq<char>,
) -> bool {
    &&& left.contains_key(name) == right.contains_key(name)
    &&& left.contains_key(name) ==> left[name] == right[name]
}

/// The header key rests on the first generation alone: entries that agree on the key itself, the
/// first master key, the two generation seeds and the two header sources give the same one,
/// whatever else they list, every later master key included. So do the keysets that [`derive`] makes
/// of them.
pub proof fn law_the_header_key_rests_on_the_first_generation(
    left: Map<Seq<char>, Seq<u8>>,
    right: Map<Seq<char>, Seq<u8>>,
)
    requires
        agree_on(left, right, "header_key"@),
        agree_on(left, right, "master_key_00"@),
        agree_on(left, right, "aes_kek_generation_source"@),
        agree_on(left, right, "aes_key_generation_source"@),
        agree_on(left, right, "header_kek_source"@),
        agree_on(left, right, "header_key_source"@),
    ensures
        header_key_of(left) == header_key_of(right),
        forall|one: Keyset, other: Keyset| #[trigger]
            one.holds(left) && #[trigger] other.holds(right) ==> one.header() == other.header(),
{
    lemma_first_master_key_name();
}

/// A header key listed at another length than its own is the same as none listed.
pub proof fn law_a_header_key_of_another_length_is_absent(entries: Map<Seq<char>, Seq<u8>>)
    requires
        entries.contains_key("header_key"@),
        entries["header_key"@].len() != 0x20,
    ensures
        header_key_of(entries) == header_key_of(entries.remove("header_key"@)),
        forall|one: Keyset, other: Keyset| #[trigger]
            one.holds(entries) && #[trigger] other.holds(entries.remove("header_key"@))
                ==> one.header() == other.header(),
{
    reveal_strlit("header_key");
    reveal_strlit("master_key_");
    reveal_strlit("aes_kek_generation_source");
    reveal_strlit("aes_key_generation_source");
    reveal_strlit("header_kek_source");
    reveal_strlit("header_key_source");
    assert("header_key"@.len() == 10);
    assert(numbered("master_key_"@, 0).len() == 13);
    assert("aes_kek_generation_source"@.len() == 25);
    assert("aes_key_generation_source"@.len() == 25);
    assert("header_kek_source"@.len() == 17);
    assert("header_key_source"@.len() == 17);
}

/// Without a master key for a generation, no key area key is derived for it.
pub proof fn law_derivation_stops_at_the_master_keys(
    entries: Map<Seq<char>, Seq<u8>>,
    generation: u8,
)
    requires
        sized_entry(entries, numbered("master_key_"@, generation), 0x10) is None,
    ensures
        area_key_of(entries, generation) == sized_entry(
            entries,
            numbered("key_area_key_application_"@, generation),
            0x10,
        ),
        generation == 0 ==> header_key_of(entries) == sized_entry(entries, "header_key"@, 0x20),
{
}

/// Listing a name there is no use for, or a known name at the wrong length, is the same as not
/// listing it.
pub proof fn law_unknown_names_and_wrong_lengths_are_absent(
    entries: Map<Seq<char>, Seq<u8>>,
    name: Seq<char>,
    value: Seq<u8>,
    generation: u8,
)
    requires
        !is_consulted(name, value.len()),
        generation < 32,
    ensures
        header_key_of(entries.insert(name, value)) == header_key_of(entries.remove(name)),
        area_key_of(entries.insert(name, value), generation) == area_key_of(
            entries.remove(name),
            generation,
        ),
{
    let with = entries.insert(name, value);
    let without = entries.remove(name);
    assert forall|wanted: Seq<char>, size: nat| is_consulted(wanted, size) implies #[trigger] sized_entry(
        with,
        wanted,
        size,
    ) == sized_entry(without, wanted, size) by {}
    assert(is_consulted("header_key"@, 0x20));
    assert(is_consulted("header_key_source"@, 0x20));
    assert(is_consulted("header_kek_source"@, 0x10));
    assert(is_consulted("aes_kek_generation_source"@, 0x10));
    assert(is_consulted("aes_key_generation_source"@, 0x10));
    assert(is_consulted("key_area_key_application_source"@, 0x10));
    assert(is_consulted(numbered("master_key_"@, 0), 0x10));
    assert(is_consulted(numbered("master_key_"@, generation), 0x10));
    assert(is_consulted(numbered("key_area_key_application_"@, generation), 0x10));
}

/// Text that is a line, a line feed and more comes apart into the line and what follows it.
proof fn lemma_first_line_comes_off(line: Seq<char>, text: Seq<char>)
    requires
        !line.contains('\n'),
    ensures
        ({
            let whole = line + seq!['\n'] + text;
            let end = line_end(whole, 0);
            &&& end == line.len()
            &&& whole.take(end) == line
            &&& whole.skip(end + 1) == text
        }),
{
    let whole = line + seq!['\n'] + text;
    assert forall|p: int| 0 <= p < line.len() implies whole[p] != '\n' by {
        assert(whole[p] == line[p]);
        assert(line.contains(line[p]));
    }
    lemma_line_end_is_first(whole, 0, line.len() as int);
    assert(whole.take(line.len() as int) =~= line);
    assert(whole.skip(line.len() as int + 1) =~= text);
}

/// A blank line or a comment says nothing: the lines after it are read as if it were not there, but
/// for their numbers.
pub proof fn law_blank_lines_and_comments_say_nothing(
    line: Seq<char>,
    text: Seq<char>,
    number: nat,
    entries: Map<Seq<char>, Seq<u8>>,
)
    requires
        !line.contains('\n'),
        trimmed(line).len() == 0 || trimmed(line)[0] == '#' || trimmed(line)[0] == ';',
    ensures
        entries_of(line + seq!['\n'] + text, number, entries) == entries_of(
            text,
            number + 1,
            entries,
        ),
{
    lemma_first_line_comes_off(line, text);
}

/// A line that names a key adds its value, and a name listed again takes the later value.
pub proof fn law_the_later_value_of_a_name_counts(
    line: Seq<char>,
    text: Seq<char>,
    number: nat,
    entries: Map<Seq<char>, Seq<u8>>,
    name: Seq<char>,
    value: Seq<u8>,
)
    requires
        !line.contains('\n'),
        read_line(line) == Ok::<_, Option<Seq<char>>>(Some((name, value))),
    ensures
        entries_of(line + seq!['\n'] + text, number, entries) == entries_of(
            text,
            number + 1,
            entries.insert(name, value),
        ),
{
    lemma_first_line_comes_off(line, text);
}

/// The first separator from `at` on stands at `end` if nothing before it is one.
proof fn lemma_separator(line: Seq<char>, at: int, end: int)
    requires
        0 <= at <= end < line.len(),
        forall|p: int| at <= p < end ==> line[p] != '=' && line[p] != ',',
        line[end] == '=' || line[end] == ',',
    ensures
        separator(line, at) == end,
    decreases end - at,
{
    if at < end {
        lemma_separator(line, at + 1, end);
    }
}

/// Text that neither starts nor ends in whitespace is trimmed already.
proof fn lemma_already_trimmed(text: Seq<char>)
    requires
        text.len() > 0,
        !is_space(text[0]),
        !is_space(text.last()),
    ensures
        trimmed(text) == text,
{
}

/// A hex digit is not whitespace.
proof fn lemma_hex_digit_is_no_space(c: char)
    requires
        hex_value(c) is Some,
    ensures
        !is_space(c),
{
}

/// A space after text that ends in no whitespace is trimmed, and nothing else is.
proof fn lemma_trailing_space_is_trimmed(text: Seq<char>)
    requires
        text.len() > 0,
        !is_space(text[0]),
        !is_space(text.last()),
    ensures
        trimmed(text.push(' ')) == text,
{
    let spaced = text.push(' ');
    assert(spaced.drop_last() =~= text);
    assert(trimmed_start(spaced) == spaced);
    assert(trimmed_end(text) == text);
}

/// A space before text that starts with no whitespace is trimmed, and nothing else is.
proof fn lemma_leading_space_is_trimmed(text: Seq<char>)
    requires
        text.len() > 0,
        !is_space(text[0]),
        !is_space(text.last()),
    ensures
        trimmed(seq![' '] + text) == text,
{
    let spaced = seq![' '] + text;
    assert(spaced.skip(1) =~= text);
    assert(trimmed_start(text) == text);
}

/// The digits bytes are written in neither start nor end in whitespace.
proof fn lemma_hex_text_is_trimmed(value: Seq<u8>)
    requires
        value.len() > 0,
    ensures
        hex_text(value).len() > 0,
        !is_space(hex_text(value)[0]),
        !is_space(hex_text(value).last()),
        hex_bytes(hex_text(value)) == Some(value),
{
    lemma_hex_text_decodes_back(value);
    let digits = hex_text(value);
    assert(hex_value(digits[0]) is Some);
    assert(hex_value(digits[digits.len() - 1]) is Some);
    lemma_hex_digit_is_no_space(digits[0]);
    lemma_hex_digit_is_no_space(digits[digits.len() - 1]);
}

/// The line `name = value`.
pub open spec fn assigned(name: Seq<char>, value: Seq<char>) -> Seq<char> {
    name + seq![' ', '=', ' '] + value
}

/// The line `name = value` is trimmed already, and comes apart at its sign into the two.
proof fn lemma_assignment_comes_apart(name: Seq<char>, value: Seq<char>)
    requires
        name.len() > 0,
        value.len() > 0,
        !is_space(name[0]),
        !is_space(name.last()),
        !is_space(value[0]),
        !is_space(value.last()),
        forall|i: int| 0 <= i < name.len() ==> #[trigger] name[i] != '=' && name[i] != ',',
    ensures
        ({
            let line = assigned(name, value);
            let at = name.len() as int + 1;
            &&& trimmed(line) == line
            &&& separator(line, 0) == at
            &&& at < line.len()
            &&& trimmed(line.take(at)) == name
            &&& trimmed(line.skip(at + 1)) == value
        }),
{
    let line = assigned(name, value);
    let at = name.len() as int + 1;
    assert(line[0] == name[0]);
    assert(line.last() == value.last());
    lemma_already_trimmed(line);
    assert forall|p: int| 0 <= p < at implies line[p] != '=' && line[p] != ',' by {
        if p < name.len() {
            assert(line[p] == name[p]);
        }
    }
    lemma_separator(line, 0, at);
    assert(line.take(at) =~= name.push(' '));
    lemma_trailing_space_is_trimmed(name);
    assert(line.skip(at + 1) =~= seq![' '] + value);
    lemma_leading_space_is_trimmed(value);
}

/// Text that is lowercase ASCII already stays as it is.
proof fn lemma_lowercase_stays(text: Seq<char>)
    requires
        is_ascii_text(text),
        forall|i: int| 0 <= i < text.len() ==> ascii_lower(#[trigger] text[i]) == text[i],
    ensures
        lowercased(text) == text,
{
    assert(text.map_values(|c: char| ascii_lower(c)) =~= text);
}

/// What a line says follows from where it comes apart and what the two parts are.
proof fn lemma_line_reads_as(line: Seq<char>, name: Seq<char>, digits: Seq<char>, value: Seq<u8>)
    requires
        line.len() > 0,
        line[0] != '#',
        line[0] != ';',
        trimmed(line) == line,
        separator(line, 0) < line.len(),
        trimmed(line.take(separator(line, 0))) == name,
        lowercased(name) == name,
        trimmed(line.skip(separator(line, 0) + 1)) == digits,
        hex_bytes(digits) == Some(value),
    ensures
        read_line(line) == Ok::<_, Option<Seq<char>>>(Some((name, value))),
{
}

/// A line of the form `name = hex` lists the bytes the digits stand for under that name.
#[verifier::spinoff_prover]
pub proof fn law_a_line_lists_its_value(name: Seq<char>, value: Seq<u8>)
    requires
        name.len() > 0,
        name[0] != '#',
        name[0] != ';',
        is_ascii_text(name),
        forall|i: int|
            0 <= i < name.len() ==> {
                let c = #[trigger] name[i];
                !is_space(c) && c != '=' && c != ',' && ascii_lower(c) == c
            },
        value.len() > 0,
    ensures
        read_line(assigned(name, hex_text(value))) == Ok::<_, Option<Seq<char>>>(
            Some((name, value)),
        ),
{
    let digits = hex_text(value);
    let line = assigned(name, digits);
    lemma_hex_text_is_trimmed(value);
    assert(name.last() == name[name.len() - 1]);
    lemma_assignment_comes_apart(name, digits);
    lemma_lowercase_stays(name);
    assert(line[0] == name[0]);
    lemma_line_reads_as(line, name, digits, value);
}

/// A generation is named by its number in exactly two lowercase hexadecimal digits after the prefix,
/// so that reading the digits gives the number back.
pub proof fn law_a_generation_is_named_in_two_hex_digits(prefix: Seq<char>, generation: u8)
    ensures
        ({
            let name = numbered(prefix, generation);
            let at = prefix.len() as int;
            &&& name.len() == prefix.len() + 2
            &&& name.take(at) == prefix
            &&& name[at] == "0123456789abcdef"@[generation as int / 16]
            &&& name[at + 1] == "0123456789abcdef"@[generation as int % 16]
            &&& hex_number(name.skip(at), 0xff) == Ok::<nat, NumberError>(generation as nat)
        }),
{
    let name = numbered(prefix, generation);
    let at = prefix.len() as int;
    law_each_byte_is_rendered_as_two_digits(seq![generation], 0);
    assert(name.take(at) =~= prefix);
    assert(name.skip(at) =~= hex_text(seq![generation]));
    assert(be_bytes(generation as nat, 1) =~= seq![generation]) by {
        reveal_with_fuel(be_bytes, 2);
    }
    assert(vstd::arithmetic::power::pow(256, 1) == 256) by {
        vstd::arithmetic::power::lemma_pow1(256);
    }
    lemma_hex_text_reads_back(generation as nat, 1, 0xff);
}

/// No two generations share a name.
pub proof fn law_generations_have_names_of_their_own(prefix: Seq<char>, left: u8, right: u8)
    requires
        numbered(prefix, left) == numbered(prefix, right),
    ensures
        left == right,
{
    law_a_generation_is_named_in_two_hex_digits(prefix, left);
    law_a_generation_is_named_in_two_hex_digits(prefix, right);
}

/// The name a generation has is the prefix and its two digits.
proof fn lemma_named(prefix: Seq<char>, generation: u8)
    ensures
        numbered(prefix, generation) == prefix + seq![
            "0123456789abcdef"@[generation as int / 16],
            "0123456789abcdef"@[generation as int % 16],
        ],
{
    law_a_generation_is_named_in_two_hex_digits(prefix, generation);
    assert(numbered(prefix, generation) =~= numbered(prefix, generation).take(prefix.len() as int)
        + seq![
        "0123456789abcdef"@[generation as int / 16],
        "0123456789abcdef"@[generation as int % 16],
    ]);
}

/// The key area key of a generation is the sixteen bytes listed under `key_area_key_application_` and
/// the two digits of its number counted from zero, or else what the master key of the same number
/// unwraps in three steps from the two seeds and the application source, or else there is none.
pub proof fn law_the_key_area_key_of_each_generation(
    keyset: Keyset,
    entries: Map<Seq<char>, Seq<u8>>,
    number: u8,
)
    requires
        keyset.holds(entries),
        number < 32,
    ensures
        ({
            let two = seq![
                "0123456789abcdef"@[number as int / 16],
                "0123456789abcdef"@[number as int % 16],
            ];
            let listed = "key_area_key_application_"@ + two;
            let master = "master_key_"@ + two;
            let kek_seed = "aes_kek_generation_source"@;
            let key_seed = "aes_key_generation_source"@;
            let source = "key_area_key_application_source"@;
            keyset.area_key((number + 1) as u8) == if entries.contains_key(listed)
                && entries[listed].len() == 16 {
                Some(entries[listed])
            } else if {
                &&& entries.contains_key(master) && entries[master].len() == 16
                &&& entries.contains_key(kek_seed) && entries[kek_seed].len() == 16
                &&& entries.contains_key(key_seed) && entries[key_seed].len() == 16
                &&& entries.contains_key(source) && entries[source].len() == 16
            } {
                Some(
                    ecb_decrypted(
                        ecb_decrypted(
                            ecb_decrypted(entries[master], entries[kek_seed]),
                            entries[source],
                        ),
                        entries[key_seed],
                    ),
                )
            } else {
                None
            }
        }),
{
    lemma_named("key_area_key_application_"@, number);
    lemma_named("master_key_"@, number);
    let generation = (number + 1) as u8;
    assert(keyset.area_key(generation) == area_key_of(entries, (generation - 1) as u8));
}

/// The header key is the thirty-two bytes listed under `header_key`, or else what the first master key
/// unwraps in three steps from the two seeds and the header source, unwrapping the header key source
/// in its turn, or else there is none.
pub proof fn law_the_header_key(keyset: Keyset, entries: Map<Seq<char>, Seq<u8>>)
    requires
        keyset.holds(entries),
    ensures
        ({
            let listed = "header_key"@;
            let master = "master_key_00"@;
            let kek_seed = "aes_kek_generation_source"@;
            let key_seed = "aes_key_generation_source"@;
            let kek_source = "header_kek_source"@;
            let source = "header_key_source"@;
            keyset.header() == if entries.contains_key(listed) && entries[listed].len() == 32 {
                Some(entries[listed])
            } else if {
                &&& entries.contains_key(master) && entries[master].len() == 16
                &&& entries.contains_key(kek_seed) && entries[kek_seed].len() == 16
                &&& entries.contains_key(key_seed) && entries[key_seed].len() == 16
                &&& entries.contains_key(kek_source) && entries[kek_source].len() == 16
                &&& entries.contains_key(source) && entries[source].len() == 32
            } {
                Some(
                    ecb_decrypted(
                        ecb_decrypted(
                            ecb_decrypted(
                                ecb_decrypted(entries[master], entries[kek_seed]),
                                entries[kek_source],
                            ),
                            entries[key_seed],
                        ),
                        entries[source],
                    ),
                )
            } else {
                None
            }
        }),
{
    lemma_first_master_key_name();
}

/// A capital is lowered to the small letter of its place in the alphabet, and nothing else is.
proof fn lemma_ascii_lower(c: char)
    requires
        c as u32 <= 0x7f,
    ensures
        'A' <= c <= 'Z' ==> ascii_lower(c) == "abcdefghijklmnopqrstuvwxyz"@[c as int - 'A' as int],
        !('A' <= c <= 'Z') ==> ascii_lower(c) == c,
{
    reveal_strlit("abcdefghijklmnopqrstuvwxyz");
    let at = c as int - 'A' as int;
    if 'A' <= c <= 'Z' {
        assert({
            ||| at == 0
            ||| at == 1
            ||| at == 2
            ||| at == 3
            ||| at == 4
            ||| at == 5
            ||| at == 6
            ||| at == 7
            ||| at == 8
            ||| at == 9
            ||| at == 10
            ||| at == 11
            ||| at == 12
            ||| at == 13
            ||| at == 14
            ||| at == 15
            ||| at == 16
            ||| at == 17
            ||| at == 18
            ||| at == 19
            ||| at == 20
            ||| at == 21
            ||| at == 22
            ||| at == 23
            ||| at == 24
            ||| at == 25
        });
    }
}

/// Text in ASCII is lowercased letter by letter, and nothing but its capitals changes.
pub proof fn law_ascii_is_lowercased_letter_by_letter(text: Seq<char>, i: int)
    requires
        forall|k: int| 0 <= k < text.len() ==> #[trigger] text[k] as u32 <= 0x7f,
        0 <= i < text.len(),
    ensures
        lowercased(text).len() == text.len(),
        'A' <= text[i] <= 'Z' ==> lowercased(text)[i]
            == "abcdefghijklmnopqrstuvwxyz"@[text[i] as int - 'A' as int],
        !('A' <= text[i] <= 'Z') ==> lowercased(text)[i] == text[i],
{
    assert(is_ascii_text(text));
    lemma_ascii_lower(text[i]);
}

/// A line with no separator stops there.
proof fn lemma_no_separator(line: Seq<char>, at: int)
    requires
        0 <= at <= line.len(),
        forall|p: int| at <= p < line.len() ==> line[p] != '=' && line[p] != ',',
    ensures
        separator(line, at) == line.len(),
    decreases line.len() - at,
{
    if at < line.len() {
        lemma_no_separator(line, at + 1);
    }
}

/// What a line says does not depend on the whitespace around it. A line that holds nothing else, or
/// starts with `#` or `;`, says nothing; one with neither `=` nor `,` is refused; and any other names,
/// in lowercase, what stands before the first of them, trimmed, and lists the bytes that what stands
/// after it, trimmed, is the digits of, or is refused with the name if that is no run of digits.
pub proof fn law_a_line_is_a_name_and_a_value(
    lead: Seq<char>,
    left: Seq<char>,
    sign: char,
    right: Seq<char>,
    tail: Seq<char>,
)
    requires
        forall|i: int| 0 <= i < lead.len() ==> is_space(#[trigger] lead[i]),
        forall|i: int| 0 <= i < tail.len() ==> is_space(#[trigger] tail[i]),
        sign == '=' || sign == ',',
        forall|i: int| 0 <= i < left.len() ==> #[trigger] left[i] != '=' && left[i] != ',',
        left.len() > 0 ==> !is_space(left[0]) && left[0] != '#' && left[0] != ';',
        right.len() > 0 ==> !is_space(right.last()),
    ensures
        read_line(lead + tail) == Ok::<Option<(Seq<char>, Seq<u8>)>, Option<Seq<char>>>(None),
        left.len() > 0 && !is_space(left.last()) ==> read_line(lead + left + tail) == Err::<
            Option<(Seq<char>, Seq<u8>)>,
            Option<Seq<char>>,
        >(None),
        read_line(lead + (left.push(sign) + right) + tail) == match hex_bytes(trimmed(right)) {
            Some(value) => Ok::<Option<(Seq<char>, Seq<u8>)>, Option<Seq<char>>>(
                Some((lowercased(trimmed(left)), value)),
            ),
            None => Err(Some(lowercased(trimmed(left)))),
        },
{
    let core = left.push(sign) + right;
    assert(lead + seq![] + tail =~= lead + tail);
    law_trimming_keeps_what_is_between(lead, seq![], tail);
    if left.len() > 0 && !is_space(left.last()) {
        law_trimming_keeps_what_is_between(lead, left, tail);
        lemma_no_separator(left, 0);
    }
    assert(core[left.len() as int] == sign);
    assert(core[0] == if left.len() > 0 { left[0] } else { sign });
    assert(core.last() == if right.len() > 0 { right.last() } else { sign });
    law_trimming_keeps_what_is_between(lead, core, tail);
    assert forall|p: int| 0 <= p < left.len() implies core[p] != '=' && core[p] != ',' by {
        assert(core[p] == left[p]);
    }
    lemma_separator(core, 0, left.len() as int);
    assert(core.take(left.len() as int) =~= left);
    assert(core.skip(left.len() as int + 1) =~= right);
}

/// A comment says nothing, whatever is in it.
pub proof fn law_a_comment_says_nothing(lead: Seq<char>, mark: char, rest: Seq<char>)
    requires
        forall|i: int| 0 <= i < lead.len() ==> is_space(#[trigger] lead[i]),
        mark == '#' || mark == ';',
        rest.len() > 0 ==> !is_space(rest.last()),
    ensures
        read_line(lead + (seq![mark] + rest)) == Ok::<
            Option<(Seq<char>, Seq<u8>)>,
            Option<Seq<char>>,
        >(None),
{
    let core = seq![mark] + rest;
    assert(core.last() == if rest.len() > 0 { rest.last() } else { mark });
    assert(lead + core + seq![] =~= lead + core);
    law_trimming_keeps_what_is_between(lead, core, seq![]);
}

/// A file is read line by line: one that is at fault is reported by its number and with its name, and
/// none after it is read. The last line need not end in a line feed, and no line says nothing.
pub proof fn law_the_first_line_at_fault_is_reported(
    line: Seq<char>,
    text: Seq<char>,
    number: nat,
    entries: Map<Seq<char>, Seq<u8>>,
)
    requires
        !line.contains('\n'),
    ensures
        read_line(line) matches Err(name) ==> entries_of(
            line + seq!['\n'] + text,
            number,
            entries,
        ) == Err::<Map<Seq<char>, Seq<u8>>, (nat, Option<Seq<char>>)>((number, name)),
        entries_of(line, number, entries) == entries_of(line + seq!['\n'], number, entries),
        entries_of(seq![], number, entries) == Ok::<
            Map<Seq<char>, Seq<u8>>,
            (nat, Option<Seq<char>>),
        >(entries),
{
    lemma_first_line_comes_off(line, text);
    lemma_first_line_comes_off(line, seq![]);
    assert(line + seq!['\n'] + seq![] =~= line + seq!['\n']);
    assert forall|p: int| 0 <= p < line.len() implies line[p] != '\n' by {
        assert(line.contains(line[p]));
    }
    lemma_line_end_is_first(line, 0, line.len() as int);
    assert(line.take(line.len() as int) =~= line);
    let whole = line + seq!['\n'];
    let none = Seq::<char>::empty();
    match read_line(line) {
        Ok(None) => {
            assert(entries_of(none, number + 1, entries) == Ok::<
                Map<Seq<char>, Seq<u8>>,
                (nat, Option<Seq<char>>),
            >(entries));
        },
        Ok(Some((name, value))) => {
            assert(entries_of(none, number + 1, entries.insert(name, value)) == Ok::<
                Map<Seq<char>, Seq<u8>>,
                (nat, Option<Seq<char>>),
            >(entries.insert(name, value)));
        },
        Err(_) => {},
    }
    assert(whole.take(line.len() as int) =~= line);
    assert(whole.skip(line.len() as int + 1) =~= none);
    if line.len() == 0 {
        assert(line =~= none);
        assert(trimmed(line) == line);
    }
}

/// An error names the line at fault and, where its value is at fault, the name on it.
pub proof fn law_an_error_names_the_line_and_the_name(line: usize, name: String)
    ensures
        (ParseKeysetError::MalformedLine { line })@ == (line as nat, None::<Seq<char>>),
        (ParseKeysetError::MalformedValue { line, name })@ == (line as nat, Some(name@)),
{
}

/// A list of entries says what each of them does, and of a name that is listed again the later value
/// counts.
pub proof fn law_the_last_entry_of_a_name_counts(entries: Seq<Entry>, entry: Entry)
    ensures
        listed(seq![]) == Map::<Seq<char>, Seq<u8>>::empty(),
        listed(entries.push(entry)) == listed(entries).insert(entry.name@, entry.value@),
{
    assert(entries.push(entry).drop_last() =~= entries);
}

} // verus!
