//! Finding the keyset file, and reporting what became of it.
//!
//! A caller who names a file gets that file or an error. A caller who names none has the four
//! conventional names tried in the working directory and then the per-user location, in that order,
//! so a project that ships its own keyset wins over the one installed for the account.

use crate::keyset::{entries_of, Keyset, ParseKeysetError};
use vstd::prelude::*;

verus! {

/// A place a keyset is conventionally stored.
#[derive(Debug, Clone, Copy, PartialEq, Eq)]
pub enum Location {
    /// A file of this name in the working directory.
    WorkingDirectory(&'static str),
    /// `.switch/prod.keys` under the caller's home directory.
    Home,
}

/// Every location searched when the caller names no keyset, in order; the per-user one only where
/// the caller has a home directory.
pub open spec fn search_order(has_home: bool) -> Seq<Location> {
    let names = seq![
        Location::WorkingDirectory("keys.dat"),
        Location::WorkingDirectory("keys.txt"),
        Location::WorkingDirectory("keys.ini"),
        Location::WorkingDirectory("prod.keys"),
    ];
    if has_home {
        names.push(Location::Home)
    } else {
        names
    }
}

/// Every location searched when the caller names no keyset, in order.
pub fn search_paths(has_home: bool) -> (locations: Vec<Location>)
    ensures
        locations@ == search_order(has_home),
{
    let mut locations: Vec<Location> = Vec::new();
    locations.push(Location::WorkingDirectory("keys.dat"));
    locations.push(Location::WorkingDirectory("keys.txt"));
    locations.push(Location::WorkingDirectory("keys.ini"));
    locations.push(Location::WorkingDirectory("prod.keys"));
    if has_home {
        locations.push(Location::Home);
    }
    assert(locations@ =~= search_order(has_home));
    locations
}

/// The first location from `from` on that holds a file, where `present` says of each whether it
/// does.
pub open spec fn first_present(present: Seq<bool>, from: int) -> Option<int>
    decreases present.len() - from,
{
    if from < 0 || from >= present.len() {
        None
    } else if present[from] {
        Some(from)
    } else {
        first_present(present, from + 1)
    }
}

/// The first of the searched locations that holds a file, where `present` says of each whether it
/// does.
pub fn search(present: &[bool]) -> (found: Option<usize>)
    ensures
        match found {
            Some(index) => first_present(present@, 0) == Some(index as int) && index
                < present@.len(),
            None => first_present(present@, 0) is None,
        },
{
    let mut index: usize = 0;
    while index < present.len()
        invariant
            index <= present@.len(),
            first_present(present@, 0) == first_present(present@, index as int),
        decreases present@.len() - index,
    {
        if present[index] {
            return Some(index);
        }
        index += 1;
    }
    None
}

/// Paths as their text.
pub open spec fn texts_of(paths: Seq<String>) -> Seq<Seq<char>> {
    paths.map_values(|path: String| path@)
}

/// Text as its characters, if there is any.
pub open spec fn text_of(text: Option<String>) -> Option<Seq<char>> {
    match text {
        Some(text) => Some(text@),
        None => None,
    }
}

/// The file a keyset is read from: the one the caller named, or else the first of the searched
/// paths that is present.
pub open spec fn located(
    explicit: Option<Seq<char>>,
    searched: Seq<Seq<char>>,
    present: Seq<bool>,
) -> Option<Seq<char>> {
    match explicit {
        Some(path) => Some(path),
        None => match first_present(present, 0) {
            Some(index) => Some(searched[index]),
            None => None,
        },
    }
}

/// A path that is searched, and whether it holds a file.
#[derive(Debug)]
pub struct Candidate {
    /// The path.
    pub path: String,
    /// Whether there is a file.
    pub is_file: bool,
}

/// Choose the file a keyset is read from: the one the caller named, or else the first of the
/// searched paths that holds a file.
pub fn locate(explicit: Option<String>, searched: &Vec<Candidate>) -> (path: Option<String>)
    ensures
        text_of(path) == located(
            text_of(explicit),
            searched@.map_values(|candidate: Candidate| candidate.path@),
            searched@.map_values(|candidate: Candidate| candidate.is_file),
        ),
{
    if explicit.is_some() {
        return explicit;
    }
    let ghost flags = searched@.map_values(|candidate: Candidate| candidate.is_file);
    let mut present: Vec<bool> = Vec::new();
    let mut index: usize = 0;
    while index < searched.len()
        invariant
            index <= searched@.len(),
            flags == searched@.map_values(|candidate: Candidate| candidate.is_file),
            present@ == flags.take(index as int),
        decreases searched@.len() - index,
    {
        present.push(searched[index].is_file);
        assert(flags.take(index + 1) =~= flags.take(index as int).push(flags[index as int]));
        index += 1;
    }
    assert(flags.take(flags.len() as int) =~= flags);
    match search(present.as_slice()) {
        Some(found) => Some(searched[found].path.clone()),
        None => None,
    }
}

/// What becomes of the keyset at `path`, whose contents are `contents`: what its entries say, or
/// why there are none.
pub open spec fn loaded(
    path: Option<Seq<char>>,
    contents: Option<Seq<char>>,
    searched: Seq<Seq<char>>,
) -> Result<Map<Seq<char>, Seq<u8>>, LoadFault> {
    match (path, contents) {
        (None, _) => Err(LoadFault::NotFound { searched }),
        (Some(path), None) => Err(LoadFault::Read { path }),
        (Some(path), Some(text)) => match entries_of(text, 1, Map::empty()) {
            Ok(entries) => Ok(entries),
            Err(fault) => Err(LoadFault::Parse { path, fault }),
        },
    }
}

/// The contents of a file as their characters, if the file could be read.
pub open spec fn contents_of(contents: Option<&str>) -> Option<Seq<char>> {
    match contents {
        Some(text) => Some(text@),
        None => None,
    }
}

/// Parse the keyset at `path`, whose contents are `contents`.
///
/// `path` is the file the caller named, or the first searched location that holds one; `searched`
/// lists the locations for the report when there is neither.
///
/// # Errors
///
/// Returns an error if there is no file, if it could not be read, or if it is not a keyset.
pub fn load(path: Option<String>, contents: Option<&str>, searched: Vec<String>) -> (out: Result<
    Keyset,
    LoadError,
>)
    ensures
        match loaded(text_of(path), contents_of(contents), texts_of(searched@)) {
            Ok(entries) => out matches Ok(keyset) && keyset.holds(entries),
            Err(fault) => out matches Err(error) && error@ == fault,
        },
{
    let path = match path {
        Some(path) => path,
        None => return Err(LoadError::NotFound { searched }),
    };
    let text = match contents {
        Some(text) => text,
        None => return Err(LoadError::Read { path }),
    };
    match Keyset::from_str(text) {
        Ok(keyset) => Ok(keyset),
        Err(source) => Err(LoadError::Parse { path, source }),
    }
}

/// Error returned by [`load`].
#[derive(Debug)]
pub enum LoadError {
    /// No conventional location holds a keyset.
    ///
    /// Holds every location that was searched.
    NotFound {
        /// Every location that was searched.
        searched: Vec<String>,
    },
    /// The keyset file could not be read.
    ///
    /// Holds the path.
    Read {
        /// The path that could not be read.
        path: String,
    },
    /// The file was read but is not a keyset.
    ///
    /// Holds the path and why it was rejected.
    Parse {
        /// The path that was rejected.
        path: String,
        /// Why it was rejected.
        source: ParseKeysetError,
    },
}

/// What [`LoadError`] says, over text.
pub enum LoadFault {
    /// No searched path holds a keyset.
    NotFound {
        /// Every path that was searched.
        searched: Seq<Seq<char>>,
    },
    /// The file could not be read.
    Read {
        /// The path that could not be read.
        path: Seq<char>,
    },
    /// The file is not a keyset.
    Parse {
        /// The path that was rejected.
        path: Seq<char>,
        /// The line at fault and, where its value is, the name.
        fault: (nat, Option<Seq<char>>),
    },
}

impl View for LoadError {
    type V = LoadFault;

    open spec fn view(&self) -> LoadFault {
        match *self {
            LoadError::NotFound { searched } => LoadFault::NotFound {
                searched: texts_of(searched@),
            },
            LoadError::Read { path } => LoadFault::Read { path: path@ },
            LoadError::Parse { path, source } => LoadFault::Parse { path: path@, fault: source@ },
        }
    }
}

/// What loading a keyset comes to: the file is located among the searched paths that are files, and
/// its text is read and parsed.
pub open spec fn load_outcome(
    explicit: Option<Seq<char>>,
    searched: Seq<Seq<char>>,
    is_file: spec_fn(Seq<char>) -> bool,
    text: spec_fn(Seq<char>) -> Option<Seq<char>>,
) -> Result<Map<Seq<char>, Seq<u8>>, LoadFault> {
    match located(explicit, searched, searched.map_values(is_file)) {
        Some(path) => loaded(Some(path), text(path), searched),
        None => loaded(None, None, searched),
    }
}

/// The conventional locations as paths, in search order, where `naming` gives the path of each.
pub open spec fn conventional_paths(
    has_home: bool,
    naming: spec_fn(Location) -> Seq<char>,
) -> Seq<Seq<char>> {
    search_order(has_home).map_values(naming)
}

/// The first location present is at `index` if it is present and none before it is.
proof fn lemma_first_present(present: Seq<bool>, from: int, index: int)
    requires
        0 <= from <= index < present.len(),
        present[index],
        forall|i: int| from <= i < index ==> !(#[trigger] present[i]),
    ensures
        first_present(present, from) == Some(index),
    decreases index - from,
{
    if from < index {
        lemma_first_present(present, from + 1, index);
    }
}

/// There is no first location present if none is.
proof fn lemma_none_present(present: Seq<bool>, from: int)
    requires
        forall|i: int| 0 <= i < present.len() ==> !(#[trigger] present[i]),
    ensures
        first_present(present, from) is None,
    decreases present.len() - from,
{
    if 0 <= from < present.len() {
        lemma_none_present(present, from + 1);
    }
}

/// A caller who names no file gets what naming the first conventional path that is a file would
/// give, so a project that ships its own keyset wins over the one installed for the account.
pub proof fn law_the_first_file_in_order_is_loaded(
    has_home: bool,
    naming: spec_fn(Location) -> Seq<char>,
    is_file: spec_fn(Seq<char>) -> bool,
    text: spec_fn(Seq<char>) -> Option<Seq<char>>,
    index: int,
)
    requires
        0 <= index < conventional_paths(has_home, naming).len(),
        is_file(conventional_paths(has_home, naming)[index]),
        forall|i: int|
            0 <= i < index ==> !is_file(#[trigger] conventional_paths(has_home, naming)[i]),
    ensures
        load_outcome(None, conventional_paths(has_home, naming), is_file, text) == load_outcome(
            Some(conventional_paths(has_home, naming)[index]),
            conventional_paths(has_home, naming),
            is_file,
            text,
        ),
{
    let searched = conventional_paths(has_home, naming);
    let present = searched.map_values(is_file);
    assert forall|i: int| 0 <= i < index implies !(#[trigger] present[i]) by {
        assert(!is_file(searched[i]));
    }
    lemma_first_present(present, 0, index);
}

/// A caller who names no file, where no conventional path is one, is told every path in order.
pub proof fn law_no_file_anywhere_is_not_found(
    has_home: bool,
    naming: spec_fn(Location) -> Seq<char>,
    is_file: spec_fn(Seq<char>) -> bool,
    text: spec_fn(Seq<char>) -> Option<Seq<char>>,
)
    requires
        forall|i: int|
            0 <= i < conventional_paths(has_home, naming).len() ==> !is_file(
                #[trigger] conventional_paths(has_home, naming)[i],
            ),
    ensures
        load_outcome(None, conventional_paths(has_home, naming), is_file, text) == Err::<
            Map<Seq<char>, Seq<u8>>,
            LoadFault,
        >(LoadFault::NotFound { searched: conventional_paths(has_home, naming) }),
{
    let searched = conventional_paths(has_home, naming);
    let present = searched.map_values(is_file);
    assert forall|i: int| 0 <= i < present.len() implies !(#[trigger] present[i]) by {
        assert(!is_file(searched[i]));
    }
    lemma_none_present(present, 0);
}

/// A caller who names a file gets that file or an error about it: nothing is searched, and only the
/// named file's text counts.
pub proof fn law_a_named_file_is_the_one_loaded(
    path: Seq<char>,
    searched: Seq<Seq<char>>,
    is_file: spec_fn(Seq<char>) -> bool,
    text: spec_fn(Seq<char>) -> Option<Seq<char>>,
)
    ensures
        load_outcome(Some(path), searched, is_file, text) == match text(path) {
            None => Err::<Map<Seq<char>, Seq<u8>>, LoadFault>(LoadFault::Read { path }),
            Some(contents) => match entries_of(contents, 1, Map::empty()) {
                Ok(entries) => Ok(entries),
                Err(fault) => Err(LoadFault::Parse { path, fault }),
            },
        },
{
}

/// The locations are searched in this order: `keys.dat`, `keys.txt`, `keys.ini` and `prod.keys` in the
/// working directory, and then the caller's home directory, if there is one.
pub proof fn law_locations_are_searched_in_this_order(has_home: bool)
    ensures
        ({
            let order = search_order(has_home);
            &&& order.len() == if has_home { 5int } else { 4 }
            &&& order[0] matches Location::WorkingDirectory(name) && name@ == "keys.dat"@
            &&& order[1] matches Location::WorkingDirectory(name) && name@ == "keys.txt"@
            &&& order[2] matches Location::WorkingDirectory(name) && name@ == "keys.ini"@
            &&& order[3] matches Location::WorkingDirectory(name) && name@ == "prod.keys"@
            &&& has_home ==> order[4] is Home
        }),
{
}

/// The file a keyset is read from is the one the caller named, or else the first of the searched paths
/// that is there, or else there is none.
pub proof fn law_the_first_path_that_is_there_is_located(
    named: Option<Seq<char>>,
    searched: Seq<Seq<char>>,
    present: Seq<bool>,
    first: int,
)
    requires
        searched.len() == present.len(),
        0 <= first <= present.len(),
        forall|i: int| 0 <= i < first ==> !(#[trigger] present[i]),
        first < present.len() ==> present[first],
    ensures
        located(named, searched, present) == if named is Some {
            named
        } else if first < present.len() {
            Some(searched[first])
        } else {
            None
        },
        first_present(present, 0) == if first < present.len() {
            Some(first)
        } else {
            None
        },
{
    if first < present.len() {
        lemma_first_present(present, 0, first);
    } else {
        lemma_none_present(present, 0);
    }
}

/// Loading a keyset fails for want of a file, with every path searched, for want of its contents, or
/// because it is no keyset, with the path in either case; and otherwise gives what its lines list.
pub proof fn law_a_keyset_is_loaded_or_the_reason_given(
    path: Option<Seq<char>>,
    contents: Option<Seq<char>>,
    searched: Seq<Seq<char>>,
)
    ensures
        match loaded(path, contents, searched) {
            Err(LoadFault::NotFound { searched: reported }) => path is None && reported == searched,
            Err(LoadFault::Read { path: reported }) => path == Some(reported) && contents is None,
            Err(LoadFault::Parse { path: reported, fault }) => path == Some(reported)
                && contents is Some && entries_of(contents->0, 1, Map::empty()) == Err::<
                Map<Seq<char>, Seq<u8>>,
                (nat, Option<Seq<char>>),
            >(fault),
            Ok(entries) => path is Some && contents is Some && entries_of(
                contents->0,
                1,
                Map::empty(),
            ) == Ok::<Map<Seq<char>, Seq<u8>>, (nat, Option<Seq<char>>)>(entries),
        },
{
}

} // verus!
