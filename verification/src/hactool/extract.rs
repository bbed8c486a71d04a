//! Deciding what an extraction writes, and where.
//!
//! Every name written came out of an image that was not built here, so no name reaches the
//! filesystem before [`safe_component`] has checked it. A RomFS or PFS0 entry called `../../…`
//! would otherwise place a file outside the directory the user named, which is the one way a
//! read-only operation can still damage something.
//!
//! What to write comes out as a list of steps to carry out in order. Extraction stops at the first
//! entry that cannot be written rather than skipping it, so the list ends there and says why.

use crate::container::PartitionFile;
use crate::text::chars_of;
use vstd::prelude::*;

verus! {

/// One thing to do under the output directory.
#[derive(Debug)]
pub struct Step<'a> {
    /// Where, as the names to follow from the output directory, which is itself the empty path.
    pub path: Vec<&'a str>,
    /// The contents of the file to write, or `None` to create a directory.
    pub data: Option<&'a [u8]>,
}

/// A path as the text of its names.
pub open spec fn names_of(path: Seq<&str>) -> Seq<Seq<char>> {
    path.map_values(|name: &str| name@)
}

/// The contents of a file, if there are any.
pub open spec fn contents_of(data: Option<&[u8]>) -> Option<Seq<u8>> {
    match data {
        Some(data) => Some(data@),
        None => None,
    }
}

impl View for Step<'_> {
    type V = (Seq<Seq<char>>, Option<Seq<u8>>);

    open spec fn view(&self) -> (Seq<Seq<char>>, Option<Seq<u8>>) {
        (names_of(self.path@), contents_of(self.data))
    }
}

/// Steps as the paths and contents they name.
pub open spec fn steps_of(steps: Seq<Step<'_>>) -> Seq<(Seq<Seq<char>>, Option<Seq<u8>>)> {
    steps.map_values(|step: Step<'_>| step@)
}

/// What is wrong with an entry.
#[derive(Debug, Clone, Copy, PartialEq, Eq, Structural)]
pub enum Fault {
    /// It has no name.
    Empty,
    /// It names the current or parent directory.
    Traversal,
    /// Its name carries a path separator or a NUL.
    Separator,
    /// Its contents lie outside the image.
    Unreadable,
}

/// What is wrong with `name` as the name of one entry, if anything is.
pub open spec fn name_fault(name: Seq<char>) -> Option<Fault> {
    if name.len() == 0 {
        Some(Fault::Empty)
    } else if name == "."@ || name == ".."@ {
        Some(Fault::Traversal)
    } else if name.contains('/') || name.contains('\\') || name.contains('\0') {
        Some(Fault::Separator)
    } else {
        None
    }
}

/// The name `component` stands for, if it names one entry and nothing else.
///
/// # Errors
///
/// Returns an error for an empty name, for `.` and `..`, and for any name carrying a path
/// separator, each of which would resolve somewhere other than one child of the current directory.
pub fn safe_component(component: &str) -> (out: Result<&str, UnsafeNameError>)
    ensures
        match name_fault(component@) {
            None => out matches Ok(name) && name@ == component@,
            Some(fault) => out matches Err(error) && error@ == (fault, component@),
        },
{
    proof {
        reveal_strlit(".");
        reveal_strlit("..");
    }
    let chars = chars_of(component);
    let len = chars.len();
    if len == 0 {
        assert(component@ =~= seq![]);
        return Err(UnsafeNameError::Empty);
    }
    let dots = chars[0] == '.' && (len == 1 || (len == 2 && chars[1] == '.'));
    assert(dots == (component@ =~= "."@ || component@ =~= ".."@));
    if dots {
        return Err(UnsafeNameError::Traversal { name: component.to_owned() });
    }
    let mut index: usize = 0;
    while index < len
        invariant
            chars@ == component@,
            len == chars@.len(),
            len > 0,
            component@ != "."@,
            component@ != ".."@,
            index <= len,
            forall|i: int|
                0 <= i < index ==> {
                    let c = #[trigger] component@[i];
                    c != '/' && c != '\\' && c != '\0'
                },
        decreases len - index,
    {
        let c = chars[index];
        if c == '/' || c == '\\' || c == '\0' {
            assert(component@.contains(c)) by {
                assert(component@[index as int] == c);
            }
            return Err(UnsafeNameError::Separator { name: component.to_owned() });
        }
        index += 1;
    }
    Ok(component)
}

/// Error returned by [`safe_component`].
#[derive(Debug, PartialEq, Eq)]
pub enum UnsafeNameError {
    /// The entry has no name.
    ///
    /// A name that is not valid UTF-8 also arrives here, because a reader renders one as empty.
    Empty,
    /// The entry names the current or parent directory.
    ///
    /// Holds the name. Joining it would step outside the directory being extracted into.
    Traversal {
        /// The rejected name.
        name: String,
    },
    /// The entry name carries a path separator or an interior NUL.
    ///
    /// Holds the name. An entry names one child, so a separator means the image is describing a
    /// path rather than a name.
    Separator {
        /// The rejected name.
        name: String,
    },
}

impl View for UnsafeNameError {
    type V = (Fault, Seq<char>);

    open spec fn view(&self) -> (Fault, Seq<char>) {
        match *self {
            UnsafeNameError::Empty => (Fault::Empty, seq![]),
            UnsafeNameError::Traversal { name } => (Fault::Traversal, name@),
            UnsafeNameError::Separator { name } => (Fault::Separator, name@),
        }
    }
}

/// What extracting the first `count` files of a flat partition does, after creating the output
/// directory: one file each, up to the first whose name is unsafe.
pub open spec fn partition_steps(files: Seq<PartitionFile<'_>>, count: int) -> (
    Seq<(Seq<Seq<char>>, Option<Seq<u8>>)>,
    Option<(Fault, Seq<char>)>,
)
    decreases count,
{
    if count <= 0 {
        (seq![(seq![], None)], None)
    } else {
        let (steps, fault) = partition_steps(files, count - 1);
        let file = files[count - 1];
        match fault {
            Some(fault) => (steps, Some(fault)),
            None => match name_fault(file.name@) {
                Some(fault) => (steps, Some((fault, file.name@))),
                None => (steps.push((seq![file.name@], Some(file.data@))), None),
            },
        }
    }
}

/// Once a name is refused, the files after it change nothing.
proof fn lemma_refused_name_ends_it(files: Seq<PartitionFile<'_>>, head: int, count: int)
    requires
        head <= count,
        partition_steps(files, head).1 is Some,
    ensures
        partition_steps(files, count) == partition_steps(files, head),
    decreases count - head,
{
    if head < count {
        lemma_refused_name_ends_it(files, head, count - 1);
    }
}

/// List what extracting `files`, which a PFS0 holds flat, writes.
///
/// Gives the steps to carry out, and the error they end in if a name is refused: the files before
/// it are still written.
pub fn partition<'a>(files: &Vec<PartitionFile<'a>>) -> (out: (
    Vec<Step<'a>>,
    Result<(), UnsafeNameError>,
))
    ensures
        steps_of(out.0@) == partition_steps(files@, files@.len() as int).0,
        match partition_steps(files@, files@.len() as int).1 {
            None => out.1 is Ok,
            Some(fault) => out.1 matches Err(error) && error@ == fault,
        },
{
    let mut steps: Vec<Step<'a>> = Vec::new();
    let root: Vec<&'a str> = Vec::new();
    assert(names_of(root@) =~= seq![]);
    push_step(&mut steps, root, None);
    assert(steps_of(steps@) =~= partition_steps(files@, 0).0);
    let mut index: usize = 0;
    while index < files.len()
        invariant
            index <= files@.len(),
            steps_of(steps@) == partition_steps(files@, index as int).0,
            partition_steps(files@, index as int).1 is None,
        decreases files@.len() - index,
    {
        let file = &files[index];
        match safe_component(file.name) {
            Ok(name) => {
                let mut path: Vec<&'a str> = Vec::new();
                path.push(file.name);
                assert(names_of(path@) =~= seq![file.name@]);
                push_step(&mut steps, path, Some(file.data));
            },
            Err(error) => {
                proof {
                    lemma_refused_name_ends_it(files@, index + 1, files@.len() as int);
                }
                return (steps, Err(error));
            },
        }
        index += 1;
    }
    (steps, Ok(()))
}

/// Add one step.
fn push_step<'a>(steps: &mut Vec<Step<'a>>, path: Vec<&'a str>, data: Option<&'a [u8]>)
    ensures
        steps_of(final(steps)@) == steps_of(old(steps)@).push(
            (names_of(path@), contents_of(data)),
        ),
{
    steps.push(Step { path, data });
    assert(steps_of(steps@) =~= steps_of(old(steps)@).push((names_of(path@), contents_of(data))));
}

/// How many of the steps write a file.
pub open spec fn files_among(steps: Seq<(Seq<Seq<char>>, Option<Seq<u8>>)>) -> int
    decreases steps.len(),
{
    if steps.len() == 0 {
        0
    } else {
        files_among(steps.drop_last()) + if steps.last().1 is Some {
            1int
        } else {
            0int
        }
    }
}

/// Count the files the steps write, which is what an extraction reports.
pub fn files_written(steps: &Vec<Step<'_>>) -> (count: usize)
    ensures
        count == files_among(steps_of(steps@)),
{
    let mut count: usize = 0;
    let mut index: usize = 0;
    assert(steps_of(steps@.take(0)) =~= seq![]);
    while index < steps.len()
        invariant
            index <= steps@.len(),
            count <= index,
            count == files_among(steps_of(steps@.take(index as int))),
        decreases steps@.len() - index,
    {
        proof {
            let more = steps_of(steps@.take(index + 1));
            assert(more.drop_last() =~= steps_of(steps@.take(index as int)));
            assert(more.last() == steps@[index as int]@);
        }
        if steps[index].data.is_some() {
            count += 1;
        }
        index += 1;
    }
    assert(steps@.take(steps@.len() as int) =~= steps@);
    count
}

/// A directory of a read-only filesystem.
#[derive(Debug)]
pub struct RomFsDir<'a> {
    /// The directory's name.
    pub name: &'a str,
    /// What the directory holds, in the order the image lists it.
    pub entries: Vec<RomFsEntry<'a>>,
}

/// One entry of a directory.
#[derive(Debug)]
pub enum RomFsEntry<'a> {
    /// A directory.
    Dir(RomFsDir<'a>),
    /// A file.
    File {
        /// The file's name.
        name: &'a str,
        /// The file's contents, or `None` if its bounds fall outside the image.
        data: Option<&'a [u8]>,
    },
}

/// What extracting the first `count` of `entries` under `path` does: a file each, or a directory
/// and everything in it, up to the first entry that cannot be written.
pub open spec fn entry_steps(
    entries: Seq<RomFsEntry<'_>>,
    count: int,
    path: Seq<Seq<char>>,
) -> (Seq<(Seq<Seq<char>>, Option<Seq<u8>>)>, Option<(Fault, Seq<char>)>)
    decreases entries, count,
{
    if count <= 0 || count > entries.len() {
        (seq![], None)
    } else {
        let (steps, fault) = entry_steps(entries, count - 1, path);
        if fault is Some {
            (steps, fault)
        } else {
            match entries[count - 1] {
                RomFsEntry::Dir(dir) => match name_fault(dir.name@) {
                    Some(fault) => (steps, Some((fault, dir.name@))),
                    None => {
                        let inside = path.push(dir.name@);
                        let (below, fault) = entry_steps(
                            dir.entries@,
                            dir.entries@.len() as int,
                            inside,
                        );
                        (steps.push((inside, None)) + below, fault)
                    },
                },
                RomFsEntry::File { name, data } => match (name_fault(name@), data) {
                    (Some(fault), _) => (steps, Some((fault, name@))),
                    (None, None) => (steps, Some((Fault::Unreadable, name@))),
                    (None, Some(data)) => (steps.push((path.push(name@), Some(data@))), None),
                },
            }
        }
    }
}

/// What extracting `dir` to `path` does: the directory, then what it holds.
pub open spec fn dir_steps(dir: RomFsDir<'_>, path: Seq<Seq<char>>) -> (
    Seq<(Seq<Seq<char>>, Option<Seq<u8>>)>,
    Option<(Fault, Seq<char>)>,
) {
    let (below, fault) = entry_steps(dir.entries@, dir.entries@.len() as int, path);
    (seq![(path, None)] + below, fault)
}

/// Once an entry cannot be written, the entries after it change nothing.
proof fn lemma_faulty_entry_ends_it(
    entries: Seq<RomFsEntry<'_>>,
    head: int,
    count: int,
    path: Seq<Seq<char>>,
)
    requires
        head <= count <= entries.len(),
        entry_steps(entries, head, path).1 is Some,
    ensures
        entry_steps(entries, count, path) == entry_steps(entries, head, path),
    decreases count - head,
{
    if head < count {
        lemma_faulty_entry_ends_it(entries, head, count - 1, path);
    }
}

/// List what extracting the tree under `root` writes, recreating the directory tree.
///
/// Gives the steps to carry out, and the error they end in if an entry cannot be written: what
/// comes before it still is.
pub fn romfs<'a>(root: &RomFsDir<'a>) -> (out: (Vec<Step<'a>>, Result<(), RomFsError>))
    ensures
        steps_of(out.0@) == dir_steps(*root, seq![]).0,
        match dir_steps(*root, seq![]).1 {
            None => out.1 is Ok,
            Some(fault) => out.1 matches Err(error) && error@ == fault,
        },
{
    let mut steps: Vec<Step<'a>> = Vec::new();
    let path: Vec<&'a str> = Vec::new();
    assert(names_of(path@) =~= seq![]);
    assert(steps_of(steps@) =~= seq![]);
    let end = write_dir(root, &path, &mut steps);
    assert(steps_of(steps@) =~= dir_steps(*root, seq![]).0);
    (steps, end)
}

/// A path followed by one more name.
fn child_of<'a>(path: &Vec<&'a str>, name: &'a str) -> (child: Vec<&'a str>)
    ensures
        names_of(child@) == names_of(path@).push(name@),
{
    let mut child = copy_of(path);
    child.push(name);
    assert(names_of(child@) =~= names_of(path@).push(name@));
    child
}

/// List what extracting one directory to `path` writes, recursing into subdirectories.
fn write_dir<'a>(dir: &RomFsDir<'a>, path: &Vec<&'a str>, steps: &mut Vec<Step<'a>>) -> (out:
    Result<(), RomFsError>)
    ensures
        steps_of(final(steps)@) == steps_of(old(steps)@) + dir_steps(*dir, names_of(path@)).0,
        match dir_steps(*dir, names_of(path@)).1 {
            None => out is Ok,
            Some(fault) => out matches Err(error) && error@ == fault,
        },
    decreases dir,
{
    let ghost before = steps_of(steps@);
    let ghost at = names_of(path@);
    let here = copy_of(path);
    push_step(steps, here, None);
    let mut index: usize = 0;
    assert(steps_of(steps@) =~= before + (seq![(at, None)] + entry_steps(dir.entries@, 0, at).0));
    while index < dir.entries.len()
        invariant
            index <= dir.entries@.len(),
            at == names_of(path@),
            before == steps_of(old(steps)@),
            steps_of(steps@) == before + (seq![(at, None)] + entry_steps(
                dir.entries@,
                index as int,
                at,
            ).0),
            entry_steps(dir.entries@, index as int, at).1 is None,
        decreases dir.entries@.len() - index,
    {
        let ghost count = dir.entries@.len() as int;
        let ghost done = entry_steps(dir.entries@, index as int, at).0;
        let ghost previous = steps_of(steps@);
        let ghost more = entry_steps(dir.entries@, index + 1, at);
        match &dir.entries[index] {
            RomFsEntry::Dir(child) => {
                if let Err(error) = safe_component(child.name) {
                    proof {
                        lemma_faulty_entry_ends_it(dir.entries@, index + 1, count, at);
                    }
                    return Err(RomFsError::UnsafeName(error));
                }
                let inside = child_of(path, child.name);
                let end = write_dir(child, &inside, steps);
                assert(steps_of(steps@) =~= before + (seq![(at, None)] + more.0));
                if let Err(error) = end {
                    proof {
                        lemma_faulty_entry_ends_it(dir.entries@, index + 1, count, at);
                    }
                    return Err(error);
                }
            },
            RomFsEntry::File { name, data } => {
                if let Err(error) = safe_component(name) {
                    proof {
                        lemma_faulty_entry_ends_it(dir.entries@, index + 1, count, at);
                    }
                    return Err(RomFsError::UnsafeName(error));
                }
                match data {
                    Some(data) => {
                        let inside = child_of(path, name);
                        push_step(steps, inside, Some(data));
                        assert(steps_of(steps@) =~= before + (seq![(at, None)] + more.0));
                    },
                    None => {
                        proof {
                            lemma_faulty_entry_ends_it(dir.entries@, index + 1, count, at);
                        }
                        let name: &str = name;
                        return Err(RomFsError::ReadFile { name: name.to_owned() });
                    },
                }
            },
        }
        index += 1;
    }
    Ok(())
}

/// The same path again.
fn copy_of<'a>(path: &Vec<&'a str>) -> (copy: Vec<&'a str>)
    ensures
        copy@ == path@,
{
    let mut copy: Vec<&'a str> = Vec::new();
    let mut index: usize = 0;
    while index < path.len()
        invariant
            index <= path@.len(),
            copy@ == path@.take(index as int),
        decreases path@.len() - index,
    {
        copy.push(path[index]);
        assert(path@.take(index + 1) =~= path@.take(index as int).push(path@[index as int]));
        index += 1;
    }
    assert(path@.take(path@.len() as int) =~= path@);
    copy
}

/// Why extracting a tree stops.
#[derive(Debug, PartialEq, Eq)]
pub enum RomFsError {
    /// An entry names something that would place a file outside the output directory.
    ///
    /// Extraction stops here rather than skipping the entry: an image carrying such a name is
    /// hostile or corrupt, and neither is worth continuing through.
    UnsafeName(UnsafeNameError),
    /// A file's bounds fall outside the image.
    ///
    /// Holds the entry that could not be read.
    ReadFile {
        /// Name of the entry.
        name: String,
    },
}

impl View for RomFsError {
    type V = (Fault, Seq<char>);

    open spec fn view(&self) -> (Fault, Seq<char>) {
        match *self {
            RomFsError::UnsafeName(error) => error@,
            RomFsError::ReadFile { name } => (Fault::Unreadable, name@),
        }
    }
}

/// Whether a path only ever steps from a directory to one of its own entries.
pub open spec fn stays_inside(path: Seq<Seq<char>>) -> bool {
    forall|i: int| 0 <= i < path.len() ==> name_fault(#[trigger] path[i]) is None
}

/// Whether every step of a list stays inside the output directory.
pub open spec fn all_stay_inside(steps: Seq<(Seq<Seq<char>>, Option<Seq<u8>>)>) -> bool {
    forall|i: int| 0 <= i < steps.len() ==> stays_inside((#[trigger] steps[i]).0)
}

/// Extracting a flat partition never writes outside the output directory, whatever names it holds.
pub proof fn law_partition_stays_inside(files: Seq<PartitionFile<'_>>, count: int)
    ensures
        all_stay_inside(partition_steps(files, count).0),
    decreases count,
{
    if count > 0 {
        law_partition_stays_inside(files, count - 1);
    }
}

/// Extracting part of a directory that stays inside the output directory stays inside it.
proof fn lemma_entries_stay_inside(
    entries: Seq<RomFsEntry<'_>>,
    count: int,
    path: Seq<Seq<char>>,
)
    requires
        stays_inside(path),
    ensures
        all_stay_inside(entry_steps(entries, count, path).0),
    decreases entries, count,
{
    if 0 < count <= entries.len() {
        lemma_entries_stay_inside(entries, count - 1, path);
        let (steps, fault) = entry_steps(entries, count - 1, path);
        if fault is None {
            match entries[count - 1] {
                RomFsEntry::Dir(dir) => {
                    let inside = path.push(dir.name@);
                    if name_fault(dir.name@) is None {
                        assert(stays_inside(inside));
                        lemma_entries_stay_inside(dir.entries@, dir.entries@.len() as int, inside);
                        let below = entry_steps(
                            dir.entries@,
                            dir.entries@.len() as int,
                            inside,
                        ).0;
                        let all = steps.push((inside, None)) + below;
                        assert forall|i: int| 0 <= i < all.len() implies stays_inside(
                            (#[trigger] all[i]).0,
                        ) by {
                            if i < steps.len() {
                                assert(all[i] == steps[i]);
                            } else if i > steps.len() {
                                assert(all[i] == below[i - steps.len() - 1]);
                            }
                        }
                    }
                },
                RomFsEntry::File { name, data } => {
                    if name_fault(name@) is None {
                        assert(stays_inside(path.push(name@)));
                    }
                },
            }
        }
    }
}

/// Extracting a tree never writes outside the output directory, whatever names it holds.
pub proof fn law_romfs_stays_inside(root: RomFsDir<'_>)
    ensures
        all_stay_inside(dir_steps(root, seq![]).0),
{
    lemma_entries_stay_inside(root.entries@, root.entries@.len() as int, seq![]);
    let below = entry_steps(root.entries@, root.entries@.len() as int, seq![]).0;
    let all = dir_steps(root, seq![]).0;
    assert forall|i: int| 0 <= i < all.len() implies stays_inside((#[trigger] all[i]).0) by {
        if i > 0 {
            assert(all[i] == below[i - 1]);
        }
    }
}

/// A partition whose names are all safe is extracted whole: one file for each.
pub proof fn law_safe_partition_is_extracted_whole(files: Seq<PartitionFile<'_>>, count: int)
    requires
        0 <= count <= files.len(),
        forall|i: int| 0 <= i < files.len() ==> name_fault((#[trigger] files[i]).name@) is None,
    ensures
        partition_steps(files, count).1 is None,
        files_among(partition_steps(files, count).0) == count,
    decreases count,
{
    if count > 0 {
        law_safe_partition_is_extracted_whole(files, count - 1);
        let (steps, _) = partition_steps(files, count - 1);
        let more = partition_steps(files, count).0;
        assert(name_fault(files[count - 1].name@) is None);
        assert(more.drop_last() =~= steps);
        assert(more.last().1 is Some);
    } else {
        let only = partition_steps(files, 0).0;
        assert(only.drop_last().len() == 0);
        assert(files_among(only.drop_last()) == 0);
        assert(only.last().1 is None);
    }
}

/// A name is safe exactly when it is not empty, is neither `.` nor `..`, and carries no separator and
/// no NUL; and the fault of one that is not is the first of these.
pub proof fn law_a_safe_name_names_one_entry(name: Seq<char>)
    ensures
        name_fault(name) is None <==> {
            &&& name.len() > 0
            &&& name != seq!['.']
            &&& name != seq!['.', '.']
            &&& forall|i: int|
                0 <= i < name.len() ==> #[trigger] name[i] != '/' && name[i] != '\\' && name[i]
                    != '\0'
        },
        name_fault(name) == Some(Fault::Empty) <==> name.len() == 0,
        name_fault(name) == Some(Fault::Traversal) <==> name == seq!['.'] || name == seq!['.', '.'],
        name_fault(name) != Some(Fault::Unreadable),
{
    reveal_strlit(".");
    reveal_strlit("..");
    assert("."@ =~= seq!['.']);
    assert(".."@ =~= seq!['.', '.']);
    let separated = name.contains('/') || name.contains('\\') || name.contains('\0');
    if forall|i: int|
        0 <= i < name.len() ==> #[trigger] name[i] != '/' && name[i] != '\\' && name[i] != '\0' {
        assert(!separated);
    } else {
        let i = choose|i: int|
            0 <= i < name.len() && !(#[trigger] name[i] != '/' && name[i] != '\\' && name[i]
                != '\0');
        assert(name.contains(name[i]));
    }
}

/// Extracting the files before the first whose name is unsafe writes each of them, in order, under its
/// own name.
proof fn lemma_first_files(files: Seq<PartitionFile<'_>>, count: int)
    requires
        0 <= count <= files.len(),
        forall|i: int| 0 <= i < count ==> name_fault((#[trigger] files[i]).name@) is None,
    ensures
        partition_steps(files, count).1 is None,
        partition_steps(files, count).0.len() == count + 1,
        partition_steps(files, count).0[0] == (Seq::<Seq<char>>::empty(), None::<Seq<u8>>),
        forall|i: int|
            0 <= i < count ==> partition_steps(files, count).0[i + 1] == (
                seq![(#[trigger] files[i]).name@],
                Some(files[i].data@),
            ),
    decreases count,
{
    if count > 0 {
        lemma_first_files(files, count - 1);
        let fewer = partition_steps(files, count - 1).0;
        let more = partition_steps(files, count).0;
        assert(name_fault(files[count - 1].name@) is None);
        assert(more == fewer.push((seq![files[count - 1].name@], Some(files[count - 1].data@))));
        assert forall|i: int| 0 <= i < count implies more[i + 1] == (
            seq![(#[trigger] files[i]).name@],
            Some(files[i].data@),
        ) by {
            if i < count - 1 {
                assert(more[i + 1] == fewer[i + 1]);
            }
        }
    }
}

/// A partition is extracted into the output directory file by file: every file before the first
/// whose name is unsafe is written there, in order, under its own name and with its own contents, and
/// nothing else is done. If there is such a file, the extraction ends in the fault of its name.
pub proof fn law_a_partition_is_extracted_file_by_file(
    files: Seq<PartitionFile<'_>>,
    count: int,
)
    requires
        0 <= count <= files.len(),
        forall|i: int| 0 <= i < count ==> name_fault((#[trigger] files[i]).name@) is None,
        count < files.len() ==> name_fault(files[count].name@) is Some,
    ensures
        ({
            let (steps, fault) = partition_steps(files, files.len() as int);
            &&& steps.len() == count + 1
            &&& steps[0] == (Seq::<Seq<char>>::empty(), None::<Seq<u8>>)
            &&& forall|i: int|
                0 <= i < count ==> steps[i + 1] == (
                    seq![(#[trigger] files[i]).name@],
                    Some(files[i].data@),
                )
            &&& fault == if count < files.len() {
                Some((name_fault(files[count].name@)->0, files[count].name@))
            } else {
                None
            }
        }),
{
    lemma_first_files(files, count);
    if count < files.len() {
        assert(partition_steps(files, count + 1).1 is Some);
        lemma_refused_name_ends_it(files, count + 1, files.len() as int);
    }
}

/// What is counted is the steps that write a file.
pub proof fn law_the_files_written_are_counted(steps: Seq<(Seq<Seq<char>>, Option<Seq<u8>>)>)
    ensures
        files_among(steps) == steps.filter(
            |step: (Seq<Seq<char>>, Option<Seq<u8>>)| step.1 is Some,
        ).len(),
    decreases steps.len(),
{
    reveal(Seq::filter);
    if steps.len() > 0 {
        law_the_files_written_are_counted(steps.drop_last());
    }
}

/// Extracting entries further down does the same, further down.
proof fn lemma_entries_move(
    entries: Seq<RomFsEntry<'_>>,
    count: int,
    base: Seq<Seq<char>>,
    path: Seq<Seq<char>>,
)
    ensures
        entry_steps(entries, count, base + path).0 == entry_steps(entries, count, path).0.map_values(
            |step: (Seq<Seq<char>>, Option<Seq<u8>>)| (base + step.0, step.1),
        ),
        entry_steps(entries, count, base + path).1 == entry_steps(entries, count, path).1,
    decreases entries, count,
{
    let moved = |step: (Seq<Seq<char>>, Option<Seq<u8>>)| (base + step.0, step.1);
    let here = entry_steps(entries, count, path).0;
    let there = entry_steps(entries, count, base + path).0;
    if 0 < count <= entries.len() {
        lemma_entries_move(entries, count - 1, base, path);
        let (steps, fault) = entry_steps(entries, count - 1, path);
        if fault is None {
            match entries[count - 1] {
                RomFsEntry::Dir(dir) => {
                    assert((base + path).push(dir.name@) =~= base + path.push(dir.name@));
                    lemma_entries_move(
                        dir.entries@,
                        dir.entries@.len() as int,
                        base,
                        path.push(dir.name@),
                    );
                },
                RomFsEntry::File { name, data } => {
                    assert((base + path).push(name@) =~= base + path.push(name@));
                },
            }
        }
    }
    assert(there =~= here.map_values(moved));
}

/// Where a directory is extracted to is where everything in it ends up: extracting it to `path` does
/// what extracting it to the output directory does, with `path` before the path of every step, however
/// deep, and ends the same way.
pub proof fn law_a_tree_keeps_its_shape_wherever_it_is_extracted(
    dir: RomFsDir<'_>,
    path: Seq<Seq<char>>,
)
    ensures
        dir_steps(dir, path).0 == dir_steps(dir, seq![]).0.map_values(
            |step: (Seq<Seq<char>>, Option<Seq<u8>>)| (path + step.0, step.1),
        ),
        dir_steps(dir, path).1 == dir_steps(dir, seq![]).1,
{
    lemma_entries_move(dir.entries@, dir.entries@.len() as int, path, seq![]);
    assert(path + Seq::<Seq<char>>::empty() =~= path);
    assert(dir_steps(dir, path).0 =~= dir_steps(dir, seq![]).0.map_values(
        |step: (Seq<Seq<char>>, Option<Seq<u8>>)| (path + step.0, step.1),
    ));
}

/// Extracting entries that can all be written does what each of them takes, one after the other.
proof fn lemma_first_entries(entries: Seq<RomFsEntry<'_>>, count: int)
    requires
        0 <= count <= entries.len(),
        forall|i: int|
            0 <= i < count ==> match #[trigger] entries[i] {
                RomFsEntry::Dir(child) => name_fault(child.name@) is None && dir_steps(
                    child,
                    seq![],
                ).1 is None,
                RomFsEntry::File { name, data } => name_fault(name@) is None && data is Some,
            },
    ensures
        entry_steps(entries, count, seq![]).1 is None,
        entry_steps(entries, count, seq![]).0 == Seq::new(
            count as nat,
            |i: int|
                match entries[i] {
                    RomFsEntry::Dir(child) => dir_steps(child, seq![child.name@]).0,
                    RomFsEntry::File { name, data } => seq![(seq![name@], Some(data->0@))],
                },
        ).flatten(),
    decreases count,
{
    let block = |i: int|
        match entries[i] {
            RomFsEntry::Dir(child) => dir_steps(child, seq![child.name@]).0,
            RomFsEntry::File { name, data } => seq![(seq![name@], Some(data->0@))],
        };
    let blocks = Seq::new(count as nat, block);
    if count > 0 {
        lemma_first_entries(entries, count - 1);
        let fewer = Seq::new((count - 1) as nat, block);
        assert(blocks =~= fewer.push(block(count - 1)));
        fewer.lemma_flatten_push(block(count - 1));
        let steps = entry_steps(entries, count - 1, seq![]).0;
        match entries[count - 1] {
            RomFsEntry::Dir(child) => {
                let inside = Seq::<Seq<char>>::empty().push(child.name@);
                assert(inside =~= seq![child.name@]);
                law_a_tree_keeps_its_shape_wherever_it_is_extracted(child, seq![child.name@]);
                let below = entry_steps(child.entries@, child.entries@.len() as int, inside).0;
                assert(steps.push((inside, None)) + below =~= steps + (seq![(inside, None)]
                    + below));
            },
            RomFsEntry::File { name, data } => {
                let inside = Seq::<Seq<char>>::empty().push(name@);
                assert(inside =~= seq![name@]);
                assert(steps.push((inside, Some(data->0@))) =~= steps + seq![
                    (inside, Some(data->0@)),
                ]);
            },
        }
    }
}

/// A directory is created and then filled entry by entry, in order: a file is written under its own
/// name with its own contents, and a directory is extracted to its own name. An entry can be written
/// if its name is safe and it is a file that can be read or a directory whose extraction ends well.
/// The first that cannot is where the extraction ends, in the fault of its name, or for want of its
/// contents, or as the extraction of that directory ends, and nothing after it is written.
pub proof fn law_a_directory_is_extracted_entry_by_entry(dir: RomFsDir<'_>, count: int)
    requires
        0 <= count <= dir.entries@.len(),
        forall|i: int|
            0 <= i < count ==> match #[trigger] dir.entries@[i] {
                RomFsEntry::Dir(child) => name_fault(child.name@) is None && dir_steps(
                    child,
                    seq![],
                ).1 is None,
                RomFsEntry::File { name, data } => name_fault(name@) is None && data is Some,
            },
        count < dir.entries@.len() ==> !match dir.entries@[count] {
            RomFsEntry::Dir(child) => name_fault(child.name@) is None && dir_steps(
                child,
                seq![],
            ).1 is None,
            RomFsEntry::File { name, data } => name_fault(name@) is None && data is Some,
        },
    ensures
        ({
            let (steps, fault) = dir_steps(dir, seq![]);
            let written = seq![(Seq::<Seq<char>>::empty(), None::<Seq<u8>>)] + Seq::new(
                count as nat,
                |i: int|
                    match dir.entries@[i] {
                        RomFsEntry::Dir(child) => dir_steps(child, seq![child.name@]).0,
                        RomFsEntry::File { name, data } => seq![(seq![name@], Some(data->0@))],
                    },
            ).flatten();
            if count == dir.entries@.len() {
                steps == written && fault is None
            } else {
                match dir.entries@[count] {
                    RomFsEntry::Dir(child) => match name_fault(child.name@) {
                        Some(unsafe_name) => steps == written && fault == Some(
                            (unsafe_name, child.name@),
                        ),
                        None => steps == written + dir_steps(child, seq![child.name@]).0 && fault
                            == dir_steps(child, seq![child.name@]).1,
                    },
                    RomFsEntry::File { name, .. } => {
                        &&& steps == written
                        &&& fault == match name_fault(name@) {
                            Some(unsafe_name) => Some((unsafe_name, name@)),
                            None => Some((Fault::Unreadable, name@)),
                        }
                    },
                }
            }
        }),
{
    let entries = dir.entries@;
    lemma_first_entries(entries, count);
    let done = entry_steps(entries, count, seq![]).0;
    let root = seq![(Seq::<Seq<char>>::empty(), None::<Seq<u8>>)];
    if count < entries.len() {
        match entries[count] {
            RomFsEntry::Dir(child) => {
                let inside = Seq::<Seq<char>>::empty().push(child.name@);
                assert(inside =~= seq![child.name@]);
                law_a_tree_keeps_its_shape_wherever_it_is_extracted(child, seq![child.name@]);
                let below = entry_steps(child.entries@, child.entries@.len() as int, inside).0;
                assert(root + (done.push((inside, None)) + below) =~= root + done + (seq![
                    (inside, None),
                ] + below));
            },
            RomFsEntry::File { name, data } => {},
        }
        assert(entry_steps(entries, count + 1, seq![]).1 is Some);
        lemma_faulty_entry_ends_it(entries, count + 1, entries.len() as int, seq![]);
    }
}

/// Whether the tree of `entries` holds something at `path`: a file with those contents, or a directory
/// for `None`.
pub open spec fn holds_at(
    entries: Seq<RomFsEntry<'_>>,
    path: Seq<Seq<char>>,
    contents: Option<Seq<u8>>,
) -> bool
    decreases path.len(),
{
    path.len() > 0 && exists|i: int|
        0 <= i < entries.len() && match #[trigger] entries[i] {
            RomFsEntry::Dir(child) => path[0] == child.name@ && if path.len() == 1 {
                contents is None
            } else {
                holds_at(child.entries@, path.skip(1), contents)
            },
            RomFsEntry::File { name, data } => path.len() == 1 && path[0] == name@ && data is Some
                && contents == Some(data->0@),
        }
}

/// What extracting the first entries under `path` does is what they hold, and their own steps are all
/// there.
proof fn lemma_steps_are_what_entries_hold(
    entries: Seq<RomFsEntry<'_>>,
    count: int,
    base: Seq<Seq<char>>,
    path: Seq<Seq<char>>,
    contents: Option<Seq<u8>>,
)
    requires
        0 <= count <= entries.len(),
        entry_steps(entries, count, base).1 is None,
    ensures
        entry_steps(entries, count, base).0.contains((path, contents)) <==> {
            &&& path.len() > base.len()
            &&& path.take(base.len() as int) == base
            &&& holds_at(entries.take(count), path.skip(base.len() as int), contents)
        },
    decreases entries, count,
{
    let wanted = (path, contents);
    let some = entries.take(count);
    let rest = path.skip(base.len() as int);
    let under = path.len() > base.len() && path.take(base.len() as int) == base;
    let steps = entry_steps(entries, count, base).0;
    if count == 0 {
        assert(!steps.contains(wanted));
        assert(!holds_at(some, rest, contents));
    } else {
        let fewer = entries.take(count - 1);
        let before = entry_steps(entries, count - 1, base).0;
        lemma_steps_are_what_entries_hold(entries, count - 1, base, path, contents);
        assert(some =~= fewer.push(entries[count - 1]));
        let entry = entries[count - 1];
        let held_last = rest.len() > 0 && match entry {
            RomFsEntry::Dir(child) => rest[0] == child.name@ && if rest.len() == 1 {
                contents is None
            } else {
                holds_at(child.entries@, rest.skip(1), contents)
            },
            RomFsEntry::File { name, data } => rest.len() == 1 && rest[0] == name@ && data is Some
                && contents == Some(data->0@),
        };
        assert(holds_at(some, rest, contents) <==> holds_at(fewer, rest, contents) || held_last) by {
            if holds_at(fewer, rest, contents) {
                let i = choose|i: int|
                    0 <= i < fewer.len() && match #[trigger] fewer[i] {
                        RomFsEntry::Dir(child) => rest[0] == child.name@ && if rest.len() == 1 {
                            contents is None
                        } else {
                            holds_at(child.entries@, rest.skip(1), contents)
                        },
                        RomFsEntry::File { name, data } => rest.len() == 1 && rest[0] == name@
                            && data is Some && contents == Some(data->0@),
                    };
                assert(some[i] == fewer[i]);
            }
            if held_last {
                assert(some[count - 1] == entry);
            }
            if holds_at(some, rest, contents) {
                let i = choose|i: int|
                    0 <= i < some.len() && match #[trigger] some[i] {
                        RomFsEntry::Dir(child) => rest[0] == child.name@ && if rest.len() == 1 {
                            contents is None
                        } else {
                            holds_at(child.entries@, rest.skip(1), contents)
                        },
                        RomFsEntry::File { name, data } => rest.len() == 1 && rest[0] == name@
                            && data is Some && contents == Some(data->0@),
                    };
                if i < count - 1 {
                    assert(fewer[i] == some[i]);
                }
            }
        }
        match entry {
            RomFsEntry::Dir(child) => {
                let inside = base.push(child.name@);
                let all = child.entries@.len() as int;
                let below = entry_steps(child.entries@, all, inside).0;
                lemma_steps_are_what_entries_hold(child.entries@, all, inside, path, contents);
                assert(child.entries@.take(all) =~= child.entries@);
                assert(steps == before.push((inside, None)) + below);
                assert(steps.contains(wanted) <==> before.contains(wanted) || wanted == (
                    inside,
                    None::<Seq<u8>>,
                ) || below.contains(wanted)) by {
                    if steps.contains(wanted) {
                        let i = choose|i: int| 0 <= i < steps.len() && steps[i] == wanted;
                        if i < before.len() {
                            assert(before[i] == wanted);
                        } else if i > before.len() {
                            assert(below[i - before.len() - 1] == wanted);
                        }
                    }
                    if before.contains(wanted) {
                        let i = choose|i: int| 0 <= i < before.len() && before[i] == wanted;
                        assert(steps[i] == wanted);
                    }
                    if below.contains(wanted) {
                        let i = choose|i: int| 0 <= i < below.len() && below[i] == wanted;
                        assert(steps[i + before.len() + 1] == wanted);
                    }
                    assert(steps[before.len() as int] == (inside, None::<Seq<u8>>));
                }
                assert(path == inside <==> under && rest.len() == 1 && rest[0] == child.name@) by {
                    if under && rest.len() == 1 && rest[0] == child.name@ {
                        assert(path =~= path.take(base.len() as int) + rest);
                        assert(path =~= inside);
                    }
                    if path == inside {
                        assert(path.take(base.len() as int) =~= base);
                    }
                }
                assert(path.len() > inside.len() && path.take(inside.len() as int) == inside
                    <==> under && rest.len() > 1 && rest[0] == child.name@) by {
                    if path.len() > inside.len() && path.take(inside.len() as int) == inside {
                        assert(path.take(base.len() as int) =~= inside.take(base.len() as int));
                        assert(inside.take(base.len() as int) =~= base);
                        assert(rest[0] == path.take(inside.len() as int)[base.len() as int]);
                    }
                    if under && rest.len() > 1 && rest[0] == child.name@ {
                        assert(path.take(inside.len() as int) =~= path.take(
                            base.len() as int,
                        ).push(rest[0]));
                    }
                }
                if path.len() > inside.len() {
                    assert(path.skip(inside.len() as int) =~= rest.skip(1));
                }
            },
            RomFsEntry::File { name, data } => {
                let inside = base.push(name@);
                assert(steps == before.push((inside, Some(data->0@))));
                assert(steps.contains(wanted) <==> before.contains(wanted) || wanted == (
                    inside,
                    Some(data->0@),
                )) by {
                    if steps.contains(wanted) {
                        let i = choose|i: int| 0 <= i < steps.len() && steps[i] == wanted;
                        if i < before.len() {
                            assert(before[i] == wanted);
                        }
                    }
                    if before.contains(wanted) {
                        let i = choose|i: int| 0 <= i < before.len() && before[i] == wanted;
                        assert(steps[i] == wanted);
                    }
                    assert(steps[before.len() as int] == (inside, Some(data->0@)));
                }
                assert(path == inside <==> under && rest.len() == 1 && rest[0] == name@) by {
                    if under && rest.len() == 1 && rest[0] == name@ {
                        assert(path =~= path.take(base.len() as int) + rest);
                        assert(path =~= inside);
                    }
                    if path == inside {
                        assert(path.take(base.len() as int) =~= base);
                    }
                }
            },
        }
    }
}

/// A tree whose extraction ends well is recreated as it is: at every path, at any depth, a file is
/// written exactly if the tree has one there, with its contents, and a directory is created exactly if
/// the tree has one there, besides the output directory itself.
pub proof fn law_a_tree_is_recreated_as_it_is(
    root: RomFsDir<'_>,
    path: Seq<Seq<char>>,
    contents: Option<Seq<u8>>,
)
    requires
        dir_steps(root, seq![]).1 is None,
    ensures
        dir_steps(root, seq![]).0.contains((path, contents)) <==> (path.len() == 0 && contents is None)
            || holds_at(root.entries@, path, contents),
{
    let entries = root.entries@;
    let all = entries.len() as int;
    let none = Seq::<Seq<char>>::empty();
    let below = entry_steps(entries, all, none).0;
    let steps = dir_steps(root, none).0;
    let wanted = (path, contents);
    lemma_steps_are_what_entries_hold(entries, all, none, path, contents);
    assert(entries.take(all) =~= entries);
    assert(path.skip(0) =~= path);
    assert(path.take(0) =~= none);
    assert(path.len() == 0 ==> path =~= none);
    assert(steps[0] == (none, None::<Seq<u8>>));
    if steps.contains(wanted) {
        let i = choose|i: int| 0 <= i < steps.len() && steps[i] == wanted;
        if i > 0 {
            assert(below[i - 1] == wanted);
        }
    }
    if below.contains(wanted) {
        let i = choose|i: int| 0 <= i < below.len() && below[i] == wanted;
        assert(steps[i + 1] == wanted);
    }
}

} // verus!
