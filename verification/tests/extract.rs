use nxarchive::container::PartitionFile;
use nxarchive::hactool::extract::{
    files_written, partition, romfs, safe_component, RomFsDir, RomFsEntry, RomFsError,
    UnsafeNameError,
};

#[test]
fn safe_component_with_an_ordinary_name_returns_it() {
    let name = "main.npdm";
    let result = safe_component(name);
    assert_eq!(result.expect("an ordinary name is safe"), "main.npdm");
}

#[test]
fn safe_component_with_a_parent_reference_fails() {
    let name = "..";
    let result = safe_component(name);
    assert!(matches!(result, Err(UnsafeNameError::Traversal { .. })));
    assert!(matches!(safe_component("."), Err(UnsafeNameError::Traversal { .. })));
    assert!(safe_component("...").is_ok());
    assert!(safe_component(".hidden").is_ok());
}

#[test]
fn safe_component_with_a_path_separator_fails() {
    // What a hostile image carries: a name that resolves outside the output directory.
    let name = "../../etc/passwd";
    let result = safe_component(name);
    assert!(matches!(result, Err(UnsafeNameError::Separator { .. })));
    assert!(matches!(safe_component("a\0b"), Err(UnsafeNameError::Separator { .. })));
}

#[test]
fn safe_component_with_a_backslash_fails() {
    let name = "dir\\file";
    let result = safe_component(name);
    assert!(matches!(result, Err(UnsafeNameError::Separator { .. })));
}

#[test]
fn safe_component_with_an_empty_name_fails() {
    // The reader renders a name that is not valid UTF-8 as empty, so this covers that too.
    let name = "";
    let result = safe_component(name);
    assert!(matches!(result, Err(UnsafeNameError::Empty)));
}

#[test]
fn partition_writes_every_file_of_a_safe_archive() {
    let files = vec![
        PartitionFile { name: "main", data: b"code" },
        PartitionFile { name: "main.npdm", data: b"" },
    ];
    let (steps, end) = partition(&files);
    assert_eq!(end, Ok(()));
    assert_eq!(steps.len(), 3);
    assert!(steps[0].path.is_empty() && steps[0].data.is_none());
    assert_eq!(steps[1].path, ["main"]);
    assert_eq!(steps[1].data, Some(&b"code"[..]));
    assert_eq!(steps[2].path, ["main.npdm"]);
    assert_eq!(files_written(&steps), 2);
}

#[test]
fn partition_stops_at_the_first_unsafe_name() {
    let files = vec![
        PartitionFile { name: "main", data: b"code" },
        PartitionFile { name: "../main", data: b"out" },
        PartitionFile { name: "rtld", data: b"code" },
    ];
    let (steps, end) = partition(&files);
    assert_eq!(end, Err(UnsafeNameError::Separator { name: "../main".to_owned() }));
    assert_eq!(files_written(&steps), 1);
}

#[test]
fn romfs_recreates_the_directory_tree() {
    let root = RomFsDir {
        name: "",
        entries: vec![
            RomFsEntry::Dir(RomFsDir {
                name: "data",
                entries: vec![RomFsEntry::File { name: "a.bin", data: Some(b"a") }],
            }),
            RomFsEntry::File { name: "b.bin", data: Some(b"b") },
        ],
    };
    let (steps, end) = romfs(&root);
    assert_eq!(end, Ok(()));
    let paths: Vec<String> = steps.iter().map(|step| step.path.join("/")).collect();
    assert_eq!(paths, ["", "data", "data/a.bin", "b.bin"]);
    assert_eq!(steps[2].data, Some(&b"a"[..]));
    assert!(steps[1].data.is_none());
    assert_eq!(files_written(&steps), 2);
}

#[test]
fn romfs_stops_inside_a_subdirectory_and_keeps_what_came_before() {
    let root = RomFsDir {
        name: "",
        entries: vec![
            RomFsEntry::File { name: "first", data: Some(b"1") },
            RomFsEntry::Dir(RomFsDir {
                name: "data",
                entries: vec![
                    RomFsEntry::File { name: "..", data: Some(b"out") },
                    RomFsEntry::File { name: "second", data: Some(b"2") },
                ],
            }),
            RomFsEntry::File { name: "third", data: Some(b"3") },
        ],
    };
    let (steps, end) = romfs(&root);
    assert_eq!(
        end,
        Err(RomFsError::UnsafeName(UnsafeNameError::Traversal { name: "..".to_owned() }))
    );
    let paths: Vec<String> = steps.iter().map(|step| step.path.join("/")).collect();
    assert_eq!(paths, ["", "first", "data"]);
}

#[test]
fn romfs_stops_at_a_file_outside_the_image_and_at_an_unsafe_directory() {
    let unreadable = RomFsDir {
        name: "",
        entries: vec![RomFsEntry::File { name: "lost", data: None }],
    };
    assert_eq!(romfs(&unreadable).1, Err(RomFsError::ReadFile { name: "lost".to_owned() }));
    let nameless = RomFsDir {
        name: "",
        entries: vec![RomFsEntry::Dir(RomFsDir { name: "", entries: Vec::new() })],
    };
    assert_eq!(romfs(&nameless).1, Err(RomFsError::UnsafeName(UnsafeNameError::Empty)));
}
