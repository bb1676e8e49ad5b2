use p2p_desktop::chunker::manifest_from_bytes;
use p2p_desktop::files::{
    check_scan_length, check_scan_result, child_path, NameList, Scan, ScanCancellation, Visit, Walk,
    MAX_SELECTION_ENTRIES,
};
use p2p_desktop::identity::NodeId;
use p2p_desktop::manifest::{FileManifest, DEFAULT_CHUNK_SIZE, MIN_CHUNK_SIZE};
use p2p_desktop::protocol::MAX_CHUNKS;
use p2p_desktop::secure_fs::{EntryKind, FileIdentity};
use p2p_desktop::task_model::LocalPath;
use p2p_desktop::task_record::{TaskDetails, TaskRecord};

fn node() -> NodeId {
    NodeId { value: 9 }
}

fn file(name: &str, content: &[u8]) -> FileManifest {
    manifest_from_bytes(name, MIN_CHUNK_SIZE, &content.to_vec()).unwrap()
}

fn relative(record: &TaskRecord) -> String {
    match record.details() {
        TaskDetails::File(file) => file.relative_path.clone(),
        TaskDetails::Directory(directory) => directory.relative_path.clone(),
        TaskDetails::Content => panic!("an entry of the selection"),
    }
}

/// A directory that stands in memory.
enum Node {
    Directory(Vec<(&'static str, Node)>),
    File(&'static [u8]),
    Link,
}

fn kind(entry: &Node) -> EntryKind {
    match entry {
        Node::Directory(_) => EntryKind::Directory,
        Node::File(_) => EntryKind::File,
        Node::Link => EntryKind::Link,
    }
}

fn text(error: p2p_desktop::error::Error) -> String {
    error.text().to_string()
}

/// What stands at a path below the top directory.
fn at<'a>(top: &'a Node, path: &str) -> &'a Node {
    path.split('/').skip(1).fold(top, |node, name| match node {
        Node::Directory(entries) => &entries.iter().find(|(other, _)| *other == name).unwrap().1,
        _ => panic!("no directory"),
    })
}

fn walk(
    scan: &mut Scan,
    cancel: &ScanCancellation,
    top: &str,
    entries: Vec<(&'static str, Node)>,
) -> Result<(), String> {
    let tree = Node::Directory(entries);
    let mut walk = Walk::new(top.to_string());
    while let Some(entry) = walk.next() {
        let node = at(&tree, &entry.path);
        let place = LocalPath::new(&format!("/home/user/{}", entry.path));
        match (scan.classify(cancel.is_cancelled(), kind(node)).map_err(text)?, node) {
            (Visit::Enter, Node::Directory(inner)) => {
                scan.enter(cancel.is_cancelled(), &entry.path, place, 10).map_err(text)?;
                let mut names = NameList::new();
                for (name, _) in inner {
                    names
                        .take_name(
                            cancel.is_cancelled(),
                            scan.len(),
                            &entry.path,
                            Some(name.to_string()),
                        )
                        .map_err(text)?;
                }
                walk.open(entry.path, names);
            }
            (Visit::Read, Node::File(content)) => {
                scan.add_file(&entry.path, place, file(&entry.name, content), 10).map_err(text)?
            }
            _ => panic!("a visit of another kind"),
        }
    }
    Ok(())
}

fn scan(entries: Vec<(&'static str, Node)>) -> Result<Vec<TaskRecord>, String> {
    let cancel = ScanCancellation::default();
    let (mut scan, top) =
        Scan::begin(node(), LocalPath::new("/home/user/目录"), Some("目录".to_string())).unwrap();
    walk(&mut scan, &cancel, &top, entries)?;
    scan.finish(cancel.is_cancelled()).map_err(text)
}

#[test]
fn nested_chinese_empty_entries_keep_top_directory_and_one_durable_group() {
    let records = scan(vec![
        (
            "nested",
            Node::Directory(vec![
                ("空目录", Node::Directory(Vec::new())),
                ("空文件.txt", Node::File(b"")),
            ]),
        ),
        ("中文.txt", Node::File(b"content")),
    ])
    .unwrap();
    let paths: Vec<String> = records.iter().map(relative).collect();
    for path in ["目录", "目录/nested", "目录/nested/空目录", "目录/nested/空文件.txt", "目录/中文.txt"] {
        assert!(paths.contains(&path.to_string()), "{path}");
    }
    assert_eq!(
        paths,
        vec!["目录", "目录/nested", "目录/nested/空文件.txt", "目录/nested/空目录", "目录/中文.txt"]
    );
    let directories =
        records.iter().filter(|record| matches!(record.details(), TaskDetails::Directory(_)));
    assert_eq!(directories.count(), 3);
    let group = records[0].group_id().as_ref().unwrap();
    assert!(records.iter().all(|record| record.group_id().as_ref() == Some(group)));
    let ids: Vec<&str> = records.iter().map(|record| record.task_id().as_str()).collect();
    for (at, id) in ids.iter().enumerate() {
        assert!(!ids[..at].contains(id));
    }
}

#[test]
fn cancelled_scan_and_entry_limit_reject_before_any_task_mutation() {
    let cancel = ScanCancellation::default();
    let other = cancel.clone();
    assert!(cancel.check().is_ok());
    assert!(other.check().is_ok());
    cancel.cancel();
    assert_eq!(cancel.check().unwrap_err().text(), "目录扫描已取消");
    assert_eq!(other.check().unwrap_err().text(), "目录扫描已取消");
    other.cancel();
    assert!(cancel.clone().check().is_err());
    let (mut scan, top) =
        Scan::begin(node(), LocalPath::new("/home/user/top"), Some("top".to_string())).unwrap();
    let refused = walk(&mut scan, &other, &top, Vec::new());
    assert_eq!(refused.unwrap_err(), "目录扫描已取消");
    assert_eq!(scan.len(), 0);
    assert!(scan.finish(other.is_cancelled()).is_err());

    let cancelled = ScanCancellation::default().is_cancelled();
    let mut names = NameList::new();
    for index in 0..MAX_SELECTION_ENTRIES - 1 {
        names.take_name(cancelled, 1, "top", Some(format!("file{index}"))).unwrap();
    }
    assert_eq!(
        names.take_name(cancelled, 1, "top", Some("last".to_string())).unwrap_err().text(),
        "目录清单条目超过上限"
    );
    let (mut scan, top) =
        Scan::begin(node(), LocalPath::new("/home/user/top"), Some("top".to_string())).unwrap();
    scan.enter(cancelled, &top, LocalPath::new("/home/user/top"), 10).unwrap();
    while scan.len() < MAX_SELECTION_ENTRIES {
        let name = format!("file{}", scan.len());
        let path = format!("/home/user/top/{name}");
        scan.add_file(&child_path(&top, &name), LocalPath::new(&path), file(&name, b""), 10)
            .unwrap();
    }
    assert_eq!(
        scan.classify(cancelled, EntryKind::File).unwrap_err().text(),
        "目录清单条目超过上限"
    );
    assert!(scan.enter(cancelled, "top/more", LocalPath::new("/home/user/top/more"), 10).is_err());
}

#[test]
fn source_symlink_and_normalization_or_case_collision_are_rejected() {
    assert_eq!(
        scan(vec![("link", Node::Link)]).unwrap_err(),
        "源目录不支持链接或 reparse point"
    );
    for (left, right) in [
        ("name", "NAME"),
        ("é.txt", "e\u{301}.txt"),
        ("σ.txt", "ς.txt"),
        ("I.txt", "ı.txt"),
    ] {
        let refused = scan(vec![(left, Node::File(b"")), (right, Node::File(b""))]).unwrap_err();
        assert!(refused.contains("冲突"), "{left} {right}: {refused}");
    }
    assert!(scan(vec![("left", Node::File(b"")), ("right", Node::File(b""))]).is_ok());
}

#[test]
fn every_entry_is_recorded_once_and_after_its_directory() {
    let records = scan(vec![
        ("b", Node::File(b"b")),
        ("a", Node::Directory(vec![("z", Node::File(b"")), ("y", Node::Directory(Vec::new()))])),
        ("C", Node::Directory(vec![("a", Node::File(b"a"))])),
    ])
    .unwrap();
    let paths: Vec<String> = records.iter().map(relative).collect();
    assert_eq!(
        paths,
        vec!["目录", "目录/C", "目录/C/a", "目录/a", "目录/a/y", "目录/a/z", "目录/b"]
    );
}

#[test]
fn selections_start_at_a_named_absolute_directory() {
    assert_eq!(
        Scan::begin(node(), LocalPath::new("top"), Some("top".to_string())).unwrap_err().text(),
        "源目录必须为绝对 UTF-8 路径"
    );
    assert_eq!(
        Scan::begin(node(), LocalPath::new("/"), None).unwrap_err().text(),
        "源目录名称不可用"
    );
    let mut names = NameList::new();
    assert!(names.take_name(false, 0, "top", None).is_err());
    for name in ["b", "a", "B2"] {
        names.take_name(false, 0, "top", Some(name.to_string())).unwrap();
    }
    assert_eq!(names.sorted(), vec!["B2", "a", "b"]);
    let (scan, _) =
        Scan::begin(node(), LocalPath::new("/home/user/top"), Some("top".to_string())).unwrap();
    assert_eq!(
        scan.classify(false, EntryKind::Other).unwrap_err().text(),
        "源目录包含非普通文件"
    );
}

#[test]
fn files_that_change_during_a_scan_are_refused() {
    let opened = FileIdentity { volume: 1, index: 2 };
    let other = FileIdentity { volume: 1, index: 3 };
    let largest = DEFAULT_CHUNK_SIZE as u64 * MAX_CHUNKS as u64;
    assert!(check_scan_length(largest).is_ok());
    assert!(check_scan_length(largest + 1).is_err());
    let described = file("a.bin", b"content");
    assert!(check_scan_result(7, &described, 7, opened, opened).is_ok());
    assert!(check_scan_result(7, &described, 8, opened, opened).is_err());
    assert!(check_scan_result(8, &described, 8, opened, opened).is_err());
    assert!(check_scan_result(7, &described, 7, opened, other).is_err());
}
