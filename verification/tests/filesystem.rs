use labkit::filesystem::{FSError, Filesystem, Node};

fn sample() -> Filesystem {
    let mut fs = Filesystem::new();
    for i in 0..3 {
        fs.mkdir("/", &format!("dir{}", i)).unwrap();
        fs.mkdir(&format!("/dir{}", i), "child1").unwrap();
        fs.create_file(&format!("/dir{}", i), "file1").unwrap();
    }
    fs
}

fn names(fs: &Filesystem) -> Vec<String> {
    fs.walk().into_iter().map(|(p, _)| p).collect()
}

#[test]
fn new_filesystem_has_a_root_without_name() {
    let fs = Filesystem::new();
    assert_eq!(fs.get("/").unwrap().name(), "");
    assert!(fs.get("/").unwrap().is_dir());
    assert_eq!(fs.get("").unwrap().name(), "");
    assert_eq!(names(&fs), vec!["".to_string()]);
}

#[test]
fn entries_are_found_by_path() {
    let mut fs = sample();
    assert_eq!(fs.get("/dir1").unwrap().name(), "dir1");
    assert_eq!(fs.get("/dir2/child1").unwrap().name(), "child1");
    assert!(fs.get("/dir2/child1").unwrap().is_dir());
    assert!(!fs.get("/dir2/file1").unwrap().is_dir());
    assert!(matches!(fs.get("/dir9"), Err(FSError::NotFound)));
    assert!(matches!(fs.get("/dir1/none"), Err(FSError::NotFound)));
    assert!(matches!(fs.get("/dir1/file1/x"), Err(FSError::NotADir)));
    assert!(matches!(fs.get("/dir1/"), Err(FSError::NotFound)));
    assert!(matches!(fs.get("dir1"), Err(FSError::NotFound)));
    assert!(matches!(fs.get_mut("/dir1/none"), Err(FSError::NotFound)));
    assert_eq!(fs.get_mut("/dir0/file1").unwrap().name(), "file1");
}

#[test]
fn the_first_part_of_a_longer_path_is_not_read() {
    let fs = sample();
    assert_eq!(fs.get("anything/dir1").unwrap().name(), "dir1");
    assert_eq!(fs.get("x/dir1/file1").unwrap().name(), "file1");
}

#[test]
fn directories_and_files_are_made_under_a_directory() {
    let mut fs = Filesystem::new();
    assert!(fs.mkdir("/", "a").is_ok());
    assert!(matches!(fs.mkdir("/", "a"), Err(FSError::Duplicate)));
    assert!(matches!(fs.create_file("/", "a"), Err(FSError::Duplicate)));
    assert!(fs.create_file("/a", "f").is_ok());
    assert!(matches!(fs.mkdir("/a/f", "x"), Err(FSError::NotADir)));
    assert!(matches!(fs.create_file("/a/f", "x"), Err(FSError::NotADir)));
    assert!(matches!(fs.mkdir("/b", "x"), Err(FSError::NotFound)));
    assert!(matches!(fs.create_file("/a/f/g", "x"), Err(FSError::NotADir)));
    assert_eq!(names(&fs), vec!["", "/a", "/a/f"]);
}

#[test]
fn touch_finds_the_entry_or_says_why_not() {
    let mut fs = sample();
    assert_eq!(fs.touch("/dir1/file1"), Ok(()));
    assert_eq!(fs.touch("/dir1"), Ok(()));
    assert_eq!(fs.touch("/"), Ok(()));
    assert_eq!(fs.touch("/nowhere"), Err(FSError::NotFound));
    assert_eq!(fs.touch("/dir1/file1/x"), Err(FSError::NotADir));
    assert_eq!(names(&fs).len(), 10);
}

#[test]
fn delete_takes_out_files_and_empty_directories() {
    let mut fs = sample();
    assert!(matches!(fs.delete("/dir1"), Err(FSError::DirNotEmpty)));
    let gone = fs.delete("/dir1/file1").ok().unwrap();
    assert_eq!(gone.name(), "file1");
    assert!(matches!(gone, Node::File(_)));
    assert!(matches!(fs.delete("/dir1/file1"), Err(FSError::NotFound)));
    assert!(matches!(fs.delete("/dir9/file1"), Err(FSError::NotFound)));
    assert!(matches!(fs.delete("/dir0/file1/x"), Err(FSError::NotADir)));
    assert!(fs.delete("/dir1/child1").is_ok());
    assert!(fs.delete("/dir1").is_ok());
    assert_eq!(
        names(&fs),
        vec![
            "",
            "/dir0",
            "/dir2",
            "/dir0/child1",
            "/dir0/file1",
            "/dir2/child1",
            "/dir2/file1"
        ]
    );
    // A path without a slash names an entry of the root.
    assert!(matches!(fs.delete("dir0"), Err(FSError::DirNotEmpty)));
}

#[test]
fn walk_goes_level_by_level() {
    let fs = sample();
    assert_eq!(
        names(&fs),
        vec![
            "",
            "/dir0",
            "/dir1",
            "/dir2",
            "/dir0/child1",
            "/dir0/file1",
            "/dir1/child1",
            "/dir1/file1",
            "/dir2/child1",
            "/dir2/file1"
        ]
    );
    let kinds: Vec<bool> = fs.walk().into_iter().map(|(_, n)| n.is_dir()).collect();
    assert_eq!(
        kinds,
        vec![true, true, true, true, true, false, true, false, true, false]
    );
}

#[test]
fn find_gives_an_entry_for_each_query_that_it_meets() {
    let fs = sample();
    let found = fs.find(&["name:child1", "type:file"]);
    let got: Vec<(&str, &str)> = found.iter().map(|m| (m.q, m.node.name())).collect();
    assert_eq!(
        got,
        vec![
            ("name:child1", "child1"),
            ("type:file", "file1"),
            ("name:child1", "child1"),
            ("type:file", "file1"),
            ("name:child1", "child1"),
            ("type:file", "file1"),
        ]
    );
    assert!(found.iter().all(|m| m.path.is_empty()));
    let both = fs.find(&["partname:dir", "type:dir", "partname:1"]);
    let got: Vec<(&str, &str)> = both.iter().map(|m| (m.q, m.node.name())).collect();
    assert_eq!(got[0], ("type:dir", ""));
    assert_eq!(got[1], ("partname:dir", "dir0"));
    assert_eq!(got[2], ("type:dir", "dir0"));
    assert_eq!(got[3], ("partname:dir", "dir1"));
    assert_eq!(got[4], ("type:dir", "dir1"));
    assert_eq!(got[5], ("partname:1", "dir1"));
}

#[test]
fn queries_of_other_kinds_find_nothing() {
    let fs = sample();
    assert!(fs.find(&["/dir2/child1", "size:3", ""]).is_empty());
    assert_eq!(fs.find(&["type:other", "name:", "type:dir:x"]).len(), 8);
    assert!(fs.find(&[]).is_empty());
    assert_eq!(fs.find(&["partname:"]).len(), 10);
}

#[test]
fn do_match_reads_kind_and_value() {
    let fs = sample();
    let dir = fs.get("/dir1").unwrap();
    let file = fs.get("/dir1/file1").unwrap();
    assert!(Filesystem::do_match("type:dir", dir));
    assert!(!Filesystem::do_match("type:file", dir));
    assert!(Filesystem::do_match("type:file", file));
    assert!(Filesystem::do_match("name:dir1", dir));
    assert!(!Filesystem::do_match("name:dir", dir));
    assert!(Filesystem::do_match("partname:ir", dir));
    assert!(!Filesystem::do_match("partname:ri", dir));
    assert!(!Filesystem::do_match("other:dir1", dir));
}
