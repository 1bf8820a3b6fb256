use vfs_kit::{is_virtual_root, normalize, DirEntry, DirEntryType, Entry, EntryType, ErrorKind, MapFS, VfsError};

#[test]
fn normalize_twice_changes_nothing() {
    for p in ["/a/./b/../c//", "../x/./y/..", "", ".", "/..", "a//b/", "/a/b/c/../../.."] {
        let once = normalize(p);
        assert_eq!(normalize(&once), once);
    }
}

#[test]
fn parent_steps_stop_at_root() {
    assert_eq!(normalize("/a/b/../../../.."), "/");
    assert_eq!(normalize("/../../a"), "/a");
    let mut fs = MapFS::new();
    fs.mkdir("/a/b").unwrap();
    fs.cd("/a/b").unwrap();
    fs.cd("../../../..").unwrap();
    assert_eq!(fs.cwd(), "/");
}

#[test]
fn mkdir_creates_exactly_the_missing_directories() {
    let mut fs = MapFS::new();
    fs.mkdir("/a/b/c").unwrap();
    assert_eq!(fs.tree("/").unwrap(), vec!["/a", "/a/b", "/a/b/c"]);
    assert!(fs.is_dir("/a").unwrap());
    assert!(fs.is_dir("/a/b").unwrap());
    assert!(fs.is_dir("/a/b/c").unwrap());
}

#[test]
fn mkfile_then_read_returns_content() {
    let mut fs = MapFS::new();
    fs.mkfile("/docs/note.txt", Some(b"Hello")).unwrap();
    assert_eq!(fs.read("/docs/note.txt").unwrap(), b"Hello");
    assert!(fs.path_exists("/docs"));
    assert!(fs.is_dir("/docs").unwrap());
}

#[test]
fn rm_removes_the_whole_subtree() {
    let mut fs = MapFS::new();
    fs.mkdir("/a/b/c").unwrap();
    fs.mkfile("/a/file.txt", None).unwrap();
    fs.mkfile("/keep.txt", None).unwrap();
    fs.rm("/a").unwrap();
    assert!(!fs.path_exists("/a"));
    assert!(!fs.path_exists("/a/b"));
    assert!(!fs.path_exists("/a/b/c"));
    assert!(!fs.path_exists("/a/file.txt"));
    assert!(fs.path_exists("/keep.txt"));
}

#[test]
fn rm_of_root_always_fails() {
    let mut fs = MapFS::new();
    for p in ["/", "//", "/.", "/./"] {
        let e = fs.rm(p).err().unwrap();
        assert_eq!(e.kind(), ErrorKind::InvalidPath);
    }
    fs.mkdir("/a").unwrap();
    fs.cd("/a").unwrap();
    assert_eq!(fs.rm("..").err().unwrap().kind(), ErrorKind::InvalidPath);
    assert_eq!(fs.rm("/a/..").err().unwrap().kind(), ErrorKind::InvalidPath);
    assert!(fs.path_exists("/"));
    assert!(fs.path_exists("/a"));
}

#[test]
fn ls_lists_children_and_tree_lists_descendants() {
    let mut fs = MapFS::new();
    fs.mkfile("/project/main.rs", None).unwrap();
    fs.mkfile("/project/src/lib.rs", None).unwrap();
    assert_eq!(fs.ls("/project").unwrap(), vec!["/project/main.rs", "/project/src"]);
    assert_eq!(
        fs.tree("/project").unwrap(),
        vec!["/project/main.rs", "/project/src", "/project/src/lib.rs"]
    );
}

#[test]
fn parents_stay_known_after_any_operations() {
    let mut fs = MapFS::new();
    fs.mkfile("/a/b/c.txt", Some(b"x")).unwrap();
    fs.mkdir("/a/d/e").unwrap();
    fs.rm("/a/b").unwrap();
    fs.mkfile("/a/b/new.txt", None).unwrap();
    for p in fs.tree("/").unwrap() {
        let parent = match p.rfind('/') {
            Some(0) => String::from("/"),
            Some(i) => p[..i].to_string(),
            None => unreachable!(),
        };
        assert!(fs.is_dir(&parent).unwrap(), "parent of {} must be a directory", p);
    }
}

#[test]
fn listing_order_follows_components() {
    let mut fs = MapFS::new();
    fs.mkdir("/a-c").unwrap();
    fs.mkdir("/a/b").unwrap();
    fs.mkdir("/B").unwrap();
    assert_eq!(fs.ls("/").unwrap(), vec!["/B", "/a", "/a-c"]);
    assert_eq!(fs.tree("/").unwrap(), vec!["/B", "/a", "/a/b", "/a-c"]);
}

#[test]
fn mkdir_and_mkfile_refuse_a_file_on_the_way() {
    let mut fs = MapFS::new();
    fs.mkfile("/f", None).unwrap();
    assert_eq!(fs.mkdir("/f/x").err().unwrap().kind(), ErrorKind::NotADirectory);
    assert_eq!(fs.mkfile("/f/x/y", None).err().unwrap().kind(), ErrorKind::NotADirectory);
    assert_eq!(fs.tree("/").unwrap(), vec!["/f"]);
}

#[test]
fn cd_into_a_file_fails() {
    let mut fs = MapFS::new();
    fs.mkfile("/f", None).unwrap();
    let e = fs.cd("/f").err().unwrap();
    assert_eq!(e.kind(), ErrorKind::NotADirectory);
    assert_eq!(e.to_string(), "/f not a directory");
    assert_eq!(fs.cwd(), "/");
}

#[test]
fn error_messages_name_the_path() {
    let mut fs = MapFS::new();
    assert_eq!(fs.read("/x").err().unwrap().to_string(), "/x does not exist");
    fs.mkdir("/d").unwrap();
    assert_eq!(fs.read("/d").err().unwrap().to_string(), "/d is a directory");
    assert_eq!(fs.mkdir("/d").err().unwrap().to_string(), "path already exists: /d");
    assert_eq!(fs.mkdir("").err().unwrap().to_string(), "invalid path: empty");
    assert_eq!(
        fs.rm("/").err().unwrap().to_string(),
        "invalid path: the root cannot be removed"
    );
    assert_eq!(VfsError::IOError(String::from("disk full")).to_string(), "i/o error: disk full");
    assert_eq!(fs.mkfile("/d", None).err().unwrap().kind(), ErrorKind::AlreadyExists);
    assert_eq!(fs.write("/x", b"1").err().unwrap().kind(), ErrorKind::NotFound);
    assert_eq!(fs.append("/d", b"1").err().unwrap().kind(), ErrorKind::IsADirectory);
}

#[test]
fn cleanup_keeps_only_the_root() {
    let mut fs = MapFS::new();
    fs.mkfile("/a/b.txt", Some(b"1")).unwrap();
    fs.mkdir("/c").unwrap();
    assert!(fs.cleanup());
    assert!(fs.tree("/").unwrap().is_empty());
    assert!(fs.path_exists("/"));
    assert!(fs.cleanup());
}

#[test]
fn relative_paths_resolve_from_cwd() {
    let mut fs = MapFS::new();
    fs.mkdir("/home/user").unwrap();
    fs.cd("/home/user").unwrap();
    fs.mkfile("notes.txt", Some(b"n")).unwrap();
    assert!(fs.path_exists("/home/user/notes.txt"));
    assert_eq!(fs.read("../user/./notes.txt").unwrap(), b"n");
    fs.append("notes.txt", b"+").unwrap();
    assert_eq!(fs.read("/home/user/notes.txt").unwrap(), b"n+");
    fs.rm("notes.txt").unwrap();
    assert!(!fs.path_exists("notes.txt"));
    assert_eq!(fs.to_host("x").unwrap(), "/home/user/x");
}

#[test]
fn virtual_root_spellings() {
    assert!(is_virtual_root("/"));
    assert!(is_virtual_root("//"));
    assert!(is_virtual_root("/./"));
    assert!(!is_virtual_root("/.."));
    assert!(!is_virtual_root("/a"));
    assert!(!is_virtual_root(""));
    assert!(!is_virtual_root("."));
}

#[test]
fn entry_content_operations() {
    let mut e = Entry::new(EntryType::File);
    assert!(e.is_file());
    assert!(!e.is_dir());
    assert_eq!(e.entry_type(), EntryType::File);
    assert!(e.content().is_none());
    e.append_content(b"ab");
    assert_eq!(e.content().unwrap(), &vec![b'a', b'b']);
    e.append_content(b"c");
    assert_eq!(e.bytes(), b"abc");
    e.set_content(b"z");
    assert_eq!(e.bytes(), b"z");
    let d = Entry::new(EntryType::Directory);
    assert!(d.is_dir());
    assert!(d.bytes().is_empty());
}

#[test]
fn dir_entry_accessors() {
    let root = DirEntry::new("/", DirEntryType::Directory);
    assert!(root.is_root());
    assert!(root.is_dir());
    assert_eq!(root.path(), "/");
    let f = DirEntry::new("/a.txt", DirEntryType::File);
    assert!(f.is_file());
    assert!(!f.is_root());
    assert_eq!(f.kind(), DirEntryType::File);
    let not_root = DirEntry::new("/", DirEntryType::File);
    assert!(!not_root.is_root());
}

#[test]
fn to_host_joins_root_and_inner_path() {
    let mut fs = MapFS::new();
    assert_eq!(fs.to_host("/a/b").unwrap(), "/a/b");
    fs.set_root("/srv/data").unwrap();
    assert_eq!(fs.to_host("/a/b").unwrap(), "/srv/data/a/b");
    assert_eq!(fs.to_host("/").unwrap(), "/srv/data");
    assert_eq!(fs.set_root("rel").err().unwrap().kind(), ErrorKind::InvalidPath);
    assert_eq!(fs.root(), "/srv/data");
}
