use vfs_kit::{normalize, DirFS, EntryType, ErrorKind};

#[test]
fn test_new_empty_path() {
    let result = DirFS::new("", Vec::new());
    assert!(result.is_err());
}

#[test]
fn test_normalize_path() {
    assert_eq!(normalize("/a/b/c/"), "/a/b/c");
    assert_eq!(normalize("/a/b/./c"), "/a/b/c");
    assert_eq!(normalize("/a/b/../c"), "/a/c");
    assert_eq!(normalize("/"), "/");
    assert_eq!(normalize("/.."), "/");
    assert_eq!(normalize(".."), "");
    assert_eq!(normalize(""), "");
    assert_eq!(normalize("../a"), "a");
    assert_eq!(normalize("./a"), "a");
}

#[test]
fn host_fs_new_validates_and_normalizes_root() {
    let err = DirFS::new("relative/root", Vec::new()).err().unwrap();
    assert_eq!(err.kind(), ErrorKind::InvalidPath);
    let fs = DirFS::new("/tmp/./x/../vfs/", vec![String::from("/tmp/vfs")]).unwrap();
    assert_eq!(fs.root(), "/tmp/vfs");
    assert_eq!(fs.cwd(), "/");
    assert!(fs.is_auto_clean());
    assert!(fs.path_exists("/"));
    assert_eq!(fs.to_host("/docs/a.txt").unwrap(), "/tmp/vfs/docs/a.txt");
}

#[test]
fn host_fs_mkdir_plan_lists_missing_directories() {
    let mut fs = DirFS::new("/tmp/vfs", Vec::new()).unwrap();
    assert_eq!(fs.mkdir_plan("/a/b/c").unwrap(), vec!["/a", "/a/b", "/a/b/c"]);
    fs.add("/a", EntryType::Directory).unwrap();
    assert_eq!(fs.mkdir_plan("/a/b/c").unwrap(), vec!["/a/b", "/a/b/c"]);
    assert_eq!(fs.mkdir_plan("/a").err().unwrap().kind(), ErrorKind::AlreadyExists);
    assert_eq!(fs.mkdir_plan("").err().unwrap().kind(), ErrorKind::InvalidPath);
    fs.add("/a/f.txt", EntryType::File).unwrap();
    assert_eq!(fs.mkdir_plan("/a/f.txt/x").err().unwrap().kind(), ErrorKind::NotADirectory);
}

#[test]
fn host_fs_mkfile_plan_and_targets() {
    let mut fs = DirFS::new("/tmp/vfs", Vec::new()).unwrap();
    let (dirs, file) = fs.mkfile_plan("/docs/sub/note.txt").unwrap();
    assert_eq!(dirs, vec!["/docs", "/docs/sub"]);
    assert_eq!(file, "/docs/sub/note.txt");
    fs.add("/docs/sub/note.txt", EntryType::File).unwrap();
    assert!(fs.is_dir("/docs/sub").unwrap());
    let (dirs, file) = fs.mkfile_plan("/docs/sub/note.txt").unwrap();
    assert!(dirs.is_empty());
    assert_eq!(file, "/docs/sub/note.txt");
    assert_eq!(fs.mkfile_plan("/docs").err().unwrap().kind(), ErrorKind::IsADirectory);
    assert_eq!(fs.file_target("/docs/sub/note.txt").unwrap(), "/docs/sub/note.txt");
    assert_eq!(fs.file_target("/docs").err().unwrap().kind(), ErrorKind::IsADirectory);
    assert_eq!(fs.file_target("/nope").err().unwrap().kind(), ErrorKind::NotFound);
    assert_eq!(fs.rm_target("/").err().unwrap().kind(), ErrorKind::InvalidPath);
    assert_eq!(fs.rm_target("").err().unwrap().kind(), ErrorKind::InvalidPath);
    assert_eq!(fs.rm_target("/nope").err().unwrap().kind(), ErrorKind::NotFound);
    assert_eq!(fs.rm_target("/docs/sub").unwrap(), "/docs/sub");
}

#[test]
fn host_fs_cleanup_order_is_deepest_first() {
    let mut fs = DirFS::new("/tmp/vfs", Vec::new()).unwrap();
    fs.add("/a/b/c", EntryType::Directory).unwrap();
    fs.add("/a/file.txt", EntryType::File).unwrap();
    fs.add("/z", EntryType::File).unwrap();
    assert_eq!(fs.cleanup_order(), vec!["/z", "/a/file.txt", "/a/b/c", "/a/b", "/a"]);
}

#[test]
fn host_fs_forget_untracks_subtree() {
    let mut fs = DirFS::new("/tmp/vfs", Vec::new()).unwrap();
    fs.add("/a/b/c", EntryType::Directory).unwrap();
    fs.add("/a/file.txt", EntryType::File).unwrap();
    fs.forget("/a").unwrap();
    assert!(!fs.path_exists("/a"));
    assert!(!fs.path_exists("/a/b/c"));
    assert!(!fs.path_exists("/a/file.txt"));
    assert_eq!(fs.forget("/").err().unwrap().kind(), ErrorKind::InvalidPath);
    assert_eq!(fs.forget("/a").err().unwrap().kind(), ErrorKind::NotFound);
}

#[test]
fn host_fs_root_parents_come_back_last_made_first() {
    let parents = vec![String::from("/x"), String::from("/x/y"), String::from("/x/y/z")];
    let mut fs = DirFS::new("/x/y/z", parents).unwrap();
    assert_eq!(fs.root_parents_to_remove(), vec!["/x/y/z", "/x/y", "/x"]);
    fs.set_auto_clean(false);
    assert!(!fs.is_auto_clean());
}

#[test]
fn host_fs_add_keeps_known_paths() {
    let mut fs = DirFS::new("/tmp/vfs", Vec::new()).unwrap();
    fs.add("/a", EntryType::Directory).unwrap();
    fs.add("/a", EntryType::File).unwrap();
    assert!(fs.is_dir("/a").unwrap());
    fs.cd("/a").unwrap();
    fs.add("f", EntryType::File).unwrap();
    assert!(fs.is_file("/a/f").unwrap());
    assert_eq!(fs.add("/a/f/g", EntryType::File).err().unwrap().kind(), ErrorKind::NotADirectory);
    assert_eq!(fs.ls("/a").unwrap(), vec!["/a/f"]);
    assert_eq!(fs.tree("/").unwrap(), vec!["/a", "/a/f"]);
}

#[test]
fn host_fs_cleanup_step_keeps_failures_known() {
    let mut fs = DirFS::new("/tmp/vfs", Vec::new()).unwrap();
    fs.add("/a/b/c.txt", EntryType::File).unwrap();
    fs.add("/d", EntryType::Directory).unwrap();
    assert!(!fs.cleanup_step("/a/b/c.txt", false));
    assert!(fs.path_exists("/a/b/c.txt"));
    assert!(fs.cleanup_step("/d", true));
    assert!(!fs.path_exists("/d"));
    assert!(fs.cleanup_step("/a", true));
    assert!(!fs.path_exists("/a/b/c.txt"));
    assert!(fs.cleanup_step("/nope", false));
    assert!(fs.cleanup_step("/", false));
    assert!(fs.path_exists("/"));
    assert!(fs.tree("/").unwrap().is_empty());
}

#[test]
fn host_fs_rm_target_refuses_paths_resolving_to_root() {
    let mut fs = DirFS::new("/tmp/vfs", Vec::new()).unwrap();
    fs.add("/a", EntryType::Directory).unwrap();
    for p in ["/", "/..", "/a/..", "//"] {
        assert_eq!(fs.rm_target(p).err().unwrap().kind(), ErrorKind::InvalidPath);
    }
}
