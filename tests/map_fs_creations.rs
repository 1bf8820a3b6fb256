use vfs_kit::{MapFS, VfsError};

#[test]
fn test_new_map_fs() {
    let mut fs = MapFS::new();
    assert_eq!(fs.root(), "/");
    assert_eq!(fs.cwd(), "/");

    fs.set_root("/new/root").unwrap();
    assert_eq!(fs.root(), "/new/root");

    let host_path = fs.to_host("/inner/path").unwrap();
    assert_eq!(host_path, "/new/root/inner/path");

    let result = fs.set_root("new/relative/root");
    assert!(result.is_err());
}
