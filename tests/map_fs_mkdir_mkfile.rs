use vfs_kit::{MapFS, VfsError};

/// Helper to create a fresh MapFS instance
fn setup_vfs() -> MapFS {
    MapFS::new()
}

#[test]
fn test_mkdir_simple_directory() -> Result<(), VfsError> {
    let mut vfs = setup_vfs();
    vfs.mkdir("/test")?;

    assert!(vfs.path_exists("/test"));
    assert!(vfs.is_dir("/test")?);

    Ok(())
}

#[test]
fn test_mkdir_nested_directories() -> Result<(), VfsError> {
    let mut vfs = setup_vfs();
    vfs.mkdir("/a/b/c/d")?;

    assert!(vfs.path_exists("/a"));
    assert!(vfs.path_exists("/a/b"));
    assert!(vfs.path_exists("/a/b/c"));
    assert!(vfs.path_exists("/a/b/c/d"));

    Ok(())
}

#[test]
fn test_mkdir_existing_path() {
    let mut vfs = setup_vfs();
    vfs.mkdir("/existing").unwrap();

    let result = vfs.mkdir("/existing");
    assert!(result.is_err());
    assert!(
        result
            .unwrap_err()
            .to_string()
            .contains("path already exists"),
        "Should error when path exists"
    );
}

#[test]
fn test_mkdir_empty_path() {
    let mut vfs = setup_vfs();
    let result = vfs.mkdir("");
    assert!(result.is_err());
    assert!(
        result
            .unwrap_err()
            .to_string()
            .contains("invalid path: empty"),
        "Empty path should be rejected"
    );
}

#[test]
fn test_mkdir_root_path() {
    let mut vfs = setup_vfs();
    let result = vfs.mkdir("/");
    assert!(result.is_err());
    assert!(
        result
            .unwrap_err()
            .to_string()
            .contains("path already exists"),
        "Root always exists, should error"
    );
}

#[test]
fn test_mkdir_with_trailing_slash() -> Result<(), VfsError> {
    let mut vfs = setup_vfs();
    vfs.mkdir("/test/")?; // Trailing slash

    assert!(vfs.path_exists("/test"));
    assert!(vfs.is_dir("/test")?);

    Ok(())
}

#[test]
fn test_mkfile_simple_file() -> Result<(), VfsError> {
    let mut vfs = setup_vfs();
    vfs.mkfile("/file.txt", Some(b"Hello World"))?;

    assert!(vfs.path_exists("/file.txt"));
    assert!(vfs.is_file("/file.txt")?);
    assert_eq!(vfs.read("/file.txt")?, b"Hello World");

    Ok(())
}

#[test]
fn test_mkfile_in_nested_directory() -> Result<(), VfsError> {
    let mut vfs = setup_vfs();
    vfs.mkfile("/a/b/c/file.txt", Some(b"Content"))?;

    // All parent directories should be created
    assert!(vfs.path_exists("/a"));
    assert!(vfs.path_exists("/a/b"));
    assert!(vfs.path_exists("/a/b/c"));
    assert!(vfs.path_exists("/a/b/c/file.txt"));

    assert_eq!(vfs.read("/a/b/c/file.txt")?, b"Content");

    Ok(())
}

#[test]
fn map_fs_test_mkfile_empty_content() -> Result<(), VfsError> {
    let mut vfs = setup_vfs();
    vfs.mkfile("/empty.txt", None)?; // No content

    assert!(vfs.path_exists("/empty.txt"));
    assert!(vfs.is_file("/empty.txt")?);
    assert_eq!(vfs.read("/empty.txt")?, &[]);

    Ok(())
}

#[test]
fn test_mkfile_existing_file() -> Result<(), VfsError> {
    let mut vfs = setup_vfs();
    vfs.mkfile("/test.txt", Some(b"Original"))?;

    // Try to create same file again
    let result = vfs.mkfile("/test.txt", Some(b"New"));

    assert!(result.is_err());
    assert_eq!(vfs.read("/test.txt")?, b"Original");

    Ok(())
}

#[test]
fn test_mkfile_to_existing_directory() {
    let mut vfs = setup_vfs();
    vfs.mkdir("/dir").unwrap();

    let result = vfs.mkfile("/dir", Some(b"Content"));
    assert!(result.is_err());
    // Depending on design, this might be allowed or not
    // Current implementation tries to create file at existing dir path
    // Consider whether this should be an error
}

#[test]
fn test_mkfile_with_trailing_slash() -> Result<(), VfsError> {
    let mut vfs = setup_vfs();
    vfs.mkfile("/file.txt/", Some(b"With slash"))?;

    assert!(vfs.path_exists("/file.txt")); // Should normalize
    assert_eq!(vfs.read("/file.txt")?, b"With slash");

    Ok(())
}

#[test]
fn map_fs_test_mkfile_relative_path() -> Result<(), VfsError> {
    let mut vfs = setup_vfs();
    vfs.mkdir("/home")?;
    vfs.cd("/home")?; // Assume /home exists

    vfs.mkfile("file.txt", Some(b"Relative"))?;

    assert!(vfs.path_exists("/home/file.txt"));
    assert_eq!(vfs.read("/home/file.txt")?, b"Relative");

    Ok(())
}

#[test]
fn test_mkdir_and_mkfile_combination() -> Result<(), VfsError> {
    let mut vfs = setup_vfs();

    vfs.mkdir("/projects")?;
    vfs.mkfile("/projects/main.rs", Some(b"fn main() {}"))?;
    vfs.mkdir("/projects/tests")?;
    vfs.mkfile("/projects/tests/test1.rs", Some(b"#[test]"))?;

    assert!(vfs.path_exists("/projects"));
    assert!(vfs.path_exists("/projects/main.rs"));
    assert!(vfs.path_exists("/projects/tests"));
    assert!(vfs.path_exists("/projects/tests/test1.rs"));

    Ok(())
}

#[test]
fn test_mkdir_case_sensitivity() -> Result<(), VfsError> {
    let mut vfs = setup_vfs();
    vfs.mkdir("/CaseDir")?;

    assert!(vfs.path_exists("/CaseDir"));
    assert!(!vfs.path_exists("/casedir")); // Case-sensitive

    Ok(())
}
