use vfs_kit::{MapFS, VfsError};

/// Helper to create a pre‑populated MapFS instance for testing
fn setup_test_vfs() -> MapFS {
    let mut vfs = MapFS::new();

    // Create a nested hierarchy
    vfs.mkdir("/etc").unwrap();
    vfs.mkdir("/home").unwrap();
    vfs.mkdir("/home/user").unwrap();
    vfs.mkdir("/home/user/projects").unwrap();
    vfs.mkdir("/home/guest").unwrap();
    vfs.mkfile("/home/user/file1.txt", Some(b"Content 1"))
        .unwrap();
    vfs.mkfile("/home/user/projects/proj1.rs", Some(b"Code 1"))
        .unwrap();
    vfs.mkfile("/home/user/projects/proj2.rs", Some(b"Code 2"))
        .unwrap();
    vfs.mkfile("/home/guest/note.txt", Some(b"Note")).unwrap();
    vfs.mkfile("/readme.md", Some(b"Docs")).unwrap();

    vfs
}

#[test]
fn test_tree_root() -> Result<(), VfsError> {
    let vfs = setup_test_vfs();
    let entries: Vec<_> = vfs.tree("/")?;

    assert_eq!(entries.len(), 10);
    assert!(entries.contains(&String::from("/etc")));
    assert!(entries.contains(&String::from("/home")));
    assert!(entries.contains(&String::from("/home/user")));
    assert!(entries.contains(&String::from("/home/user/file1.txt")));
    assert!(entries.contains(&String::from("/home/user/projects")));
    assert!(entries.contains(&String::from("/home/user/projects/proj1.rs")));
    assert!(entries.contains(&String::from("/home/user/projects/proj2.rs")));
    assert!(entries.contains(&String::from("/home/guest")));
    assert!(entries.contains(&String::from("/home/guest/note.txt")));

    Ok(())
}

#[test]
fn test_tree_home_directory() -> Result<(), VfsError> {
    let vfs = setup_test_vfs();
    let entries: Vec<_> = vfs.tree("/home")?;

    assert_eq!(entries.len(), 7);
    assert!(entries.contains(&String::from("/home/user")));
    assert!(entries.contains(&String::from("/home/user/file1.txt")));
    assert!(entries.contains(&String::from("/home/user/projects")));
    assert!(entries.contains(&String::from("/home/user/projects/proj1.rs")));
    assert!(entries.contains(&String::from("/home/user/projects/proj2.rs")));
    assert!(entries.contains(&String::from("/home/guest")));
    assert!(entries.contains(&String::from("/home/guest/note.txt")));

    Ok(())
}

#[test]
fn test_tree_user_directory() -> Result<(), VfsError> {
    let vfs = setup_test_vfs();
    let entries: Vec<_> = vfs.tree("/home/user")?;

    assert_eq!(entries.len(), 4);
    assert!(entries.contains(&String::from("/home/user/file1.txt")));
    assert!(entries.contains(&String::from("/home/user/projects")));
    assert!(entries.contains(&String::from("/home/user/projects/proj1.rs")));
    assert!(entries.contains(&String::from("/home/user/projects/proj2.rs")));

    Ok(())
}

#[test]
fn test_tree_nonexistent_path() {
    let vfs = setup_test_vfs();
    let result: Result<Vec<String>, VfsError> = vfs.tree("/nonexistent");
    assert!(result.is_err());
    assert!(
        result.unwrap_err().to_string().contains("does not exist"),
        "Error should mention path does not exist"
    );
}

#[test]
fn test_tree_file_path() {
    let vfs = setup_test_vfs();
    let result: Result<Vec<String>, VfsError> =
        vfs.tree("/home/user/file1.txt");
    assert!(result.is_ok());
    assert_eq!(result.unwrap(), vec!["/home/user/file1.txt"]);
}

#[test]
fn test_tree_empty_directory() -> Result<(), VfsError> {
    let mut vfs = setup_test_vfs();
    vfs.mkdir("/empty_dir").unwrap();

    let entries: Vec<_> = vfs.tree("/empty_dir")?;
    assert_eq!(entries.len(), 0); // Empty directory → empty iterator

    Ok(())
}

#[test]
fn test_tree_relative_path_from_root() -> Result<(), VfsError> {
    let vfs = setup_test_vfs();
    let entries: Vec<_> = vfs.tree("home")?; // Relative path

    assert_eq!(entries.len(), 7);
    assert!(entries.contains(&String::from("/home/user")));
    assert!(entries.contains(&String::from("/home/user/file1.txt")));
    assert!(entries.contains(&String::from("/home/user/projects")));
    assert!(entries.contains(&String::from("/home/user/projects/proj1.rs")));
    assert!(entries.contains(&String::from("/home/user/projects/proj2.rs")));
    assert!(entries.contains(&String::from("/home/guest")));
    assert!(entries.contains(&String::from("/home/guest/note.txt")));

    Ok(())
}

#[test]
fn test_tree_relative_path_nested() -> Result<(), VfsError> {
    let mut vfs = setup_test_vfs();
    vfs.cd("/home").unwrap();

    let entries: Vec<_> = vfs.tree("user")?;

    assert_eq!(entries.len(), 4);
    assert!(entries.contains(&String::from("/home/user/file1.txt")));
    assert!(entries.contains(&String::from("/home/user/projects")));
    assert!(entries.contains(&String::from("/home/user/projects/proj1.rs")));
    assert!(entries.contains(&String::from("/home/user/projects/proj2.rs")));

    Ok(())
}

#[test]
fn test_tree_with_trailing_slash() -> Result<(), VfsError> {
    let vfs = setup_test_vfs();
    let entries1: Vec<_> = vfs.tree("/home/")?; // With slash
    let entries2: Vec<_> = vfs.tree("/home")?; // Without slash

    assert_eq!(entries1, entries2); // Results should be identical
    Ok(())
}

#[test]
fn test_tree_dot_path() -> Result<(), VfsError> {
    let mut vfs = setup_test_vfs();
    vfs.cd("/home/user").unwrap();

    let entries: Vec<_> = vfs.tree(".")?;
    assert_eq!(entries.len(), 4);
    assert!(entries.contains(&String::from("/home/user/file1.txt")));
    assert!(entries.contains(&String::from("/home/user/projects")));
    assert!(entries.contains(&String::from("/home/user/projects/proj1.rs")));
    assert!(entries.contains(&String::from("/home/user/projects/proj2.rs")));

    Ok(())
}

#[test]
fn test_tree_double_dot_path() -> Result<(), VfsError> {
    let mut vfs = setup_test_vfs();
    vfs.cd("/home/user/projects").unwrap();

    let entries: Vec<_> = vfs.tree("..")?; // Parent directory
    assert_eq!(entries.len(), 4);
    assert!(entries.contains(&String::from("/home/user/file1.txt")));
    assert!(entries.contains(&String::from("/home/user/projects")));
    assert!(entries.contains(&String::from("/home/user/projects/proj1.rs")));
    assert!(entries.contains(&String::from("/home/user/projects/proj2.rs")));

    Ok(())
}

#[test]
fn test_tree_single_entry() -> Result<(), VfsError> {
    let mut vfs = setup_test_vfs();
    vfs.mkdir("/single").unwrap();

    let entries: Vec<_> = vfs.tree("/single")?;
    assert_eq!(entries.len(), 0); // No children → empty

    Ok(())
}

#[test]
fn test_tree_iterator_lazy_evaluation() -> Result<(), VfsError> {
    let vfs = setup_test_vfs();
    let mut iter = vfs.tree("/home/user")?.into_iter();

    // Test that iterator doesn't panic on immediate creation
    assert!(iter.next().is_some());

    // Consume remaining items
    let count = iter.count();
    assert_eq!(count + 1, 4); // +1 because we already took one with next()

    Ok(())
}

#[test]
fn test_tree_case_sensitivity() -> Result<(), VfsError> {
    let mut vfs = setup_test_vfs();
    vfs.mkdir("/CASE_TEST").unwrap();
    vfs.mkfile("/CASE_TEST/file.txt", Some(b"Data")).unwrap();

    let entries: Vec<_> = vfs.tree("/CASE_TEST")?;

    assert_eq!(entries.len(), 1);
    assert!(entries.contains(&String::from("/CASE_TEST/file.txt")));

    Ok(())
}
