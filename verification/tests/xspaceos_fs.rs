use hobby_kernel::xspaceos::fs::{FileSystem, FsError};

#[test]
fn flat_new_is_empty() {
    let fs = FileSystem::new();
    assert_eq!(fs.file_count(), 0);
    assert!(fs.for_each_file().is_empty());
    assert_eq!(fs.read("a"), Err(FsError::NotFound));
}

#[test]
fn flat_create_save_read() {
    let mut fs = FileSystem::new();
    assert_eq!(fs.create("a"), Ok(()));
    assert_eq!(fs.read("a"), Ok(""));
    assert_eq!(fs.save("a", "hello"), Ok(()));
    assert_eq!(fs.read("a"), Ok("hello"));
    assert_eq!(fs.save("a", "bye"), Ok(()));
    assert_eq!(fs.read("a"), Ok("bye"));
    assert_eq!(fs.for_each_file(), vec![("a", 3)]);
}

#[test]
fn flat_create_errors() {
    let mut fs = FileSystem::new();
    assert_eq!(fs.create(""), Err(FsError::BadName));
    assert_eq!(fs.create(&"x".repeat(33)), Err(FsError::BadName));
    assert_eq!(fs.create(&"x".repeat(32)), Ok(()));
    assert_eq!(fs.create(&"x".repeat(32)), Err(FsError::AlreadyExists));
    for i in 0..7 {
        fs.create(&format!("f{}", i)).unwrap();
    }
    assert_eq!(fs.file_count(), 8);
    assert_eq!(fs.create("more"), Err(FsError::NoSpace));
}

#[test]
fn flat_save_errors() {
    let mut fs = FileSystem::new();
    assert_eq!(fs.save("a", "x"), Err(FsError::NotFound));
    fs.create("a").unwrap();
    assert_eq!(fs.save("a", &"x".repeat(513)), Err(FsError::ContentTooLong));
    assert_eq!(fs.save("a", &"x".repeat(512)), Ok(()));
    assert_eq!(fs.read("a").unwrap().len(), 512);
}

#[test]
fn flat_edit_appends() {
    let mut fs = FileSystem::new();
    assert_eq!(fs.edit("a", "x"), Err(FsError::NotFound));
    fs.create("a").unwrap();
    fs.save("a", "abc").unwrap();
    assert_eq!(fs.edit("a", "def"), Ok(()));
    assert_eq!(fs.read("a"), Ok("abcdef"));
    assert_eq!(fs.edit("a", &"z".repeat(507)), Err(FsError::ContentTooLong));
    assert_eq!(fs.read("a"), Ok("abcdef"));
    assert_eq!(fs.edit("a", &"z".repeat(506)), Ok(()));
    assert_eq!(fs.read("a").unwrap().len(), 512);
}

#[test]
fn flat_delete() {
    let mut fs = FileSystem::new();
    fs.create("a").unwrap();
    fs.create("b").unwrap();
    fs.save("b", "keep").unwrap();
    assert_eq!(fs.delete("a"), Ok(()));
    assert_eq!(fs.delete("a"), Err(FsError::NotFound));
    assert_eq!(fs.file_count(), 1);
    assert_eq!(fs.read("b"), Ok("keep"));
    fs.create("c").unwrap();
    assert_eq!(fs.for_each_file(), vec![("c", 0), ("b", 4)]);
}

#[test]
fn flat_delete_then_recreate_is_empty() {
    let mut fs = FileSystem::new();
    fs.create("a").unwrap();
    fs.save("a", "old contents").unwrap();
    fs.delete("a").unwrap();
    fs.create("a").unwrap();
    assert_eq!(fs.read("a"), Ok(""));
}

#[test]
fn flat_error_messages() {
    assert_eq!(FsError::NoSpace.as_str(), "file system is full");
    assert_eq!(FsError::NotFound.as_str(), "file not found");
    assert_eq!(FsError::AlreadyExists.as_str(), "file already exists");
    assert_eq!(FsError::BadName.as_str(), "invalid file name");
    assert_eq!(FsError::ContentTooLong.as_str(), "content exceeds maximum size");
}
