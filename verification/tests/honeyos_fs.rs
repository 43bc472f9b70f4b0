use hobby_kernel::honeyos::fs::{BlockKind, FileSystem, FsError, MAX_CONTENT_LEN, TOTAL_BLOCKS};

fn read(fs: &FileSystem, name: &str) -> Result<Vec<u8>, FsError> {
    let mut out = [0u8; MAX_CONTENT_LEN];
    let len = fs.read_into(name, &mut out)?;
    Ok(out[..len].to_vec())
}

fn used_blocks(fs: &FileSystem) -> Vec<(usize, BlockKind, String)> {
    let mut v = Vec::new();
    for i in 0..TOTAL_BLOCKS {
        let info = fs.block_info(i);
        if info.used {
            v.push((i, info.kind.unwrap(), info.owner.unwrap().to_string()));
        }
    }
    v
}

fn data_blocks_of(fs: &FileSystem, name: &str) -> usize {
    used_blocks(fs)
        .iter()
        .filter(|(_, k, o)| *k == BlockKind::Data && o == name)
        .count()
}

#[test]
fn new_file_system_is_empty() {
    let fs = FileSystem::new();
    assert_eq!(fs.file_count(), 0);
    assert!(fs.for_each_file().is_empty());
    for i in 0..TOTAL_BLOCKS {
        let info = fs.block_info(i);
        assert!(!info.used);
        assert!(info.kind.is_none());
        assert!(info.owner.is_none());
    }
}

#[test]
fn create_reserves_one_index_block() {
    let mut fs = FileSystem::new();
    assert_eq!(fs.create("notes.txt"), Ok(()));
    assert_eq!(fs.file_count(), 1);
    assert_eq!(read(&fs, "notes.txt"), Ok(vec![]));
    assert_eq!(used_blocks(&fs), vec![(0, BlockKind::Index, "notes.txt".to_string())]);
    assert_eq!(fs.for_each_file(), vec![("notes.txt", 0)]);
}

#[test]
fn create_rejects_bad_names() {
    let mut fs = FileSystem::new();
    assert_eq!(fs.create(""), Err(FsError::BadName));
    let long = "a".repeat(33);
    assert_eq!(fs.create(&long), Err(FsError::BadName));
    let exact = "b".repeat(32);
    assert_eq!(fs.create(&exact), Ok(()));
    assert_eq!(fs.file_count(), 1);
}

#[test]
fn create_rejects_duplicate_name() {
    let mut fs = FileSystem::new();
    fs.create("a").unwrap();
    assert_eq!(fs.create("a"), Err(FsError::AlreadyExists));
    assert_eq!(fs.file_count(), 1);
}

#[test]
fn create_fails_when_table_full() {
    let mut fs = FileSystem::new();
    for i in 0..8 {
        assert_eq!(fs.create(&format!("f{}", i)), Ok(()));
    }
    assert_eq!(fs.create("ninth"), Err(FsError::NoSpace));
    assert_eq!(fs.file_count(), 8);
}

#[test]
fn save_then_read_returns_data() {
    let mut fs = FileSystem::new();
    fs.create("a").unwrap();
    assert_eq!(fs.save("a", "hello"), Ok(()));
    assert_eq!(read(&fs, "a"), Ok(b"hello".to_vec()));
    assert_eq!(fs.for_each_file(), vec![("a", 5)]);
    assert_eq!(
        used_blocks(&fs),
        vec![(0, BlockKind::Index, "a".to_string()), (1, BlockKind::Data, "a".to_string())]
    );
}

#[test]
fn save_errors() {
    let mut fs = FileSystem::new();
    assert_eq!(fs.save("missing", "x"), Err(FsError::NotFound));
    fs.create("a").unwrap();
    let too_long = "x".repeat(513);
    assert_eq!(fs.save("a", &too_long), Err(FsError::ContentTooLong));
    assert_eq!(read(&fs, "a"), Ok(vec![]));
    let max = "y".repeat(512);
    assert_eq!(fs.save("a", &max), Ok(()));
    assert_eq!(read(&fs, "a"), Ok(max.into_bytes()));
}

#[test]
fn data_blocks_follow_content_size() {
    let mut fs = FileSystem::new();
    fs.create("a").unwrap();
    let cases = [(0usize, 0usize), (1, 1), (128, 1), (129, 2), (256, 2), (257, 3), (384, 3), (385, 4), (512, 4)];
    for (len, blocks) in cases {
        let text = "z".repeat(len);
        fs.save("a", &text).unwrap();
        assert_eq!(data_blocks_of(&fs, "a"), blocks, "content of {} bytes", len);
        assert_eq!(read(&fs, "a"), Ok(text.into_bytes()));
    }
}

#[test]
fn save_replaces_previous_blocks() {
    let mut fs = FileSystem::new();
    fs.create("a").unwrap();
    fs.save("a", &"q".repeat(200)).unwrap();
    fs.create("b").unwrap();
    assert_eq!(
        used_blocks(&fs),
        vec![
            (0, BlockKind::Index, "a".to_string()),
            (1, BlockKind::Data, "a".to_string()),
            (2, BlockKind::Data, "a".to_string()),
            (3, BlockKind::Index, "b".to_string()),
        ]
    );
    fs.save("a", "short").unwrap();
    assert_eq!(
        used_blocks(&fs),
        vec![
            (0, BlockKind::Index, "a".to_string()),
            (1, BlockKind::Data, "a".to_string()),
            (3, BlockKind::Index, "b".to_string()),
        ]
    );
    assert_eq!(read(&fs, "a"), Ok(b"short".to_vec()));
}

#[test]
fn edit_appends_text() {
    let mut fs = FileSystem::new();
    fs.create("a").unwrap();
    fs.save("a", "hello").unwrap();
    assert_eq!(fs.edit("a", " world"), Ok(()));
    assert_eq!(read(&fs, "a"), Ok(b"hello world".to_vec()));
}

#[test]
fn edit_errors() {
    let mut fs = FileSystem::new();
    assert_eq!(fs.edit("missing", "x"), Err(FsError::NotFound));
    fs.create("a").unwrap();
    fs.save("a", &"x".repeat(510)).unwrap();
    assert_eq!(fs.edit("a", "abc"), Err(FsError::ContentTooLong));
    assert_eq!(read(&fs, "a"), Ok("x".repeat(510).into_bytes()));
    assert_eq!(fs.edit("a", "ab"), Ok(()));
    assert_eq!(read(&fs, "a").unwrap().len(), 512);
}

#[test]
fn delete_frees_all_blocks() {
    let mut fs = FileSystem::new();
    fs.create("a").unwrap();
    fs.save("a", &"q".repeat(300)).unwrap();
    assert_eq!(used_blocks(&fs).len(), 4);
    assert_eq!(fs.delete("a"), Ok(()));
    assert_eq!(fs.file_count(), 0);
    assert!(used_blocks(&fs).is_empty());
    assert_eq!(read(&fs, "a"), Err(FsError::NotFound));
    assert_eq!(fs.delete("a"), Err(FsError::NotFound));
}

#[test]
fn delete_reuses_slot_in_order() {
    let mut fs = FileSystem::new();
    fs.create("a").unwrap();
    fs.create("b").unwrap();
    fs.delete("a").unwrap();
    fs.create("c").unwrap();
    assert_eq!(fs.for_each_file(), vec![("c", 0), ("b", 0)]);
}

#[test]
fn rename_keeps_contents_and_blocks() {
    let mut fs = FileSystem::new();
    fs.create("old-name").unwrap();
    fs.save("old-name", "data").unwrap();
    assert_eq!(fs.rename("old-name", "new"), Ok(()));
    assert_eq!(read(&fs, "new"), Ok(b"data".to_vec()));
    assert_eq!(read(&fs, "old-name"), Err(FsError::NotFound));
    assert_eq!(
        used_blocks(&fs),
        vec![(0, BlockKind::Index, "new".to_string()), (1, BlockKind::Data, "new".to_string())]
    );
    assert_eq!(fs.for_each_file(), vec![("new", 4)]);
}

#[test]
fn rename_errors() {
    let mut fs = FileSystem::new();
    fs.create("a").unwrap();
    fs.create("b").unwrap();
    assert_eq!(fs.rename("a", ""), Err(FsError::BadName));
    assert_eq!(fs.rename("a", &"n".repeat(33)), Err(FsError::BadName));
    assert_eq!(fs.rename("a", "b"), Err(FsError::AlreadyExists));
    assert_eq!(fs.rename("missing", "c"), Err(FsError::NotFound));
    assert_eq!(fs.for_each_file(), vec![("a", 0), ("b", 0)]);
}

#[test]
fn failed_operations_change_nothing() {
    let mut fs = FileSystem::new();
    fs.create("a").unwrap();
    fs.save("a", "abc").unwrap();
    let before = used_blocks(&fs);
    assert!(fs.save("a", &"x".repeat(600)).is_err());
    assert!(fs.create("a").is_err());
    assert!(fs.rename("zz", "yy").is_err());
    assert!(fs.delete("zz").is_err());
    assert_eq!(used_blocks(&fs), before);
    assert_eq!(read(&fs, "a"), Ok(b"abc".to_vec()));
}

#[test]
fn other_files_unaffected() {
    let mut fs = FileSystem::new();
    fs.create("a").unwrap();
    fs.create("b").unwrap();
    fs.save("b", "keep").unwrap();
    fs.save("a", "one").unwrap();
    fs.edit("a", "two").unwrap();
    fs.delete("a").unwrap();
    assert_eq!(read(&fs, "b"), Ok(b"keep".to_vec()));
}

#[test]
fn full_disk_holds_eight_full_files() {
    let mut fs = FileSystem::new();
    for i in 0..8 {
        let name = format!("f{}", i);
        fs.create(&name).unwrap();
        fs.save(&name, &"m".repeat(512)).unwrap();
    }
    assert_eq!(used_blocks(&fs).len(), TOTAL_BLOCKS);
    fs.save("f3", &"n".repeat(512)).unwrap();
    assert_eq!(read(&fs, "f3"), Ok("n".repeat(512).into_bytes()));
}

#[test]
fn block_info_out_of_range() {
    let mut fs = FileSystem::new();
    fs.create("a").unwrap();
    let info = fs.block_info(TOTAL_BLOCKS);
    assert!(!info.used && info.kind.is_none() && info.owner.is_none());
    let info = fs.block_info(usize::MAX);
    assert!(!info.used);
}

#[test]
fn error_messages() {
    assert_eq!(FsError::NoSpace.as_str(), "file system is full");
    assert_eq!(FsError::NotFound.as_str(), "file not found");
    assert_eq!(FsError::AlreadyExists.as_str(), "file already exists");
    assert_eq!(FsError::BadName.as_str(), "invalid file name");
    assert_eq!(FsError::ContentTooLong.as_str(), "content exceeds maximum size");
}

#[test]
fn read_into_leaves_tail_of_buffer() {
    let mut fs = FileSystem::new();
    fs.create("a").unwrap();
    fs.save("a", "hi").unwrap();
    let mut out = [7u8; MAX_CONTENT_LEN];
    assert_eq!(fs.read_into("a", &mut out), Ok(2));
    assert_eq!(&out[..2], b"hi");
    assert!(out[2..].iter().all(|&b| b == 7));
}

#[test]
fn utf8_names_and_contents() {
    let mut fs = FileSystem::new();
    fs.create("héllo").unwrap();
    fs.save("héllo", "ünïcode").unwrap();
    assert_eq!(fs.for_each_file(), vec![("héllo", "ünïcode".len())]);
    assert_eq!(fs.block_info(0).owner, Some("héllo"));
}

#[test]
fn rename_and_back_restores() {
    let mut fs = FileSystem::new();
    fs.create("a").unwrap();
    fs.save("a", &"w".repeat(200)).unwrap();
    fs.create("b").unwrap();
    let blocks = used_blocks(&fs);
    let list: Vec<(String, usize)> = fs.for_each_file().iter().map(|(n, l)| (n.to_string(), *l)).collect();
    fs.rename("a", "c").unwrap();
    fs.rename("c", "a").unwrap();
    assert_eq!(used_blocks(&fs), blocks);
    let after: Vec<(String, usize)> = fs.for_each_file().iter().map(|(n, l)| (n.to_string(), *l)).collect();
    assert_eq!(after, list);
    assert_eq!(read(&fs, "a"), Ok("w".repeat(200).into_bytes()));
}

#[test]
fn listing_matches_reads_and_count() {
    let mut fs = FileSystem::new();
    fs.create("a").unwrap();
    fs.create("b").unwrap();
    fs.save("b", "12345").unwrap();
    fs.create("c").unwrap();
    fs.delete("a").unwrap();
    let list = fs.for_each_file();
    assert_eq!(list.len(), fs.file_count());
    assert_eq!(list, vec![("b", 5), ("c", 0)]);
    for (name, size) in list {
        assert_eq!(read(&fs, name).unwrap().len(), size);
    }
}

#[test]
fn whole_table_block_count() {
    let mut fs = FileSystem::new();
    let sizes = [0usize, 1, 128, 129, 300, 512];
    for (i, n) in sizes.iter().enumerate() {
        let name = format!("f{}", i);
        fs.create(&name).unwrap();
        fs.save(&name, &"d".repeat(*n)).unwrap();
    }
    fs.delete("f1").unwrap();
    fs.edit("f0", "abc").unwrap();
    let expected: usize = fs
        .for_each_file()
        .iter()
        .map(|(name, _)| 1 + (read(&fs, name).unwrap().len() + 127) / 128)
        .sum();
    assert_eq!(used_blocks(&fs).len(), expected);
    for (name, size) in fs.for_each_file() {
        let blocks = used_blocks(&fs);
        let idx = blocks.iter().filter(|(_, k, o)| *k == BlockKind::Index && o == name).count();
        assert_eq!(idx, 1);
        assert_eq!(data_blocks_of(&fs, name), (size + 127) / 128);
    }
}

#[test]
fn save_then_listed_with_size() {
    let mut fs = FileSystem::new();
    fs.create("x").unwrap();
    fs.create("y").unwrap();
    fs.save("y", &"s".repeat(300)).unwrap();
    assert!(fs.for_each_file().contains(&("y", 300)));
    assert!(fs.for_each_file().contains(&("x", 0)));
}

#[test]
fn save_never_runs_out_of_blocks() {
    let mut fs = FileSystem::new();
    for i in 0..8 {
        fs.create(&format!("f{}", i)).unwrap();
    }
    for round in 0..3 {
        for i in 0..8 {
            let n = (i * 67 + round * 131) % 513;
            assert_eq!(fs.save(&format!("f{}", i), &"q".repeat(n)), Ok(()));
        }
    }
    for i in 0..8 {
        fs.save(&format!("f{}", i), &"q".repeat(500)).unwrap();
        assert_eq!(fs.edit(&format!("f{}", i), "123456789012"), Ok(()));
    }
    assert_eq!(used_blocks(&fs).len(), TOTAL_BLOCKS);
}
