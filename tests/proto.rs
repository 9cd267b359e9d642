use froggr::attr::{FileAttr, FileKind};
use froggr::proto::{NineP, OpenFlags, ProtoError, Qid, QTDIR};
use froggr::table::BoundEntry;

fn setup_test_fs() -> NineP {
    let temp_dir = tempfile::tempdir().unwrap();
    NineP::new(temp_dir.path().to_str().unwrap().to_string())
}

fn create_test_file_entry(ino: u64, name: &str, content: Option<Vec<u8>>) -> (String, BoundEntry) {
    let attr = FileAttr {
        ino,
        size: content.as_ref().map_or(0, |c| c.len() as u64),
        blocks: 1,
        atime: 0,
        mtime: 0,
        ctime: 0,
        crtime: 0,
        kind: FileKind::RegularFile,
        perm: 0o644,
        nlink: 1,
        uid: 1000,
        gid: 1000,
        rdev: 0,
        flags: 0,
        blksize: 512,
    };
    (name.to_string(), BoundEntry { attr, content })
}

#[test]
fn test_create_filesystem() {
    let fs = setup_test_fs();
    let bindings = &fs.namespace_manager.bindings;

    assert_eq!(bindings.len(), 1);
    assert!(bindings.contains_key(1));
    if let Some(b) = bindings.get(1) {
        assert_eq!(b.entry.attr.kind, FileKind::Directory);
    } else {
        panic!("Root directory not found");
    }
}

#[test]
fn test_file_attributes() {
    let mut fs = setup_test_fs();
    let content = b"Hello, World!".to_vec();
    let (name, entry) = create_test_file_entry(2, "test.txt", Some(content.clone()));

    let ino = fs.namespace_manager.bindings.add(name, entry.clone());
    assert_eq!(ino, 2);

    assert_eq!(entry.attr.size, 13);
    assert_eq!(entry.attr.kind, FileKind::RegularFile);
    assert_eq!(entry.content.unwrap(), content);
}

#[test]
fn test_root_directory_attributes() {
    let fs = setup_test_fs();
    let bindings = &fs.namespace_manager.bindings;
    let root_exists = (0..bindings.len()).any(|i| bindings.row(i).ino == 1);
    assert!(root_exists);
}

#[test]
fn test_file_lookup() {
    let mut fs = setup_test_fs();
    let (name, entry) = create_test_file_entry(2, "test.txt", Some(b"content".to_vec()));
    fs.namespace_manager.bindings.add(name, entry);

    assert!(fs.namespace_manager.bindings.contains_key(2));
    if let Some(b) = fs.namespace_manager.bindings.get(2) {
        assert_eq!(b.entry.content.as_ref().unwrap(), b"content");
    } else {
        panic!("File not found");
    }
}

#[test]
fn test_directory_listing() {
    let mut fs = setup_test_fs();
    let (name1, entry1) = create_test_file_entry(2, "test1.txt", Some(b"content1".to_vec()));
    let (name2, entry2) = create_test_file_entry(3, "test2.txt", Some(b"content2".to_vec()));
    fs.namespace_manager.bindings.add(name1, entry1);
    fs.namespace_manager.bindings.add(name2, entry2);

    assert_eq!(fs.namespace_manager.bindings.len(), 3);
    assert!(fs.namespace_manager.bindings.contains_key(2));
    assert!(fs.namespace_manager.bindings.contains_key(3));

    let lines = fs.readdir(1).unwrap();
    let files: Vec<&str> = lines.iter().filter(|l| l.0 != 1).map(|l| l.2.as_str()).collect();
    assert!(files.contains(&"test1.txt"));
    assert!(files.contains(&"test2.txt"));
}

#[test]
fn test_file_content() {
    let mut fs = setup_test_fs();
    let content = b"Hello, World!".to_vec();
    let (name, entry) = create_test_file_entry(2, "test.txt", Some(content.clone()));
    fs.namespace_manager.bindings.add(name, entry);

    if let Some(b) = fs.namespace_manager.bindings.get(2) {
        assert_eq!(b.entry.content.as_ref().unwrap(), &content);
        assert_eq!(b.entry.attr.size, content.len() as u64);
    } else {
        panic!("File not found");
    }
}

#[test]
fn test_empty_file() {
    let mut fs = setup_test_fs();
    let (name, entry) = create_test_file_entry(2, "empty.txt", None);
    fs.namespace_manager.bindings.add(name, entry);

    if let Some(b) = fs.namespace_manager.bindings.get(2) {
        assert!(b.entry.content.is_none());
        assert_eq!(b.entry.attr.size, 0);
    } else {
        panic!("File not found");
    }
}

#[test]
fn version_caps_message_size_and_names_version() {
    let mut fs = NineP::new("/r".to_string());
    assert_eq!(fs.version("9P2000", 65536), Ok((8192, "9P2000".to_string())));
    assert_eq!(fs.version("9P2000.L", 4096), Ok((4096, "unknown".to_string())));
    assert_eq!(fs.auth("u", "a", 0), Err(ProtoError::AuthNotRequired));
    assert_eq!(fs.flush(3), Ok(()));
}

#[test]
fn walk_open_read_write_stat() {
    let mut fs = NineP::new("/r".to_string());
    let root = fs.attach(0, None, "user", "default").unwrap();
    assert_eq!(root, Qid { version: 0, path: 1, file_type: QTDIR });

    let (qid, msize) = fs.create(0, "notes.txt", 0o644, OpenFlags(OpenFlags::O_RDWR), 7).unwrap();
    assert_eq!(qid, Qid { version: 0, path: 2, file_type: 0 });
    assert_eq!(msize, 8192);

    let qids = fs.walk(0, 5, &vec!["notes.txt".to_string()]).unwrap();
    assert_eq!(qids, vec![Qid { version: 0, path: 2, file_type: 0 }]);
    assert_eq!(fs.open(5, OpenFlags(OpenFlags::O_RDONLY)).unwrap().0.path, 2);

    assert_eq!(fs.write(5, 2, &b"abc".to_vec()), Ok(3));
    assert_eq!(fs.read(5, 0, 10).unwrap(), vec![0, 0, b'a', b'b', b'c']);
    assert_eq!(fs.read(5, 3, 1).unwrap(), b"b".to_vec());
    assert_eq!(fs.read(5, 9, 4).unwrap(), Vec::<u8>::new());

    let st = fs.stat(5).unwrap();
    assert_eq!(st.name, "notes.txt");
    assert_eq!(st.mode, 0o644);
    assert_eq!(st.atime, 7);

    let mut changed = st.clone();
    changed.mode = 0o400;
    assert_eq!(fs.wstat(5, &changed), Ok(()));
    assert_eq!(fs.getattr(2).unwrap().perm, 0o400);

    assert_eq!(fs.walk(0, 6, &vec!["missing".to_string()]), Err(ProtoError::NotFound));
    assert_eq!(fs.walk(9, 6, &vec![]), Err(ProtoError::InvalidFid));
    assert_eq!(fs.open(9, OpenFlags(0)), Err(ProtoError::InvalidFid));
}

#[test]
fn root_cannot_be_removed_and_clunk_releases_fid() {
    let mut fs = NineP::new("/r".to_string());
    fs.attach(0, None, "user", "default").unwrap();
    fs.attach(1, None, "user", "default").unwrap();
    assert_eq!(fs.remove(0), Err(ProtoError::RootImmutable));
    assert!(fs.getattr(1).is_some());
    assert_eq!(fs.clunk(1), Ok(()));
    assert_eq!(fs.clunk(1), Err(ProtoError::InvalidFid));

    fs.attach(2, None, "user", "default").unwrap();
    fs.create(2, "gone.txt", 0o600, OpenFlags(0), 0).unwrap();
    fs.walk(2, 3, &vec!["gone.txt".to_string()]).unwrap();
    assert_eq!(fs.remove(3), Ok(()));
    assert!(fs.getattr(2).is_none());
}

#[test]
fn bridge_reads_only_from_root() {
    let mut fs = NineP::new("/r".to_string());
    fs.attach(0, None, "user", "default").unwrap();
    fs.create(0, "a.txt", 0o644, OpenFlags(0), 0).unwrap();
    fs.walk(0, 1, &vec!["a.txt".to_string()]).unwrap();
    fs.write(1, 0, &b"hello".to_vec()).unwrap();

    assert_eq!(fs.lookup(1, &"a.txt".to_string()).unwrap().ino, 2);
    assert!(fs.lookup(2, &"a.txt".to_string()).is_none());
    assert!(fs.lookup(1, &"b.txt".to_string()).is_none());
    assert_eq!(fs.read_data(2, 1, 3), Some(b"ell".to_vec()));
    assert_eq!(fs.read_data(1, 0, 3), None);
    assert_eq!(fs.read_data(42, 0, 3), None);
    assert!(fs.readdir(2).is_none());
    let lines = fs.readdir(1).unwrap();
    assert_eq!(lines.len(), 3);
    assert_eq!(lines[0], (1, FileKind::Directory, ".".to_string()));
    assert_eq!(lines[1], (1, FileKind::Directory, "..".to_string()));
    assert_eq!(lines[2], (2, FileKind::RegularFile, "a.txt".to_string()));
}

#[test]
fn lookup_compares_final_components() {
    let mut fs = NineP::new("/r".to_string());
    fs.attach(0, None, "user", "default").unwrap();
    fs.create(0, "a/b", 0o644, OpenFlags(0), 0).unwrap();
    assert_eq!(fs.lookup(1, &"b".to_string()).unwrap().ino, 2);
    assert!(fs.lookup(1, &"a/b".to_string()).is_none());
    assert_eq!(fs.lookup(1, &".".to_string()).unwrap().ino, 1);
}

#[test]
fn create_with_unbound_fid_keeps_the_counter() {
    let mut fs = NineP::new("/r".to_string());
    fs.attach(0, None, "user", "default").unwrap();
    fs.create(0, "x", 0o644, OpenFlags(0), 0).unwrap();
    fs.walk(0, 1, &vec!["x".to_string()]).unwrap();
    fs.remove(1).unwrap();
    fs.attach(2, None, "user", "default").unwrap();
    assert_eq!(fs.create(9, "y", 0o644, OpenFlags(0), 0), Err(ProtoError::InvalidFid));
    assert_eq!(fs.namespace_manager.bindings.next_inode(), 3);
}
