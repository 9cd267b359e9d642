use froggr::attr::FileKind;
use froggr::mount::{FilesystemManager, FsError, Notice, PathProbe};
use froggr::namespace::BindMode;
use froggr::proto::NineP;
use froggr::table::{Binding, SourceEntry, Walk};

fn file(name: &str, content: &str, perm: u16) -> SourceEntry {
    SourceEntry {
        name: name.to_string(),
        is_dir: false,
        size: content.len() as u64,
        atime: 10,
        mtime: 20,
        perm,
        content: Some(content.as_bytes().to_vec()),
    }
}

fn dir(name: &str) -> SourceEntry {
    SourceEntry { name: name.to_string(), is_dir: true, size: 4096, atime: 1, mtime: 2, perm: 0o755, content: None }
}

fn walk(entries: Vec<SourceEntry>) -> Walk {
    Walk { entries, complete: true }
}

fn manager() -> FilesystemManager {
    FilesystemManager::new(NineP::new("/tmp/target".to_string()))
}

fn rows(m: &FilesystemManager) -> Vec<Binding> {
    let t = &m.fs.namespace_manager.bindings;
    (0..t.len()).map(|i| t.row(i).clone()).collect()
}

fn content_of(m: &FilesystemManager, name: &str) -> Option<Vec<u8>> {
    let attr = m.fs.lookup(1, &name.to_string())?;
    m.fs.read_data(attr.ino, 0, u32::MAX)
}

fn bind(m: &mut FilesystemManager, mode: BindMode, s: Vec<SourceEntry>, t: Vec<SourceEntry>) -> Result<(), FsError> {
    m.bind(Some("/tmp/source".to_string()), Some("/tmp/target".to_string()), mode, walk(s), walk(t))
}

#[test]
fn before_favors_source_on_name_collision() {
    let mut m = manager();
    bind(&mut m, BindMode::Before, vec![file("a.txt", "X", 0o644)], vec![file("a.txt", "Y", 0o644)]).unwrap();
    assert_eq!(content_of(&m, "a.txt"), Some(b"X".to_vec()));
    assert_eq!(rows(&m).iter().filter(|b| b.name == "a.txt").count(), 1);
}

#[test]
fn after_favors_target_on_name_collision() {
    let mut m = manager();
    bind(&mut m, BindMode::After, vec![file("a.txt", "X", 0o644)], vec![file("a.txt", "Y", 0o644)]).unwrap();
    assert_eq!(content_of(&m, "a.txt"), Some(b"Y".to_vec()));
    assert_eq!(rows(&m).iter().filter(|b| b.name == "a.txt").count(), 1);
}

#[test]
fn disjoint_union_preserves_both_sides() {
    let mut m = manager();
    bind(
        &mut m,
        BindMode::Before,
        vec![file("file1.txt", "test1", 0o644), file("file2.txt", "test2", 0o644)],
        vec![file("file3.txt", "test3", 0o644)],
    )
    .unwrap();
    assert_eq!(rows(&m).len(), 4);
    assert_eq!(rows(&m)[0].ino, 1);
    assert_eq!(content_of(&m, "file1.txt"), Some(b"test1".to_vec()));
    assert_eq!(content_of(&m, "file2.txt"), Some(b"test2".to_vec()));
    assert_eq!(content_of(&m, "file3.txt"), Some(b"test3".to_vec()));
}

#[test]
fn replace_is_destructive() {
    let mut m = manager();
    bind(&mut m, BindMode::Before, vec![file("old.txt", "o", 0o644)], vec![file("kept.txt", "k", 0o644)]).unwrap();
    assert_eq!(rows(&m).len(), 3);
    bind(&mut m, BindMode::Replace, vec![dir("sub"), file("new.txt", "n", 0o600)], vec![]).unwrap();
    let names: Vec<String> = rows(&m).iter().map(|b| b.name.clone()).collect();
    assert_eq!(names, vec![".".to_string(), "sub".to_string(), "new.txt".to_string()]);
    assert!(m.fs.lookup(1, &"old.txt".to_string()).is_none());
    assert_eq!(m.fs.namespace_manager.bindings.next_inode(), 6);
    assert_eq!(rows(&m)[1].ino, 4);
    assert_eq!(rows(&m)[1].entry.attr.kind, FileKind::Directory);
    assert_eq!(rows(&m)[2].entry.attr.perm, 0o600);
}

#[test]
fn create_masks_permissions() {
    let mut m = manager();
    bind(&mut m, BindMode::Create, vec![file("a.txt", "a", 0o644), file("b.sh", "b", 0o775), dir("d")], vec![]).unwrap();
    let r = rows(&m);
    assert_eq!(r.len(), 4);
    assert_eq!(r[1].entry.attr.perm, 0o444);
    assert_eq!(r[2].entry.attr.perm, 0o555);
    assert_eq!(r[3].entry.attr.perm, 0o555);
}

#[test]
fn root_survives_every_bind_mode() {
    let mut m = manager();
    for mode in [BindMode::Before, BindMode::After, BindMode::Replace, BindMode::Create] {
        bind(&mut m, mode, vec![file(".", "dot", 0o644), file("x", "x", 0o644)], vec![file("y", "y", 0o644)]).unwrap();
        let r = rows(&m);
        assert_eq!(r[0].ino, 1);
        assert_eq!(r[0].entry.attr.kind, FileKind::Directory);
        assert!(r[1..].iter().all(|b| b.ino > 1));
    }
}

#[test]
fn file_attributes_come_from_the_walk() {
    let mut m = manager();
    let mut big = file("big.bin", "", 0o640);
    big.size = 1025;
    big.content = Some(vec![7; 1025]);
    bind(&mut m, BindMode::Replace, vec![big], vec![]).unwrap();
    let a = m.fs.getattr(2).unwrap();
    assert_eq!(a.size, 1025);
    assert_eq!(a.blocks, 3);
    assert_eq!(a.atime, 10);
    assert_eq!(a.mtime, 20);
    assert_eq!(a.kind, FileKind::RegularFile);
    assert_eq!(a.uid, 501);
    assert_eq!(a.gid, 20);
}

#[test]
fn missing_path_changes_nothing() {
    let mut m = manager();
    let r = m.bind(None, Some("/t".to_string()), BindMode::Before, walk(vec![file("a", "a", 0o644)]), walk(vec![]));
    assert_eq!(r, Err(FsError::PathNotFound));
    assert_eq!(rows(&m).len(), 1);
    assert!(m.fs.namespace_manager.list_namespace().is_empty());
}

#[test]
fn failed_walk_keeps_what_was_applied() {
    let mut m = manager();
    let broken = Walk { entries: vec![file("partial", "p", 0o644)], complete: false };
    let r = m.bind(Some("/s".to_string()), Some("/t".to_string()), BindMode::Replace, broken, walk(vec![]));
    assert_eq!(r, Err(FsError::WalkFailed));
    assert_eq!(rows(&m).len(), 2);
    assert_eq!(m.fs.namespace_manager.list_namespace().len(), 1);
}

#[test]
fn bind_notifies_only_a_set_session() {
    let mut m = manager();
    bind(&mut m, BindMode::Before, vec![], vec![]).unwrap();
    assert!(m.take_notices().is_empty());
    m.set_current_session("abc".to_string());
    assert_eq!(m.get_session(), Some("abc".to_string()));
    bind(&mut m, BindMode::After, vec![], vec![]).unwrap();
    let notices = m.take_notices();
    assert_eq!(notices.len(), 1);
    match &notices[0] {
        Notice::BindSuccess { source, target } => {
            assert_eq!(source, "/tmp/source");
            assert_eq!(target, "/tmp/target");
        },
        _ => panic!("unexpected notice"),
    }
    assert!(m.take_notices().is_empty());
}

#[test]
fn mount_checks_and_records() {
    let mut m = manager();
    m.set_current_session("s".to_string());
    let good = PathProbe { canonical: Some("/src".to_string()), is_dir: true };
    let target = PathProbe { canonical: Some("/mnt".to_string()), is_dir: true };
    let missing = PathProbe { canonical: None, is_dir: false };
    let plain = PathProbe { canonical: Some("/f".to_string()), is_dir: false };

    assert_eq!(FilesystemManager::check_mount(&missing, &target), Err(FsError::PathNotFound));
    assert_eq!(FilesystemManager::check_mount(&good, &plain), Err(FsError::InvalidMountTarget));
    assert_eq!(m.mount(&good, &target, "node", Err(16)), Err(FsError::MountFailed(16)));
    assert!(m.fs.namespace_manager.list_namespace().is_empty());

    assert_eq!(m.mount(&good, &target, "node", Ok(())), Ok(()));
    let entries = m.fs.namespace_manager.list_namespace();
    assert_eq!(entries.len(), 1);
    assert_eq!(entries[0].bind_mode, BindMode::Before);
    assert_eq!(entries[0].remote_node.as_deref(), Some("node"));
    assert_eq!(m.take_notices().len(), 1);

    assert_eq!(m.unmount(Some("/mnt".to_string()), Err(1)), Err(FsError::MountFailed(1)));
    assert_eq!(m.unmount(None, Ok(())), Err(FsError::PathNotFound));
    assert_eq!(m.unmount(Some("/mnt".to_string()), Ok(())), Ok(()));
    assert!(m.fs.namespace_manager.list_namespace().is_empty());
    match &m.take_notices()[0] {
        Notice::UnmountSuccess { path } => assert_eq!(path, "/mnt"),
        _ => panic!("unexpected notice"),
    }
}
