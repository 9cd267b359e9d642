use froggr::namespace::{BindMode, NamespaceEntry, NamespaceError, NamespaceManager};

fn setup_test_dir() -> tempfile::TempDir {
    tempfile::tempdir().unwrap()
}

fn text(p: &std::path::Path) -> String {
    p.to_str().unwrap().to_string()
}

#[test]
fn test_namespace_manager_creation() {
    let temp_dir = setup_test_dir();
    let manager = NamespaceManager::new(text(temp_dir.path()));

    assert!(manager.namespace.is_empty());
    assert_eq!(manager.root, text(temp_dir.path()));
}

#[test]
fn test_list_namespace() {
    let temp_dir = setup_test_dir();
    let mut manager = NamespaceManager::new(text(temp_dir.path()));

    let source = text(&temp_dir.path().join("source"));
    let target = text(&temp_dir.path().join("target"));

    manager.add_entry(NamespaceEntry {
        source: source.clone(),
        target: target.clone(),
        bind_mode: BindMode::Replace,
        remote_node: None,
    });

    let entries = manager.list_namespace();
    assert_eq!(entries.len(), 1);
    assert_eq!(entries[0].source, source);
    assert_eq!(entries[0].target, target);
}

#[test]
fn test_bind_modes() {
    let temp_dir = setup_test_dir();
    let mut manager = NamespaceManager::new(text(temp_dir.path()));

    let source_dir = tempfile::Builder::new().prefix("source").tempdir_in(temp_dir.path()).unwrap();
    let target_dir = tempfile::Builder::new().prefix("target").tempdir_in(temp_dir.path()).unwrap();
    let source = source_dir.path().to_path_buf();
    let target = target_dir.path().to_path_buf();

    for mode in [BindMode::Replace, BindMode::Before, BindMode::After, BindMode::Create] {
        manager.namespace.clear();
        manager.add_entry(NamespaceEntry {
            source: text(&source),
            target: text(&target),
            bind_mode: mode,
            remote_node: None,
        });

        let resolved = manager.resolve_path(Some(text(&target))).unwrap();
        match mode {
            BindMode::Replace => assert_eq!(resolved, text(&source)),
            _ => assert!(std::path::Path::new(&resolved).starts_with(&source)),
        }
    }
}

#[test]
fn resolve_uses_most_recent_entry() {
    let mut manager = NamespaceManager::new("/r".to_string());
    for src in ["/a", "/b"] {
        manager.add_entry(NamespaceEntry {
            source: src.to_string(),
            target: "/t".to_string(),
            bind_mode: BindMode::Before,
            remote_node: None,
        });
    }
    assert_eq!(manager.resolve_path(Some("/t".to_string())), Ok("/b".to_string()));
    assert_eq!(manager.resolve_path(Some("/other".to_string())), Ok("/other".to_string()));
    assert_eq!(manager.resolve_path(None), Err(NamespaceError::PathNotResolvable));
}

#[test]
fn remove_target_drops_only_that_target() {
    let mut manager = NamespaceManager::new("/r".to_string());
    for (s, t) in [("/a", "/t"), ("/b", "/u"), ("/c", "/t")] {
        manager.add_entry(NamespaceEntry {
            source: s.to_string(),
            target: t.to_string(),
            bind_mode: BindMode::After,
            remote_node: Some("node".to_string()),
        });
    }
    manager.remove_target(&"/t".to_string());
    let entries = manager.list_namespace();
    assert_eq!(entries.len(), 1);
    assert_eq!(entries[0].source, "/b");
    assert_eq!(entries[0].remote_node.as_deref(), Some("node"));
}
