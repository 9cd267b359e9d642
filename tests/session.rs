use froggr::frame::{decode_frames, encode_frame};
use froggr::mount::Notice;
use froggr::namespace::BindMode;
use froggr::table::{SourceEntry, Walk};
use froggr::session::{
    Phase, Session, SessionAction, SessionCommand, SessionError, SessionInfo, SessionManager, SessionMessage,
    SessionPlan, SessionState,
};

fn record(id: &str, root: &str) -> SessionInfo {
    SessionInfo { id: id.to_string(), pid: 1, root: root.to_string(), mounts: vec![], binds: vec![] }
}

#[test]
fn state_tracks_mounts_and_binds() {
    let mut st = SessionState::load("/root".to_string(), "id".to_string());
    st.add_mount("/a".to_string(), "/m".to_string());
    st.add_mount("/b".to_string(), "/n".to_string());
    st.add_mount("/c".to_string(), "/m".to_string());
    assert_eq!(st.mounts, vec![("/b".to_string(), "/n".to_string()), ("/c".to_string(), "/m".to_string())]);
    st.remove_mount(&"/n".to_string());
    assert_eq!(st.mounts, vec![("/c".to_string(), "/m".to_string())]);
    st.add_bind("/s".to_string(), "/t".to_string());
    st.add_bind("/s".to_string(), "/t".to_string());
    assert_eq!(st.binds.len(), 2);
    let info = st.info(42);
    assert_eq!(info.pid, 42);
    assert_eq!(info.id, "id");
    assert_eq!(info.root, "/root");
}

#[test]
fn commands_from_one_sender_keep_their_order() {
    let mut s = Session::new("/root".to_string(), "id".to_string());
    s.submit(SessionCommand::Bind { source: "/one".to_string(), target: "/t".to_string(), mode: BindMode::Before })
        .unwrap();
    s.submit(SessionCommand::Bind { source: "/two".to_string(), target: "/t".to_string(), mode: BindMode::After })
        .unwrap();
    match s.next_message() {
        Some(SessionMessage::Bind { source, mode, .. }) => {
            assert_eq!(source, "/one");
            assert_eq!(mode, BindMode::Before);
        },
        _ => panic!("expected the first bind"),
    }
    match s.next_message() {
        Some(SessionMessage::Bind { source, .. }) => assert_eq!(source, "/two"),
        _ => panic!("expected the second bind"),
    }
    assert!(s.next_message().is_none());
}

#[test]
fn frames_come_back_in_order() {
    let a = b"{\"Bind\":1}".to_vec();
    let b = b"second".to_vec();
    let mut stream = encode_frame(&a);
    assert_eq!(&stream[..4], &[0, 0, 0, 10]);
    stream.extend(encode_frame(&b));
    stream.extend(vec![0, 0]);
    let (frames, used) = decode_frames(&stream);
    assert_eq!(frames, vec![a, b]);
    assert_eq!(used, stream.len() - 2);
    assert_eq!(decode_frames(&vec![0, 0, 0, 5, 1]), (vec![], 0));
}

#[test]
fn only_successes_change_the_state() {
    let mut s = Session::new("/root".to_string(), "id".to_string());
    s.bind("/s".to_string(), "/t".to_string(), BindMode::Create).unwrap();
    let m = s.next_message().unwrap();
    match s.handle(m, 7) {
        SessionAction::Bind { source, target, mode } => {
            assert_eq!((source.as_str(), target.as_str(), mode), ("/s", "/t", BindMode::Create));
        },
        _ => panic!("expected bind work"),
    }
    assert!(s.state.binds.is_empty());
    s.notify(Notice::BindSuccess { source: "/s".to_string(), target: "/t".to_string() }).unwrap();
    let m = s.next_message().unwrap();
    match s.handle(m, 7) {
        SessionAction::Persist(info) => {
            assert_eq!(info.pid, 7);
            assert_eq!(info.binds, vec![("/s".to_string(), "/t".to_string())]);
        },
        _ => panic!("expected a record to persist"),
    }
    assert_eq!(s.get_current_bind(), Some(("/s".to_string(), "/t".to_string())));
    s.notify_mount_success("/a".to_string(), "/m".to_string()).unwrap();
    let m = s.next_message().unwrap();
    s.handle(m, 7);
    assert_eq!(s.state.mounts, vec![("/a".to_string(), "/m".to_string())]);
}

#[test]
fn shutdown_closes_the_queue() {
    let mut s = Session::new("/root".to_string(), "id".to_string());
    assert_eq!(s.phase, Phase::Running);
    assert_eq!(s.shutdown(), Ok(()));
    assert_eq!(s.phase, Phase::ShuttingDown);
    assert_eq!(s.mount("/a".to_string(), "/m".to_string(), "n".to_string()), Err(SessionError::Closed));
    assert_eq!(s.unmount("/m".to_string()), Err(SessionError::Closed));
    assert_eq!(s.shutdown(), Err(SessionError::Closed));
    let m = s.next_message().unwrap();
    assert!(matches!(s.handle(m, 1), SessionAction::Stop));
    assert_eq!(s.phase, Phase::Stopped);
}

#[test]
fn manager_names_files_by_id() {
    let mgr = SessionManager::new();
    assert_eq!(mgr.session_file("abc"), "/tmp/froggr/sessions/abc");
    assert_eq!(mgr.pipe_file("abc"), "/tmp/froggr/sessions/abc.pipe");
    let other = SessionManager::with_dir("/var/s".to_string());
    assert_eq!(other.session_file("x"), "/var/s/x");
}

#[test]
fn create_session_reuses_a_live_session() {
    let mgr = SessionManager::new();
    let records = vec![record("a", "/x"), record("b", "/root"), record("c", "/root")];
    match mgr.create_session(&records, &vec![true, false, true], &"/root".to_string()) {
        SessionPlan::Reuse { id, stale } => {
            assert_eq!(id, "c");
            assert_eq!(stale, vec!["b".to_string()]);
        },
        _ => panic!("expected reuse"),
    }
}

#[test]
fn create_session_draws_a_fresh_id() {
    let mgr = SessionManager::new();
    let records = vec![record("a", "/root"), record("b", "/y")];
    match mgr.create_session(&records, &vec![false, true], &"/root".to_string()) {
        SessionPlan::Spawn { id, stale } => {
            assert_eq!(stale, vec!["a".to_string()]);
            assert_eq!(id.len(), 36);
            for (i, c) in id.chars().enumerate() {
                if [8, 13, 18, 23].contains(&i) {
                    assert_eq!(c, '-');
                } else {
                    assert!(c.is_ascii_hexdigit() && !c.is_ascii_uppercase());
                }
            }
        },
        _ => panic!("expected a new session"),
    }
    let first = match mgr.create_session(&vec![], &vec![], &"/z".to_string()) {
        SessionPlan::Spawn { id, .. } => id,
        _ => panic!("expected a new session"),
    };
    let second = match mgr.create_session(&vec![], &vec![], &"/z".to_string()) {
        SessionPlan::Spawn { id, .. } => id,
        _ => panic!("expected a new session"),
    };
    assert_ne!(first, second);
}

#[test]
fn daemon_keeps_its_paths() {
    let d = froggr::daemon::Daemon::new("/tmp/d.pid".to_string(), "/".to_string());
    assert_eq!(d.pid_file, "/tmp/d.pid");
    assert_eq!(d.work_dir, "/");
}

#[test]
fn new_session_is_registered_and_running() {
    let s = Session::new("/root".to_string(), "id".to_string());
    assert_eq!(s.phase, Phase::Running);
    assert_eq!(s.fs_manager.get_current_session(), Some("id".to_string()));
    assert_eq!(s.fs_manager.fs.namespace_manager.root, "/root");
    assert!(s.fs_manager.fs.namespace_manager.list_namespace().is_empty());
}

fn bind_command(source: &str) -> SessionCommand {
    SessionCommand::Bind { source: source.to_string(), target: "/t".to_string(), mode: BindMode::Before }
}

fn one_file(name: &str) -> Walk {
    Walk {
        entries: vec![SourceEntry {
            name: name.to_string(),
            is_dir: false,
            size: 1,
            atime: 0,
            mtime: 0,
            perm: 0o644,
            content: Some(vec![1]),
        }],
        complete: true,
    }
}

#[test]
fn binds_are_recorded_in_send_order() {
    let mut s = Session::new("/t".to_string(), "id".to_string());
    s.submit(bind_command("/one")).unwrap();
    s.submit(bind_command("/two")).unwrap();
    for expected in ["/one", "/two"] {
        match s.step(3) {
            Some(SessionAction::Bind { source, target, mode }) => {
                assert_eq!(source, expected);
                s.apply_bind(Some(source), Some(target), mode, one_file(&expected[1..]), Walk::empty()).unwrap();
            },
            _ => panic!("expected bind work"),
        }
    }
    assert!(matches!(s.step(3), Some(SessionAction::Persist(_))));
    assert!(matches!(s.step(3), Some(SessionAction::Persist(_))));
    assert!(s.step(3).is_none());
    assert_eq!(
        s.state.binds,
        vec![("/one".to_string(), "/t".to_string()), ("/two".to_string(), "/t".to_string())]
    );
    assert!(s.fs_manager.fs.lookup(1, &"two".to_string()).is_some());
}

#[test]
fn failed_work_queues_no_success() {
    let mut s = Session::new("/t".to_string(), "id".to_string());
    assert_eq!(
        s.apply_bind(None, Some("/t".to_string()), BindMode::Replace, Walk::empty(), Walk::empty()),
        Err(froggr::mount::FsError::PathNotFound)
    );
    assert_eq!(s.apply_unmount(Some("/t".to_string()), Err(16)), Err(froggr::mount::FsError::MountFailed(16)));
    assert!(s.step(1).is_none());
    assert_eq!(s.apply_unmount(Some("/t".to_string()), Ok(())), Ok(()));
    assert!(matches!(s.step(1), Some(SessionAction::Persist(_))));
}
