//! The mount orchestrator: validates paths, materializes binds into the
//! inode table, records mounts and unmounts in the namespace, and tells the
//! session it belongs to what succeeded.
//!
//! What only the host can answer (whether a path exists, its canonical
//! form, the contents of a directory tree, what the mount bridge said) is
//! handed in as plain values.
use vstd::prelude::*;

use crate::namespace::{entry_views, not_targeting, text_view, BindMode, EntryView, NamespaceEntry};
use crate::proto::NineP;
use crate::table::{materialized, TableView, Walk};

verus! {

/// What the host reported of a path.
pub struct PathProbe {
    /// Canonical form of the path; `None` when it does not exist.
    pub canonical: Option<String>,
    /// Whether the path is a directory.
    pub is_dir: bool,
}

/// Why a filesystem operation failed.
#[derive(Debug, Clone, Copy, PartialEq, Eq, Structural)]
pub enum FsError {
    /// The source or target path does not exist.
    PathNotFound,
    /// A mount operand is not a directory.
    InvalidMountTarget,
    /// The mount bridge refused to attach or detach; carries the OS error code.
    MountFailed(i32),
    /// Reading a directory tree failed part way; what was read stays applied.
    WalkFailed,
}

/// A success the orchestrator reports to its session.
#[derive(Debug, Clone)]
pub enum Notice {
    /// A bind of `source` onto `target` was applied.
    BindSuccess { source: String, target: String },
    /// `source` was mounted at `target`.
    MountSuccess { source: String, target: String },
    /// The mount at `path` was detached.
    UnmountSuccess { path: String },
}

/// Mathematical view of a [`Notice`].
pub enum NoticeView {
    BindSuccess { source: Seq<char>, target: Seq<char> },
    MountSuccess { source: Seq<char>, target: Seq<char> },
    UnmountSuccess { path: Seq<char> },
}

impl View for Notice {
    type V = NoticeView;

    open spec fn view(&self) -> NoticeView {
        match self {
            Notice::BindSuccess { source, target } => NoticeView::BindSuccess { source: source@, target: target@ },
            Notice::MountSuccess { source, target } => NoticeView::MountSuccess { source: source@, target: target@ },
            Notice::UnmountSuccess { path } => NoticeView::UnmountSuccess { path: path@ },
        }
    }
}

/// Views of a sequence of notices.
pub open spec fn notice_views(v: Seq<Notice>) -> Seq<NoticeView> {
    v.map_values(|n: Notice| n@)
}

/// The notices after reporting `n`: recorded only while a session is set.
pub open spec fn reported(notices: Seq<NoticeView>, session: Option<Seq<char>>, n: NoticeView) -> Seq<NoticeView> {
    if session is Some {
        notices.push(n)
    } else {
        notices
    }
}

/// Why a mount of `source` at `target` is refused, if it is.
pub open spec fn mount_refusal(source: PathProbe, target: PathProbe) -> Option<FsError> {
    if source.canonical is None {
        Some(FsError::PathNotFound)
    } else if !source.is_dir {
        Some(FsError::InvalidMountTarget)
    } else if target.canonical is None {
        Some(FsError::PathNotFound)
    } else if !target.is_dir {
        Some(FsError::InvalidMountTarget)
    } else {
        None
    }
}

/// Manages filesystem mounting and binding operations.
pub struct FilesystemManager {
    /// The protocol server whose inode table binds fill.
    pub fs: NineP,
    /// Identity of the session to notify, if one is set.
    pub session: Option<String>,
    /// Successes not yet handed to the session.
    pub notices: Vec<Notice>,
}

impl FilesystemManager {
    /// The inode table is well formed.
    pub open spec fn wf(&self) -> bool {
        self.fs.wf()
    }

    /// The namespace entries.
    pub open spec fn entries(&self) -> Seq<EntryView> {
        self.fs.namespace_manager.entries()
    }

    /// The inode table.
    pub open spec fn table(&self) -> TableView {
        self.fs.namespace_manager.bindings@
    }

    /// Pending notices.
    pub open spec fn pending(&self) -> Seq<NoticeView> {
        notice_views(self.notices@)
    }

    /// A manager over `fs`, with no session set.
    pub fn new(fs: NineP) -> (r: FilesystemManager)
        ensures
            r.fs == fs,
            r.session is None,
            r.pending() == Seq::<NoticeView>::empty(),
    {
        let r = FilesystemManager { fs, session: None, notices: Vec::new() };
        assert(r.pending() =~= Seq::<NoticeView>::empty());
        r
    }

    /// Records `n` for the session, if one is set.
    fn report(&mut self, n: Notice)
        ensures
            final(self).fs == old(self).fs,
            final(self).session == old(self).session,
            final(self).pending() == reported(old(self).pending(), text_view(old(self).session), n@),
    {
        if self.session.is_some() {
            self.notices.push(n);
            assert(self.pending() =~= old(self).pending().push(n@));
        }
    }

    /// Binds `source` onto `target` in `mode`. The paths come canonical,
    /// `None` where one does not exist; the walks are the source tree and,
    /// for Before and After, the target tree.
    ///
    /// A missing path changes nothing. Otherwise the entry is appended to
    /// the namespace and the walks are materialized; a failed walk leaves
    /// what was applied before it.
    pub fn bind(
        &mut self,
        source: Option<String>,
        target: Option<String>,
        mode: BindMode,
        source_walk: Walk,
        target_walk: Walk,
    ) -> (r: Result<(), FsError>)
        requires
            old(self).wf(),
            old(self).table().next + source_walk.entries@.len() + target_walk.entries@.len() <= u64::MAX,
        ensures
            final(self).wf(),
            final(self).session == old(self).session,
            final(self).fs.fid_paths() == old(self).fs.fid_paths(),
            source is None || target is None ==> {
                &&& r == Err::<(), FsError>(FsError::PathNotFound)
                &&& final(self).entries() == old(self).entries()
                &&& final(self).table() == old(self).table()
                &&& final(self).pending() == old(self).pending()
            },
            source is Some && target is Some ==> {
                let s = source.unwrap()@;
                let t = target.unwrap()@;
                let (table, ok) = materialized(
                    old(self).table(),
                    mode,
                    source_walk.items(),
                    source_walk.complete,
                    target_walk.items(),
                    target_walk.complete,
                );
                &&& final(self).entries() == old(self).entries().push(
                    EntryView { source: s, target: t, bind_mode: mode, remote_node: None },
                )
                &&& final(self).table() == table
                &&& ok ==> r == Ok::<(), FsError>(())
                    && final(self).pending() == reported(
                        old(self).pending(),
                        text_view(old(self).session),
                        NoticeView::BindSuccess { source: s, target: t },
                    )
                &&& !ok ==> r == Err::<(), FsError>(FsError::WalkFailed) && final(self).pending() == old(self).pending()
            },
    {
        let (s, t) = match (source, target) {
            (Some(s), Some(t)) => (s, t),
            _ => return Err(FsError::PathNotFound),
        };
        let entry = NamespaceEntry { source: s.clone(), target: t.clone(), bind_mode: mode, remote_node: None };
        self.fs.namespace_manager.add_entry(entry);
        let ok = self.fs.namespace_manager.bindings.materialize(mode, source_walk, target_walk);
        if !ok {
            return Err(FsError::WalkFailed);
        }
        self.report(Notice::BindSuccess { source: s, target: t });
        Ok(())
    }

    /// Checks the operands of a mount before the bridge is asked.
    pub fn check_mount(source: &PathProbe, target: &PathProbe) -> (r: Result<(), FsError>)
        ensures
            r == match mount_refusal(*source, *target) {
                Some(e) => Err::<(), FsError>(e),
                None => Ok(()),
            },
    {
        if source.canonical.is_none() {
            Err(FsError::PathNotFound)
        } else if !source.is_dir {
            Err(FsError::InvalidMountTarget)
        } else if target.canonical.is_none() {
            Err(FsError::PathNotFound)
        } else if !target.is_dir {
            Err(FsError::InvalidMountTarget)
        } else {
            Ok(())
        }
    }

    /// Records the mount of `source` at `target` for node `node_id`, given
    /// what the bridge answered (`attached`: the OS error code on refusal).
    /// The entry takes Before precedence and carries the node as its remote
    /// tag.
    pub fn mount(&mut self, source: &PathProbe, target: &PathProbe, node_id: &str, attached: Result<(), i32>) -> (r:
        Result<(), FsError>)
        ensures
            final(self).fs.namespace_manager.bindings == old(self).fs.namespace_manager.bindings,
            final(self).fs.fid_paths() == old(self).fs.fid_paths(),
            final(self).session == old(self).session,
            mount_refusal(*source, *target) is Some ==> r == Err::<(), FsError>(mount_refusal(*source, *target).unwrap()),
            mount_refusal(*source, *target) is None && attached is Err ==> r == Err::<(), FsError>(
                FsError::MountFailed(attached->Err_0),
            ),
            r is Err ==> final(self).entries() == old(self).entries() && final(self).pending() == old(self).pending(),
            mount_refusal(*source, *target) is None && attached is Ok ==> {
                let s = source.canonical.unwrap()@;
                let t = target.canonical.unwrap()@;
                &&& r == Ok::<(), FsError>(())
                &&& final(self).entries() == old(self).entries().push(
                    EntryView { source: s, target: t, bind_mode: BindMode::Before, remote_node: Some(node_id@) },
                )
                &&& final(self).pending() == reported(
                    old(self).pending(),
                    text_view(old(self).session),
                    NoticeView::MountSuccess { source: s, target: t },
                )
            },
    {
        match Self::check_mount(source, target) {
            Ok(()) => {},
            Err(e) => return Err(e),
        }
        if let Err(code) = attached {
            return Err(FsError::MountFailed(code));
        }
        let s = match &source.canonical {
            Some(s) => s.clone(),
            None => return Err(FsError::PathNotFound),
        };
        let t = match &target.canonical {
            Some(t) => t.clone(),
            None => return Err(FsError::PathNotFound),
        };
        let entry = NamespaceEntry {
            source: s.clone(),
            target: t.clone(),
            bind_mode: BindMode::Before,
            remote_node: Some(String::from_str(node_id)),
        };
        self.fs.namespace_manager.add_entry(entry);
        self.report(Notice::MountSuccess { source: s, target: t });
        Ok(())
    }

    /// Records the unmount of `path` (canonical, `None` where it does not
    /// exist) given what the bridge answered (`detached`: the OS error code
    /// on refusal): every entry targeting the path goes.
    pub fn unmount(&mut self, path: Option<String>, detached: Result<(), i32>) -> (r: Result<(), FsError>)
        ensures
            final(self).fs.namespace_manager.bindings == old(self).fs.namespace_manager.bindings,
            final(self).fs.fid_paths() == old(self).fs.fid_paths(),
            final(self).session == old(self).session,
            path is None ==> r == Err::<(), FsError>(FsError::PathNotFound),
            path is Some && detached is Err ==> r == Err::<(), FsError>(FsError::MountFailed(detached->Err_0)),
            r is Err ==> final(self).entries() == old(self).entries() && final(self).pending() == old(self).pending(),
            path is Some && detached is Ok ==> {
                &&& r == Ok::<(), FsError>(())
                &&& final(self).entries() == old(self).entries().filter(not_targeting(path.unwrap()@))
                &&& final(self).pending() == reported(
                    old(self).pending(),
                    text_view(old(self).session),
                    NoticeView::UnmountSuccess { path: path.unwrap()@ },
                )
            },
    {
        let p = match path {
            Some(p) => p,
            None => return Err(FsError::PathNotFound),
        };
        if let Err(code) = detached {
            return Err(FsError::MountFailed(code));
        }
        self.fs.namespace_manager.remove_target(&p);
        self.report(Notice::UnmountSuccess { path: p });
        Ok(())
    }

    /// Sets the session to notify of successes.
    pub fn set_current_session(&mut self, session: String)
        ensures
            final(self).session == Some(session),
            final(self).fs == old(self).fs,
            final(self).notices == old(self).notices,
    {
        self.session = Some(session);
    }

    /// The session notified of successes, if one is set.
    pub fn get_current_session(&self) -> (r: Option<String>)
        ensures
            text_view(r) == text_view(self.session),
    {
        crate::namespace::copy_text(&self.session)
    }

    /// The session notified of successes, if one is set.
    pub fn get_session(&self) -> (r: Option<String>)
        ensures
            text_view(r) == text_view(self.session),
    {
        self.get_current_session()
    }

    /// Hands over the pending notices, oldest first.
    pub fn take_notices(&mut self) -> (r: Vec<Notice>)
        ensures
            notice_views(r@) == old(self).pending(),
            final(self).pending() == Seq::<NoticeView>::empty(),
            final(self).fs == old(self).fs,
            final(self).session == old(self).session,
    {
        let mut r: Vec<Notice> = Vec::new();
        r.append(&mut self.notices);
        assert(r@ =~= old(self).notices@);
        assert(self.pending() =~= Seq::<NoticeView>::empty());
        r
    }
}

} // verus!
