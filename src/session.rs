//! Sessions: the state a session daemon keeps and persists, the actor that
//! serializes its requests through one queue, and the session manager's
//! decisions over the records it finds.
//!
//! The actor is a state machine: requests and successes enter its queue in
//! order, and handling a message either mutates the session state (the only
//! place that does) or names the work the daemon must perform.
use vstd::prelude::*;

use crate::mount::{mount_refusal, FilesystemManager, FsError, Notice, NoticeView, PathProbe};
use crate::namespace::{not_targeting, text_view, BindMode, EntryView};
use crate::proto::NineP;
use crate::table::{materialized, Walk};

verus! {

/// A (source, target) pair of paths.
pub type PathPair = (String, String);

/// View of a sequence of path pairs.
pub open spec fn pair_views(v: Seq<PathPair>) -> Seq<(Seq<char>, Seq<char>)> {
    v.map_values(|p: PathPair| (p.0@, p.1@))
}

/// Holds of a pair whose target is not `t`.
pub open spec fn target_not(t: Seq<char>) -> spec_fn((Seq<char>, Seq<char>)) -> bool {
    |p: (Seq<char>, Seq<char>)| p.1 != t
}

/// Copies a sequence of path pairs.
pub fn copy_pairs(v: &Vec<PathPair>) -> (r: Vec<PathPair>)
    ensures
        pair_views(r@) == pair_views(v@),
{
    let mut out: Vec<PathPair> = Vec::new();
    let mut i: usize = 0;
    while i < v.len()
        invariant
            i <= v@.len(),
            pair_views(out@) == pair_views(v@).take(i as int),
        decreases v@.len() - i,
    {
        let ghost prev = out@;
        let p = (v[i].0.clone(), v[i].1.clone());
        out.push(p);
        assert(pair_views(out@) =~= pair_views(prev).push((v@[i as int].0@, v@[i as int].1@)));
        assert(pair_views(v@).take(i + 1) =~= pair_views(v@).take(i as int).push(pair_views(v@)[i as int]));
        i += 1;
    }
    assert(pair_views(v@).take(i as int) =~= pair_views(v@));
    out
}

/// The pairs of `v` whose target is not `t`.
fn drop_target(v: Vec<PathPair>, t: &String) -> (r: Vec<PathPair>)
    ensures
        pair_views(r@) == pair_views(v@).filter(target_not(t@)),
{
    let ghost s = pair_views(v@);
    let ghost p = target_not(t@);
    let mut v = v;
    let mut out: Vec<PathPair> = Vec::new();
    let n = v.len();
    let mut i: usize = 0;
    while i < n
        invariant
            n == s.len(),
            i <= n,
            v@.len() == n - i,
            p == target_not(t@),
            forall|k: int| 0 <= k < v@.len() ==> (#[trigger] v@[k].0@, v@[k].1@) == s[i + k],
            pair_views(out@) == s.take(i as int).filter(p),
        decreases n - i,
    {
        proof {
            crate::table::lemma_filter_step(s, p, i as int);
        }
        assert((v@[0].0@, v@[0].1@) == s[i as int]);
        let ghost prev = v@;
        let e = v.remove(0);
        if e.1 != *t {
            let ghost before = out@;
            out.push(e);
            assert(pair_views(out@) =~= pair_views(before).push(s[i as int]));
        }
        i += 1;
        assert forall|k: int| 0 <= k < v@.len() implies (#[trigger] v@[k].0@, v@[k].1@) == s[i + k] by {
            assert(v@[k] == prev[k + 1]);
        }
    }
    assert(s.take(n as int) =~= s);
    out
}

/// Information about a running session, as persisted.
#[derive(Debug, Clone)]
pub struct SessionInfo {
    /// Unique identifier of the session.
    pub id: String,
    /// Process id of the session daemon.
    pub pid: i32,
    /// Root directory of the session.
    pub root: String,
    /// Active mounts (source, target).
    pub mounts: Vec<PathPair>,
    /// Active binds (source, target).
    pub binds: Vec<PathPair>,
}

/// The in-memory state of a session.
#[derive(Debug, Clone)]
pub struct SessionState {
    /// Unique identifier of the session.
    pub id: String,
    /// Root directory of the session.
    pub root: String,
    /// Active mounts (source, target), at most one per target.
    pub mounts: Vec<PathPair>,
    /// Binds (source, target) in the order they were applied.
    pub binds: Vec<PathPair>,
}

/// Mathematical view of a [`SessionState`].
pub struct StateView {
    pub id: Seq<char>,
    pub root: Seq<char>,
    pub mounts: Seq<(Seq<char>, Seq<char>)>,
    pub binds: Seq<(Seq<char>, Seq<char>)>,
}

impl View for SessionState {
    type V = StateView;

    open spec fn view(&self) -> StateView {
        StateView { id: self.id@, root: self.root@, mounts: pair_views(self.mounts@), binds: pair_views(self.binds@) }
    }
}

/// The state after recording a mount of `s` at `t`: it replaces any mount at `t`.
pub open spec fn with_mount(st: StateView, s: Seq<char>, t: Seq<char>) -> StateView {
    StateView { mounts: st.mounts.filter(target_not(t)).push((s, t)), ..st }
}

/// The state after the mount at `t` went away.
pub open spec fn without_mount(st: StateView, t: Seq<char>) -> StateView {
    StateView { mounts: st.mounts.filter(target_not(t)), ..st }
}

/// The state after recording a bind of `s` onto `t`.
pub open spec fn with_bind(st: StateView, s: Seq<char>, t: Seq<char>) -> StateView {
    StateView { binds: st.binds.push((s, t)), ..st }
}

impl SessionState {
    /// A fresh state for session `id` rooted at `root`.
    pub fn load(root: String, id: String) -> (r: SessionState)
        ensures
            r@.id == id@,
            r@.root == root@,
            r@.mounts == Seq::<(Seq<char>, Seq<char>)>::empty(),
            r@.binds == Seq::<(Seq<char>, Seq<char>)>::empty(),
    {
        let r = SessionState { id, root, mounts: Vec::new(), binds: Vec::new() };
        assert(r@.mounts =~= Seq::<(Seq<char>, Seq<char>)>::empty());
        assert(r@.binds =~= Seq::<(Seq<char>, Seq<char>)>::empty());
        r
    }

    /// Records a mount of `source` at `target`, replacing any mount there.
    pub fn add_mount(&mut self, source: String, target: String)
        ensures
            final(self)@ == with_mount(old(self)@, source@, target@),
    {
        let mut mounts: Vec<PathPair> = Vec::new();
        mounts.append(&mut self.mounts);
        assert(mounts@ == old(self).mounts@);
        let mut kept = drop_target(mounts, &target);
        let ghost before = kept@;
        kept.push((source, target));
        assert(pair_views(kept@) =~= pair_views(before).push((source@, target@)));
        self.mounts = kept;
    }

    /// Forgets the mount at `path`.
    pub fn remove_mount(&mut self, path: &String)
        ensures
            final(self)@ == without_mount(old(self)@, path@),
    {
        let mut mounts: Vec<PathPair> = Vec::new();
        mounts.append(&mut self.mounts);
        assert(mounts@ == old(self).mounts@);
        self.mounts = drop_target(mounts, path);
    }

    /// Records a bind of `source` onto `target`.
    pub fn add_bind(&mut self, source: String, target: String)
        ensures
            final(self)@ == with_bind(old(self)@, source@, target@),
    {
        let ghost before = self.binds@;
        self.binds.push((source, target));
        assert(pair_views(self.binds@) =~= pair_views(before).push((source@, target@)));
    }

    /// The persisted record of this state for daemon process `pid`.
    pub fn info(&self, pid: i32) -> (r: SessionInfo)
        ensures
            r.id@ == self.id@,
            r.pid == pid,
            r.root@ == self.root@,
            pair_views(r.mounts@) == self@.mounts,
            pair_views(r.binds@) == self@.binds,
    {
        SessionInfo {
            id: self.id.clone(),
            pid,
            root: self.root.clone(),
            mounts: copy_pairs(&self.mounts),
            binds: copy_pairs(&self.binds),
        }
    }
}

/// A command sent to a session daemon from another process.
#[derive(Debug, Clone)]
pub enum SessionCommand {
    /// Bind `source` onto `target` in `mode`.
    Bind { source: String, target: String, mode: BindMode },
    /// Mount `source` at `target` for node `node_id`.
    Mount { source: String, target: String, node_id: String },
}

/// A message in a session's queue.
#[derive(Debug)]
pub enum SessionMessage {
    /// A request to mount.
    Mount { source: String, target: String, node_id: String },
    /// A mount was applied.
    MountSuccess { source: String, target: String },
    /// A request to bind.
    Bind { source: String, target: String, mode: BindMode },
    /// A bind was applied.
    BindSuccess { source: String, target: String },
    /// A request to unmount.
    Unmount { path: String },
    /// An unmount was applied.
    UnmountSuccess { path: String },
    /// Stop handling messages.
    Shutdown,
}

/// Mathematical view of a [`SessionMessage`].
pub enum MessageView {
    Mount { source: Seq<char>, target: Seq<char>, node_id: Seq<char> },
    MountSuccess { source: Seq<char>, target: Seq<char> },
    Bind { source: Seq<char>, target: Seq<char>, mode: BindMode },
    BindSuccess { source: Seq<char>, target: Seq<char> },
    Unmount { path: Seq<char> },
    UnmountSuccess { path: Seq<char> },
    Shutdown,
}

impl View for SessionMessage {
    type V = MessageView;

    open spec fn view(&self) -> MessageView {
        match self {
            SessionMessage::Mount { source, target, node_id } => MessageView::Mount {
                source: source@,
                target: target@,
                node_id: node_id@,
            },
            SessionMessage::MountSuccess { source, target } => MessageView::MountSuccess {
                source: source@,
                target: target@,
            },
            SessionMessage::Bind { source, target, mode } => MessageView::Bind {
                source: source@,
                target: target@,
                mode: *mode,
            },
            SessionMessage::BindSuccess { source, target } => MessageView::BindSuccess {
                source: source@,
                target: target@,
            },
            SessionMessage::Unmount { path } => MessageView::Unmount { path: path@ },
            SessionMessage::UnmountSuccess { path } => MessageView::UnmountSuccess { path: path@ },
            SessionMessage::Shutdown => MessageView::Shutdown,
        }
    }
}

/// The request message a command stands for.
pub open spec fn request_of(c: SessionCommand) -> MessageView {
    match c {
        SessionCommand::Bind { source, target, mode } => MessageView::Bind {
            source: source@,
            target: target@,
            mode,
        },
        SessionCommand::Mount { source, target, node_id } => MessageView::Mount {
            source: source@,
            target: target@,
            node_id: node_id@,
        },
    }
}

/// The success message a notice view stands for.
pub open spec fn success_view(n: NoticeView) -> MessageView {
    match n {
        NoticeView::BindSuccess { source, target } => MessageView::BindSuccess { source, target },
        NoticeView::MountSuccess { source, target } => MessageView::MountSuccess { source, target },
        NoticeView::UnmountSuccess { path } => MessageView::UnmountSuccess { path },
    }
}

/// The success message a notice stands for.
pub open spec fn success_of(n: Notice) -> MessageView {
    match n {
        Notice::BindSuccess { source, target } => MessageView::BindSuccess { source: source@, target: target@ },
        Notice::MountSuccess { source, target } => MessageView::MountSuccess { source: source@, target: target@ },
        Notice::UnmountSuccess { path } => MessageView::UnmountSuccess { path: path@ },
    }
}

/// Lifecycle of a session daemon.
#[derive(Debug, Clone, Copy, PartialEq, Eq, Structural)]
pub enum Phase {
    /// Accepting and handling messages.
    Running,
    /// A shutdown is queued; nothing more is accepted.
    ShuttingDown,
    /// The shutdown was handled.
    Stopped,
}

/// Why a session operation failed.
#[derive(Debug, Clone, Copy, PartialEq, Eq, Structural)]
pub enum SessionError {
    /// The session no longer accepts messages.
    Closed,
    /// No session has the given id.
    SessionNotFound,
    /// The daemon process could not be started.
    ForkOrSpawnFailed,
    /// A command read from the pipe was malformed.
    IpcParseError,
    /// A lock was poisoned by a panic elsewhere.
    LockUnavailable,
}

/// What the daemon must do after handling a message.
#[derive(Debug)]
pub enum SessionAction {
    /// Mount `source` at `target` for `node_id`.
    Mount { source: String, target: String, node_id: String },
    /// Bind `source` onto `target` in `mode`.
    Bind { source: String, target: String, mode: BindMode },
    /// Unmount `path`.
    Unmount { path: String },
    /// Write this record to the session's file.
    Persist(SessionInfo),
    /// Stop the worker and delete the session's file.
    Stop,
}

/// A session: its orchestrator, its state, its lifecycle phase and its
/// queue of messages.
pub struct Session {
    /// The orchestrator whose successes this session records.
    pub fs_manager: FilesystemManager,
    /// The session state; only message handling changes it.
    pub state: SessionState,
    /// Lifecycle phase.
    pub phase: Phase,
    /// Messages not yet handled, oldest first.
    pub inbox: Vec<SessionMessage>,
}

/// Mathematical view of a [`Session`].
pub struct SessionView {
    pub state: StateView,
    pub phase: Phase,
    pub inbox: Seq<MessageView>,
}

impl View for Session {
    type V = SessionView;

    open spec fn view(&self) -> SessionView {
        SessionView { state: self.state@, phase: self.phase, inbox: self.inbox@.map_values(|m: SessionMessage| m@) }
    }
}

/// Whether `a` is what handling `m` asks of the daemon with process id
/// `pid`, the state being `st` afterwards.
pub open spec fn answers(a: SessionAction, m: MessageView, st: StateView, pid: i32) -> bool {
    match m {
        MessageView::Mount { source, target, node_id } => a matches SessionAction::Mount {
            source: s,
            target: t,
            node_id: n,
        } && s@ == source && t@ == target && n@ == node_id,
        MessageView::Bind { source, target, mode } => a matches SessionAction::Bind {
            source: s,
            target: t,
            mode: md,
        } && s@ == source && t@ == target && md == mode,
        MessageView::Unmount { path } => a matches SessionAction::Unmount { path: p } && p@ == path,
        MessageView::Shutdown => a is Stop,
        _ => a matches SessionAction::Persist(info) && info.pid == pid && info.id@ == st.id && info.root@ == st.root
            && pair_views(info.mounts@) == st.mounts && pair_views(info.binds@) == st.binds,
    }
}

/// The session after its oldest message was taken and handled.
pub open spec fn stepped(s: SessionView) -> SessionView {
    let m = s.inbox[0];
    SessionView {
        state: handled(s.state, m),
        phase: if m is Shutdown {
            Phase::Stopped
        } else {
            s.phase
        },
        inbox: s.inbox.drop_first(),
    }
}

/// Whether a session in `phase` accepts messages.
pub open spec fn accepts(phase: Phase) -> bool {
    phase == Phase::Running
}

/// The session after offering it `m`, and whether it was accepted.
pub open spec fn enqueued(s: SessionView, m: MessageView) -> (SessionView, bool) {
    if accepts(s.phase) {
        (SessionView { inbox: s.inbox.push(m), ..s }, true)
    } else {
        (s, false)
    }
}

/// The session state after handling `m`.
pub open spec fn handled(st: StateView, m: MessageView) -> StateView {
    match m {
        MessageView::BindSuccess { source, target } => with_bind(st, source, target),
        MessageView::MountSuccess { source, target } => with_mount(st, source, target),
        MessageView::UnmountSuccess { path } => without_mount(st, path),
        _ => st,
    }
}

impl Session {
    /// The orchestrator is well formed, reports to this session, and holds
    /// no success that the queue has not received.
    pub open spec fn wf(&self) -> bool {
        &&& self.fs_manager.wf()
        &&& text_view(self.fs_manager.session) == Some(self.state@.id)
        &&& self.fs_manager.pending().len() == 0
    }

    /// Starts session `session_id` rooted at `root`: an orchestrator over a
    /// fresh namespace, with this session registered as the one it reports
    /// to, and an empty queue that accepts messages.
    pub fn new(root: String, session_id: String) -> (r: Session)
        ensures
            r.wf(),
            r@.state.id == session_id@,
            r@.state.root == root@,
            r@.state.mounts.len() == 0,
            r@.state.binds.len() == 0,
            r@.phase == Phase::Running,
            r@.inbox == Seq::<MessageView>::empty(),
            r.fs_manager.entries().len() == 0,
            r.fs_manager.table().entries == seq![crate::table::root_binding()],
            r.fs_manager.fs.namespace_manager.root@ == root@,
    {
        let mut fs_manager = FilesystemManager::new(NineP::new(root.clone()));
        fs_manager.set_current_session(session_id.clone());
        let r = Session {
            fs_manager,
            state: SessionState::load(root, session_id),
            phase: Phase::Running,
            inbox: Vec::new(),
        };
        assert(r@.inbox =~= Seq::<MessageView>::empty());
        r
    }

    /// Queues the successes the orchestrator reported, oldest first.
    fn forward_notices(&mut self)
        requires
            old(self).fs_manager.session is Some,
        ensures
            final(self).fs_manager.fs == old(self).fs_manager.fs,
            final(self).fs_manager.session == old(self).fs_manager.session,
            final(self).fs_manager.pending().len() == 0,
            final(self)@.state == old(self)@.state,
            final(self)@.phase == old(self)@.phase,
            final(self)@.inbox == (if accepts(old(self)@.phase) {
                old(self)@.inbox + old(self).fs_manager.pending().map_values(|n: NoticeView| success_view(n))
            } else {
                old(self)@.inbox
            }),
    {
        let ghost ns = self.fs_manager.pending().map_values(|n: NoticeView| success_view(n));
        let ghost start = self@.inbox;
        let mut notices = self.fs_manager.take_notices();
        let n = notices.len();
        let mut i: usize = 0;
        while i < n
            invariant
                i <= n == ns.len(),
                notices@.len() == n - i,
                forall|k: int| 0 <= k < notices@.len() ==> success_view(#[trigger] notices@[k]@) == ns[i + k],
                self@.state == old(self)@.state,
                self@.phase == old(self)@.phase,
                self.fs_manager.fs == old(self).fs_manager.fs,
                self.fs_manager.session == old(self).fs_manager.session,
                self.fs_manager.pending().len() == 0,
                self@.inbox == (if accepts(old(self)@.phase) { start + ns.take(i as int) } else { start }),
            decreases n - i,
        {
            let ghost prev = notices@;
            let notice = notices.remove(0);
            assert(success_view(notice@) == ns[i as int]);
            let _ = self.notify(notice);
            proof {
                if accepts(old(self)@.phase) {
                    assert(ns.take(i + 1) =~= ns.take(i as int).push(ns[i as int]));
                }
            }
            i += 1;
            assert forall|k: int| 0 <= k < notices@.len() implies success_view(#[trigger] notices@[k]@) == ns[i + k] by {
                assert(notices@[k] == prev[k + 1]);
            }
        }
        assert(ns.take(n as int) =~= ns);
    }

    /// Applies a bind through the orchestrator (see `FilesystemManager::bind`)
    /// and queues its success.
    pub fn apply_bind(
        &mut self,
        source: Option<String>,
        target: Option<String>,
        mode: BindMode,
        source_walk: Walk,
        target_walk: Walk,
    ) -> (r: Result<(), FsError>)
        requires
            old(self).wf(),
            old(self).fs_manager.table().next + source_walk.entries@.len() + target_walk.entries@.len() <= u64::MAX,
        ensures
            final(self).wf(),
            final(self)@.state == old(self)@.state,
            final(self)@.phase == old(self)@.phase,
            source is None || target is None ==> r == Err::<(), FsError>(FsError::PathNotFound) && final(self)
                .fs_manager.table() == old(self).fs_manager.table() && final(self).fs_manager.entries() == old(
                self,
            ).fs_manager.entries() && final(self)@.inbox == old(self)@.inbox,
            source is Some && target is Some ==> {
                let s = source.unwrap()@;
                let t = target.unwrap()@;
                let (table, ok) = materialized(
                    old(self).fs_manager.table(),
                    mode,
                    source_walk.items(),
                    source_walk.complete,
                    target_walk.items(),
                    target_walk.complete,
                );
                &&& final(self).fs_manager.entries() == old(self).fs_manager.entries().push(
                    EntryView { source: s, target: t, bind_mode: mode, remote_node: None },
                )
                &&& final(self).fs_manager.table() == table
                &&& ok ==> r == Ok::<(), FsError>(()) && final(self)@.inbox == enqueued(
                    old(self)@,
                    MessageView::BindSuccess { source: s, target: t },
                ).0.inbox
                &&& !ok ==> r == Err::<(), FsError>(FsError::WalkFailed) && final(self)@.inbox == old(self)@.inbox
            },
    {
        let r = self.fs_manager.bind(source, target, mode, source_walk, target_walk);
        let ghost mid = self.fs_manager.pending();
        self.forward_notices();
        proof {
            if r is Ok {
                assert(mid.map_values(|n: NoticeView| success_view(n)) =~= seq![
                    success_view(mid[0]),
                ]);
            } else {
                assert(mid.map_values(|n: NoticeView| success_view(n)) =~= Seq::<MessageView>::empty());
            }
        }
        r
    }

    /// Records a mount through the orchestrator (see
    /// `FilesystemManager::mount`) and queues its success.
    pub fn apply_mount(&mut self, source: &PathProbe, target: &PathProbe, node_id: &str, attached: Result<(), i32>) -> (r:
        Result<(), FsError>)
        requires
            old(self).wf(),
        ensures
            final(self).wf(),
            final(self)@.state == old(self)@.state,
            final(self)@.phase == old(self)@.phase,
            final(self).fs_manager.table() == old(self).fs_manager.table(),
            mount_refusal(*source, *target) is Some ==> r == Err::<(), FsError>(mount_refusal(*source, *target).unwrap()),
            mount_refusal(*source, *target) is None && attached is Err ==> r == Err::<(), FsError>(
                FsError::MountFailed(attached->Err_0),
            ),
            r is Err ==> final(self).fs_manager.entries() == old(self).fs_manager.entries() && final(self)@.inbox == old(
                self,
            )@.inbox,
            mount_refusal(*source, *target) is None && attached is Ok ==> {
                let s = source.canonical.unwrap()@;
                let t = target.canonical.unwrap()@;
                &&& r == Ok::<(), FsError>(())
                &&& final(self).fs_manager.entries() == old(self).fs_manager.entries().push(
                    EntryView { source: s, target: t, bind_mode: BindMode::Before, remote_node: Some(node_id@) },
                )
                &&& final(self)@.inbox == enqueued(old(self)@, MessageView::MountSuccess { source: s, target: t }).0.inbox
            },
    {
        let r = self.fs_manager.mount(source, target, node_id, attached);
        let ghost mid = self.fs_manager.pending();
        self.forward_notices();
        proof {
            if r is Ok {
                assert(mid.map_values(|n: NoticeView| success_view(n)) =~= seq![success_view(mid[0])]);
            } else {
                assert(mid.map_values(|n: NoticeView| success_view(n)) =~= Seq::<MessageView>::empty());
            }
        }
        r
    }

    /// Records an unmount through the orchestrator (see
    /// `FilesystemManager::unmount`) and queues its success.
    pub fn apply_unmount(&mut self, path: Option<String>, detached: Result<(), i32>) -> (r: Result<(), FsError>)
        requires
            old(self).wf(),
        ensures
            final(self).wf(),
            final(self)@.state == old(self)@.state,
            final(self)@.phase == old(self)@.phase,
            final(self).fs_manager.table() == old(self).fs_manager.table(),
            path is None ==> r == Err::<(), FsError>(FsError::PathNotFound),
            path is Some && detached is Err ==> r == Err::<(), FsError>(FsError::MountFailed(detached->Err_0)),
            r is Err ==> final(self).fs_manager.entries() == old(self).fs_manager.entries() && final(self)@.inbox == old(
                self,
            )@.inbox,
            path is Some && detached is Ok ==> {
                &&& r == Ok::<(), FsError>(())
                &&& final(self).fs_manager.entries() == old(self).fs_manager.entries().filter(
                    not_targeting(path.unwrap()@),
                )
                &&& final(self)@.inbox == enqueued(old(self)@, MessageView::UnmountSuccess { path: path.unwrap()@ }).0.inbox
            },
    {
        let ghost p = path;
        let r = self.fs_manager.unmount(path, detached);
        let ghost mid = self.fs_manager.pending();
        self.forward_notices();
        proof {
            if r is Ok {
                assert(mid.map_values(|n: NoticeView| success_view(n)) =~= seq![success_view(mid[0])]);
            } else {
                assert(mid.map_values(|n: NoticeView| success_view(n)) =~= Seq::<MessageView>::empty());
            }
        }
        r
    }

    /// Offers `m` to the queue.
    fn offer(&mut self, m: SessionMessage) -> (r: Result<(), SessionError>)
        ensures
            final(self).fs_manager == old(self).fs_manager,
            (final(self)@, r is Ok) == enqueued(old(self)@, m@),
            r is Err ==> r == Err::<(), SessionError>(SessionError::Closed),
    {
        if self.phase == Phase::Running {
            let ghost before = self.inbox@;
            self.inbox.push(m);
            assert(self@.inbox =~= old(self)@.inbox.push(m@));
            Ok(())
        } else {
            Err(SessionError::Closed)
        }
    }

    /// Queues a request to bind `source` onto `target` in `mode`.
    pub fn bind(&mut self, source: String, target: String, mode: BindMode) -> (r: Result<(), SessionError>)
        ensures
            final(self).fs_manager == old(self).fs_manager,
            (final(self)@, r is Ok) == enqueued(
                old(self)@,
                MessageView::Bind { source: source@, target: target@, mode },
            ),
            r is Err ==> r == Err::<(), SessionError>(SessionError::Closed),
    {
        self.offer(SessionMessage::Bind { source, target, mode })
    }

    /// Queues a request to unmount `path`.
    pub fn unmount(&mut self, path: String) -> (r: Result<(), SessionError>)
        ensures
            final(self).fs_manager == old(self).fs_manager,
            (final(self)@, r is Ok) == enqueued(old(self)@, MessageView::Unmount { path: path@ }),
            r is Err ==> r == Err::<(), SessionError>(SessionError::Closed),
    {
        self.offer(SessionMessage::Unmount { path })
    }

    /// Queues a request to mount `source` at `target` for `node_id`.
    pub fn mount(&mut self, source: String, target: String, node_id: String) -> (r: Result<(), SessionError>)
        ensures
            final(self).fs_manager == old(self).fs_manager,
            (final(self)@, r is Ok) == enqueued(
                old(self)@,
                MessageView::Mount { source: source@, target: target@, node_id: node_id@ },
            ),
            r is Err ==> r == Err::<(), SessionError>(SessionError::Closed),
    {
        self.offer(SessionMessage::Mount { source, target, node_id })
    }

    /// Queues the request that a command from another process stands for.
    pub fn submit(&mut self, command: SessionCommand) -> (r: Result<(), SessionError>)
        ensures
            final(self).fs_manager == old(self).fs_manager,
            (final(self)@, r is Ok) == enqueued(old(self)@, request_of(command)),
            r is Err ==> r == Err::<(), SessionError>(SessionError::Closed),
    {
        match command {
            SessionCommand::Bind { source, target, mode } => self.offer(SessionMessage::Bind { source, target, mode }),
            SessionCommand::Mount { source, target, node_id } => self.offer(
                SessionMessage::Mount { source, target, node_id },
            ),
        }
    }

    /// Queues the success that the orchestrator reported.
    pub fn notify(&mut self, notice: Notice) -> (r: Result<(), SessionError>)
        ensures
            final(self).fs_manager == old(self).fs_manager,
            (final(self)@, r is Ok) == enqueued(old(self)@, success_of(notice)),
            r is Err ==> r == Err::<(), SessionError>(SessionError::Closed),
    {
        match notice {
            Notice::BindSuccess { source, target } => self.offer(SessionMessage::BindSuccess { source, target }),
            Notice::MountSuccess { source, target } => self.offer(SessionMessage::MountSuccess { source, target }),
            Notice::UnmountSuccess { path } => self.offer(SessionMessage::UnmountSuccess { path }),
        }
    }

    /// Queues the news that `source` was bound onto `target`.
    pub fn notify_bind_success(&mut self, source: String, target: String) -> (r: Result<(), SessionError>)
        ensures
            final(self).fs_manager == old(self).fs_manager,
            (final(self)@, r is Ok) == enqueued(
                old(self)@,
                MessageView::BindSuccess { source: source@, target: target@ },
            ),
            r is Err ==> r == Err::<(), SessionError>(SessionError::Closed),
    {
        self.offer(SessionMessage::BindSuccess { source, target })
    }

    /// Queues the news that `source` was mounted at `target`.
    pub fn notify_mount_success(&mut self, source: String, target: String) -> (r: Result<(), SessionError>)
        ensures
            final(self).fs_manager == old(self).fs_manager,
            (final(self)@, r is Ok) == enqueued(
                old(self)@,
                MessageView::MountSuccess { source: source@, target: target@ },
            ),
            r is Err ==> r == Err::<(), SessionError>(SessionError::Closed),
    {
        self.offer(SessionMessage::MountSuccess { source, target })
    }

    /// Queues a shutdown; nothing is accepted after it.
    pub fn shutdown(&mut self) -> (r: Result<(), SessionError>)
        ensures
            final(self).fs_manager == old(self).fs_manager,
            accepts(old(self)@.phase) ==> (r is Ok) && final(self)@ == (SessionView {
                phase: Phase::ShuttingDown,
                inbox: old(self)@.inbox.push(MessageView::Shutdown),
                ..old(self)@
            }),
            !accepts(old(self)@.phase) ==> (r == Err::<(), SessionError>(SessionError::Closed)) && (final(self)@
                == old(self)@),
    {
        let r = self.offer(SessionMessage::Shutdown);
        if r.is_ok() {
            self.phase = Phase::ShuttingDown;
        }
        r
    }

    /// Takes the oldest queued message.
    pub fn next_message(&mut self) -> (r: Option<SessionMessage>)
        ensures
            final(self).fs_manager == old(self).fs_manager,
            old(self)@.inbox.len() == 0 ==> (r is None) && (final(self)@ == old(self)@),
            old(self)@.inbox.len() > 0 ==> (r is Some) && (r.unwrap()@ == old(self)@.inbox[0]) && (final(self)@
                == (SessionView { inbox: old(self)@.inbox.drop_first(), ..old(self)@ })),
    {
        if self.inbox.len() == 0 {
            return None;
        }
        let m = self.inbox.remove(0);
        assert(self@.inbox =~= old(self)@.inbox.drop_first());
        Some(m)
    }

    /// Handles one message as the daemon with process id `pid`: a request
    /// becomes the work to perform; a success updates the state and asks for
    /// the record to be persisted; a shutdown stops the session.
    pub fn handle(&mut self, message: SessionMessage, pid: i32) -> (r: SessionAction)
        ensures
            final(self).fs_manager == old(self).fs_manager,
            final(self)@.inbox == old(self)@.inbox,
            final(self)@.state == handled(old(self)@.state, message@),
            final(self)@.phase == (if message@ is Shutdown {
                Phase::Stopped
            } else {
                old(self)@.phase
            }),
            answers(r, message@, final(self)@.state, pid),
    {
        match message {
            SessionMessage::Mount { source, target, node_id } => SessionAction::Mount { source, target, node_id },
            SessionMessage::Bind { source, target, mode } => SessionAction::Bind { source, target, mode },
            SessionMessage::Unmount { path } => SessionAction::Unmount { path },
            SessionMessage::BindSuccess { source, target } => {
                self.state.add_bind(source, target);
                SessionAction::Persist(self.state.info(pid))
            },
            SessionMessage::MountSuccess { source, target } => {
                self.state.add_mount(source, target);
                SessionAction::Persist(self.state.info(pid))
            },
            SessionMessage::UnmountSuccess { path } => {
                self.state.remove_mount(&path);
                SessionAction::Persist(self.state.info(pid))
            },
            SessionMessage::Shutdown => {
                self.phase = Phase::Stopped;
                SessionAction::Stop
            },
        }
    }

    /// Takes the oldest queued message and handles it as the daemon with
    /// process id `pid`; nothing when the queue is empty.
    pub fn step(&mut self, pid: i32) -> (r: Option<SessionAction>)
        ensures
            final(self).fs_manager == old(self).fs_manager,
            old(self)@.inbox.len() == 0 ==> (r is None) && (final(self)@ == old(self)@),
            old(self)@.inbox.len() > 0 ==> (r is Some) && (final(self)@ == stepped(old(self)@)) && answers(
                r.unwrap(),
                old(self)@.inbox[0],
                final(self)@.state,
                pid,
            ),
    {
        match self.next_message() {
            Some(m) => Some(self.handle(m, pid)),
            None => None,
        }
    }

    /// The most recent bind.
    pub fn get_current_bind(&self) -> (r: Option<PathPair>)
        ensures
            self@.state.binds.len() == 0 ==> r is None,
            self@.state.binds.len() > 0 ==> r is Some && (r.unwrap().0@, r.unwrap().1@) == self@.state.binds.last(),
    {
        let n = self.state.binds.len();
        if n == 0 {
            None
        } else {
            let last = &self.state.binds[n - 1];
            Some((last.0.clone(), last.1.clone()))
        }
    }
}

/// Whether `c` is a lower-case hexadecimal digit.
pub open spec fn is_lower_hex(c: char) -> bool {
    ('0' <= c && c <= '9') || ('a' <= c && c <= 'f')
}

/// Whether `s` is a UUID in hyphenated lower-case form.
pub open spec fn is_hyphenated_uuid(s: Seq<char>) -> bool {
    &&& s.len() == 36
    &&& forall|i: int|
        0 <= i < 36 ==> if i == 8 || i == 13 || i == 18 || i == 23 {
            #[trigger] s[i] == '-'
        } else {
            is_lower_hex(s[i])
        }
}

/// Relies on uuid::Uuid::new_v4 and the Display of uuid::Uuid: a random
/// version 4 UUID, written hyphenated in lower case.
#[verifier::external_body]
fn new_session_id() -> (r: String)
    ensures
        is_hyphenated_uuid(r@),
{
    uuid::Uuid::new_v4().to_string()
}

/// What creating a session for a root comes to.
#[derive(Debug)]
pub enum SessionPlan {
    /// A live session already serves the root; the records of `stale`
    /// sessions for the root met before it, whose daemons are gone, are to
    /// be deleted.
    Reuse { id: String, stale: Vec<String> },
    /// Start a daemon under a fresh id; the records of `stale` sessions for
    /// the same root, whose daemons are gone, are to be deleted.
    Spawn { id: String, stale: Vec<String> },
}

/// Index of the first record for `root` whose daemon is alive, or -1.
pub open spec fn first_live(records: Seq<SessionInfo>, alive: Seq<bool>, root: Seq<char>) -> int
    decreases records.len(),
{
    if records.len() == 0 {
        -1
    } else {
        let f = first_live(records.drop_last(), alive.drop_last(), root);
        if f >= 0 {
            f
        } else if records.last().root@ == root && alive.last() {
            records.len() - 1
        } else {
            -1
        }
    }
}

/// Ids of the records for `root`, before index `end`, whose daemons are gone.
pub open spec fn stale_ids(records: Seq<SessionInfo>, alive: Seq<bool>, root: Seq<char>, end: int) -> Seq<Seq<char>>
    decreases end,
{
    if end <= 0 {
        Seq::empty()
    } else {
        let rest = stale_ids(records, alive, root, end - 1);
        if records[end - 1].root@ == root && !alive[end - 1] {
            rest.push(records[end - 1].id@)
        } else {
            rest
        }
    }
}

/// Process-level registry of sessions: where their records and pipes live.
pub struct SessionManager {
    /// Directory holding one record file and one pipe per session.
    pub sessions_dir: String,
}

impl SessionManager {
    /// A manager over the default sessions directory.
    pub fn new() -> (r: SessionManager)
        ensures
            r.sessions_dir@ == "/tmp/froggr/sessions"@,
    {
        SessionManager { sessions_dir: String::from_str("/tmp/froggr/sessions") }
    }

    /// A manager over `sessions_dir`.
    pub fn with_dir(sessions_dir: String) -> (r: SessionManager)
        ensures
            r.sessions_dir == sessions_dir,
    {
        SessionManager { sessions_dir }
    }

    /// Path of the record of session `id`.
    pub fn session_file(&self, id: &str) -> (r: String)
        ensures
            r@ == self.sessions_dir@ + "/"@ + id@,
    {
        let mut r = self.sessions_dir.clone();
        r.append("/");
        r.append(id);
        r
    }

    /// Path of the pipe of session `id`.
    pub fn pipe_file(&self, id: &str) -> (r: String)
        ensures
            r@ == self.sessions_dir@ + "/"@ + id@ + ".pipe"@,
    {
        let mut r = self.session_file(id);
        r.append(".pipe");
        r
    }

    /// Decides how to serve `root` given the existing records and whether
    /// each one's daemon answered a liveness probe: the first live session
    /// for the root is reused; otherwise a fresh id is drawn and the dead
    /// sessions for the root are reported stale.
    pub fn create_session(&self, records: &Vec<SessionInfo>, alive: &Vec<bool>, root: &String) -> (r: SessionPlan)
        requires
            alive@.len() == records@.len(),
        ensures
            first_live(records@, alive@, root@) >= 0 ==> (r matches SessionPlan::Reuse { id, stale } && id@
                == records@[first_live(records@, alive@, root@)].id@ && stale@.map_values(|x: String| x@)
                == stale_ids(records@, alive@, root@, first_live(records@, alive@, root@))),
            first_live(records@, alive@, root@) < 0 ==> (r matches SessionPlan::Spawn { id, stale } && is_hyphenated_uuid(
                id@,
            ) && stale@.map_values(|x: String| x@) == stale_ids(records@, alive@, root@, records@.len() as int)),
    {
        let mut stale: Vec<String> = Vec::new();
        let mut i: usize = 0;
        while i < records.len()
            invariant
                i <= records@.len() == alive@.len(),
                first_live(records@.take(i as int), alive@.take(i as int), root@) < 0,
                stale@.map_values(|x: String| x@) == stale_ids(records@, alive@, root@, i as int),
            decreases records@.len() - i,
        {
            proof {
                assert(records@.take(i + 1).drop_last() =~= records@.take(i as int));
                assert(alive@.take(i + 1).drop_last() =~= alive@.take(i as int));
            }
            if records[i].root == *root {
                if alive[i] {
                    proof {
                        lemma_first_live_prefix(records@, alive@, root@, i as int);
                    }
                    return SessionPlan::Reuse { id: records[i].id.clone(), stale };
                }
                let ghost before = stale@;
                stale.push(records[i].id.clone());
                assert(stale@.map_values(|x: String| x@) =~= before.map_values(|x: String| x@).push(records@[i as int].id@));
            }
            i += 1;
        }
        assert(records@.take(i as int) =~= records@);
        assert(alive@.take(i as int) =~= alive@);
        SessionPlan::Spawn { id: new_session_id(), stale }
    }
}

/// The first live record lies at `i` when none lies before it and `i` is live.
proof fn lemma_first_live_prefix(records: Seq<SessionInfo>, alive: Seq<bool>, root: Seq<char>, i: int)
    requires
        0 <= i < records.len() == alive.len(),
        first_live(records.take(i), alive.take(i), root) < 0,
        records[i].root@ == root,
        alive[i],
    ensures
        first_live(records, alive, root) == i,
    decreases records.len(),
{
    if i < records.len() - 1 {
        let r2 = records.drop_last();
        let a2 = alive.drop_last();
        assert(r2.take(i) =~= records.take(i));
        assert(a2.take(i) =~= alive.take(i));
        lemma_first_live_prefix(r2, a2, root, i);
    } else {
        assert(records.drop_last() =~= records.take(i));
        assert(alive.drop_last() =~= alive.take(i));
    }
}

} // verus!
