//! Properties that hold across the operations of the library.
use vstd::prelude::*;

use crate::attr::FileKind;
use crate::constants::{READ_ONLY_MASK, ROOT_INODE};
use crate::frame::{frame, front_frame, lemma_length_round_trip, split_frames, MAX_PAYLOAD};
use crate::namespace::BindMode;
use crate::session::{accepts, enqueued, request_of, stepped, MessageView, SessionCommand, SessionView};
use crate::table::{
    lacks_name, lemma_filter_keeps_order, lemma_materialized_wf, materialized, numbered, root_binding, SourceView,
    TableView,
};

verus! {

/// A Replace bind leaves the root and exactly the source's rows: no row of
/// an earlier bind survives it.
pub proof fn lemma_replace_is_destructive(
    t: TableView,
    src: Seq<SourceView>,
    tgt: Seq<SourceView>,
    tgt_ok: bool,
)
    requires
        t.wf(),
        t.next + src.len() + tgt.len() <= u64::MAX,
    ensures
        materialized(t, BindMode::Replace, src, true, tgt, tgt_ok).1,
        materialized(t, BindMode::Replace, src, true, tgt, tgt_ok).0.entries == seq![root_binding()] + numbered(
            src,
            t.next as int,
            false,
        ),
        forall|i: int|
            1 <= i < t.entries.len() ==> !materialized(t, BindMode::Replace, src, true, tgt, tgt_ok).0.entries.contains(
                #[trigger] t.entries[i],
            ),
{
    let r = materialized(t, BindMode::Replace, src, true, tgt, tgt_ok).0;
    assert forall|i: int| 1 <= i < t.entries.len() implies !r.entries.contains(#[trigger] t.entries[i]) by {
        assert(t.entries[0].ino < t.entries[i].ino < t.next);
        if r.entries.contains(t.entries[i]) {
            let k = choose|k: int| 0 <= k < r.entries.len() && r.entries[k] == t.entries[i];
            if k > 0 {
                assert(r.entries[k] == numbered(src, t.next as int, false)[k - 1]);
            }
        }
    }
}

/// A Create bind keeps the source's rows with every permission bit masked
/// by `0o555`.
pub proof fn lemma_create_masks_permissions(
    t: TableView,
    src: Seq<SourceView>,
    tgt: Seq<SourceView>,
    tgt_ok: bool,
)
    requires
        t.wf(),
        t.next + src.len() + tgt.len() <= u64::MAX,
    ensures
        materialized(t, BindMode::Create, src, true, tgt, tgt_ok).0.entries.len() == src.len() + 1,
        forall|i: int|
            0 <= i < src.len() ==> {
                let row = #[trigger] materialized(t, BindMode::Create, src, true, tgt, tgt_ok).0.entries[i + 1];
                &&& row.name == src[i].name
                &&& row.attr.perm == src[i].perm & READ_ONLY_MASK
                &&& row.content == src[i].content
            },
{
    let r = materialized(t, BindMode::Create, src, true, tgt, tgt_ok).0;
    assert forall|i: int| 0 <= i < src.len() implies {
        let row = #[trigger] r.entries[i + 1];
        &&& row.name == src[i].name
        &&& row.attr.perm == src[i].perm & READ_ONLY_MASK
        &&& row.content == src[i].content
    } by {
        assert(r.entries[i + 1] == numbered(src, t.next as int, true)[i]);
    }
}

/// Whatever a bind does, identity 1 stays the root directory, first in the
/// table, and no other row gets it; the counter never goes back, and every
/// row the bind adds carries an identity drawn from it by this bind, so no
/// identity is used twice.
pub proof fn lemma_root_invariant(
    t: TableView,
    mode: BindMode,
    src: Seq<SourceView>,
    src_ok: bool,
    tgt: Seq<SourceView>,
    tgt_ok: bool,
)
    requires
        t.wf(),
        t.next + src.len() + tgt.len() <= u64::MAX,
    ensures
        materialized(t, mode, src, src_ok, tgt, tgt_ok).0.wf(),
        materialized(t, mode, src, src_ok, tgt, tgt_ok).0.entries[0].ino == ROOT_INODE,
        materialized(t, mode, src, src_ok, tgt, tgt_ok).0.entries[0].attr.kind == FileKind::Directory,
        forall|i: int|
            0 < i < materialized(t, mode, src, src_ok, tgt, tgt_ok).0.entries.len() ==> #[trigger] materialized(
                t,
                mode,
                src,
                src_ok,
                tgt,
                tgt_ok,
            ).0.entries[i].ino != ROOT_INODE,
        materialized(t, mode, src, src_ok, tgt, tgt_ok).0.next >= t.next,
        forall|i: int|
            0 <= i < materialized(t, mode, src, src_ok, tgt, tgt_ok).0.entries.len() ==> t.entries.contains(
                #[trigger] materialized(t, mode, src, src_ok, tgt, tgt_ok).0.entries[i],
            ) || t.next <= materialized(t, mode, src, src_ok, tgt, tgt_ok).0.entries[i].ino < materialized(
                t,
                mode,
                src,
                src_ok,
                tgt,
                tgt_ok,
            ).0.next,
{
    lemma_materialized_wf(t, mode, src, src_ok, tgt, tgt_ok);
    lemma_fresh_identities(t, mode, src, src_ok, tgt, tgt_ok);
    let r = materialized(t, mode, src, src_ok, tgt, tgt_ok).0;
    assert forall|i: int| 0 < i < r.entries.len() implies #[trigger] r.entries[i].ino != ROOT_INODE by {
        assert(r.entries[0].ino < r.entries[i].ino);
    }
    assert(r.entries[0].ino < r.next);
}

/// Every row a bind leaves is a row the table had, or carries an identity
/// drawn from the counter by this bind.
proof fn lemma_fresh_identities(
    t: TableView,
    mode: BindMode,
    src: Seq<SourceView>,
    src_ok: bool,
    tgt: Seq<SourceView>,
    tgt_ok: bool,
)
    requires
        t.wf(),
        t.next + src.len() + tgt.len() <= u64::MAX,
    ensures
        forall|i: int|
            0 <= i < materialized(t, mode, src, src_ok, tgt, tgt_ok).0.entries.len() ==> t.entries.contains(
                #[trigger] materialized(t, mode, src, src_ok, tgt, tgt_ok).0.entries[i],
            ) || t.next <= materialized(t, mode, src, src_ok, tgt, tgt_ok).0.entries[i].ino < materialized(
                t,
                mode,
                src,
                src_ok,
                tgt,
                tgt_ok,
            ).0.next,
{
    let n = t.next as int;
    let r = materialized(t, mode, src, src_ok, tgt, tgt_ok).0;
    assert(t.entries.contains(t.entries[0]));
    match mode {
        BindMode::Replace | BindMode::Create => {
            let ro = mode == BindMode::Create;
            assert forall|i: int| 0 <= i < r.entries.len() implies t.entries.contains(#[trigger] r.entries[i]) || n
                <= r.entries[i].ino < r.next by {
                if i > 0 {
                    assert(r.entries[i] == numbered(src, n, ro)[i - 1]);
                }
            }
        },
        BindMode::Before => {
            if src_ok && tgt_ok {
                let s = numbered(src, n, false);
                let u = numbered(tgt, n + src.len(), false);
                lemma_filter_keeps_order(u, lacks_name(s), n + src.len(), n + src.len() + tgt.len());
                let f = u.filter(lacks_name(s));
                assert forall|i: int| 0 <= i < r.entries.len() implies t.entries.contains(#[trigger] r.entries[i])
                    || n <= r.entries[i].ino < r.next by {
                    if i < t.entries.len() {
                        assert(r.entries[i] == t.entries[i]);
                    } else if i < t.entries.len() + s.len() {
                        assert(r.entries[i] == s[i - t.entries.len()]);
                    } else {
                        assert(r.entries[i] == f[i - t.entries.len() - s.len()]);
                        assert(u.contains(f[i - t.entries.len() - s.len()]));
                    }
                }
            } else {
                assert forall|i: int| 0 <= i < r.entries.len() implies t.entries.contains(#[trigger] r.entries[i])
                    || n <= r.entries[i].ino < r.next by {
                    assert(r.entries[i] == t.entries[i]);
                }
            }
        },
        BindMode::After => {
            let u = numbered(tgt, n, false);
            let base = t.entries + u;
            if tgt_ok {
                let s = numbered(src, n + tgt.len(), false);
                lemma_filter_keeps_order(s, lacks_name(base), n + tgt.len(), n + tgt.len() + src.len());
                let f = s.filter(lacks_name(base));
                assert forall|i: int| 0 <= i < r.entries.len() implies t.entries.contains(#[trigger] r.entries[i])
                    || n <= r.entries[i].ino < r.next by {
                    if i < t.entries.len() {
                        assert(r.entries[i] == t.entries[i]);
                    } else if i < base.len() {
                        assert(r.entries[i] == u[i - t.entries.len()]);
                    } else {
                        assert(src_ok);
                        assert(r.entries[i] == f[i - base.len()]);
                        assert(s.contains(f[i - base.len()]));
                    }
                }
            } else {
                assert forall|i: int| 0 <= i < r.entries.len() implies t.entries.contains(#[trigger] r.entries[i])
                    || n <= r.entries[i].ino < r.next by {
                    assert(r.entries[i] == t.entries[i]);
                }
            }
        },
    }
}

/// Two commands that one sender delivers in turn to a session that accepts
/// them are queued in that order, behind what was queued before.
pub proof fn lemma_sender_order(s: SessionView, a: SessionCommand, b: SessionCommand)
    requires
        accepts(s.phase),
    ensures
        enqueued(enqueued(s, request_of(a)).0, request_of(b)).0.inbox == s.inbox + seq![request_of(a), request_of(b)],
{
    assert(s.inbox.push(request_of(a)).push(request_of(b)) =~= s.inbox + seq![request_of(a), request_of(b)]);
}

/// The success a bind command reports once applied.
pub open spec fn bind_success(c: SessionCommand) -> MessageView {
    match c {
        SessionCommand::Bind { source, target, .. } => MessageView::BindSuccess { source: source@, target: target@ },
        SessionCommand::Mount { source, target, .. } => MessageView::MountSuccess { source: source@, target: target@ },
    }
}

/// Two bind commands that one sender delivers in turn to an idle running
/// session are applied in send order: the worker (`Session::step`) takes
/// the first request, its bind succeeds (`Session::apply_bind` queues the
/// success), then the second, and handling the two successes records the
/// binds in that order.
pub proof fn lemma_binds_applied_in_send_order(s: SessionView, a: SessionCommand, b: SessionCommand)
    requires
        accepts(s.phase),
        s.inbox.len() == 0,
        a is Bind,
        b is Bind,
    ensures
        ({
            let s2 = enqueued(enqueued(s, request_of(a)).0, request_of(b)).0;
            let s4 = enqueued(stepped(s2), bind_success(a)).0;
            let s6 = enqueued(stepped(s4), bind_success(b)).0;
            let s8 = stepped(stepped(s6));
            &&& s2.inbox[0] == request_of(a)
            &&& s4.inbox[0] == request_of(b)
            &&& s6.inbox[0] == bind_success(a)
            &&& stepped(s6).inbox[0] == bind_success(b)
            &&& s8.inbox.len() == 0
            &&& s8.state.binds == s.state.binds + seq![
                (a->Bind_source@, a->Bind_target@),
                (b->Bind_source@, b->Bind_target@),
            ]
        }),
{
    let s2 = enqueued(enqueued(s, request_of(a)).0, request_of(b)).0;
    assert(s2.inbox =~= seq![request_of(a), request_of(b)]);
    let s3 = stepped(s2);
    assert(s3.state == s.state);
    assert(s3.inbox =~= seq![request_of(b)]);
    let s4 = enqueued(s3, bind_success(a)).0;
    assert(s4.inbox =~= seq![request_of(b), bind_success(a)]);
    let s5 = stepped(s4);
    assert(s5.state == s.state);
    let s6 = enqueued(s5, bind_success(b)).0;
    assert(s6.inbox =~= seq![bind_success(a), bind_success(b)]);
    let s7 = stepped(s6);
    assert(s7.inbox =~= seq![bind_success(b)]);
    let s8 = stepped(s7);
    assert(s8.inbox =~= Seq::<MessageView>::empty());
    assert(s8.state.binds =~= s.state.binds + seq![
        (a->Bind_source@, a->Bind_target@),
        (b->Bind_source@, b->Bind_target@),
    ]);
}

/// Two frames written in turn on one stream are read back whole, in the
/// order they were written.
pub proof fn lemma_frames_in_order(a: Seq<u8>, b: Seq<u8>)
    requires
        a.len() <= MAX_PAYLOAD,
        b.len() <= MAX_PAYLOAD,
    ensures
        split_frames(frame(a) + frame(b)) == (seq![a, b], (frame(a).len() + frame(b).len()) as int),
{
    lemma_length_round_trip(a.len() as u32);
    lemma_length_round_trip(b.len() as u32);
    let s = frame(a) + frame(b);
    let na = a.len() as int;
    let nb = b.len() as int;
    assert(s.subrange(4, 4 + na) =~= a);
    assert(s.skip(4 + na) =~= frame(b));
    assert(front_frame(s) == Some((a, 4 + na)));
    let fb = frame(b);
    assert(fb.subrange(4, 4 + nb) =~= b);
    assert(front_frame(fb) == Some((b, 4 + nb)));
    assert(fb.skip(4 + nb) =~= Seq::<u8>::empty());
    assert(front_frame(Seq::<u8>::empty()) is None);
    assert(split_frames(Seq::<u8>::empty()) == (Seq::<Seq<u8>>::empty(), 0int));
    assert(split_frames(fb) == (seq![b] + Seq::<Seq<u8>>::empty(), 4 + nb + 0));
    assert(seq![b] + Seq::<Seq<u8>>::empty() =~= seq![b]);
    assert(seq![a] + seq![b] =~= seq![a, b]);
}

} // verus!
