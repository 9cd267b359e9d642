//! The inode table: a mapping from numeric identity to a named entry, and
//! the materialization of directory walks into it for each bind mode.
use vstd::prelude::*;

use crate::attr::{create_file_attr, create_root_attr, entry_attr, root_attr, FileAttr, FileKind};
use crate::constants::{INITIAL_INODE, READ_ONLY_MASK, ROOT_INODE};
use crate::namespace::BindMode;

verus! {

/// One entry of a directory tree as a walk read it.
#[derive(Debug, Clone)]
pub struct SourceEntry {
    /// Final path component of the entry.
    pub name: String,
    /// Whether the entry is a directory.
    pub is_dir: bool,
    /// Size in bytes as the filesystem reported it.
    pub size: u64,
    /// Last access time.
    pub atime: u64,
    /// Last modification time.
    pub mtime: u64,
    /// Permission bits.
    pub perm: u16,
    /// Full content of a regular file, `None` for anything else.
    pub content: Option<Vec<u8>>,
}

/// Mathematical view of a [`SourceEntry`].
pub struct SourceView {
    pub name: Seq<char>,
    pub is_dir: bool,
    pub size: u64,
    pub atime: u64,
    pub mtime: u64,
    pub perm: u16,
    pub content: Option<Seq<u8>>,
}

/// View of optional bytes.
pub open spec fn bytes_view(c: Option<Vec<u8>>) -> Option<Seq<u8>> {
    match c {
        Some(v) => Some(v@),
        None => None,
    }
}

impl View for SourceEntry {
    type V = SourceView;

    open spec fn view(&self) -> SourceView {
        SourceView {
            name: self.name@,
            is_dir: self.is_dir,
            size: self.size,
            atime: self.atime,
            mtime: self.mtime,
            perm: self.perm,
            content: bytes_view(self.content),
        }
    }
}

/// The entries of one directory tree in breadth-first order.
///
/// `complete` is false when reading stopped at an I/O failure; `entries`
/// then holds what was read before it.
#[derive(Debug, Clone)]
pub struct Walk {
    pub entries: Vec<SourceEntry>,
    pub complete: bool,
}

impl Walk {
    /// The walked entries as views.
    pub open spec fn items(&self) -> Seq<SourceView> {
        self.entries@.map_values(|e: SourceEntry| e@)
    }

    /// A walk that read nothing and did not fail.
    pub fn empty() -> (r: Walk)
        ensures
            r.items() == Seq::<SourceView>::empty(),
            r.complete,
    {
        let r = Walk { entries: Vec::new(), complete: true };
        assert(r.items() =~= Seq::<SourceView>::empty());
        r
    }
}

/// Attributes and optional content of one table entry.
#[derive(Debug, Clone)]
pub struct BoundEntry {
    /// Attributes of the entry.
    pub attr: FileAttr,
    /// Content of a file; `None` for a directory.
    pub content: Option<Vec<u8>>,
}

/// One row of the inode table.
#[derive(Debug, Clone)]
pub struct Binding {
    /// Identity of the entry.
    pub ino: u64,
    /// Single path component naming the entry.
    pub name: String,
    /// Attributes and content.
    pub entry: BoundEntry,
}

/// Mathematical view of a [`Binding`].
pub struct BindingView {
    pub ino: u64,
    pub name: Seq<char>,
    pub attr: FileAttr,
    pub content: Option<Seq<u8>>,
}

impl View for Binding {
    type V = BindingView;

    open spec fn view(&self) -> BindingView {
        BindingView {
            ino: self.ino,
            name: self.name@,
            attr: self.entry.attr,
            content: bytes_view(self.entry.content),
        }
    }
}

/// Mathematical view of an [`InodeTable`].
pub struct TableView {
    /// Rows in increasing order of identity.
    pub entries: Seq<BindingView>,
    /// Next identity to hand out.
    pub next: u64,
}

/// The row of the namespace root.
pub open spec fn root_binding() -> BindingView {
    BindingView { ino: ROOT_INODE, name: seq!['.'], attr: root_attr(), content: None }
}

/// Permission bits of a materialized entry; a read-only overlay masks them.
pub open spec fn bound_perm(perm: u16, read_only: bool) -> u16 {
    if read_only {
        perm & READ_ONLY_MASK
    } else {
        perm
    }
}

/// The row made of walked entry `e` under identity `ino`.
pub open spec fn bound(e: SourceView, ino: u64, read_only: bool) -> BindingView {
    BindingView {
        ino,
        name: e.name,
        attr: entry_attr(ino, e.is_dir, e.size, e.atime, e.mtime, bound_perm(e.perm, read_only)),
        content: e.content,
    }
}

/// The rows made of a walk, numbered consecutively from `start`.
pub open spec fn numbered(w: Seq<SourceView>, start: int, read_only: bool) -> Seq<BindingView> {
    Seq::new(w.len(), |i: int| bound(w[i], (start + i) as u64, read_only))
}

/// Whether some row of `s` is named `n`.
pub open spec fn has_name(s: Seq<BindingView>, n: Seq<char>) -> bool {
    exists|i: int| 0 <= i < s.len() && s[i].name == n
}

/// Holds of a row whose name no row of `s` carries.
pub open spec fn lacks_name(s: Seq<BindingView>) -> spec_fn(BindingView) -> bool {
    |b: BindingView| !has_name(s, b.name)
}

/// The rows of `u` whose name no row of `s` carries, in order.
pub open spec fn without_names(u: Seq<BindingView>, s: Seq<BindingView>) -> Seq<BindingView> {
    u.filter(lacks_name(s))
}

/// Views of a sequence of rows.
pub open spec fn rows(v: Seq<Binding>) -> Seq<BindingView> {
    v.map_values(|b: Binding| b@)
}

/// Rows in strictly increasing order of identity.
pub open spec fn ascending(s: Seq<BindingView>) -> bool {
    forall|i: int, j: int| 0 <= i < j < s.len() ==> #[trigger] s[i].ino < #[trigger] s[j].ino
}

/// Every row's identity lies in `[lo, hi)`.
pub open spec fn within(s: Seq<BindingView>, lo: int, hi: int) -> bool {
    forall|i: int| 0 <= i < s.len() ==> lo <= #[trigger] s[i].ino < hi
}

impl TableView {
    /// The root row comes first, identities ascend, and all lie below `next`.
    pub open spec fn wf(self) -> bool {
        &&& self.entries.len() >= 1
        &&& self.entries[0] == root_binding()
        &&& ascending(self.entries)
        &&& within(self.entries, ROOT_INODE as int, self.next as int)
    }
}

/// The table and success flag that a bind in `mode` leaves, given the walk
/// of the source tree and of the target tree.
///
/// Replace and Create drop every row but the root; Before keeps the source's
/// rows and the target's rows whose names the source lacks; After keeps the
/// target's rows and the source's rows whose names the table lacks. A failed
/// walk stops the bind where it stood: what was written before stays.
pub open spec fn materialized(
    t: TableView,
    mode: BindMode,
    src: Seq<SourceView>,
    src_ok: bool,
    tgt: Seq<SourceView>,
    tgt_ok: bool,
) -> (TableView, bool) {
    let n = t.next as int;
    match mode {
        BindMode::Replace => (
            TableView {
                entries: seq![root_binding()] + numbered(src, n, false),
                next: (n + src.len()) as u64,
            },
            src_ok,
        ),
        BindMode::Create => (
            TableView {
                entries: if src_ok {
                    seq![root_binding()] + numbered(src, n, true)
                } else {
                    seq![root_binding()]
                },
                next: (n + src.len()) as u64,
            },
            src_ok,
        ),
        BindMode::Before => if !src_ok {
            (TableView { entries: t.entries, next: (n + src.len()) as u64 }, false)
        } else {
            let s = numbered(src, n, false);
            let u = numbered(tgt, n + src.len(), false);
            let next = (n + src.len() + tgt.len()) as u64;
            if !tgt_ok {
                (TableView { entries: t.entries, next }, false)
            } else {
                (TableView { entries: t.entries + s + without_names(u, s), next }, true)
            }
        },
        BindMode::After => if !tgt_ok {
            (TableView { entries: t.entries, next: (n + tgt.len()) as u64 }, false)
        } else {
            let base = t.entries + numbered(tgt, n, false);
            let s = numbered(src, n + tgt.len(), false);
            let next = (n + tgt.len() + src.len()) as u64;
            if !src_ok {
                (TableView { entries: base, next }, false)
            } else {
                (TableView { entries: base + without_names(s, base), next }, true)
            }
        },
    }
}

/// Filtering keeps only rows of the sequence filtered, so identity order and
/// bounds carry over.
pub proof fn lemma_filter_keeps_order(s: Seq<BindingView>, p: spec_fn(BindingView) -> bool, lo: int, hi: int)
    requires
        ascending(s),
        within(s, lo, hi),
    ensures
        ascending(s.filter(p)),
        within(s.filter(p), lo, hi),
        forall|i: int| 0 <= i < s.filter(p).len() ==> s.contains(#[trigger] s.filter(p)[i]),
    decreases s.len(),
{
    reveal(Seq::filter);
    if s.len() > 0 {
        let d = s.drop_last();
        lemma_filter_keeps_order(d, p, lo, hi);
        let f = d.filter(p);
        assert forall|i: int| 0 <= i < f.len() implies f[i].ino < s.last().ino by {
            assert(d.contains(f[i]));
            let k = choose|k: int| 0 <= k < d.len() && d[k] == f[i];
            assert(s[k] == d[k]);
        }
        assert forall|i: int| 0 <= i < s.filter(p).len() implies s.contains(#[trigger] s.filter(p)[i]) by {
            if i < f.len() {
                assert(d.contains(f[i]));
                let k = choose|k: int| 0 <= k < d.len() && d[k] == f[i];
                assert(s[k] == d[k]);
            } else {
                assert(s[s.len() - 1] == s.last());
            }
        }
    }
}

/// Consecutively numbered rows ascend and lie in their range.
pub proof fn lemma_numbered_order(w: Seq<SourceView>, start: int, read_only: bool)
    requires
        0 <= start,
        start + w.len() <= u64::MAX,
    ensures
        ascending(numbered(w, start, read_only)),
        within(numbered(w, start, read_only), start, start + w.len()),
        numbered(w, start, read_only).len() == w.len(),
{
}

/// Appending sequences whose identity ranges follow each other keeps order.
pub proof fn lemma_append_order(a: Seq<BindingView>, b: Seq<BindingView>, lo: int, mid: int, hi: int)
    requires
        ascending(a),
        ascending(b),
        within(a, lo, mid),
        within(b, mid, hi),
        lo <= mid <= hi,
    ensures
        ascending(a + b),
        within(a + b, lo, hi),
{
    assert forall|i: int, j: int| 0 <= i < j < (a + b).len() implies (a + b)[i].ino < (a + b)[j].ino by {
        if j < a.len() {
        } else if i >= a.len() {
            assert((a + b)[i] == b[i - a.len()]);
            assert((a + b)[j] == b[j - a.len()]);
        } else {
            assert((a + b)[j] == b[j - a.len()]);
        }
    }
    assert forall|i: int| 0 <= i < (a + b).len() implies lo <= #[trigger] (a + b)[i].ino < hi by {
        if i >= a.len() {
            assert((a + b)[i] == b[i - a.len()]);
        } else {
            assert((a + b)[i] == a[i]);
        }
    }
}

/// A table's bounds may widen upward.
pub proof fn lemma_within_widen(s: Seq<BindingView>, lo: int, hi: int, hi2: int)
    requires
        within(s, lo, hi),
        hi <= hi2,
    ensures
        within(s, lo, hi2),
{
}

/// Every table that a bind leaves is well formed.
pub proof fn lemma_materialized_wf(
    t: TableView,
    mode: BindMode,
    src: Seq<SourceView>,
    src_ok: bool,
    tgt: Seq<SourceView>,
    tgt_ok: bool,
)
    requires
        t.wf(),
        t.next + src.len() + tgt.len() <= u64::MAX,
    ensures
        materialized(t, mode, src, src_ok, tgt, tgt_ok).0.wf(),
        materialized(t, mode, src, src_ok, tgt, tgt_ok).0.next >= t.next,
{
    let n = t.next as int;
    let r = materialized(t, mode, src, src_ok, tgt, tgt_ok).0;
    let root = seq![root_binding()];
    assert(ascending(root) && within(root, 1, 2));
    assert(n >= 2) by {
        assert(t.entries[0].ino == 1);
    }
    match mode {
        BindMode::Replace => {
            lemma_numbered_order(src, n, false);
            lemma_append_order(root, numbered(src, n, false), 1, n, n + src.len());
            assert(r.entries[0] == root_binding());
        },
        BindMode::Create => {
            if src_ok {
                lemma_numbered_order(src, n, true);
                lemma_append_order(root, numbered(src, n, true), 1, n, n + src.len());
                assert(r.entries[0] == root_binding());
            }
        },
        BindMode::Before => {
            if src_ok && tgt_ok {
                let s = numbered(src, n, false);
                let u = numbered(tgt, n + src.len(), false);
                lemma_numbered_order(src, n, false);
                lemma_numbered_order(tgt, n + src.len(), false);
                let p = lacks_name(s);
                lemma_filter_keeps_order(u, p, n + src.len(), n + src.len() + tgt.len());
                lemma_append_order(t.entries, s, 1, n, n + src.len());
                lemma_append_order(t.entries + s, u.filter(p), 1, n + src.len(), n + src.len() + tgt.len());
                assert(r.entries[0] == t.entries[0]);
            }
        },
        BindMode::After => {
            if tgt_ok {
                let u = numbered(tgt, n, false);
                lemma_numbered_order(tgt, n, false);
                lemma_append_order(t.entries, u, 1, n, n + tgt.len());
                let base = t.entries + u;
                assert(base[0] == t.entries[0]);
                if src_ok {
                    let s = numbered(src, n + tgt.len(), false);
                    lemma_numbered_order(src, n + tgt.len(), false);
                    let p = lacks_name(base);
                    lemma_filter_keeps_order(s, p, n + tgt.len(), n + tgt.len() + src.len());
                    lemma_append_order(base, s.filter(p), 1, n + tgt.len(), n + tgt.len() + src.len());
                    assert(r.entries[0] == t.entries[0]);
                } else {
                    lemma_within_widen(base, 1, n + tgt.len(), n + tgt.len() + src.len());
                }
            }
        },
    }
}

/// The inode table of one namespace.
pub struct InodeTable {
    entries: Vec<Binding>,
    next_inode: u64,
}

impl View for InodeTable {
    type V = TableView;

    closed spec fn view(&self) -> TableView {
        TableView { entries: rows(self.entries@), next: self.next_inode }
    }
}

/// Numbers the walked entries consecutively from `start`.
fn number(walk: Vec<SourceEntry>, start: u64, read_only: bool) -> (r: Vec<Binding>)
    requires
        start + walk@.len() <= u64::MAX,
    ensures
        rows(r@) == numbered(walk@.map_values(|e: SourceEntry| e@), start as int, read_only),
{
    let ghost w = walk@.map_values(|e: SourceEntry| e@);
    let mut walk = walk;
    let mut out: Vec<Binding> = Vec::new();
    let n = walk.len();
    let mut i: usize = 0;
    while i < n
        invariant
            n == w.len(),
            i <= n,
            walk@.len() == n - i,
            start + n <= u64::MAX,
            forall|k: int| 0 <= k < walk@.len() ==> #[trigger] walk@[k]@ == w[i + k],
            out@.len() == i,
            forall|k: int| 0 <= k < i ==> #[trigger] out@[k]@ == bound(w[k], (start + k) as u64, read_only),
        decreases n - i,
    {
        assert(walk@[0]@ == w[i as int]);
        let ghost prev = walk@;
        let e = walk.remove(0);
        let ino = start + i as u64;
        let perm = if read_only { e.perm & READ_ONLY_MASK } else { e.perm };
        let attr = create_file_attr(ino, e.is_dir, e.size, e.atime, e.mtime, perm);
        out.push(Binding { ino, name: e.name, entry: BoundEntry { attr, content: e.content } });
        i += 1;
        assert forall|k: int| 0 <= k < walk@.len() implies #[trigger] walk@[k]@ == w[i + k] by {
            assert(walk@[k] == prev[k + 1]);
        }
    }
    assert(rows(out@) =~= numbered(w, start as int, read_only));
    out
}

/// Whether some row of `v` is named `name`.
fn contains_name(v: &Vec<Binding>, name: &String) -> (r: bool)
    ensures
        r == has_name(rows(v@), name@),
{
    let mut i: usize = 0;
    while i < v.len()
        invariant
            i <= v@.len(),
            forall|k: int| 0 <= k < i ==> #[trigger] v@[k].name@ != name@,
        decreases v@.len() - i,
    {
        if v[i].name == *name {
            assert(rows(v@)[i as int].name == name@);
            return true;
        }
        i += 1;
    }
    assert forall|k: int| 0 <= k < rows(v@).len() implies rows(v@)[k].name != name@ by {
        assert(v@[k].name@ != name@);
    }
    false
}

/// One more element extends a filtered prefix by that element when it passes.
pub proof fn lemma_filter_step<A>(s: Seq<A>, p: spec_fn(A) -> bool, i: int)
    requires
        0 <= i < s.len(),
    ensures
        s.take(i + 1).filter(p) == if p(s[i]) {
            s.take(i).filter(p).push(s[i])
        } else {
            s.take(i).filter(p)
        },
{
    reveal(Seq::filter);
    assert(s.take(i + 1).drop_last() =~= s.take(i));
    assert(s.take(i + 1).last() == s[i]);
}

/// The rows of `batch` whose names no row of `against` carries.
fn keep_unnamed(batch: Vec<Binding>, against: &Vec<Binding>) -> (r: Vec<Binding>)
    ensures
        rows(r@) == without_names(rows(batch@), rows(against@)),
{
    let ghost b = rows(batch@);
    let ghost p = lacks_name(rows(against@));
    let mut batch = batch;
    let mut out: Vec<Binding> = Vec::new();
    let n = batch.len();
    let mut i: usize = 0;
    while i < n
        invariant
            n == b.len(),
            i <= n,
            batch@.len() == n - i,
            p == lacks_name(rows(against@)),
            forall|k: int| 0 <= k < batch@.len() ==> #[trigger] batch@[k]@ == b[i + k],
            rows(out@) == b.take(i as int).filter(p),
        decreases n - i,
    {
        assert(batch@[0]@ == b[i as int]);
        proof {
            lemma_filter_step(b, p, i as int);
        }
        let ghost prev = batch@;
        let e = batch.remove(0);
        let named = contains_name(against, &e.name);
        if !named {
            out.push(e);
            assert(rows(out@) =~= b.take(i as int).filter(p).push(b[i as int]));
        }
        i += 1;
        assert forall|k: int| 0 <= k < batch@.len() implies #[trigger] batch@[k]@ == b[i + k] by {
            assert(batch@[k] == prev[k + 1]);
        }
    }
    assert(b.take(n as int) =~= b);
    out
}

/// Row `i` is the first row of `s` named `n`.
pub open spec fn first_named(s: Seq<BindingView>, n: Seq<char>, i: int) -> bool {
    &&& 0 <= i < s.len()
    &&& s[i].name == n
    &&& forall|j: int| 0 <= j < i ==> #[trigger] s[j].name != n
}

/// Index of the first row of `s` named `n`, or -1.
pub open spec fn first_index(s: Seq<BindingView>, n: Seq<char>) -> int
    decreases s.len(),
{
    if s.len() == 0 {
        -1
    } else {
        let f = first_index(s.drop_last(), n);
        if f >= 0 {
            f
        } else if s.last().name == n {
            s.len() - 1
        } else {
            -1
        }
    }
}

/// The first row named `n` is found at `first_index`.
pub proof fn lemma_first_index(s: Seq<BindingView>, n: Seq<char>, k: int)
    requires
        first_named(s, n, k),
    ensures
        first_index(s, n) == k,
    decreases s.len(),
{
    if k < s.len() - 1 {
        let d = s.drop_last();
        assert(d[k] == s[k]);
        assert forall|j: int| 0 <= j < k implies #[trigger] d[j].name != n by {
            assert(d[j] == s[j]);
        }
        lemma_first_index(d, n, k);
    } else {
        lemma_no_name_index(s.drop_last(), n);
    }
}

/// Without a row named `n` there is no first one.
pub proof fn lemma_no_name_index(s: Seq<BindingView>, n: Seq<char>)
    requires
        forall|j: int| 0 <= j < s.len() ==> #[trigger] s[j].name != n,
    ensures
        first_index(s, n) == -1,
    decreases s.len(),
{
    if s.len() > 0 {
        let d = s.drop_last();
        assert forall|j: int| 0 <= j < d.len() implies #[trigger] d[j].name != n by {
            assert(d[j] == s[j]);
        }
        lemma_no_name_index(d, n);
    }
}

/// `content[from..to]` with both ends clipped to the content's length.
pub open spec fn clipped(c: Seq<u8>, offset: int, length: int) -> Seq<u8> {
    let from = if offset < c.len() { offset } else { c.len() as int };
    let to = if offset + length < c.len() { offset + length } else { c.len() as int };
    c.subrange(from, to)
}

/// Copies `c[from..to]`.
pub fn copy_range(c: &Vec<u8>, from: usize, to: usize) -> (r: Vec<u8>)
    requires
        from <= to <= c@.len(),
    ensures
        r@ == c@.subrange(from as int, to as int),
{
    let mut out: Vec<u8> = Vec::new();
    let mut i: usize = from;
    while i < to
        invariant
            from <= i <= to <= c@.len(),
            out@ == c@.subrange(from as int, i as int),
        decreases to - i,
    {
        out.push(c[i]);
        i += 1;
        assert(out@ =~= c@.subrange(from as int, i as int));
    }
    out
}

/// Copies `c[offset..offset + length]`, both ends clipped to `c`'s length.
pub fn clip(c: &Vec<u8>, offset: u64, length: u64) -> (r: Vec<u8>)
    ensures
        r@ == clipped(c@, offset as int, length as int),
{
    let len = c.len();
    let from: usize = if offset < len as u64 { offset as usize } else { len };
    let to: usize = if offset < len as u64 && length < (len as u64) - offset { (offset + length) as usize } else { len };
    copy_range(c, from, to)
}

impl InodeTable {
    /// Position of the first row named `name`.
    pub fn find_name(&self, name: &String) -> (r: Option<usize>)
        ensures
            match r {
                Some(i) => first_named(self@.entries, name@, i as int),
                None => !has_name(self@.entries, name@),
            },
    {
        let mut i: usize = 0;
        while i < self.entries.len()
            invariant
                i <= self@.entries.len(),
                forall|k: int| 0 <= k < i ==> #[trigger] self@.entries[k].name != name@,
            decreases self@.entries.len() - i,
        {
            assert(self@.entries[i as int] == self.entries@[i as int]@);
            if self.entries[i].name == *name {
                return Some(i);
            }
            i += 1;
        }
        None
    }

    /// Replaces the permission bits of the row at `index`, which is not the root.
    pub fn set_perm(&mut self, index: usize, perm: u16)
        requires
            old(self)@.wf(),
            0 < index < old(self)@.entries.len(),
        ensures
            final(self)@.next == old(self)@.next,
            final(self)@.entries == old(self)@.entries.update(
                index as int,
                BindingView {
                    attr: FileAttr { perm, ..old(self)@.entries[index as int].attr },
                    ..old(self)@.entries[index as int]
                },
            ),
            final(self)@.wf(),
    {
        let ghost before = self@;
        let mut row = self.entries.remove(index);
        row.entry.attr.perm = perm;
        self.entries.insert(index, row);
        assert(self@.entries =~= before.entries.update(
            index as int,
            BindingView { attr: FileAttr { perm, ..before.entries[index as int].attr }, ..before.entries[index as int] },
        ));
        assert(self@.entries[0] == before.entries[0]);
        assert forall|i: int, j: int| 0 <= i < j < self@.entries.len() implies #[trigger] self@.entries[i].ino
            < #[trigger] self@.entries[j].ino by {
            assert(self@.entries[i].ino == before.entries[i].ino);
            assert(self@.entries[j].ino == before.entries[j].ino);
        }
        assert forall|i: int| 0 <= i < self@.entries.len() implies 1 <= #[trigger] self@.entries[i].ino < self@.next by {
            assert(self@.entries[i].ino == before.entries[i].ino);
        }
    }

    /// Replaces the content of the row at `index`, which is not the root.
    pub fn set_content(&mut self, index: usize, content: Vec<u8>)
        requires
            old(self)@.wf(),
            0 < index < old(self)@.entries.len(),
        ensures
            final(self)@.next == old(self)@.next,
            final(self)@.entries == old(self)@.entries.update(
                index as int,
                BindingView { content: Some(content@), ..old(self)@.entries[index as int] },
            ),
            final(self)@.wf(),
    {
        let ghost before = self@;
        let mut row = self.entries.remove(index);
        row.entry.content = Some(content);
        self.entries.insert(index, row);
        assert(self@.entries =~= before.entries.update(
            index as int,
            BindingView { content: Some(content@), ..before.entries[index as int] },
        ));
        assert(self@.entries[0] == before.entries[0]);
        assert forall|i: int, j: int| 0 <= i < j < self@.entries.len() implies #[trigger] self@.entries[i].ino
            < #[trigger] self@.entries[j].ino by {
            assert(self@.entries[i].ino == before.entries[i].ino);
            assert(self@.entries[j].ino == before.entries[j].ino);
        }
        assert forall|i: int| 0 <= i < self@.entries.len() implies 1 <= #[trigger] self@.entries[i].ino < self@.next by {
            assert(self@.entries[i].ino == before.entries[i].ino);
        }
    }

    /// Removes the row at `index`, which is not the root.
    pub fn remove_at(&mut self, index: usize)
        requires
            old(self)@.wf(),
            0 < index < old(self)@.entries.len(),
        ensures
            final(self)@.next == old(self)@.next,
            final(self)@.entries == old(self)@.entries.remove(index as int),
            final(self)@.wf(),
    {
        let ghost before = self@;
        let _ = self.entries.remove(index);
        assert(self@.entries =~= before.entries.remove(index as int));
        assert(self@.entries[0] == before.entries[0]);
        assert forall|i: int, j: int| 0 <= i < j < self@.entries.len() implies #[trigger] self@.entries[i].ino
            < #[trigger] self@.entries[j].ino by {
            let i0 = if i < index { i } else { i + 1 };
            let j0 = if j < index { j } else { j + 1 };
            assert(self@.entries[i] == before.entries[i0]);
            assert(self@.entries[j] == before.entries[j0]);
        }
        assert forall|i: int| 0 <= i < self@.entries.len() implies 1 <= #[trigger] self@.entries[i].ino < self@.next by {
            let i0 = if i < index { i } else { i + 1 };
            assert(self@.entries[i] == before.entries[i0]);
        }
    }

    /// A table that holds the root alone.
    pub fn new() -> (r: InodeTable)
        ensures
            r@.entries == seq![root_binding()],
            r@.next == INITIAL_INODE,
            r@.wf(),
    {
        let mut entries: Vec<Binding> = Vec::new();
        let root = Binding {
            ino: ROOT_INODE,
            name: String::from_str("."),
            entry: BoundEntry { attr: create_root_attr(), content: None },
        };
        proof {
            reveal_strlit(".");
            assert(root@.name =~= seq!['.']);
            assert(root@ == root_binding());
        }
        entries.push(root);
        let r = InodeTable { entries, next_inode: INITIAL_INODE };
        assert(r@.entries =~= seq![root_binding()]);
        r
    }

    /// Number of rows.
    pub fn len(&self) -> (r: usize)
        ensures
            r == self@.entries.len(),
    {
        self.entries.len()
    }

    /// The identity the next materialized entry gets.
    pub fn next_inode(&self) -> (r: u64)
        ensures
            r == self@.next,
    {
        self.next_inode
    }

    /// The row at `index`, in increasing order of identity.
    pub fn row(&self, index: usize) -> (r: &Binding)
        requires
            index < self@.entries.len(),
        ensures
            r@ == self@.entries[index as int],
    {
        &self.entries[index]
    }

    /// Position of the row with identity `ino`.
    pub fn position(&self, ino: u64) -> (r: Option<usize>)
        ensures
            match r {
                Some(i) => i < self@.entries.len() && self@.entries[i as int].ino == ino,
                None => forall|i: int| 0 <= i < self@.entries.len() ==> #[trigger] self@.entries[i].ino != ino,
            },
    {
        let mut i: usize = 0;
        while i < self.entries.len()
            invariant
                i <= self@.entries.len(),
                forall|k: int| 0 <= k < i ==> #[trigger] self@.entries[k].ino != ino,
            decreases self@.entries.len() - i,
        {
            if self.entries[i].ino == ino {
                return Some(i);
            }
            assert(self@.entries[i as int].ino == self.entries@[i as int].ino);
            i += 1;
        }
        None
    }

    /// Whether a row has identity `ino`.
    pub fn contains_key(&self, ino: u64) -> (r: bool)
        ensures
            r == exists|i: int| 0 <= i < self@.entries.len() && self@.entries[i].ino == ino,
    {
        match self.position(ino) {
            Some(_) => true,
            None => false,
        }
    }

    /// The row with identity `ino`.
    pub fn get(&self, ino: u64) -> (r: Option<&Binding>)
        ensures
            match r {
                Some(b) => exists|i: int| 0 <= i < self@.entries.len() && self@.entries[i] == b@ && b.ino == ino,
                None => forall|i: int| 0 <= i < self@.entries.len() ==> #[trigger] self@.entries[i].ino != ino,
            },
    {
        match self.position(ino) {
            Some(i) => Some(&self.entries[i]),
            None => None,
        }
    }

    /// Adds a row under the next identity and returns that identity.
    pub fn add(&mut self, name: String, entry: BoundEntry) -> (r: u64)
        requires
            old(self)@.wf(),
            old(self)@.next < u64::MAX,
        ensures
            r == old(self)@.next,
            final(self)@.entries == old(self)@.entries.push(BindingView {
                ino: r,
                name: name@,
                attr: entry.attr,
                content: bytes_view(entry.content),
            }),
            final(self)@.next == r + 1,
            final(self)@.wf(),
    {
        let ino = self.next_inode;
        let ghost before = self@;
        self.entries.push(Binding { ino, name, entry });
        self.next_inode = ino + 1;
        assert(self@.entries =~= before.entries.push(self.entries@.last()@));
        assert(self@.entries[0] == before.entries[0]);
        assert forall|i: int, j: int| 0 <= i < j < self@.entries.len() implies #[trigger] self@.entries[i].ino
            < #[trigger] self@.entries[j].ino by {
            if j < before.entries.len() {
                assert(self@.entries[i] == before.entries[i]);
                assert(self@.entries[j] == before.entries[j]);
            } else {
                assert(self@.entries[i] == before.entries[i]);
            }
        }
        assert forall|i: int| 0 <= i < self@.entries.len() implies 1 <= #[trigger] self@.entries[i].ino < self@.next by {
            if i < before.entries.len() {
                assert(self@.entries[i] == before.entries[i]);
            } else {
                assert(self@.entries[i].ino == ino);
                assert(before.entries[0].ino < before.next);
            }
        }
        ino
    }

    /// Materializes the walks of a bind in `mode` into the table; false when
    /// a walk had failed.
    pub fn materialize(&mut self, mode: BindMode, source: Walk, target: Walk) -> (ok: bool)
        requires
            old(self)@.wf(),
            old(self)@.next + source.entries@.len() + target.entries@.len() <= u64::MAX,
        ensures
            (final(self)@, ok) == materialized(
                old(self)@,
                mode,
                source.items(),
                source.complete,
                target.items(),
                target.complete,
            ),
            final(self)@.wf(),
    {
        proof {
            lemma_materialized_wf(old(self)@, mode, source.items(), source.complete, target.items(), target.complete);
        }
        let ghost t = self@;
        let n = self.next_inode;
        let slen = source.entries.len() as u64;
        let tlen = target.entries.len() as u64;
        match mode {
            BindMode::Replace => {
                self.entries.truncate(1);
                let mut s = number(source.entries, n, false);
                self.entries.append(&mut s);
                self.next_inode = n + slen;
                assert(self@.entries =~= seq![root_binding()] + numbered(source.items(), n as int, false));
                source.complete
            },
            BindMode::Create => {
                self.entries.truncate(1);
                let mut s = number(source.entries, n, true);
                if source.complete {
                    self.entries.append(&mut s);
                }
                self.next_inode = n + slen;
                if source.complete {
                    assert(self@.entries =~= seq![root_binding()] + numbered(source.items(), n as int, true));
                } else {
                    assert(self@.entries =~= seq![root_binding()]);
                }
                source.complete
            },
            BindMode::Before => {
                if !source.complete {
                    self.next_inode = n + slen;
                    return false;
                }
                let mut s = number(source.entries, n, false);
                let u = number(target.entries, n + slen, false);
                self.next_inode = n + slen + tlen;
                if !target.complete {
                    return false;
                }
                let mut kept = keep_unnamed(u, &s);
                self.entries.append(&mut s);
                self.entries.append(&mut kept);
                assert(self@.entries =~= t.entries + numbered(source.items(), n as int, false) + without_names(
                    numbered(target.items(), n + slen, false),
                    numbered(source.items(), n as int, false),
                ));
                true
            },
            BindMode::After => {
                if !target.complete {
                    self.next_inode = n + tlen;
                    return false;
                }
                let mut u = number(target.entries, n, false);
                self.entries.append(&mut u);
                let ghost base = self@.entries;
                assert(base =~= t.entries + numbered(target.items(), n as int, false));
                let s = number(source.entries, n + tlen, false);
                self.next_inode = n + tlen + slen;
                if !source.complete {
                    return false;
                }
                let mut kept = keep_unnamed(s, &self.entries);
                self.entries.append(&mut kept);
                assert(self@.entries =~= base + without_names(numbered(source.items(), n + tlen, false), base));
                true
            },
        }
    }
}

} // verus!
