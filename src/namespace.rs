//! The namespace: an ordered table of bind entries keyed by target path.
//!
//! Entries are kept in one list in append order; the entries of a target are
//! those whose `target` is that path, so a target whose last entry goes
//! away disappears from the namespace with it.
use vstd::prelude::*;

use crate::table::{lemma_filter_step, InodeTable};

verus! {

/// How a bind combines the source tree with what the target holds.
#[derive(Debug, Clone, Copy, PartialEq, Eq, Structural)]
pub enum BindMode {
    /// Replace existing content at the mountpoint.
    Replace,
    /// Add content with higher priority.
    Before,
    /// Add content with lower priority.
    After,
    /// Replace existing content with a read-only copy.
    Create,
}

/// Entry in the namespace representing a bind operation.
#[derive(Debug, Clone)]
pub struct NamespaceEntry {
    /// Source path for the bind operation.
    pub source: String,
    /// Target path where the source is bound.
    pub target: String,
    /// Mode of the bind operation.
    pub bind_mode: BindMode,
    /// Optional remote node identifier.
    pub remote_node: Option<String>,
}

/// Mathematical view of a [`NamespaceEntry`].
pub struct EntryView {
    pub source: Seq<char>,
    pub target: Seq<char>,
    pub bind_mode: BindMode,
    pub remote_node: Option<Seq<char>>,
}

/// View of an optional string.
pub open spec fn text_view(s: Option<String>) -> Option<Seq<char>> {
    match s {
        Some(t) => Some(t@),
        None => None,
    }
}

impl View for NamespaceEntry {
    type V = EntryView;

    open spec fn view(&self) -> EntryView {
        EntryView {
            source: self.source@,
            target: self.target@,
            bind_mode: self.bind_mode,
            remote_node: text_view(self.remote_node),
        }
    }
}

/// Views of a sequence of namespace entries.
pub open spec fn entry_views(v: Seq<NamespaceEntry>) -> Seq<EntryView> {
    v.map_values(|e: NamespaceEntry| e@)
}

/// Holds of an entry that does not target `t`.
pub open spec fn not_targeting(t: Seq<char>) -> spec_fn(EntryView) -> bool {
    |e: EntryView| e.target != t
}

/// Whether `s` is what the namespace `ns` resolves path `p` to: the source
/// of the most recently appended entry for `p`, or `p` itself when no entry
/// targets it.
pub open spec fn resolves_to(ns: Seq<EntryView>, p: Seq<char>, s: Seq<char>) -> bool {
    ||| exists|i: int|
        0 <= i < ns.len() && ns[i].target == p && s == ns[i].source && forall|j: int|
            i < j < ns.len() ==> #[trigger] ns[j].target != p
    ||| (forall|i: int| 0 <= i < ns.len() ==> #[trigger] ns[i].target != p) && s == p
}

/// Copies an optional string.
pub fn copy_text(s: &Option<String>) -> (r: Option<String>)
    ensures
        text_view(r) == text_view(*s),
{
    match s {
        Some(t) => Some(t.clone()),
        None => None,
    }
}

impl NamespaceEntry {
    /// A copy of the entry.
    pub fn duplicate(&self) -> (r: NamespaceEntry)
        ensures
            r@ == self@,
    {
        NamespaceEntry {
            source: self.source.clone(),
            target: self.target.clone(),
            bind_mode: self.bind_mode,
            remote_node: copy_text(&self.remote_node),
        }
    }
}

/// Why a path could not be resolved.
#[derive(Debug, Clone, Copy, PartialEq, Eq, Structural)]
pub enum NamespaceError {
    /// The path could not be canonicalized.
    PathNotResolvable,
}

/// Manages the namespace and the inode table it materializes into.
pub struct NamespaceManager {
    /// Bind entries in append order.
    pub namespace: Vec<NamespaceEntry>,
    /// Root directory of the filesystem.
    pub root: String,
    /// The inode table.
    pub bindings: InodeTable,
}

impl NamespaceManager {
    /// The inode table is well formed.
    pub open spec fn wf(&self) -> bool {
        self.bindings@.wf()
    }

    /// The namespace as a sequence of entry views.
    pub open spec fn entries(&self) -> Seq<EntryView> {
        entry_views(self.namespace@)
    }

    /// A manager with an empty namespace and a table holding the root alone.
    pub fn new(root: String) -> (r: NamespaceManager)
        ensures
            r.wf(),
            r.entries() == Seq::<EntryView>::empty(),
            r.root@ == root@,
            r.bindings@.entries.len() == 1,
            r.bindings@.next == crate::constants::INITIAL_INODE,
    {
        let r = NamespaceManager { namespace: Vec::new(), root, bindings: InodeTable::new() };
        assert(r.entries() =~= Seq::<EntryView>::empty());
        r
    }

    /// Resolves a canonical path through the namespace: the source of the
    /// most recent entry for that path, or the path itself. Every entry for a
    /// path targets that very path, so the suffix that the bind modes other
    /// than Replace append to the source is empty. `None` stands for a path
    /// that could not be canonicalized.
    pub fn resolve_path(&self, canonical: Option<String>) -> (r: Result<String, NamespaceError>)
        ensures
            canonical.is_none() ==> r == Err::<String, NamespaceError>(NamespaceError::PathNotResolvable),
            canonical.is_some() ==> r.is_ok() && resolves_to(self.entries(), canonical.unwrap()@, r.unwrap()@),
    {
        let path = match canonical {
            Some(p) => p,
            None => return Err(NamespaceError::PathNotResolvable),
        };
        let ghost ns = self.entries();
        let mut i: usize = self.namespace.len();
        while i > 0
            invariant
                i <= ns.len(),
                ns == self.entries(),
                canonical == Some(path),
                forall|j: int| i <= j < ns.len() ==> #[trigger] ns[j].target != path@,
            decreases i,
        {
            i -= 1;
            if self.namespace[i].target == path {
                assert(ns[i as int] == self.namespace@[i as int]@);
                return Ok(self.namespace[i].source.clone());
            }
        }
        Ok(path)
    }

    /// All entries: append order within a target.
    pub fn list_namespace(&self) -> (r: Vec<NamespaceEntry>)
        ensures
            entry_views(r@) == self.entries(),
    {
        let mut out: Vec<NamespaceEntry> = Vec::new();
        let mut i: usize = 0;
        while i < self.namespace.len()
            invariant
                i <= self.namespace@.len(),
                entry_views(out@) == self.entries().take(i as int),
            decreases self.namespace@.len() - i,
        {
            let ghost prev = out@;
            let d = self.namespace[i].duplicate();
            out.push(d);
            assert(self.entries()[i as int] == self.namespace@[i as int]@);
            assert(out@ == prev.push(d));
            assert(entry_views(out@) =~= entry_views(prev).push(d@));
            assert(self.entries().take(i + 1) =~= self.entries().take(i as int).push(self.entries()[i as int]));
            i += 1;
        }
        assert(self.entries().take(i as int) =~= self.entries());
        out
    }

    /// Appends an entry to the namespace.
    pub fn add_entry(&mut self, entry: NamespaceEntry)
        ensures
            final(self).entries() == old(self).entries().push(entry@),
            final(self).root == old(self).root,
            final(self).bindings == old(self).bindings,
    {
        self.namespace.push(entry);
        assert(self.entries() =~= old(self).entries().push(entry@));
    }

    /// Removes every entry that targets `target`.
    pub fn remove_target(&mut self, target: &String)
        ensures
            final(self).entries() == old(self).entries().filter(not_targeting(target@)),
            final(self).root == old(self).root,
            final(self).bindings == old(self).bindings,
    {
        let ghost ns = self.entries();
        let ghost p = not_targeting(target@);
        let mut kept: Vec<NamespaceEntry> = Vec::new();
        let mut i: usize = 0;
        while i < self.namespace.len()
            invariant
                i <= self.namespace@.len(),
                ns == self.entries(),
                p == not_targeting(target@),
                entry_views(kept@) == ns.take(i as int).filter(p),
            decreases self.namespace@.len() - i,
        {
            proof {
                lemma_filter_step(ns, p, i as int);
            }
            if self.namespace[i].target != *target {
                kept.push(self.namespace[i].duplicate());
                assert(entry_views(kept@) =~= ns.take(i as int).filter(p).push(ns[i as int]));
            }
            i += 1;
        }
        assert(ns.take(i as int) =~= ns);
        self.namespace = kept;
    }
}

} // verus!
