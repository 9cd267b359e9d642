//! The protocol surface: the read operations that a filesystem bridge
//! calls, and the 9P style requests over file ids.
//!
//! The namespace is flat: every row of the inode table lives in the root
//! directory. A file id is bound to a path; the row it designates is the
//! first one named like the path's final component, the root for `/`.
use vstd::prelude::*;

use crate::attr::{create_file_attr, FileAttr, FileKind};
use crate::constants::{DEFAULT_GID, DEFAULT_UID, ROOT_INODE};
use crate::namespace::NamespaceManager;
use crate::table::{clip, clipped, first_index, first_named, has_name, lemma_first_index, BindingView, BoundEntry};

verus! {

broadcast use vstd::std_specs::hash::group_hash_axioms;

/// Qid type bit of a directory.
pub const QTDIR: u8 = 0x80;

/// Largest message size the server accepts.
pub const MAX_MSIZE: u32 = 8192;

/// File access flags of an open or create request.
#[derive(Debug, Clone, Copy)]
pub struct OpenFlags(pub u32);

impl OpenFlags {
    /// Read only.
    pub const O_RDONLY: u32 = 0x00;
    /// Write only.
    pub const O_WRONLY: u32 = 0x01;
    /// Read and write.
    pub const O_RDWR: u32 = 0x02;
    /// Execute.
    pub const O_EXEC: u32 = 0x03;
    /// Truncate.
    pub const O_TRUNC: u32 = 0x10;
}

/// Access mode of an open file.
#[derive(Debug, Clone, Copy, PartialEq, Eq, Structural)]
pub enum OpenMode {
    /// Read.
    Read,
    /// Write.
    Write,
    /// Read and write.
    ReadWrite,
    /// Execute.
    Execute,
}

/// Unique identity of a file as the protocol reports it.
#[derive(Debug, Clone, Copy, PartialEq, Eq, Structural)]
pub struct Qid {
    /// Version of the file.
    pub version: u32,
    /// Identity of the file.
    pub path: u64,
    /// Type bits.
    pub file_type: u8,
}

/// File status as the protocol reports it.
#[derive(Debug, Clone)]
pub struct Stat {
    /// Total size of the stat message.
    pub size: u16,
    /// For kernel use.
    pub typ: u16,
    /// For kernel use.
    pub dev: u32,
    /// Unique id from the server.
    pub qid: Qid,
    /// Permissions and flags.
    pub mode: u32,
    /// Last access time.
    pub atime: u32,
    /// Last modification time.
    pub mtime: u32,
    /// Length of the file in bytes.
    pub length: u64,
    /// File name.
    pub name: String,
    /// Owner name.
    pub uid: String,
    /// Group name.
    pub gid: String,
    /// Name of the last modifier.
    pub muid: String,
}

/// Why a protocol request failed.
#[derive(Debug, Clone, Copy, PartialEq, Eq, Structural)]
pub enum ProtoError {
    /// The file id is not bound.
    InvalidFid,
    /// No entry answers to the name.
    NotFound,
    /// Authentication is not part of this server.
    AuthNotRequired,
    /// The namespace root cannot be removed or changed.
    RootImmutable,
}

/// The qid of an entry with attributes `a`.
pub open spec fn qid_of(a: FileAttr) -> Qid {
    Qid { version: 0, path: a.ino, file_type: if a.kind == FileKind::Directory { QTDIR } else { 0 } }
}

/// Index of the last `/` in `p`, or -1.
pub open spec fn last_slash(p: Seq<char>) -> int
    decreases p.len(),
{
    if p.len() == 0 {
        -1
    } else if p.last() == '/' {
        p.len() - 1
    } else {
        last_slash(p.drop_last())
    }
}

/// The final component of path `p`: what follows its last `/`, or all of
/// `p` when it has none.
pub open spec fn final_component(p: Seq<char>) -> Seq<char> {
    p.skip(last_slash(p) + 1)
}

/// The rows with each name cut down to its final component.
pub open spec fn by_component(rows: Seq<BindingView>) -> Seq<BindingView> {
    rows.map_values(|b: BindingView| BindingView { name: final_component(b.name), ..b })
}

/// The name of the row a path designates: its final component, `.` for the root.
pub open spec fn fid_name(p: Seq<char>) -> Seq<char> {
    let c = final_component(p);
    if c.len() == 0 {
        seq!['.']
    } else {
        c
    }
}

/// `p` with `n` appended as one more component.
pub open spec fn join_path(p: Seq<char>, n: Seq<char>) -> Seq<char> {
    if p.len() > 0 && p.last() == '/' {
        p + n
    } else {
        p + seq!['/'] + n
    }
}

/// Views of a sequence of strings.
pub open spec fn name_views(v: Seq<String>) -> Seq<Seq<char>> {
    v.map_values(|n: String| n@)
}

/// The path reached from `start` by appending each of `names` in turn.
pub open spec fn walk_path(start: Seq<char>, names: Seq<Seq<char>>) -> Seq<char>
    decreases names.len(),
{
    if names.len() == 0 {
        start
    } else {
        join_path(walk_path(start, names.drop_last()), names.last())
    }
}

/// Each qid is that of the first row named like the matching name.
pub open spec fn walked(rows: Seq<BindingView>, names: Seq<Seq<char>>, qids: Seq<Qid>) -> bool {
    &&& qids.len() == names.len()
    &&& forall|i: int|
        0 <= i < qids.len() ==> #[trigger] qids[i] == qid_of(rows[first_index(rows, names[i])].attr)
}

/// The content after writing `d` at offset `off` of `c`, zero filled where
/// the write starts past the end.
pub open spec fn written(c: Seq<u8>, off: int, d: Seq<u8>) -> Seq<u8> {
    let end = off + d.len();
    let len = if c.len() < end { end } else { c.len() as int };
    Seq::new(
        len as nat,
        |i: int|
            if off <= i < end {
                d[i - off]
            } else if i < c.len() {
                c[i]
            } else {
                0u8
            },
    )
}

/// One line of a directory listing: identity, kind and name.
pub open spec fn dir_line(b: BindingView) -> (u64, FileKind, Seq<char>) {
    (b.ino, b.attr.kind, b.name)
}

/// The listing of the root: `.` and `..`, then every other row.
pub open spec fn listing(rows: Seq<BindingView>) -> Seq<(u64, FileKind, Seq<char>)> {
    seq![(ROOT_INODE, FileKind::Directory, seq!['.']), (ROOT_INODE, FileKind::Directory, seq!['.', '.'])]
        + rows.skip(1).map_values(|b: BindingView| dir_line(b))
}

/// View of a directory listing.
pub open spec fn lines_view(v: Seq<(u64, FileKind, String)>) -> Seq<(u64, FileKind, Seq<char>)> {
    v.map_values(|l: (u64, FileKind, String)| (l.0, l.1, l.2@))
}

/// `p[k]` is a `/` and no `/` follows it, or `k` is -1 and `p` has none.
proof fn lemma_last_slash(p: Seq<char>, k: int)
    requires
        -1 <= k < p.len(),
        k >= 0 ==> p[k] == '/',
        forall|j: int| k < j < p.len() ==> p[j] != '/',
    ensures
        last_slash(p) == k,
    decreases p.len(),
{
    if p.len() > 0 && k < p.len() - 1 {
        lemma_last_slash(p.drop_last(), k);
    }
}

/// The final component of path `p`: what follows its last `/`.
pub fn component(p: &String) -> (r: String)
    ensures
        r@ == final_component(p@),
{
    let s = p.as_str();
    let len = s.unicode_len();
    let mut i: usize = len;
    let mut done = false;
    while i > 0 && !done
        invariant
            i <= len == p@.len(),
            s@ == p@,
            forall|j: int| i <= j < len ==> p@[j] != '/',
            done ==> i > 0 && p@[i - 1] == '/',
        decreases i + (if done { 0int } else { 1int }),
    {
        if s.get_char(i - 1) == '/' {
            done = true;
        } else {
            i -= 1;
        }
    }
    proof {
        lemma_last_slash(p@, i - 1);
    }
    let tail = s.substring_char(i, len);
    assert(tail@ =~= p@.skip(i as int));
    String::from_str(tail)
}

/// The name of the row that path `p` designates.
pub fn path_name(p: &String) -> (r: String)
    ensures
        r@ == fid_name(p@),
{
    let c = component(p);
    if c.as_str().unicode_len() == 0 {
        proof {
            reveal_strlit(".");
        }
        String::from_str(".")
    } else {
        c
    }
}

/// Path `p` with `n` appended as one more component.
pub fn join(p: &String, n: &String) -> (r: String)
    ensures
        r@ == join_path(p@, n@),
{
    let s = p.as_str();
    let len = s.unicode_len();
    let mut r = p.clone();
    if len == 0 || s.get_char(len - 1) != '/' {
        proof {
            reveal_strlit("/");
        }
        r.append("/");
    }
    r.append(n.as_str());
    r
}

/// Whether two strings hold the same characters.
pub fn same_text(a: &str, b: &str) -> (r: bool)
    ensures
        r == (a@ == b@),
{
    let n = a.unicode_len();
    if n != b.unicode_len() {
        return false;
    }
    let mut i: usize = 0;
    while i < n
        invariant
            n == a@.len() == b@.len(),
            i <= n,
            forall|j: int| 0 <= j < i ==> a@[j] == b@[j],
        decreases n - i,
    {
        if a.get_char(i) != b.get_char(i) {
            return false;
        }
        i += 1;
    }
    assert(a@ =~= b@);
    true
}

/// The protocol server over one namespace.
pub struct NineP {
    /// The namespace and inode table.
    pub namespace_manager: NamespaceManager,
    /// The path each bound file id designates.
    pub fids: std::collections::HashMap<u32, String>,
    /// The negotiated maximum message size.
    pub msize: u32,
    /// The negotiated protocol version.
    pub version: String,
}

impl NineP {
    /// The inode table is well formed.
    pub open spec fn wf(&self) -> bool {
        self.namespace_manager.wf()
    }

    /// The rows of the inode table.
    pub open spec fn rows(&self) -> Seq<BindingView> {
        self.namespace_manager.bindings@.entries
    }

    /// The path each bound file id designates.
    pub open spec fn fid_paths(&self) -> Map<u32, Seq<char>> {
        self.fids@.map_values(|p: String| p@)
    }

    /// The negotiated maximum message size.
    pub open spec fn spec_msize(&self) -> u32 {
        self.msize
    }

    /// The negotiated protocol version.
    pub open spec fn spec_version(&self) -> Seq<char> {
        self.version@
    }

    /// A server over a fresh namespace rooted at `root`.
    pub fn new(root: String) -> (r: NineP)
        ensures
            r.wf(),
            r.namespace_manager.entries().len() == 0,
            r.namespace_manager.root@ == root@,
            r.rows() == seq![crate::table::root_binding()],
            r.namespace_manager.bindings@.next == crate::constants::INITIAL_INODE,
            r.fid_paths() == Map::<u32, Seq<char>>::empty(),
            r.spec_msize() == MAX_MSIZE,
            r.spec_version() == "9P2000"@,
    {
        let fids: std::collections::HashMap<u32, String> = std::collections::HashMap::new();
        let r = NineP {
            namespace_manager: NamespaceManager::new(root),
            fids,
            msize: MAX_MSIZE,
            version: String::from_str("9P2000"),
        };
        assert(r.fid_paths() =~= Map::<u32, Seq<char>>::empty());
        r
    }

    /// Qid of an entry with attributes `attr`.
    pub fn qid_from_attr(attr: &FileAttr) -> (r: Qid)
        ensures
            r == qid_of(*attr),
    {
        Qid {
            version: 0,
            path: attr.ino,
            file_type: if attr.kind == FileKind::Directory { QTDIR } else { 0 },
        }
    }

    /// Negotiates the version and maximum message size: the size is capped
    /// at `MAX_MSIZE`, and any version but `9P2000` is answered `unknown`.
    pub fn version(&mut self, requested_version: &str, msize: u32) -> (r: Result<(u32, String), ProtoError>)
        ensures
            final(self).wf() == old(self).wf(),
            final(self).rows() == old(self).rows(),
            final(self).namespace_manager == old(self).namespace_manager,
            final(self).fid_paths() == old(self).fid_paths(),
            r.is_ok(),
            r.unwrap().0 == (if msize < MAX_MSIZE { msize } else { MAX_MSIZE }),
            r.unwrap().1@ == (if requested_version@ == "9P2000"@ { "9P2000"@ } else { "unknown"@ }),
            final(self).spec_msize() == r.unwrap().0,
            final(self).spec_version() == r.unwrap().1@,
    {
        self.msize = if msize < MAX_MSIZE { msize } else { MAX_MSIZE };
        let version = if same_text(requested_version, "9P2000") {
            String::from_str("9P2000")
        } else {
            String::from_str("unknown")
        };
        self.version = version.clone();
        Ok((self.msize, version))
    }

    /// Authentication is not part of this server: always fails.
    pub fn auth(&mut self, uname: &str, aname: &str, afid: u32) -> (r: Result<Qid, ProtoError>)
        ensures
            r == Err::<Qid, ProtoError>(ProtoError::AuthNotRequired),
            *final(self) == *old(self),
    {
        Err(ProtoError::AuthNotRequired)
    }

    /// Binds `fid` to the root directory.
    pub fn attach(&mut self, fid: u32, afid: Option<u32>, uname: &str, aname: &str) -> (r: Result<Qid, ProtoError>)
        ensures
            r == Ok::<Qid, ProtoError>(Qid { version: 0, path: ROOT_INODE, file_type: QTDIR }),
            final(self).fid_paths() == old(self).fid_paths().insert(fid, "/"@),
            final(self).namespace_manager == old(self).namespace_manager,
            final(self).spec_msize() == old(self).spec_msize(),
    {
        self.fids.insert(fid, String::from_str("/"));
        assert(self.fid_paths() =~= old(self).fid_paths().insert(fid, "/"@));
        Ok(Qid { version: 0, path: ROOT_INODE, file_type: QTDIR })
    }

    /// The path bound to `fid`.
    fn fid_path(&self, fid: u32) -> (r: Option<String>)
        ensures
            match r {
                Some(p) => self.fid_paths().contains_key(fid) && self.fid_paths()[fid] == p@,
                None => !self.fid_paths().contains_key(fid),
            },
    {
        match self.fids.get(&fid) {
            Some(p) => Some(p.clone()),
            None => None,
        }
    }

    /// Walks from `fid` through `wnames`, each resolved to the first row of
    /// that name; binds `newfid` to the path walked when at least one name
    /// was given.
    pub fn walk(&mut self, fid: u32, newfid: u32, wnames: &Vec<String>) -> (r: Result<Vec<Qid>, ProtoError>)
        ensures
            final(self).namespace_manager == old(self).namespace_manager,
            final(self).spec_msize() == old(self).spec_msize(),
            !old(self).fid_paths().contains_key(fid) ==> r == Err::<Vec<Qid>, ProtoError>(ProtoError::InvalidFid),
            old(self).fid_paths().contains_key(fid) && (exists|i: int|
                0 <= i < wnames@.len() && !has_name(old(self).rows(), #[trigger] wnames@[i]@)) ==> r == Err::<
                Vec<Qid>,
                ProtoError,
            >(ProtoError::NotFound),
            r.is_ok() ==> old(self).fid_paths().contains_key(fid),
            r.is_ok() ==> r.unwrap()@.len() == wnames@.len(),
            r.is_ok() ==> walked(old(self).rows(), name_views(wnames@), r.unwrap()@),
            r.is_ok() && wnames@.len() > 0 ==> final(self).fid_paths() == old(self).fid_paths().insert(
                newfid,
                walk_path(old(self).fid_paths()[fid], name_views(wnames@)),
            ),
            !(r.is_ok() && wnames@.len() > 0) ==> final(self).fid_paths() == old(self).fid_paths(),
            r.is_ok() <==> old(self).fid_paths().contains_key(fid) && forall|i: int|
                0 <= i < wnames@.len() ==> has_name(old(self).rows(), #[trigger] wnames@[i]@),
    {
        let start = match self.fid_path(fid) {
            Some(p) => p,
            None => return Err(ProtoError::InvalidFid),
        };
        let ghost names = name_views(wnames@);
        let mut path = start;
        let mut qids: Vec<Qid> = Vec::new();
        let ghost mut ks: Seq<int> = Seq::empty();
        let mut i: usize = 0;
        while i < wnames.len()
            invariant
                i <= wnames@.len(),
                names == name_views(wnames@),
                self.fid_paths().contains_key(fid),
                path@ == walk_path(self.fid_paths()[fid], names.take(i as int)),
                qids@.len() == i,
                forall|j: int| 0 <= j < i ==> has_name(self.rows(), #[trigger] wnames@[j]@),
                ks.len() == i,
                forall|j: int|
                    0 <= j < i ==> first_named(self.rows(), wnames@[j]@, #[trigger] ks[j]) && qids@[j] == qid_of(
                        self.rows()[ks[j]].attr,
                    ),
            decreases wnames@.len() - i,
        {
            match self.namespace_manager.bindings.find_name(&wnames[i]) {
                Some(k) => {
                    let row = self.namespace_manager.bindings.row(k);
                    let q = Self::qid_from_attr(&row.entry.attr);
                    let ghost prev = qids@;
                    qids.push(q);
                    proof {
                        let pks = ks;
                        ks = ks.push(k as int);
                        assert forall|j: int| 0 <= j < i + 1 implies first_named(
                            self.rows(),
                            wnames@[j]@,
                            #[trigger] ks[j],
                        ) && qids@[j] == qid_of(self.rows()[ks[j]].attr) by {
                            if j < i {
                                assert(qids@[j] == prev[j]);
                                assert(ks[j] == pks[j]);
                            }
                        }
                    }
                    path = join(&path, &wnames[i]);
                    proof {
                        assert(names.take(i + 1).drop_last() =~= names.take(i as int));
                        assert(names.take(i + 1).last() == wnames@[i as int]@);
                    }
                    i += 1;
                },
                None => {
                    return Err(ProtoError::NotFound);
                },
            }
        }
        assert(names.take(i as int) =~= names);
        if qids.len() > 0 {
            self.fids.insert(newfid, path);
            assert(self.fid_paths() =~= old(self).fid_paths().insert(newfid, walk_path(old(self).fid_paths()[fid], names)));
        }
        assert forall|j: int| 0 <= j < qids@.len() implies #[trigger] qids@[j] == qid_of(
            old(self).rows()[first_index(old(self).rows(), names[j])].attr,
        ) by {
            lemma_first_index(old(self).rows(), names[j], ks[j]);
        }
        assert(walked(old(self).rows(), names, qids@));
        Ok(qids)
    }

    /// Position of the row that `fid` designates.
    fn fid_row(&self, fid: u32) -> (r: Result<usize, ProtoError>)
        ensures
            !self.fid_paths().contains_key(fid) ==> r == Err::<usize, ProtoError>(ProtoError::InvalidFid),
            self.fid_paths().contains_key(fid) && !has_name(self.rows(), fid_name(self.fid_paths()[fid])) ==> r == Err::<
                usize,
                ProtoError,
            >(ProtoError::NotFound),
            r.is_ok() ==> self.fid_paths().contains_key(fid) && first_named(
                self.rows(),
                fid_name(self.fid_paths()[fid]),
                r.unwrap() as int,
            ),
            r.is_err() ==> (r == Err::<usize, ProtoError>(ProtoError::InvalidFid) && !self.fid_paths().contains_key(fid))
                || (r == Err::<usize, ProtoError>(ProtoError::NotFound) && self.fid_paths().contains_key(fid)
                && !has_name(self.rows(), fid_name(self.fid_paths()[fid]))),
    {
        let path = match self.fid_path(fid) {
            Some(p) => p,
            None => return Err(ProtoError::InvalidFid),
        };
        let name = path_name(&path);
        match self.namespace_manager.bindings.find_name(&name) {
            Some(k) => Ok(k),
            None => Err(ProtoError::NotFound),
        }
    }

    /// Opens the row that `fid` designates.
    pub fn open(&mut self, fid: u32, flags: OpenFlags) -> (r: Result<(Qid, u32), ProtoError>)
        ensures
            *final(self) == *old(self),
            !old(self).fid_paths().contains_key(fid) ==> r == Err::<(Qid, u32), ProtoError>(ProtoError::InvalidFid),
            old(self).fid_paths().contains_key(fid) ==> match r {
                Ok((q, m)) => m == old(self).spec_msize() && exists|k: int|
                    first_named(old(self).rows(), fid_name(old(self).fid_paths()[fid]), k) && q == qid_of(
                        old(self).rows()[k].attr,
                    ),
                Err(e) => e == ProtoError::NotFound && !has_name(
                    old(self).rows(),
                    fid_name(old(self).fid_paths()[fid]),
                ),
            },
    {
        let k = match self.fid_row(fid) {
            Ok(k) => k,
            Err(e) => return Err(e),
        };
        let row = self.namespace_manager.bindings.row(k);
        Ok((Self::qid_from_attr(&row.entry.attr), self.msize))
    }

    /// Creates an empty regular file named `name` under the next identity,
    /// stamped with time `now`.
    pub fn create(&mut self, fid: u32, name: &str, perm: u32, mode: OpenFlags, now: u64) -> (r: Result<
        (Qid, u32),
        ProtoError,
    >)
        requires
            old(self).wf(),
            old(self).namespace_manager.bindings@.next < u64::MAX,
        ensures
            final(self).wf(),
            final(self).fid_paths() == old(self).fid_paths(),
            final(self).namespace_manager.entries() == old(self).namespace_manager.entries(),
            !old(self).fid_paths().contains_key(fid) ==> r == Err::<(Qid, u32), ProtoError>(ProtoError::InvalidFid)
                && final(self).namespace_manager.bindings@ == old(self).namespace_manager.bindings@,
            old(self).fid_paths().contains_key(fid) ==> {
                let ino = old(self).namespace_manager.bindings@.next;
                &&& r == Ok::<(Qid, u32), ProtoError>((Qid { version: 0, path: ino, file_type: 0 }, old(self).spec_msize()))
                &&& final(self).rows() == old(self).rows().push(BindingView {
                    ino,
                    name: name@,
                    attr: FileAttr {
                        ino,
                        size: 0,
                        blocks: 0,
                        atime: now,
                        mtime: now,
                        ctime: now,
                        crtime: now,
                        kind: FileKind::RegularFile,
                        perm: perm as u16,
                        nlink: 1,
                        uid: DEFAULT_UID,
                        gid: DEFAULT_GID,
                        rdev: 0,
                        flags: 0,
                        blksize: 512,
                    },
                    content: Some(Seq::<u8>::empty()),
                })
                &&& final(self).namespace_manager.bindings@.next == ino + 1
            },
    {
        if !self.fids.contains_key(&fid) {
            return Err(ProtoError::InvalidFid);
        }
        let ino = self.namespace_manager.bindings.next_inode();
        let attr = FileAttr {
            ino,
            size: 0,
            blocks: 0,
            atime: now,
            mtime: now,
            ctime: now,
            crtime: now,
            kind: FileKind::RegularFile,
            perm: perm as u16,
            nlink: 1,
            uid: DEFAULT_UID,
            gid: DEFAULT_GID,
            rdev: 0,
            flags: 0,
            blksize: 512,
        };
        let content: Vec<u8> = Vec::new();
        assert(content@ =~= Seq::<u8>::empty());
        let got = self.namespace_manager.bindings.add(String::from_str(name), BoundEntry { attr, content: Some(content) });
        Ok((Qid { version: 0, path: got, file_type: 0 }, self.msize))
    }

    /// Reads up to `count` bytes at `offset` of the row that `fid` designates.
    pub fn read(&self, fid: u32, offset: u64, count: u32) -> (r: Result<Vec<u8>, ProtoError>)
        ensures
            !self.fid_paths().contains_key(fid) ==> r == Err::<Vec<u8>, ProtoError>(ProtoError::InvalidFid),
            self.fid_paths().contains_key(fid) ==> match r {
                Ok(bytes) => exists|k: int|
                    first_named(self.rows(), fid_name(self.fid_paths()[fid]), k) && #[trigger] self.rows()[k].content
                        is Some && bytes@ == clipped(self.rows()[k].content.unwrap(), offset as int, count as int),
                Err(e) => e == ProtoError::NotFound && forall|k: int|
                    first_named(self.rows(), fid_name(self.fid_paths()[fid]), k) ==> #[trigger] self.rows()[k].content
                        is None,
            },
    {
        let k = match self.fid_row(fid) {
            Ok(k) => k,
            Err(e) => return Err(e),
        };
        let row = self.namespace_manager.bindings.row(k);
        assert(self.rows()[k as int].content == crate::table::bytes_view(row.entry.content));
        match &row.entry.content {
            Some(c) => Ok(clip(c, offset, count as u64)),
            None => Err(ProtoError::NotFound),
        }
    }

    /// Closes `fid`.
    pub fn clunk(&mut self, fid: u32) -> (r: Result<(), ProtoError>)
        ensures
            final(self).namespace_manager == old(self).namespace_manager,
            final(self).fid_paths() == old(self).fid_paths().remove(fid),
            r.is_ok() == old(self).fid_paths().contains_key(fid),
            r.is_err() ==> r == Err::<(), ProtoError>(ProtoError::InvalidFid),
    {
        let got = self.fids.remove(&fid);
        assert(self.fid_paths() =~= old(self).fid_paths().remove(fid));
        match got {
            Some(_) => Ok(()),
            None => Err(ProtoError::InvalidFid),
        }
    }

    /// Closes `fid` and removes the row it designates; the root stays.
    pub fn remove(&mut self, fid: u32) -> (r: Result<(), ProtoError>)
        requires
            old(self).wf(),
        ensures
            final(self).wf(),
            final(self).fid_paths() == old(self).fid_paths().remove(fid),
            final(self).namespace_manager.entries() == old(self).namespace_manager.entries(),
            !old(self).fid_paths().contains_key(fid) ==> r == Err::<(), ProtoError>(ProtoError::InvalidFid),
            r.is_err() ==> final(self).rows() == old(self).rows(),
            old(self).fid_paths().contains_key(fid) ==> {
                let n = fid_name(old(self).fid_paths()[fid]);
                &&& !has_name(old(self).rows(), n) ==> r == Err::<(), ProtoError>(ProtoError::NotFound)
                &&& first_named(old(self).rows(), n, 0) ==> r == Err::<(), ProtoError>(ProtoError::RootImmutable)
                &&& has_name(old(self).rows(), n) && first_index(old(self).rows(), n) != 0 ==> r == Ok::<
                    (),
                    ProtoError,
                >(()) && final(self).rows() == old(self).rows().remove(first_index(old(self).rows(), n))
            },
    {
        let k = self.fid_row(fid);
        let _ = self.fids.remove(&fid);
        assert(self.fid_paths() =~= old(self).fid_paths().remove(fid));
        let k = match k {
            Ok(k) => k,
            Err(e) => return Err(e),
        };
        proof {
            lemma_first_index(old(self).rows(), fid_name(old(self).fid_paths()[fid]), k as int);
        }
        if k == 0 {
            return Err(ProtoError::RootImmutable);
        }
        self.namespace_manager.bindings.remove_at(k);
        Ok(())
    }

    /// Status of the row that `fid` designates.
    pub fn stat(&self, fid: u32) -> (r: Result<Stat, ProtoError>)
        ensures
            !self.fid_paths().contains_key(fid) ==> r == Err::<Stat, ProtoError>(ProtoError::InvalidFid),
            self.fid_paths().contains_key(fid) ==> match r {
                Ok(st) => exists|k: int|
                    {
                        let b = #[trigger] self.rows()[k];
                        &&& first_named(self.rows(), fid_name(self.fid_paths()[fid]), k)
                        &&& st.qid == qid_of(b.attr)
                        &&& st.mode == b.attr.perm as u32
                        &&& st.atime == b.attr.atime as u32
                        &&& st.mtime == b.attr.mtime as u32
                        &&& st.length == b.attr.size
                        &&& st.name@ == b.name
                        &&& st.size == 0 && st.typ == 0 && st.dev == 0
                        &&& st.uid@ == "user"@ && st.gid@ == "user"@ && st.muid@ == "user"@
                    },
                Err(e) => e == ProtoError::NotFound && !has_name(self.rows(), fid_name(self.fid_paths()[fid])),
            },
    {
        let k = match self.fid_row(fid) {
            Ok(k) => k,
            Err(e) => return Err(e),
        };
        let row = self.namespace_manager.bindings.row(k);
        let attr = row.entry.attr;
        Ok(Stat {
            size: 0,
            typ: 0,
            dev: 0,
            qid: Self::qid_from_attr(&attr),
            mode: attr.perm as u32,
            atime: attr.atime as u32,
            mtime: attr.mtime as u32,
            length: attr.size,
            name: row.name.clone(),
            uid: String::from_str("user"),
            gid: String::from_str("user"),
            muid: String::from_str("user"),
        })
    }

    /// Sets the permission bits of the row that `fid` designates to the
    /// low bits of `stat.mode`; the root stays as it is.
    pub fn wstat(&mut self, fid: u32, stat: &Stat) -> (r: Result<(), ProtoError>)
        requires
            old(self).wf(),
        ensures
            final(self).wf(),
            final(self).fid_paths() == old(self).fid_paths(),
            final(self).namespace_manager.entries() == old(self).namespace_manager.entries(),
            !old(self).fid_paths().contains_key(fid) ==> r == Err::<(), ProtoError>(ProtoError::InvalidFid),
            r.is_err() ==> final(self).rows() == old(self).rows(),
            old(self).fid_paths().contains_key(fid) ==> {
                let n = fid_name(old(self).fid_paths()[fid]);
                &&& !has_name(old(self).rows(), n) ==> r == Err::<(), ProtoError>(ProtoError::NotFound)
                &&& first_named(old(self).rows(), n, 0) ==> r == Err::<(), ProtoError>(ProtoError::RootImmutable)
                &&& has_name(old(self).rows(), n) && first_index(old(self).rows(), n) != 0 ==> {
                    let k = first_index(old(self).rows(), n);
                    &&& r == Ok::<(), ProtoError>(())
                    &&& final(self).rows() == old(self).rows().update(
                        k,
                        BindingView {
                            attr: FileAttr { perm: stat.mode as u16, ..old(self).rows()[k].attr },
                            ..old(self).rows()[k]
                        },
                    )
                }
            },
    {
        let k = match self.fid_row(fid) {
            Ok(k) => k,
            Err(e) => return Err(e),
        };
        proof {
            lemma_first_index(self.rows(), fid_name(self.fid_paths()[fid]), k as int);
        }
        if k == 0 {
            return Err(ProtoError::RootImmutable);
        }
        self.namespace_manager.bindings.set_perm(k, stat.mode as u16);
        Ok(())
    }

    /// Writes `data` at `offset` of the row that `fid` designates and
    /// answers how many bytes were written.
    pub fn write(&mut self, fid: u32, offset: u64, data: &Vec<u8>) -> (r: Result<u32, ProtoError>)
        requires
            old(self).wf(),
            offset + data@.len() <= usize::MAX,
        ensures
            final(self).wf(),
            final(self).fid_paths() == old(self).fid_paths(),
            final(self).namespace_manager.entries() == old(self).namespace_manager.entries(),
            !old(self).fid_paths().contains_key(fid) ==> r == Err::<u32, ProtoError>(ProtoError::InvalidFid),
            r.is_err() ==> final(self).rows() == old(self).rows(),
            old(self).fid_paths().contains_key(fid) ==> {
                let n = fid_name(old(self).fid_paths()[fid]);
                let k = first_index(old(self).rows(), n);
                &&& !has_name(old(self).rows(), n) ==> r == Err::<u32, ProtoError>(ProtoError::NotFound)
                &&& has_name(old(self).rows(), n) && old(self).rows()[k].content is None ==> r == Err::<
                    u32,
                    ProtoError,
                >(ProtoError::NotFound)
                &&& has_name(old(self).rows(), n) && old(self).rows()[k].content is Some ==> {
                    &&& r == Ok::<u32, ProtoError>(data@.len() as u32)
                    &&& final(self).rows() == old(self).rows().update(
                        k,
                        BindingView {
                            content: Some(written(old(self).rows()[k].content.unwrap(), offset as int, data@)),
                            ..old(self).rows()[k]
                        },
                    )
                }
            },
    {
        let k = match self.fid_row(fid) {
            Ok(k) => k,
            Err(e) => return Err(e),
        };
        proof {
            lemma_first_index(self.rows(), fid_name(self.fid_paths()[fid]), k as int);
        }
        let row = self.namespace_manager.bindings.row(k);
        assert(self.rows()[k as int].content == crate::table::bytes_view(row.entry.content));
        let c = match &row.entry.content {
            Some(c) => c,
            None => return Err(ProtoError::NotFound),
        };
        let off = offset as usize;
        let end = off + data.len();
        let len = if c.len() < end { end } else { c.len() };
        let mut out: Vec<u8> = Vec::new();
        let mut i: usize = 0;
        while i < len
            invariant
                i <= len,
                len == (if c@.len() < end { end as int } else { c@.len() as int }),
                end == off + data@.len(),
                out@ == written(c@, off as int, data@).take(i as int),
            decreases len - i,
        {
            let b = if off <= i && i < end {
                data[i - off]
            } else if i < c.len() {
                c[i]
            } else {
                0u8
            };
            out.push(b);
            i += 1;
            assert(out@ =~= written(c@, off as int, data@).take(i as int));
        }
        assert(out@ =~= written(c@, off as int, data@));
        proof {
            assert(self.rows()[0].content is None);
        }
        self.namespace_manager.bindings.set_content(k, out);
        Ok(data.len() as u32)
    }

    /// Attributes of the first entry whose final name component is `name`;
    /// only the root, which holds every entry, is searched.
    pub fn lookup(&self, parent: u64, name: &String) -> (r: Option<FileAttr>)
        ensures
            r == (if parent == ROOT_INODE && has_name(by_component(self.rows()), name@) {
                Some(self.rows()[first_index(by_component(self.rows()), name@)].attr)
            } else {
                None
            }),
    {
        if parent != ROOT_INODE {
            return None;
        }
        let ghost cs = by_component(self.rows());
        let n = self.namespace_manager.bindings.len();
        let mut i: usize = 0;
        while i < n
            invariant
                i <= n == self.rows().len() == cs.len(),
                cs == by_component(self.rows()),
                parent == ROOT_INODE,
                forall|k: int| 0 <= k < i ==> #[trigger] cs[k].name != name@,
            decreases n - i,
        {
            let row = self.namespace_manager.bindings.row(i);
            let c = component(&row.name);
            assert(cs[i as int].name == final_component(self.rows()[i as int].name));
            if c == *name {
                proof {
                    assert(cs[i as int].name == name@);
                    lemma_first_index(cs, name@, i as int);
                    assert(self.rows()[i as int] == row@);
                    assert(has_name(cs, name@));
                }
                return Some(row.entry.attr);
            }
            i += 1;
        }
        None
    }

    /// Attributes of the entry with identity `ino`.
    pub fn getattr(&self, ino: u64) -> (r: Option<FileAttr>)
        ensures
            match r {
                Some(a) => exists|i: int| 0 <= i < self.rows().len() && self.rows()[i].ino == ino && #[trigger] self.rows()[i].attr == a,
                None => forall|i: int| 0 <= i < self.rows().len() ==> #[trigger] self.rows()[i].ino != ino,
            },
    {
        match self.namespace_manager.bindings.position(ino) {
            Some(i) => {
                let a = self.namespace_manager.bindings.row(i).entry.attr;
                assert(self.rows()[i as int].attr == a);
                Some(a)
            },
            None => None,
        }
    }

    /// Up to `size` bytes at `offset` of the entry with identity `ino`; none
    /// for an unknown identity or an entry without content.
    pub fn read_data(&self, ino: u64, offset: u64, size: u32) -> (r: Option<Vec<u8>>)
        requires
            self.wf(),
        ensures
            match r {
                Some(bytes) => exists|i: int|
                    0 <= i < self.rows().len() && self.rows()[i].ino == ino && #[trigger] self.rows()[i].content is Some
                        && bytes@ == clipped(self.rows()[i].content.unwrap(), offset as int, size as int),
                None => forall|i: int| 0 <= i < self.rows().len() && self.rows()[i].ino == ino ==> #[trigger] self.rows()[i].content is None,
            },
    {
        match self.namespace_manager.bindings.position(ino) {
            Some(i) => {
                let row = self.namespace_manager.bindings.row(i);
                assert(self.rows()[i as int].content == crate::table::bytes_view(row.entry.content));
                match &row.entry.content {
                    Some(c) => Some(clip(c, offset, size as u64)),
                    None => {
                        proof {
                            assert forall|j: int| 0 <= j < self.rows().len() && self.rows()[j].ino == ino implies #[trigger] self.rows()[j].content is None by {
                                if j != i as int {
                                    if j < i as int {
                                        assert(self.rows()[j].ino < self.rows()[i as int].ino);
                                    } else {
                                        assert(self.rows()[i as int].ino < self.rows()[j].ino);
                                    }
                                }
                            }
                        }
                        None
                    },
                }
            },
            None => None,
        }
    }

    /// Lists the root: `.` and `..`, then every other entry; only the root
    /// is a directory that can be listed.
    pub fn readdir(&self, ino: u64) -> (r: Option<Vec<(u64, FileKind, String)>>)
        requires
            self.wf(),
        ensures
            match r {
                Some(lines) => ino == ROOT_INODE && lines_view(lines@) == listing(self.rows()),
                None => ino != ROOT_INODE,
            },
    {
        if ino != ROOT_INODE {
            return None;
        }
        let mut out: Vec<(u64, FileKind, String)> = Vec::new();
        let dot = String::from_str(".");
        let dotdot = String::from_str("..");
        proof {
            reveal_strlit(".");
            reveal_strlit("..");
            assert(dot@ =~= seq!['.']);
            assert(dotdot@ =~= seq!['.', '.']);
        }
        out.push((ROOT_INODE, FileKind::Directory, dot));
        out.push((ROOT_INODE, FileKind::Directory, dotdot));
        let ghost rest = self.rows().skip(1).map_values(|b: BindingView| dir_line(b));
        let ghost head = seq![(ROOT_INODE, FileKind::Directory, seq!['.']), (ROOT_INODE, FileKind::Directory, seq!['.', '.'])];
        assert(lines_view(out@) =~= head);
        let n = self.namespace_manager.bindings.len();
        let mut i: usize = 1;
        while i < n
            invariant
                1 <= i <= n,
                n == self.rows().len(),
                rest == self.rows().skip(1).map_values(|b: BindingView| dir_line(b)),
                lines_view(out@) == head + rest.take(i - 1),
            decreases n - i,
        {
            let row = self.namespace_manager.bindings.row(i);
            let ghost prev = out@;
            let name = row.name.clone();
            out.push((row.ino, row.entry.attr.kind, name));
            proof {
                assert(self.rows()[i as int] == row@);
                assert(lines_view(out@) =~= lines_view(prev).push((row.ino, row.entry.attr.kind, row.name@)));
                assert(rest[i - 1] == dir_line(self.rows()[i as int]));
                assert(rest.take(i as int) =~= rest.take(i - 1).push(rest[i - 1]));
                assert(lines_view(out@) =~= head + rest.take(i as int));
            }
            i += 1;
        }
        assert(rest.take(n - 1) =~= rest);
        Some(out)
    }

    /// Nothing is queued, so there is nothing to flush.
    pub fn flush(&mut self, oldtag: u16) -> (r: Result<(), ProtoError>)
        ensures
            r.is_ok(),
            *final(self) == *old(self),
    {
        Ok(())
    }
}

} // verus!
