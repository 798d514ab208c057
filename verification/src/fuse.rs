//! The read-only FUSE mount: the table that gives each remote path a stable
//! inode number, the attributes a remote item is shown with, the entries of
//! a directory listing and the ranges that reads ask for.
use vstd::prelude::*;
use crate::bridge::last_slash;
use crate::path::{parse_outcome, RemotePath};
use crate::storage::{ByteRange, RemoteEntry, RemoteMetadata};
use crate::text::{chars_of, str_eq, string_from_chars};

verus! {

broadcast use vstd::string::group_string_axioms;

/// How the file system is mounted. The mount point is the local folder's text.
#[derive(Debug, Clone)]
pub struct FuseConfig {
    pub mountpoint: String,
    pub filesystem_name: String,
}

/// Why mounting failed.
#[derive(Debug)]
pub enum FuseError {
    UnsupportedPlatform,
    Mount(String),
    Runtime(String),
}

/// The text of a mount error.
pub open spec fn fuse_error_text(error: FuseError) -> Seq<char> {
    match error {
        FuseError::UnsupportedPlatform => "Linux FUSE is available only on Linux"@,
        FuseError::Mount(detail) => "FUSE mount failed: "@ + detail@,
        FuseError::Runtime(detail) => "FUSE runtime initialization failed: "@ + detail@,
    }
}

impl FuseError {
    /// The text of the error.
    pub fn message(&self) -> (out: String)
        ensures
            out@ == fuse_error_text(*self),
    {
        match self {
            FuseError::UnsupportedPlatform => String::from_str("Linux FUSE is available only on Linux"),
            FuseError::Mount(detail) => {
                let mut out = String::from_str("FUSE mount failed: ");
                out.append(detail.as_str());
                out
            },
            FuseError::Runtime(detail) => {
                let mut out = String::from_str("FUSE runtime initialization failed: ");
                out.append(detail.as_str());
                out
            },
        }
    }
}

/// The inode of the mount's root directory.
pub const ROOT_INODE: u64 = 1;

/// The inode numbers handed out so far, each naming one remote path.
pub struct InodeTable {
    paths: Vec<(u64, RemotePath)>,
    next_inode: u64,
    model: Ghost<Map<u64, Seq<char>>>,
}

impl View for InodeTable {
    type V = Map<u64, Seq<char>>;

    closed spec fn view(&self) -> Map<u64, Seq<char>> {
        self.model@
    }
}

impl InodeTable {
    /// The inode the next new path receives.
    pub closed spec fn spec_next_inode(&self) -> u64 {
        self.next_inode
    }

    /// The table is consistent: every inode names one path and no two inodes
    /// name the same path; all inodes are below the next one; the root inode
    /// names the root.
    pub closed spec fn wf(&self) -> bool {
        &&& self.next_inode >= 2
        &&& forall|i: int| 0 <= i < self.paths@.len() ==> {
            &&& self.model@.contains_key(#[trigger] self.paths@[i].0)
            &&& self.model@[self.paths@[i].0] == self.paths@[i].1@
        }
        &&& forall|k: u64| self.model@.contains_key(k) ==> exists|i: int| 0 <= i < self.paths@.len() && #[trigger] self.paths@[i].0 == k
        &&& forall|a: u64, b: u64| self.model@.contains_key(a) && self.model@.contains_key(b) && a != b ==> #[trigger] self.model@[a] != #[trigger] self.model@[b]
        &&& forall|k: u64| self.model@.contains_key(k) ==> 1 <= k < self.next_inode
        &&& self.model@.contains_key(ROOT_INODE)
        &&& self.model@[ROOT_INODE] == Seq::<char>::empty()
    }

    /// A table that knows only the root.
    pub fn new() -> (t: InodeTable)
        ensures
            t.wf(),
            t@ == map![ROOT_INODE => Seq::<char>::empty()],
            t.spec_next_inode() == ROOT_INODE + 1,
    {
        let mut paths: Vec<(u64, RemotePath)> = Vec::new();
        paths.push((ROOT_INODE, RemotePath::root()));
        let ghost model = map![ROOT_INODE => Seq::<char>::empty()];
        let t = InodeTable { paths, next_inode: ROOT_INODE + 1, model: Ghost(model) };
        proof {
            assert forall|k: u64| t.model@.contains_key(k) implies exists|i: int| 0 <= i < t.paths@.len() && #[trigger] t.paths@[i].0 == k by {
                assert(t.paths@[0].0 == k);
            }
        }
        t
    }

    /// The position in the table of `path`, if it has an inode.
    fn find_path(&self, path: &str) -> (r: Option<usize>)
        requires
            self.wf(),
        ensures
            match r {
                Some(i) => i < self.paths@.len() && self.paths@[i as int].1@ == path@,
                None => forall|k: u64| self.model@.contains_key(k) ==> self@[k] != path@,
            },
    {
        let n = self.paths.len();
        for i in 0..n
            invariant
                n == self.paths@.len(),
                self.wf(),
                forall|j: int| 0 <= j < i ==> self.paths@[j].1@ != path@,
        {
            if str_eq(self.paths[i].1.as_str(), path) {
                return Some(i);
            }
        }
        proof {
            assert forall|k: u64| self.model@.contains_key(k) implies self@[k] != path@ by {
                let i = choose|i: int| 0 <= i < self.paths@.len() && #[trigger] self.paths@[i].0 == k;
            }
        }
        None
    }

    /// The inode of `path`: the one it already has, or the next unused one,
    /// which is then recorded for it.
    pub fn inode_for(&mut self, path: RemotePath) -> (r: u64)
        requires
            old(self).wf(),
            old(self).spec_next_inode() < u64::MAX,
        ensures
            final(self).wf(),
            old(self)@ <= final(self)@,
            if exists|k: u64| old(self)@.contains_key(k) && old(self)@[k] == path@ {
                &&& old(self)@.contains_key(r)
                &&& old(self)@[r] == path@
                &&& final(self)@ == old(self)@
                &&& final(self).spec_next_inode() == old(self).spec_next_inode()
            } else {
                &&& r == old(self).spec_next_inode()
                &&& final(self)@ == old(self)@.insert(r, path@)
                &&& final(self).spec_next_inode() == r + 1
            },
    {
        match self.find_path(path.as_str()) {
            Some(i) => {
                let inode = self.paths[i].0;
                proof {
                    assert(self.model@.contains_key(self.paths@[i as int].0));
                }
                inode
            },
            None => {
                let inode = self.next_inode;
                let ghost old_model = self.model@;
                let ghost old_paths = self.paths@;
                let ghost p = path@;
                proof {
                    assert forall|k: u64| old_model.contains_key(k) implies old_model[k] != p by {
                        assert(self@[k] != path@);
                    }
                }
                self.paths.push((inode, path));
                self.next_inode = inode + 1;
                let ghost new_model = old_model.insert(inode, p);
                self.model = Ghost(new_model);
                proof {
                    assert(!old_model.contains_key(inode));
                    assert forall|i: int| 0 <= i < self.paths@.len() implies {
                        &&& self.model@.contains_key(#[trigger] self.paths@[i].0)
                        &&& self.model@[self.paths@[i].0] == self.paths@[i].1@
                    } by {
                        if i < old_paths.len() {
                            assert(self.paths@[i] == old_paths[i]);
                        }
                    }
                    assert forall|k: u64| self.model@.contains_key(k) implies exists|i: int| 0 <= i < self.paths@.len() && #[trigger] self.paths@[i].0 == k by {
                        if k == inode {
                            assert(self.paths@[old_paths.len() as int].0 == k);
                        } else {
                            let i = choose|i: int| 0 <= i < old_paths.len() && #[trigger] old_paths[i].0 == k;
                            assert(self.paths@[i].0 == k);
                        }
                    }
                    assert forall|a: u64, b: u64| self.model@.contains_key(a) && self.model@.contains_key(b) && a != b implies #[trigger] self.model@[a] != #[trigger] self.model@[b] by {
                        if a != inode && b != inode {
                            assert(old_model[a] != old_model[b]);
                        } else if a == inode {
                            assert(old_model[b] != p);
                        } else {
                            assert(old_model[a] != p);
                        }
                    }
                }
                inode
            },
        }
    }

    /// The path of `inode`, if it has been handed out.
    pub fn path_for(&self, inode: u64) -> (r: Option<RemotePath>)
        requires
            self.wf(),
        ensures
            match r {
                Some(p) => self@.contains_key(inode) && p@ == self@[inode],
                None => !self@.contains_key(inode),
            },
    {
        let n = self.paths.len();
        for i in 0..n
            invariant
                n == self.paths@.len(),
                self.wf(),
                forall|j: int| 0 <= j < i ==> self.paths@[j].0 != inode,
        {
            if self.paths[i].0 == inode {
                proof {
                    assert(self.model@.contains_key(self.paths@[i as int].0));
                }
                return Some(self.paths[i].1.duplicate());
            }
        }
        proof {
            if self.model@.contains_key(inode) {
                let i = choose|i: int| 0 <= i < self.paths@.len() && #[trigger] self.paths@[i].0 == inode;
            }
        }
        None
    }

    /// Whether `inode` has been handed out.
    pub fn contains(&self, inode: u64) -> (r: bool)
        requires
            self.wf(),
        ensures
            r == self@.contains_key(inode),
    {
        self.path_for(inode).is_some()
    }

    /// The inode a listing of `inode` (whose path is `path`) reports as `..`:
    /// the root for the root; else the inode of the path before the last `/`
    /// when that parses and has an inode; else the root.
    pub fn parent_inode(&self, inode: u64, path: &RemotePath) -> (r: u64)
        requires
            self.wf(),
        ensures
            r == ROOT_INODE || self@.contains_key(r),
            inode == ROOT_INODE ==> r == ROOT_INODE,
            inode != ROOT_INODE ==> match last_slash(path@) {
                Some(k) => match parse_outcome(path@.take(k)) {
                    Ok(parent) => if exists|j: u64| self@.contains_key(j) && self@[j] == parent {
                        self@.contains_key(r) && self@[r] == parent
                    } else {
                        r == ROOT_INODE
                    },
                    Err(_) => r == ROOT_INODE,
                },
                None => r == ROOT_INODE,
            },
    {
        if inode == ROOT_INODE {
            return ROOT_INODE;
        }
        let chars = chars_of(path.as_str());
        let n = chars.len();
        let mut k: usize = n;
        while k > 0 && chars[k - 1] != '/'
            invariant
                k <= n == chars@.len(),
                chars@ == path@,
                forall|j: int| k <= j < n ==> chars@[j] != '/',
            decreases k,
        {
            k = k - 1;
        }
        proof {
            crate::bridge::lemma_last_slash(chars@, k as int);
        }
        if k == 0 {
            return ROOT_INODE;
        }
        let mut before: Vec<char> = Vec::new();
        for i in 0..k - 1
            invariant
                1 <= k <= n == chars@.len(),
                before@ == chars@.take(i as int),
        {
            before.push(chars[i]);
            proof {
                assert(chars@.take(i + 1) == chars@.take(i as int).push(chars@[i as int]));
            }
        }
        let text = string_from_chars(before.as_slice());
        let ghost slash = (k - 1) as int;
        proof {
            assert(last_slash(path@) == Some(slash));
            assert(text@ == path@.take(slash));
        }
        match RemotePath::parse(text.as_str()) {
            Ok(parent) => {
                proof {
                    assert(parse_outcome(path@.take(slash)) == Ok::<Seq<char>, crate::path::PathIssue>(parent@));
                }
                match self.find_path(parent.as_str()) {
                    Some(i) => {
                        proof {
                            assert(self.model@.contains_key(self.paths@[i as int].0));
                            assert(self@[self.paths@[i as int].0] == parent@);
                        }
                        self.paths[i].0
                    },
                    None => {
                        proof {
                            assert(!exists|j: u64| self@.contains_key(j) && self@[j] == parent@);
                        }
                        ROOT_INODE
                    },
                }
            },
            Err(_) => {
                proof {
                    assert(parse_outcome(path@.take(slash)) is Err);
                }
                ROOT_INODE
            },
        }
    }
}

/// Distinct inodes of a consistent table name distinct paths.
pub proof fn lemma_inodes_name_distinct_paths(t: InodeTable, a: u64, b: u64)
    requires
        t.wf(),
        t@.contains_key(a),
        t@.contains_key(b),
        t@[a] == t@[b],
    ensures
        a == b,
{
    if a != b {
        assert(t.model@[a] != t.model@[b]);
    }
}

/// The root inode of a consistent table always names the root path.
pub proof fn lemma_root_inode_is_root(t: InodeTable)
    requires
        t.wf(),
    ensures
        t@.contains_key(ROOT_INODE),
        t@[ROOT_INODE] == Seq::<char>::empty(),
{
}

/// The attributes a remote item is shown with.
#[derive(Debug, Clone, Copy, PartialEq, Eq, Structural)]
pub struct FileAttributes {
    pub inode: u64,
    pub size: u64,
    pub blocks: u64,
    pub is_directory: bool,
    pub perm: u16,
    pub nlink: u32,
    pub uid: u32,
    pub gid: u32,
    pub blksize: u32,
}

/// The number of 512-byte blocks that `size` bytes occupy, rounded up.
pub open spec fn blocks_for(size: u64) -> u64 {
    (size / 512 + if size % 512 == 0 { 0u64 } else { 1u64 }) as u64
}

/// The attributes of `metadata` under `inode`: an unknown size is zero;
/// directories are `r-xr-xr-x` and files `r--r--r--`, owned by root, with one
/// link and 4096-byte blocks.
pub fn attributes(inode: u64, metadata: &RemoteMetadata) -> (a: FileAttributes)
    ensures
        a.inode == inode,
        a.size == match metadata.size_bytes {
            Some(s) => s,
            None => 0,
        },
        a.blocks == blocks_for(a.size),
        a.is_directory == metadata.is_directory,
        a.perm == if metadata.is_directory { 0o555u16 } else { 0o444u16 },
        a.nlink == 1,
        a.uid == 0 && a.gid == 0,
        a.blksize == 4096,
{
    let size = match metadata.size_bytes {
        Some(s) => s,
        None => 0,
    };
    let blocks = size / 512 + if size % 512 == 0 { 0 } else { 1 };
    FileAttributes {
        inode,
        size,
        blocks,
        is_directory: metadata.is_directory,
        perm: if metadata.is_directory { 0o555 } else { 0o444 },
        nlink: 1,
        uid: 0,
        gid: 0,
        blksize: 4096,
    }
}

/// One entry of a directory listing.
#[derive(Debug)]
pub struct DirectoryEntry {
    pub inode: u64,
    pub is_directory: bool,
    pub name: String,
}

/// The last component of a path: what follows its last `/`.
pub open spec fn last_component(p: Seq<char>) -> Seq<char> {
    match last_slash(p) {
        Some(k) => p.skip(k + 1),
        None => p,
    }
}

/// The last component of a path.
fn last_component_of(path: &str) -> (r: String)
    ensures
        r@ == last_component(path@),
{
    let chars = chars_of(path);
    let n = chars.len();
    let mut k: usize = n;
    while k > 0 && chars[k - 1] != '/'
        invariant
            k <= n == chars@.len(),
            chars@ == path@,
            forall|j: int| k <= j < n ==> chars@[j] != '/',
        decreases k,
    {
        k = k - 1;
    }
    proof {
        crate::bridge::lemma_last_slash(chars@, k as int);
    }
    let mut name: Vec<char> = Vec::new();
    for i in k..n
        invariant
            k <= n == chars@.len(),
            name@ == chars@.subrange(k as int, i as int),
    {
        name.push(chars[i]);
        proof {
            assert(chars@.subrange(k as int, i + 1) == chars@.subrange(k as int, i as int).push(chars@[i as int]));
        }
    }
    proof {
        assert(chars@.subrange(k as int, n as int) == chars@.skip(k as int));
        assert(chars@.skip(0) == chars@);
    }
    string_from_chars(name.as_slice())
}

impl InodeTable {
    /// The entries of the listing of directory `inode` (path `path`): `.` and
    /// `..` first, then each listed item under its inode (handed out as
    /// needed) and its last path component, in listing order.
    pub fn directory_entries(&mut self, inode: u64, path: &RemotePath, listing: Vec<RemoteEntry>) -> (out: Vec<DirectoryEntry>)
        requires
            old(self).wf(),
            old(self).spec_next_inode() + listing@.len() < u64::MAX,
        ensures
            final(self).wf(),
            old(self)@ <= final(self)@,
            out@.len() == listing@.len() + 2,
            out@[0].inode == inode && out@[0].is_directory && out@[0].name@ == "."@,
            out@[1].is_directory && out@[1].name@ == ".."@,
            forall|i: int| 0 <= i < listing@.len() ==> {
                &&& final(self)@.contains_key(#[trigger] out@[i + 2].inode)
                &&& final(self)@[out@[i + 2].inode] == listing@[i].metadata.path@
                &&& out@[i + 2].is_directory == listing@[i].metadata.is_directory
                &&& out@[i + 2].name@ == last_component(listing@[i].metadata.path@)
            },
    {
        let parent = self.parent_inode(inode, path);
        let mut out: Vec<DirectoryEntry> = Vec::new();
        out.push(DirectoryEntry { inode, is_directory: true, name: String::from_str(".") });
        out.push(DirectoryEntry { inode: parent, is_directory: true, name: String::from_str("..") });
        proof {
            reveal_strlit(".");
            reveal_strlit("..");
        }
        let ghost start = self@;
        let ghost start_next = self.spec_next_inode();
        let mut rest = listing;
        let ghost original = rest@;
        let n = rest.len();
        let mut i: usize = 0;
        while i < n
            invariant
                n == original.len(),
                i <= n,
                rest@ == original.skip(i as int),
                self.wf(),
                start <= self@,
                self.spec_next_inode() <= start_next + i,
                start_next + n < u64::MAX,
                out@.len() == i + 2,
                out@[0].inode == inode && out@[0].is_directory && out@[0].name@ == "."@,
                out@[1].is_directory && out@[1].name@ == ".."@,
                forall|j: int| 0 <= j < i ==> {
                    &&& self@.contains_key(#[trigger] out@[j + 2].inode)
                    &&& self@[out@[j + 2].inode] == original[j].metadata.path@
                    &&& out@[j + 2].is_directory == original[j].metadata.is_directory
                    &&& out@[j + 2].name@ == last_component(original[j].metadata.path@)
                },
            decreases n - i,
        {
            let entry = rest.remove(0);
            proof {
                assert(entry == original[i as int]);
                assert(rest@ =~= original.skip(i + 1));
            }
            let name = last_component_of(entry.metadata.path.as_str());
            let is_directory = entry.metadata.is_directory;
            let ghost before = self@;
            let entry_inode = self.inode_for(entry.metadata.path);
            proof {
                assert forall|k: u64| start.contains_key(k) implies self@.contains_key(k) && self@[k] == start[k] by {
                    assert(before.contains_key(k));
                }
                assert(start <= self@);
                assert forall|j: int| 0 <= j < i implies {
                    &&& self@.contains_key(#[trigger] out@[j + 2].inode)
                    &&& self@[out@[j + 2].inode] == original[j].metadata.path@
                } by {
                    assert(before.contains_key(out@[j + 2].inode));
                }
            }
            out.push(DirectoryEntry { inode: entry_inode, is_directory, name });
            i = i + 1;
        }
        out
    }
}

/// The entries of a listing from position `offset` on (a negative offset is
/// the start), each with the offset that follows it.
pub fn entries_from_offset(entries: Vec<DirectoryEntry>, offset: i64) -> (out: Vec<(i64, DirectoryEntry)>)
    requires
        entries@.len() < i64::MAX,
    ensures
        ({
            let skip: int = if offset < 0 { 0 } else if offset > entries@.len() { entries@.len() as int } else { offset as int };
            &&& out@.len() == entries@.len() - skip
            &&& forall|j: int| 0 <= j < out@.len() ==> #[trigger] out@[j].0 == skip + j + 1 && out@[j].1 == entries@[skip + j]
        }),
{
    let n = entries.len();
    let skip: usize = if offset < 0 { 0 } else if offset as u64 > n as u64 { n } else { offset as usize };
    let mut rest = entries;
    let ghost original = rest@;
    let mut out: Vec<(i64, DirectoryEntry)> = Vec::new();
    let mut i: usize = 0;
    while i < n
        invariant
            n == original.len() < i64::MAX,
            skip <= n,
            i <= n,
            rest@ == original.skip(i as int),
            out@.len() == if i <= skip { 0 } else { i - skip },
            forall|j: int| 0 <= j < out@.len() ==> #[trigger] out@[j].0 == skip + j + 1 && out@[j].1 == original[skip + j],
        decreases n - i,
    {
        let entry = rest.remove(0);
        proof {
            assert(entry == original[i as int]);
            assert(rest@ =~= original.skip(i + 1));
        }
        if i >= skip {
            out.push(((i + 1) as i64, entry));
        }
        i = i + 1;
    }
    out
}

/// The byte range a read of `size` bytes at `offset` asks for; a negative
/// offset is refused.
pub fn read_range(offset: i64, size: u32) -> (r: Option<ByteRange>)
    ensures
        offset < 0 ==> r is None,
        offset >= 0 ==> r == Some(ByteRange { start: offset as u64, end: (offset + size) as u64 }),
{
    if offset < 0 {
        None
    } else {
        let start = offset as u64;
        Some(ByteRange { start, end: start + size as u64 })
    }
}

} // verus!
