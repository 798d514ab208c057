//! MEGA: the tree of nodes that a session fetches, held as values, and how
//! a remote path is found in it below the connection's start folder; what a
//! node's metadata says, what a listing gives, which part of a download a
//! ranged read keeps, and the storage quota.
use vstd::prelude::*;
use crate::immich::joined;
use crate::path::{parse_outcome, path_issue_text, RemotePath};
use crate::roots::{mega_normalize_root_path, mega_start, string_views};
use crate::storage::{ByteRange, RemoteEntry, RemoteMetadata, StorageCapacity};
use crate::sync_run::opt_text;
use crate::text::str_eq;
use crate::webdav::{metadata_view, EntryView};

verus! {

broadcast use vstd::string::group_string_axioms;

/// What a MEGA node is.
#[derive(Debug, Clone, Copy, PartialEq, Eq, Structural)]
pub enum MegaNodeKind {
    File,
    Folder,
    Root,
    Inbox,
    Trash,
    Unknown,
}

/// A node of a MEGA account: its handle, name, kind, size, the handles of
/// its children, and when it was last changed (RFC 3339 text).
#[derive(Debug)]
pub struct MegaNode {
    pub handle: String,
    pub name: String,
    pub kind: MegaNodeKind,
    pub size: u64,
    pub children: Vec<String>,
    pub modified_at: Option<String>,
}

/// The nodes of a MEGA account, and which of them is the cloud drive's root.
#[derive(Debug)]
pub struct MegaTree {
    pub nodes: Vec<MegaNode>,
    pub cloud_drive: Option<usize>,
}

impl MegaTree {
    /// The root is one of the nodes, and no two nodes share a handle.
    pub open spec fn wf(&self) -> bool {
        &&& (self.cloud_drive matches Some(r) ==> r < self.nodes@.len())
        &&& forall|i: int, j: int| 0 <= i < j < self.nodes@.len() ==> #[trigger] self.nodes@[i].handle@ != #[trigger] self.nodes@[j].handle@
    }
}

/// The position of the node with a handle, if any.
pub open spec fn node_with(nodes: Seq<MegaNode>, handle: Seq<char>) -> Option<int> {
    if exists|k: int| 0 <= k < nodes.len() && #[trigger] nodes[k].handle@ == handle {
        Some(choose|k: int| 0 <= k < nodes.len() && #[trigger] nodes[k].handle@ == handle)
    } else {
        None
    }
}

/// The node with a handle.
pub fn find_node(tree: &MegaTree, handle: &str) -> (r: Option<usize>)
    requires
        tree.wf(),
    ensures
        r matches Some(x) ==> x < tree.nodes@.len() && node_with(tree.nodes@, handle@) == Some(x as int),
        r is None ==> node_with(tree.nodes@, handle@) is None,
{
    for k in 0..tree.nodes.len()
        invariant
            tree.wf(),
            forall|j: int| 0 <= j < k ==> #[trigger] tree.nodes@[j].handle@ != handle@,
    {
        if str_eq(tree.nodes[k].handle.as_str(), handle) {
            proof {
                let c = choose|c: int| 0 <= c < tree.nodes@.len() && #[trigger] tree.nodes@[c].handle@ == handle@;
                if c != k {
                    if c < k {
                        assert(tree.nodes@[c].handle@ != tree.nodes@[k as int].handle@);
                    } else {
                        assert(tree.nodes@[k as int].handle@ != tree.nodes@[c].handle@);
                    }
                }
            }
            return Some(k);
        }
    }
    None
}

/// Whether a handle names an existing node with a name.
pub open spec fn names_child(nodes: Seq<MegaNode>, handle: Seq<char>, name: Seq<char>) -> bool {
    node_with(nodes, handle) matches Some(c) && nodes[c].name@ == name
}

/// The first child of a node, in the order of its handles, that exists and
/// has a name.
pub open spec fn child_named(nodes: Seq<MegaNode>, parent: int, name: Seq<char>) -> Option<int> {
    let handles = nodes[parent].children@;
    if exists|h: int| 0 <= h < handles.len() && #[trigger] names_child(nodes, handles[h]@, name) {
        let h = choose|h: int| 0 <= h < handles.len() && #[trigger] names_child(nodes, handles[h]@, name)
            && forall|g: int| 0 <= g < h ==> !(#[trigger] names_child(nodes, handles[g]@, name));
        node_with(nodes, handles[h]@)
    } else {
        None
    }
}

/// The node reached from `node` by following the names in order.
pub open spec fn walk(nodes: Seq<MegaNode>, node: int, names: Seq<Seq<char>>) -> Option<int>
    decreases names.len(),
{
    if names.len() == 0 {
        Some(node)
    } else {
        match child_named(nodes, node, names[0]) {
            Some(c) => walk(nodes, c, names.drop_first()),
            None => None,
        }
    }
}

/// One step of a walk: the first name leads to the child with that name.
proof fn lemma_walk_step(nodes: Seq<MegaNode>, node: int, names: Seq<Seq<char>>)
    requires
        names.len() > 0,
    ensures
        walk(nodes, node, names) == match child_named(nodes, node, names[0]) {
            Some(c) => walk(nodes, c, names.drop_first()),
            None => None,
        },
{
}

/// Where a path's lookup ends: the node at the path below the cloud drive,
/// or why there is none.
pub open spec fn lookup_outcome(tree: MegaTree, path: Seq<char>) -> Result<int, Seq<char>> {
    match mega_start(path) {
        None => Err("MEGA start path cannot contain '..'"@),
        Some(names) => match tree.cloud_drive {
            None => Err("MEGA cloud drive root is unavailable"@),
            Some(r) => match walk(tree.nodes@, r as int, names) {
                Some(n) => Ok(n),
                None => Err("MEGA path not found: "@ + path),
            },
        },
    }
}

/// The first child of `parent` with `name`.
pub fn find_child(tree: &MegaTree, parent: usize, name: &str) -> (r: Option<usize>)
    requires
        tree.wf(),
        parent < tree.nodes@.len(),
    ensures
        r matches Some(x) ==> x < tree.nodes@.len() && child_named(tree.nodes@, parent as int, name@) == Some(x as int),
        r is None ==> child_named(tree.nodes@, parent as int, name@) is None,
{
    let ghost nodes = tree.nodes@;
    let ghost handles = nodes[parent as int].children@;
    let n = tree.nodes[parent].children.len();
    for h in 0..n
        invariant
            tree.wf(),
            parent < tree.nodes@.len(),
            nodes == tree.nodes@,
            handles == nodes[parent as int].children@,
            n == handles.len(),
            forall|g: int| 0 <= g < h ==> !(#[trigger] names_child(nodes, handles[g]@, name@)),
    {
        let found = find_node(tree, tree.nodes[parent].children[h].as_str());
        proof {
            assert(handles[h as int]@ == tree.nodes@[parent as int].children@[h as int]@);
        }
        if let Some(c) = found {
            if str_eq(tree.nodes[c].name.as_str(), name) {
                proof {
                    assert(names_child(nodes, handles[h as int]@, name@));
                    let w = choose|w: int| 0 <= w < handles.len() && #[trigger] names_child(nodes, handles[w]@, name@)
                        && forall|g: int| 0 <= g < w ==> !(#[trigger] names_child(nodes, handles[g]@, name@));
                    if w > h {
                        assert(!names_child(nodes, handles[h as int]@, name@));
                    }
                }
                return Some(c);
            }
        }
    }
    None
}

/// Finds the node at a path below the cloud drive: each name of the path
/// (as a start folder is read) is looked up among the children of the node
/// before.
pub fn node_for_path(tree: &MegaTree, path: &RemotePath) -> (r: Result<usize, String>)
    requires
        tree.wf(),
    ensures
        match lookup_outcome(*tree, path@) {
            Ok(n) => r == Ok::<usize, String>(n as usize),
            Err(m) => r matches Err(e) && e@ == m,
        },
{
    let names = mega_normalize_root_path(path.as_str())?;
    let root = match tree.cloud_drive {
        None => return Err(String::from_str("MEGA cloud drive root is unavailable")),
        Some(r) => r,
    };
    match walk_names(tree, root, &names) {
        Some(node) => Ok(node),
        None => {
            let mut message = String::from_str("MEGA path not found: ");
            message.append(path.as_str());
            Err(message)
        },
    }
}

/// Follows names from a node, each to the first child with that name.
pub fn walk_names(tree: &MegaTree, start: usize, names: &Vec<String>) -> (r: Option<usize>)
    requires
        tree.wf(),
        start < tree.nodes@.len(),
    ensures
        r matches Some(x) ==> walk(tree.nodes@, start as int, string_views(names@)) == Some(x as int),
        r is None ==> walk(tree.nodes@, start as int, string_views(names@)) is None,
{
    let ghost all = string_views(names@);
    let ghost nodes = tree.nodes@;
    proof {
        assert(all.skip(0) =~= all);
    }
    let mut node = start;
    for k in 0..names.len()
        invariant
            tree.wf(),
            nodes == tree.nodes@,
            node < nodes.len(),
            all == string_views(names@),
            walk(nodes, start as int, all) == walk(nodes, node as int, all.skip(k as int)),
    {
        let ghost rest = all.skip(k as int);
        proof {
            assert(rest[0] == names@[k as int]@);
            assert(rest.drop_first() =~= all.skip(k + 1));
            lemma_walk_step(nodes, node as int, rest);
        }
        match find_child(tree, node, names[k].as_str()) {
            Some(c) => {
                node = c;
            },
            None => {
                return None;
            },
        }
    }
    proof {
        assert(all.skip(names@.len() as int) =~= Seq::<Seq<char>>::empty());
    }
    Some(node)
}

/// A path below the connection's start folder: the start folder's names and
/// the path's names (each read as a start folder is) joined by `/` and
/// parsed, or why that is refused.
pub open spec fn joined_outcome(root_path: Seq<char>, path: Seq<char>) -> Result<Seq<char>, Seq<char>> {
    match mega_start(root_path) {
        None => Err("MEGA start path cannot contain '..'"@),
        Some(root) => match mega_start(path) {
            None => Err("MEGA start path cannot contain '..'"@),
            Some(child) => {
                let text = joined(root + child, "/"@);
                match parse_outcome(text) {
                    Ok(p) => Ok(p),
                    Err(issue) => Err(path_issue_text(text, issue)),
                }
            },
        },
    }
}

/// The path below the connection's start folder.
pub fn joined_path(root_path: &str, path: &RemotePath) -> (r: Result<RemotePath, String>)
    ensures
        match joined_outcome(root_path@, path@) {
            Ok(p) => r matches Ok(x) && x@ == p,
            Err(m) => r matches Err(e) && e@ == m,
        },
{
    let root = mega_normalize_root_path(root_path)?;
    let child = mega_normalize_root_path(path.as_str())?;
    let ghost names = string_views(root@) + string_views(child@);
    let mut all = root;
    let ghost first = all@;
    for j in 0..child.len()
        invariant
            string_views(all@) == string_views(first) + string_views(child@).take(j as int),
    {
        let ghost prior = all@;
        all.push(String::from_str(child[j].as_str()));
        proof {
            assert(string_views(all@) =~= string_views(prior).push(child@[j as int]@));
            assert(string_views(child@).take(j + 1) =~= string_views(child@).take(j as int).push(child@[j as int]@));
        }
    }
    proof {
        assert(string_views(child@).take(child@.len() as int) =~= string_views(child@));
        assert(string_views(all@) =~= names);
    }
    let mut text = String::new();
    let total = all.len();
    proof {
        reveal_strlit("/");
        assert(names.take(0) =~= Seq::<Seq<char>>::empty());
    }
    for k in 0..total
        invariant
            total == all@.len(),
            names == string_views(all@),
            text@ == joined(names.take(k as int), "/"@),
    {
        let piece = all[k].as_str();
        proof {
            assert(names[k as int] == piece@);
            assert(names.take(k + 1).drop_last() =~= names.take(k as int));
            assert(names.take(k + 1).last() == piece@);
            if k == 0 {
                assert(names.take(1)[0] == piece@);
            }
        }
        if k > 0 {
            text.append("/");
        }
        text.append(piece);
    }
    proof {
        assert(names.take(total as int) =~= names);
    }
    let parsed = RemotePath::parse(text.as_str());
    proof {
        if parsed is Err {
            let e = parsed->Err_0;
            assert(crate::error::bifrost_error_text(e) =~= path_issue_text(text@, parse_outcome(text@)->Err_0));
        }
    }
    match parsed {
        Ok(p) => Ok(p),
        Err(e) => Err(e.message()),
    }
}

/// The metadata of a node at `path`: folders and the root are directories,
/// only files have a size, and a node with no known change time is given
/// `now`.
pub fn node_metadata(path: RemotePath, node: &MegaNode, now: &str) -> (m: RemoteMetadata)
    ensures
        m.path@ == path@,
        m.is_directory == (node.kind == MegaNodeKind::Folder || node.kind == MegaNodeKind::Root),
        m.size_bytes == if node.kind == MegaNodeKind::File { Some(node.size) } else { None },
        m.etag is None,
        opt_text(m.modified_at) == Some(
            match node.modified_at {
                Some(t) => t@,
                None => now@,
            },
        ),
{
    let modified_at = match &node.modified_at {
        Some(t) => String::from_str(t.as_str()),
        None => String::from_str(now),
    };
    RemoteMetadata {
        path,
        is_directory: node.kind == MegaNodeKind::Folder || node.kind == MegaNodeKind::Root,
        size_bytes: if node.kind == MegaNodeKind::File { Some(node.size) } else { None },
        etag: None,
        modified_at: Some(modified_at),
    }
}

/// The part of a downloaded file of `len` bytes that a read keeps: all of
/// it, or the range cut to the file (empty where the range starts past
/// its end or is reversed).
pub open spec fn download_window(len: u64, range: Option<ByteRange>) -> (u64, u64) {
    match range {
        None => (0, len),
        Some(r) => {
            let start = if r.start < len { r.start } else { len };
            let end = if r.end < len { r.end } else { len };
            (start, if end < start { start } else { end })
        },
    }
}

/// The part of a downloaded file that a read keeps, as positions.
pub fn download_window_of(len: u64, range: Option<ByteRange>) -> (r: (u64, u64))
    ensures
        r == download_window(len, range),
        r.0 <= r.1 <= len,
{
    match range {
        None => (0, len),
        Some(b) => {
            let start = if b.start < len { b.start } else { len };
            let end = if b.end < len { b.end } else { len };
            (start, if end < start { start } else { end })
        },
    }
}

/// The capacity that the account's quota gives: the total, and the total
/// less what is used (none below zero).
pub fn mega_capacity(memory_total: u64, memory_used: u64) -> (r: StorageCapacity)
    ensures
        r.total_bytes == memory_total,
        r.available_bytes == if memory_used <= memory_total { (memory_total - memory_used) as u64 } else { 0 },
{
    StorageCapacity { total_bytes: memory_total, available_bytes: memory_total.saturating_sub(memory_used) }
}

/// What a node gives at a path, as values.
pub open spec fn node_entry(node: MegaNode, path: Seq<char>, now: Seq<char>) -> EntryView {
    EntryView {
        path,
        is_directory: node.kind == MegaNodeKind::Folder || node.kind == MegaNodeKind::Root,
        size_bytes: if node.kind == MegaNodeKind::File { Some(node.size) } else { None },
        etag: None,
        modified_at: Some(
            match node.modified_at {
                Some(t) => t@,
                None => now,
            },
        ),
    }
}

/// The path of a child named `name` below `path`, or why it is refused.
pub open spec fn child_path_outcome(path: Seq<char>, name: Seq<char>) -> Result<Seq<char>, Seq<char>> {
    let candidate = if path.len() == 0 { name } else { path + seq!['/'] + name };
    match parse_outcome(candidate) {
        Ok(p) => Ok(p),
        Err(issue) => Err(path_issue_text(candidate, issue)),
    }
}

/// The entries of the children whose handles name a node, in order, below
/// `path`; the first child whose path is refused refuses the listing.
pub open spec fn listing_outcome(nodes: Seq<MegaNode>, handles: Seq<String>, path: Seq<char>, now: Seq<char>) -> Result<Seq<EntryView>, Seq<char>>
    decreases handles.len(),
{
    if handles.len() == 0 {
        Ok(Seq::empty())
    } else {
        match listing_outcome(nodes, handles.drop_last(), path, now) {
            Err(m) => Err(m),
            Ok(before) => match node_with(nodes, handles.last()@) {
                None => Ok(before),
                Some(c) => match child_path_outcome(path, nodes[c].name@) {
                    Err(m) => Err(m),
                    Ok(p) => Ok(before.push(node_entry(nodes[c], p, now))),
                },
            },
        }
    }
}

/// Once a listing is refused, the refusal stands.
proof fn lemma_listing_refusal_stands(nodes: Seq<MegaNode>, handles: Seq<String>, path: Seq<char>, now: Seq<char>, k: int)
    requires
        0 <= k <= handles.len(),
        listing_outcome(nodes, handles.take(k), path, now) is Err,
    ensures
        listing_outcome(nodes, handles, path, now) == listing_outcome(nodes, handles.take(k), path, now),
    decreases handles.len() - k,
{
    if k == handles.len() {
        assert(handles.take(k) =~= handles);
    } else {
        assert(handles.drop_last().take(k) =~= handles.take(k));
        lemma_listing_refusal_stands(nodes, handles.drop_last(), path, now, k);
    }
}

/// The entries of a node's children below `path`, each changed at its own
/// time or else `now`.
pub fn mega_listing(tree: &MegaTree, parent: usize, path: &RemotePath, now: &str) -> (r: Result<Vec<RemoteEntry>, String>)
    requires
        tree.wf(),
        parent < tree.nodes@.len(),
    ensures
        match listing_outcome(tree.nodes@, tree.nodes@[parent as int].children@, path@, now@) {
            Ok(entries) => r matches Ok(v) && crate::s3::metadata_views(v@) == entries,
            Err(m) => r matches Err(e) && e@ == m,
        },
{
    let ghost nodes = tree.nodes@;
    let ghost handles = nodes[parent as int].children@;
    let mut out: Vec<RemoteEntry> = Vec::new();
    let n = tree.nodes[parent].children.len();
    proof {
        assert(handles.take(0) =~= Seq::<String>::empty());
        assert(crate::s3::metadata_views(out@) =~= Seq::<EntryView>::empty());
    }
    for h in 0..n
        invariant
            tree.wf(),
            parent < tree.nodes@.len(),
            nodes == tree.nodes@,
            handles == nodes[parent as int].children@,
            n == handles.len(),
            listing_outcome(nodes, handles.take(h as int), path@, now@) == Ok::<Seq<EntryView>, Seq<char>>(crate::s3::metadata_views(out@)),
    {
        proof {
            assert(handles.take(h + 1).drop_last() =~= handles.take(h as int));
            assert(handles.take(h + 1).last() == handles[h as int]);
        }
        let found = find_node(tree, tree.nodes[parent].children[h].as_str());
        if let Some(c) = found {
            let joined = path.join(tree.nodes[c].name.as_str());
            proof {
                if joined is Err {
                    let e = joined->Err_0;
                    let name = nodes[c as int].name@;
                    let candidate = if path@.len() == 0 { name } else { path@ + seq!['/'] + name };
                    assert(crate::error::bifrost_error_text(e) =~= path_issue_text(candidate, parse_outcome(candidate)->Err_0));
                }
            }
            match joined {
                Ok(child_path) => {
                    let ghost prior = out@;
                    let metadata = node_metadata(child_path, &tree.nodes[c], now);
                    out.push(RemoteEntry { metadata });
                    proof {
                        assert(crate::s3::metadata_views(out@) =~= crate::s3::metadata_views(prior).push(metadata_view(metadata)));
                    }
                },
                Err(e) => {
                    proof {
                        lemma_listing_refusal_stands(nodes, handles, path@, now@, h + 1);
                    }
                    return Err(e.message());
                },
            }
        }
    }
    proof {
        assert(handles.take(n as int) =~= handles);
    }
    Ok(out)
}

} // verus!
