//! The bounded cache of exported Workspace documents. Evicting frees the
//! exported bytes but keeps the revision each document was exported at, so
//! that a later export of the same revision can be recognized.
use vstd::prelude::*;
use crate::sync_run::opt_text;
use crate::text::str_eq;

verus! {

broadcast use vstd::string::group_string_axioms;

/// One cached export: the file, its revision, and its bytes unless evicted.
pub struct CachedWorkspaceExport {
    pub file_id: String,
    pub version: Option<String>,
    pub content: Option<Vec<u8>>,
}

/// The number of bytes an entry holds.
pub open spec fn held_bytes(e: CachedWorkspaceExport) -> nat {
    match e.content {
        Some(c) => c@.len(),
        None => 0,
    }
}

/// The number of bytes all entries hold.
pub open spec fn total_held(entries: Seq<CachedWorkspaceExport>) -> nat
    decreases entries.len(),
{
    if entries.len() == 0 {
        0
    } else {
        total_held(entries.drop_last()) + held_bytes(entries.last())
    }
}

/// The cache of exported Workspace documents, keyed by file identifier.
pub struct WorkspaceExportCache {
    entries: Vec<CachedWorkspaceExport>,
}

/// No two entries share a file identifier.
pub open spec fn distinct_files(entries: Seq<CachedWorkspaceExport>) -> bool {
    forall|i: int, j: int| 0 <= i < j < entries.len() ==> entries[i].file_id@ != entries[j].file_id@
}

/// `after` keeps the entries of `before`, in order, each with its identifier
/// and revision, and either its bytes or none.
pub open spec fn evicts_only_bytes(before: Seq<CachedWorkspaceExport>, after: Seq<CachedWorkspaceExport>) -> bool {
    &&& after.len() == before.len()
    &&& forall|i: int| 0 <= i < before.len() ==> {
        &&& (#[trigger] after[i]).file_id@ == before[i].file_id@
        &&& opt_text(after[i].version) == opt_text(before[i].version)
        &&& (after[i].content is None || after[i].content == before[i].content)
    }
}

proof fn lemma_total_update(entries: Seq<CachedWorkspaceExport>, i: int, e: CachedWorkspaceExport)
    requires
        0 <= i < entries.len(),
    ensures
        total_held(entries.update(i, e)) + held_bytes(entries[i]) == total_held(entries) + held_bytes(e),
    decreases entries.len(),
{
    let u = entries.update(i, e);
    if i == entries.len() - 1 {
        assert(u.drop_last() == entries.drop_last());
    } else {
        lemma_total_update(entries.drop_last(), i, e);
        assert(u.drop_last() == entries.drop_last().update(i, e));
    }
}

proof fn lemma_total_remove(entries: Seq<CachedWorkspaceExport>, i: int)
    requires
        0 <= i < entries.len(),
    ensures
        total_held(entries.remove(i)) + held_bytes(entries[i]) == total_held(entries),
    decreases entries.len(),
{
    if i == entries.len() - 1 {
        assert(entries.remove(i) == entries.drop_last());
    } else {
        lemma_total_remove(entries.drop_last(), i);
        assert(entries.remove(i).drop_last() == entries.drop_last().remove(i));
    }
}

proof fn lemma_total_push(entries: Seq<CachedWorkspaceExport>, e: CachedWorkspaceExport)
    ensures
        total_held(entries.push(e)) == total_held(entries) + held_bytes(e),
{
    assert(entries.push(e).drop_last() == entries);
}

proof fn lemma_total_zero(entries: Seq<CachedWorkspaceExport>)
    requires
        forall|i: int| 0 <= i < entries.len() ==> entries[i].content is None,
    ensures
        total_held(entries) == 0,
    decreases entries.len(),
{
    if entries.len() > 0 {
        lemma_total_zero(entries.drop_last());
    }
}

impl WorkspaceExportCache {
    /// The entries in insertion order.
    pub closed spec fn entries(&self) -> Seq<CachedWorkspaceExport> {
        self.entries@
    }

    /// Entries have distinct file identifiers.
    pub closed spec fn wf(&self) -> bool {
        distinct_files(self.entries@)
    }

    /// An empty cache.
    pub fn new() -> (c: WorkspaceExportCache)
        ensures
            c.wf(),
            c.entries().len() == 0,
    {
        WorkspaceExportCache { entries: Vec::new() }
    }

    /// The position of the entry for `file_id`.
    fn position(&self, file_id: &str) -> (r: Option<usize>)
        ensures
            r matches Some(k) ==> k < self.entries@.len() && self.entries@[k as int].file_id@ == file_id@,
            r is None ==> forall|k: int| 0 <= k < self.entries@.len() ==> self.entries@[k].file_id@ != file_id@,
    {
        let n = self.entries.len();
        for k in 0..n
            invariant
                n == self.entries@.len(),
                forall|j: int| 0 <= j < k ==> self.entries@[j].file_id@ != file_id@,
        {
            if str_eq(self.entries[k].file_id.as_str(), file_id) {
                return Some(k);
            }
        }
        None
    }

    /// The entry for `file_id`, if the cache has one.
    pub fn entry(&self, file_id: &str) -> (r: Option<&CachedWorkspaceExport>)
        requires
            self.wf(),
        ensures
            match r {
                Some(e) => e.file_id@ == file_id@
                    && (exists|k: int| 0 <= k < self.entries().len() && self.entries()[k] == *e)
                    && forall|k: int| 0 <= k < self.entries().len() && self.entries()[k].file_id@ == file_id@ ==> self.entries()[k] == *e,
                None => forall|k: int| 0 <= k < self.entries().len() ==> self.entries()[k].file_id@ != file_id@,
            },
    {
        match self.position(file_id) {
            Some(k) => {
                proof {
                    assert forall|j: int| 0 <= j < self.entries@.len() && self.entries@[j].file_id@ == file_id@ implies self.entries@[j] == self.entries@[k as int] by {
                        if j < k {
                            assert(self.entries@[j].file_id@ != self.entries@[k as int].file_id@);
                        } else if j > k {
                            assert(self.entries@[k as int].file_id@ != self.entries@[j].file_id@);
                        }
                    }
                }
                Some(&self.entries[k])
            },
            None => None,
        }
    }

    /// The cached bytes for `file_id` when they were exported at `version`.
    pub fn lookup(&self, file_id: &str, version: &Option<String>) -> (r: Option<Vec<u8>>)
        requires
            self.wf(),
        ensures
            match r {
                Some(bytes) => exists|k: int| 0 <= k < self.entries().len() && self.entries()[k].file_id@ == file_id@
                    && opt_text(self.entries()[k].version) == opt_text(*version)
                    && (self.entries()[k].content matches Some(c) && c@ == bytes@),
                None => forall|k: int| 0 <= k < self.entries().len() && self.entries()[k].file_id@ == file_id@
                    ==> opt_text(self.entries()[k].version) != opt_text(*version) || self.entries()[k].content is None,
            },
    {
        match self.position(file_id) {
            None => None,
            Some(k) => {
                let entry = &self.entries[k];
                let same = match (&entry.version, version) {
                    (Some(a), Some(b)) => str_eq(a.as_str(), b.as_str()),
                    (None, None) => true,
                    _ => false,
                };
                if !same {
                    return None;
                }
                match &entry.content {
                    Some(bytes) => Some(bytes.clone()),
                    None => None,
                }
            },
        }
    }

    /// Records the export of `file_id` at `version`: the old entry for the
    /// file goes, other entries give up their bytes (never their revision)
    /// until the new bytes fit under `max_bytes`, and the new bytes are kept
    /// only if they fit at all.
    pub fn insert(&mut self, file_id: String, version: Option<String>, content: Vec<u8>, max_bytes: usize)
        requires
            old(self).wf(),
        ensures
            final(self).wf(),
            final(self).entries().len() >= 1,
            ({
                let after = final(self).entries();
                let last = after.last();
                &&& last.file_id@ == file_id@
                &&& opt_text(last.version) == opt_text(version)
                &&& (content@.len() <= max_bytes ==> last.content == Some(content))
                &&& (content@.len() > max_bytes ==> last.content is None)
                &&& exists|others: Seq<CachedWorkspaceExport>| {
                    &&& (forall|k: int| 0 <= k < others.len() ==> others[k].file_id@ != file_id@)
                    &&& (forall|k: int| 0 <= k < old(self).entries().len() && old(self).entries()[k].file_id@ != file_id@
                        ==> others.contains(old(self).entries()[k]))
                    &&& others.len() + 1 == after.len()
                    &&& evicts_only_bytes(others, after.drop_last())
                    &&& (total_held(others) + content@.len() <= max_bytes ==> after.drop_last() == others)
                }
                &&& (content@.len() <= max_bytes ==> total_held(after) <= max_bytes)
            }),
    {
        let ghost before = self.entries@;
        if let Some(k) = self.position(file_id.as_str()) {
            self.entries.remove(k);
            proof {
                assert forall|a: int, b: int| 0 <= a < b < self.entries@.len() implies self.entries@[a].file_id@ != self.entries@[b].file_id@ by {
                    let a2 = if a < k { a } else { a + 1 };
                    let b2 = if b < k { b } else { b + 1 };
                    assert(self.entries@[a] == before[a2]);
                    assert(self.entries@[b] == before[b2]);
                }
                assert forall|j: int| 0 <= j < before.len() && before[j].file_id@ != file_id@ implies self.entries@.contains(before[j]) by {
                    if j < k {
                        assert(self.entries@[j] == before[j]);
                    } else {
                        assert(j != k);
                        assert(self.entries@[j - 1] == before[j]);
                    }
                }
            }
        } else {
            proof {
                assert forall|j: int| 0 <= j < before.len() && before[j].file_id@ != file_id@ implies self.entries@.contains(before[j]) by {
                    assert(self.entries@[j] == before[j]);
                }
            }
        }
        let ghost others = self.entries@;
        let n = self.entries.len();
        let mut total: u128 = 0;
        for k in 0..n
            invariant
                n == self.entries@.len(),
                self.entries@ == others,
                total as nat == total_held(others.take(k as int)),
                total <= k * 0x1_0000_0000_0000_0000,
        {
            let held: usize = match &self.entries[k].content {
                Some(c) => c.len(),
                None => 0,
            };
            proof {
                assert(others.take(k + 1).drop_last() == others.take(k as int));
            }
            total = total + held as u128;
        }
        proof {
            assert(others.take(n as int) == others);
        }
        let needed = content.len();
        let mut i: usize = 0;
        while i < n && (total > u128::MAX - needed as u128 || total + needed as u128 > max_bytes as u128)
            invariant
                n == self.entries@.len(),
                i <= n,
                total as nat == total_held(self.entries@),
                total <= total_held(others),
                distinct_files(self.entries@),
                forall|k: int| 0 <= k < n ==> self.entries@[k].file_id@ != file_id@,
                evicts_only_bytes(others, self.entries@),
                forall|k: int| 0 <= k < i ==> self.entries@[k].content is None,
                total_held(others) + needed <= max_bytes ==> self.entries@ == others,
            decreases n - i,
        {
            let ghost prior = self.entries@;
            let held: usize = match &self.entries[i].content {
                Some(c) => c.len(),
                None => 0,
            };
            let empty: Option<Vec<u8>> = None;
            self.entries[i].content = empty;
            proof {
                let e = CachedWorkspaceExport { content: None, ..prior[i as int] };
                assert(self.entries@ == prior.update(i as int, e));
                lemma_total_update(prior, i as int, e);
                assert forall|a: int, b: int| 0 <= a < b < n implies self.entries@[a].file_id@ != self.entries@[b].file_id@ by {
                    assert(self.entries@[a].file_id@ == prior[a].file_id@);
                    assert(self.entries@[b].file_id@ == prior[b].file_id@);
                }
            }
            total = total - held as u128;
            i = i + 1;
        }
        proof {
            if i == n {
                lemma_total_zero(self.entries@);
            }
        }
        let kept = if needed <= max_bytes { Some(content) } else { None };
        let ghost prior = self.entries@;
        let entry = CachedWorkspaceExport { file_id, version, content: kept };
        proof {
            lemma_total_push(prior, entry);
        }
        self.entries.push(entry);
        proof {
            assert(self.entries@.drop_last() == prior);
            assert forall|a: int, b: int| 0 <= a < b < self.entries@.len() implies self.entries@[a].file_id@ != self.entries@[b].file_id@ by {
                assert(self.entries@[a] == prior[a]);
                if b < self.entries@.len() - 1 {
                    assert(self.entries@[b] == prior[b]);
                }
            }
        }
    }
}

impl WorkspaceExportCache {
    /// Records that `file_id` is now at `version` with no bytes cached: the
    /// old entry for the file goes and the new one comes last.
    pub fn record_version(&mut self, file_id: String, version: Option<String>)
        requires
            old(self).wf(),
        ensures
            final(self).wf(),
            final(self).entries().len() >= 1,
            final(self).entries().last().file_id@ == file_id@,
            opt_text(final(self).entries().last().version) == opt_text(version),
            final(self).entries().last().content is None,
            forall|k: int| 0 <= k < old(self).entries().len() && old(self).entries()[k].file_id@ == file_id@
                ==> final(self).entries().drop_last() == old(self).entries().remove(k),
            (forall|k: int| 0 <= k < old(self).entries().len() ==> old(self).entries()[k].file_id@ != file_id@)
                ==> final(self).entries().drop_last() == old(self).entries(),
    {
        let ghost before = self.entries@;
        match self.position(file_id.as_str()) {
            Some(k) => {
                self.entries.remove(k);
                proof {
                    assert forall|j: int| 0 <= j < before.len() && before[j].file_id@ == file_id@ implies j == k by {
                        if j != k {
                            if j < k {
                                assert(before[j].file_id@ != before[k as int].file_id@);
                            } else {
                                assert(before[k as int].file_id@ != before[j].file_id@);
                            }
                        }
                    }
                }
            },
            None => {},
        }
        let ghost prior = self.entries@;
        proof {
            assert forall|a: int, b: int| 0 <= a < b < prior.len() implies prior[a].file_id@ != prior[b].file_id@ by {
                if prior.len() < before.len() {
                    let k = choose|k: int| 0 <= k < before.len() && before[k].file_id@ == file_id@ && prior == before.remove(k);
                    let a2 = if a < k { a } else { a + 1 };
                    let b2 = if b < k { b } else { b + 1 };
                    assert(prior[a] == before[a2]);
                    assert(prior[b] == before[b2]);
                }
            }
            assert forall|j: int| 0 <= j < prior.len() implies prior[j].file_id@ != file_id@ by {
                if prior.len() < before.len() {
                    let k = choose|k: int| 0 <= k < before.len() && before[k].file_id@ == file_id@ && prior == before.remove(k);
                    let j2 = if j < k { j } else { j + 1 };
                    assert(prior[j] == before[j2]);
                    assert(before[j2].file_id@ != before[k].file_id@);
                }
            }
        }
        self.entries.push(CachedWorkspaceExport { file_id, version, content: None });
        proof {
            assert(self.entries@.drop_last() == prior);
            assert forall|a: int, b: int| 0 <= a < b < self.entries@.len() implies self.entries@[a].file_id@ != self.entries@[b].file_id@ by {
                assert(self.entries@[a] == prior[a]);
                if b < self.entries@.len() - 1 {
                    assert(self.entries@[b] == prior[b]);
                }
            }
        }
    }
}

} // verus!
