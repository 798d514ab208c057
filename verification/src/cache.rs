//! The index of locally cached files: where a remote file is cached, which
//! copies exist, and which are evicted, least recently used first, when the
//! cache grows past its limit. Pinned copies and copies with an active
//! transfer are never evicted. The files themselves are moved and deleted by
//! the caller.
use vstd::prelude::*;
use vstd::utf8::encode_utf8;
use sha2::Digest;
use crate::bridge::unix_join;
use crate::common::{hex_digit_lower, two_pow, uuid_string, uuid_text, ConnectionId, TransferId};
use crate::path::RemotePath;

verus! {

broadcast use vstd::string::group_string_axioms;

/// Why a cache operation failed.
#[derive(Debug)]
pub enum CacheError {
    Io(String),
    NotFound(RemotePath),
}

/// The text of a cache error.
pub open spec fn cache_error_text(error: CacheError) -> Seq<char> {
    match error {
        CacheError::Io(detail) => "cache I/O failed: "@ + detail@,
        CacheError::NotFound(path) => "cache item is not available: "@ + path@,
    }
}

impl CacheError {
    /// The text of the error.
    pub fn message(&self) -> (out: String)
        ensures
            out@ == cache_error_text(*self),
    {
        match self {
            CacheError::Io(detail) => {
                let mut out = String::from_str("cache I/O failed: ");
                out.append(detail.as_str());
                out
            },
            CacheError::NotFound(path) => {
                let mut out = String::from_str("cache item is not available: ");
                out.append(path.as_str());
                out
            },
        }
    }
}

/// A cached copy of a remote file. Access times are nanoseconds since the
/// Unix epoch.
#[derive(Debug)]
pub struct CacheRecord {
    pub connection_id: ConnectionId,
    pub remote_path: RemotePath,
    pub local_path: String,
    pub size_bytes: u64,
    pub last_accessed: u128,
    pub pinned: bool,
    pub active_transfer: bool,
}

/// What a cache record holds, as plain values.
pub struct RecordView {
    pub connection: u128,
    pub remote_path: Seq<char>,
    pub local_path: Seq<char>,
    pub size_bytes: u64,
    pub last_accessed: u128,
    pub pinned: bool,
    pub active_transfer: bool,
}

impl View for CacheRecord {
    type V = RecordView;

    open spec fn view(&self) -> RecordView {
        RecordView {
            connection: self.connection_id.0,
            remote_path: self.remote_path@,
            local_path: self.local_path@,
            size_bytes: self.size_bytes,
            last_accessed: self.last_accessed,
            pinned: self.pinned,
            active_transfer: self.active_transfer,
        }
    }
}

impl CacheRecord {
    /// A copy of this record.
    pub fn duplicate(&self) -> (r: CacheRecord)
        ensures
            r@ == self@,
    {
        CacheRecord {
            connection_id: self.connection_id,
            remote_path: self.remote_path.duplicate(),
            local_path: self.local_path.clone(),
            size_bytes: self.size_bytes,
            last_accessed: self.last_accessed,
            pinned: self.pinned,
            active_transfer: self.active_transfer,
        }
    }
}

/// Whether `r` is the record of `remote_path` on `connection`.
pub open spec fn has_key(r: RecordView, connection: u128, remote_path: Seq<char>) -> bool {
    r.connection == connection && r.remote_path == remote_path
}

/// No two records share a connection and remote path.
pub open spec fn keys_unique(s: Seq<RecordView>) -> bool {
    forall|i: int, j: int| 0 <= i < s.len() && 0 <= j < s.len() && i != j ==> !has_key(#[trigger] s[i], s[j].connection, #[trigger] s[j].remote_path)
}

/// The total size of some records.
pub open spec fn total_size(s: Seq<RecordView>) -> int
    decreases s.len(),
{
    if s.len() == 0 {
        0
    } else {
        s[0].size_bytes + total_size(s.drop_first())
    }
}

/// A record that eviction may remove: neither pinned nor being transferred.
pub open spec fn evictable(r: RecordView) -> bool {
    !r.pinned && !r.active_transfer
}

/// Evictability as a predicate.
pub open spec fn evictable_pred() -> spec_fn(RecordView) -> bool {
    |x: RecordView| evictable(x)
}

/// What clearing the cache keeps: the records that may not be evicted.
pub open spec fn kept_by_clear() -> spec_fn(RecordView) -> bool {
    |x: RecordView| !evictable(x)
}

/// The position of the record of a key, if there is one.
pub open spec fn key_position(s: Seq<RecordView>, connection: u128, remote_path: Seq<char>) -> Option<int> {
    if exists|i: int| 0 <= i < s.len() && has_key(s[i], connection, remote_path) {
        Some(choose|i: int| 0 <= i < s.len() && has_key(s[i], connection, remote_path))
    } else {
        None
    }
}

/// The records once `r` is committed: it takes the place of the record with
/// its key, or comes last.
pub open spec fn committed(s: Seq<RecordView>, r: RecordView) -> Seq<RecordView> {
    match key_position(s, r.connection, r.remote_path) {
        Some(i) => s.update(i, r),
        None => s.push(r),
    }
}

/// The outcome of an eviction from `before`: what remains comes from
/// `before`, the removed records were evictable, are listed least recently
/// used first and were no more recently used than any evictable record that
/// remains, nothing unevictable is removed, and eviction stops once the
/// cache fits (or nothing more may go): before the last removal it did not
/// fit.
pub open spec fn evicted_from(before: Seq<RecordView>, after: Seq<RecordView>, removed: Seq<RecordView>, max_bytes: u64) -> bool {
    &&& after.len() + removed.len() == before.len()
    &&& forall|i: int| 0 <= i < after.len() ==> before.contains(#[trigger] after[i])
    &&& forall|i: int| 0 <= i < removed.len() ==> before.contains(#[trigger] removed[i]) && evictable(removed[i])
    &&& forall|i: int, j: int| 0 <= i < j < removed.len() ==> #[trigger] removed[i].last_accessed <= #[trigger] removed[j].last_accessed
    &&& forall|i: int| 0 <= i < before.len() && !evictable(#[trigger] before[i]) ==> after.contains(before[i])
    &&& forall|i: int, j: int| 0 <= i < removed.len() && 0 <= j < after.len() && evictable(#[trigger] after[j])
        ==> #[trigger] removed[i].last_accessed <= after[j].last_accessed
    &&& total_size(after) <= max_bytes || forall|j: int| 0 <= j < after.len() ==> !evictable(#[trigger] after[j])
    &&& removed.len() > 0 ==> total_size(after) + removed.last().size_bytes > max_bytes
    &&& total_size(after) + total_size(removed) == total_size(before)
}

/// What the SHA-256 digest of some bytes is.
pub uninterp spec fn sha256_digest(bytes: Seq<u8>) -> Seq<u8>;

/// `sha2::Sha256::digest`: the result is the digest of the bytes and is 32
/// bytes long.
#[verifier::external_body]
fn sha256(bytes: &[u8]) -> (digest: Vec<u8>)
    ensures
        digest@ == sha256_digest(bytes@),
        digest@.len() == 32,
{
    sha2::Sha256::digest(bytes).to_vec()
}

/// Lower-case hexadecimal text of some bytes, two digits per byte.
pub open spec fn hex_text(bytes: Seq<u8>) -> Seq<char>
    decreases bytes.len(),
{
    if bytes.len() == 0 {
        Seq::empty()
    } else {
        seq![hex_digit_lower(bytes[0] as int / 16), hex_digit_lower(bytes[0] as int % 16)] + hex_text(bytes.drop_first())
    }
}

/// Hexadecimal text has two digits per byte.
proof fn lemma_hex_text_len(bytes: Seq<u8>)
    ensures
        hex_text(bytes).len() == 2 * bytes.len(),
    decreases bytes.len(),
{
    if bytes.len() > 0 {
        lemma_hex_text_len(bytes.drop_first());
    }
}

/// `hex::encode`: each byte as two lower-case hexadecimal digits.
#[verifier::external_body]
fn hex_encode(bytes: &[u8]) -> (s: String)
    ensures
        s@ == hex_text(bytes@),
{
    hex::encode(bytes)
}

/// The big-endian bytes of a 128-bit value.
pub open spec fn be_bytes(bits: u128) -> Seq<u8> {
    Seq::new(16, |i: int| (((bits as int) / (two_pow((8 * (15 - i)) as nat) as int)) % 256) as u8)
}

/// `uuid::Uuid::as_bytes` of the UUID with the given bits: its 16 bytes in
/// big-endian order.
#[verifier::external_body]
fn uuid_bytes(bits: u128) -> (bytes: Vec<u8>)
    ensures
        bytes@ == be_bytes(bits),
{
    uuid::Uuid::from_u128(bits).as_bytes().to_vec()
}

/// The bytes that name a cached file: the connection's UUID bytes, a zero
/// byte, and the UTF-8 of the remote path.
pub open spec fn cache_key_bytes(connection: u128, remote_path: Seq<char>) -> Seq<u8> {
    be_bytes(connection) + seq![0u8] + encode_utf8(remote_path)
}

/// Where the copy of `remote_path` of `connection` is cached under `root`:
/// the hexadecimal SHA-256 of its key bytes.
pub open spec fn cache_file_path(root: Seq<char>, connection: u128, remote_path: Seq<char>) -> Seq<char> {
    unix_join(root, hex_text(sha256_digest(cache_key_bytes(connection, remote_path))))
}

/// Where the partial download of a transfer is written under `root`.
pub open spec fn partial_file_path(root: Seq<char>, transfer: u128) -> Seq<char> {
    unix_join(root, "."@ + uuid_text(transfer) + ".partial"@)
}

/// Appends `name` to the path `base` as a Unix path join.
fn join_path(base: &str, name: &str) -> (r: String)
    ensures
        r@ == unix_join(base@, name@),
{
    let chars = crate::text::chars_of(base);
    let mut out = String::from_str(base);
    let n = chars.len();
    if n > 0 && chars[n - 1] != '/' {
        out.append("/");
    }
    out.append(name);
    proof {
        reveal_strlit("/");
    }
    out
}

/// The index of the cache under one root directory.
pub struct CacheManager {
    root: String,
    max_bytes: u64,
    records: Vec<CacheRecord>,
}

impl CacheManager {
    /// The records, as plain values.
    pub closed spec fn spec_records(&self) -> Seq<RecordView> {
        self.records@.map_values(|r: CacheRecord| r@)
    }

    /// The cache directory.
    pub closed spec fn spec_root(&self) -> Seq<char> {
        self.root@
    }

    /// The most the cache may hold, in bytes.
    pub closed spec fn spec_max_bytes(&self) -> u64 {
        self.max_bytes
    }

    /// Keys are unique and the total size fits in 64 bits.
    pub open spec fn wf(&self) -> bool {
        &&& keys_unique(self.spec_records())
        &&& total_size(self.spec_records()) <= u64::MAX
    }

    /// An empty cache under `root` holding at most `max_bytes`.
    pub fn new(root: &str, max_bytes: u64) -> (c: CacheManager)
        ensures
            c.wf(),
            c.spec_records() == Seq::<RecordView>::empty(),
            c.spec_root() == root@,
            c.spec_max_bytes() == max_bytes,
    {
        let c = CacheManager { root: String::from_str(root), max_bytes, records: Vec::new() };
        proof {
            assert(c.spec_records() =~= Seq::<RecordView>::empty());
        }
        c
    }

    /// The file under the cache directory that holds the copy of
    /// `remote_path` of `connection_id`.
    pub fn cached_path(&self, connection_id: ConnectionId, remote_path: &RemotePath) -> (r: String)
        ensures
            r@ == cache_file_path(self.spec_root(), connection_id.0, remote_path@),
            sha256_digest(cache_key_bytes(connection_id.0, remote_path@)).len() == 32,
            hex_text(sha256_digest(cache_key_bytes(connection_id.0, remote_path@))).len() == 64,
    {
        let mut key = uuid_bytes(connection_id.0);
        key.push(0);
        let path_bytes = remote_path.as_str().as_bytes();
        let mut i: usize = 0;
        let ghost prefix = key@;
        while i < path_bytes.len()
            invariant
                i <= path_bytes@.len(),
                key@ == prefix + path_bytes@.take(i as int),
            decreases path_bytes@.len() - i,
        {
            key.push(path_bytes[i]);
            i = i + 1;
            proof {
                assert(path_bytes@.take(i as int) == path_bytes@.take(i - 1).push(path_bytes@[i - 1]));
            }
        }
        proof {
            assert(path_bytes@.take(path_bytes@.len() as int) == path_bytes@);
            assert(key@ == cache_key_bytes(connection_id.0, remote_path@));
        }
        let digest = sha256(key.as_slice());
        proof {
            lemma_hex_text_len(digest@);
        }
        let name = hex_encode(digest.as_slice());
        join_path(self.root.as_str(), name.as_str())
    }

    /// The file under the cache directory that a transfer downloads into.
    pub fn temporary_path(&self, transfer_id: TransferId) -> (r: String)
        ensures
            r@ == partial_file_path(self.spec_root(), transfer_id.0),
    {
        let mut name = String::from_str(".");
        let id = uuid_string(transfer_id.0);
        name.append(id.as_str());
        name.append(".partial");
        proof {
            reveal_strlit(".");
            reveal_strlit(".partial");
        }
        join_path(self.root.as_str(), name.as_str())
    }

    /// The position of the record of a key.
    fn position(&self, connection_id: ConnectionId, remote_path: &RemotePath) -> (r: Option<usize>)
        requires
            self.wf(),
        ensures
            key_position(self.spec_records(), connection_id.0, remote_path@) == match r {
                Some(i) => Some(i as int),
                None => None::<int>,
            },
            r matches Some(i) ==> i < self.records@.len(),
    {
        let ghost s = self.spec_records();
        let n = self.records.len();
        for i in 0..n
            invariant
                n == self.records@.len() == s.len(),
                s == self.spec_records(),
                self.wf(),
                forall|j: int| 0 <= j < i ==> !has_key(#[trigger] s[j], connection_id.0, remote_path@),
        {
            let r = &self.records[i];
            if r.connection_id.0 == connection_id.0 && crate::text::str_eq(r.remote_path.as_str(), remote_path.as_str()) {
                proof {
                    assert(has_key(s[i as int], connection_id.0, remote_path@));
                    let k = choose|k: int| 0 <= k < s.len() && has_key(s[k], connection_id.0, remote_path@);
                    if k != i {
                        assert(!has_key(s[k], s[i as int].connection, s[i as int].remote_path));
                    }
                }
                return Some(i);
            }
        }
        None
    }

    /// The cached file of a key, if the cache has a record of it.
    pub fn local_path(&self, connection_id: ConnectionId, remote_path: &RemotePath) -> (r: Option<String>)
        requires
            self.wf(),
        ensures
            match key_position(self.spec_records(), connection_id.0, remote_path@) {
                Some(i) => r matches Some(p) && p@ == self.spec_records()[i].local_path,
                None => r is None,
            },
    {
        match self.position(connection_id, remote_path) {
            Some(i) => Some(self.records[i].local_path.clone()),
            None => None,
        }
    }

    /// Opens the cached copy of a key at time `now`; `present` tells whether
    /// its file still exists. A missing record, or a record whose file is
    /// gone (the record is then dropped), is not found; otherwise the access
    /// time is updated and the file returned.
    pub fn open(&mut self, connection_id: ConnectionId, remote_path: &RemotePath, present: bool, now: u128) -> (r: Result<String, CacheError>)
        requires
            old(self).wf(),
        ensures
            final(self).wf(),
            final(self).spec_root() == old(self).spec_root(),
            final(self).spec_max_bytes() == old(self).spec_max_bytes(),
            match key_position(old(self).spec_records(), connection_id.0, remote_path@) {
                None => r matches Err(CacheError::NotFound(p)) && p@ == remote_path@
                    && final(self).spec_records() == old(self).spec_records(),
                Some(i) => if present {
                    let rec = old(self).spec_records()[i];
                    &&& r matches Ok(p) && p@ == rec.local_path
                    &&& final(self).spec_records() == old(self).spec_records().update(i, RecordView { last_accessed: now, ..rec })
                } else {
                    &&& r matches Err(CacheError::NotFound(p)) && p@ == remote_path@
                    &&& final(self).spec_records() == old(self).spec_records().remove(i)
                },
            },
    {
        let ghost s = self.spec_records();
        match self.position(connection_id, remote_path) {
            None => Err(CacheError::NotFound(remote_path.duplicate())),
            Some(i) => {
                if !present {
                    self.records.remove(i);
                    proof {
                        assert(self.spec_records() =~= s.remove(i as int));
                        lemma_total_remove(s, i as int);
                        lemma_keys_unique_remove(s, i as int);
                    }
                    return Err(CacheError::NotFound(remote_path.duplicate()));
                }
                let mut rec = self.records.remove(i);
                let local = rec.local_path.clone();
                rec.last_accessed = now;
                let ghost v = rec@;
                self.records.insert(i, rec);
                proof {
                    assert(self.spec_records() =~= s.update(i as int, v));
                    lemma_total_update(s, i as int, v);
                    lemma_keys_unique_update(s, i as int, v);
                }
                Ok(local)
            },
        }
    }

    /// The total size of the cached copies.
    pub fn total_bytes(&self) -> (r: u64)
        requires
            self.wf(),
        ensures
            r == total_size(self.spec_records()),
    {
        let ghost s = self.spec_records();
        let mut sum: u64 = 0;
        let n = self.records.len();
        proof {
            assert(s.skip(0) =~= s);
        }
        for i in 0..n
            invariant
                n == s.len(),
                s == self.spec_records(),
                total_size(s) <= u64::MAX,
                sum + total_size(s.skip(i as int)) == total_size(s),
        {
            proof {
                assert(s.skip(i as int).drop_first() =~= s.skip(i + 1));
                lemma_total_nonneg(s.skip(i + 1));
            }
            sum = sum + self.records[i].size_bytes;
        }
        proof {
            assert(s.skip(n as int) =~= Seq::<RecordView>::empty());
        }
        sum
    }

    /// Removes evictable records, least recently used first, until the
    /// cache fits or no evictable record is left; returns what was removed.
    fn evict_until_within_limit(&mut self) -> (removed: Vec<CacheRecord>)
        requires
            old(self).wf(),
        ensures
            final(self).wf(),
            final(self).spec_root() == old(self).spec_root(),
            final(self).spec_max_bytes() == old(self).spec_max_bytes(),
            evicted_from(old(self).spec_records(), final(self).spec_records(), removed@.map_values(|r: CacheRecord| r@), old(self).spec_max_bytes()),
    {
        let ghost before = self.spec_records();
        let mut removed: Vec<CacheRecord> = Vec::new();
        proof {
            assert(removed@.map_values(|r: CacheRecord| r@) =~= Seq::<RecordView>::empty());
            assert forall|i: int| 0 <= i < before.len() implies before.contains(#[trigger] before[i]) by {}
            lemma_total_nonneg(before);
        }
        loop
            invariant
                self.wf(),
                self.spec_max_bytes() == old(self).spec_max_bytes(),
                self.spec_root() == old(self).spec_root(),
                before == old(self).spec_records(),
                keys_unique(before),
                partial_eviction(before, self.spec_records(), removed@.map_values(|r: CacheRecord| r@), self.max_bytes),
            ensures
                self.wf(),
                self.spec_max_bytes() == old(self).spec_max_bytes(),
                self.spec_root() == old(self).spec_root(),
                evicted_from(before, self.spec_records(), removed@.map_values(|r: CacheRecord| r@), self.max_bytes),
            decreases self.records@.len(),
        {
            let ghost s = self.spec_records();
            let ghost out = removed@.map_values(|r: CacheRecord| r@);
            let total = self.total_bytes();
            if total <= self.max_bytes {
                break;
            }
            let n = self.records.len();
            let mut best: Option<usize> = None;
            for i in 0..n
                invariant
                    n == s.len(),
                    s == self.spec_records(),
                    match best {
                        Some(b) => b < i && evictable(s[b as int])
                            && forall|j: int| 0 <= j < i && evictable(#[trigger] s[j]) ==> s[b as int].last_accessed <= s[j].last_accessed,
                        None => forall|j: int| 0 <= j < i ==> !evictable(#[trigger] s[j]),
                    },
            {
                let r = &self.records[i];
                if !r.pinned && !r.active_transfer {
                    match best {
                        None => {
                            best = Some(i);
                        },
                        Some(b) => {
                            if r.last_accessed < self.records[b].last_accessed {
                                best = Some(i);
                            }
                        },
                    }
                }
            }
            match best {
                None => {
                    break;
                },
                Some(b) => {
                    let victim = self.records.remove(b);
                    let ghost v = victim@;
                    removed.push(victim);
                    proof {
                        assert(self.spec_records() =~= s.remove(b as int));
                        assert(removed@.map_values(|r: CacheRecord| r@) =~= out.push(v));
                        lemma_total_remove(s, b as int);
                        lemma_keys_unique_remove(s, b as int);
                        lemma_eviction_step(before, s, out, b as int, self.max_bytes);
                    }
                },
            }
        }
        removed
    }

    /// Records a file committed to the cache at time `now`: the record of
    /// its key (with the cached path as its file) replaces any earlier one,
    /// then the cache is brought back within its limit. Returns the new
    /// record and the records evicted (whose files the caller deletes).
    pub fn commit_file(&mut self, connection_id: ConnectionId, remote_path: RemotePath, size_bytes: u64, pinned: bool, now: u128) -> (r: (CacheRecord, Vec<CacheRecord>))
        requires
            old(self).wf(),
            total_size(committed(old(self).spec_records(), RecordView {
                connection: connection_id.0,
                remote_path: remote_path@,
                local_path: cache_file_path(old(self).spec_root(), connection_id.0, remote_path@),
                size_bytes,
                last_accessed: now,
                pinned,
                active_transfer: false,
            })) <= u64::MAX,
        ensures
            final(self).wf(),
            final(self).spec_root() == old(self).spec_root(),
            final(self).spec_max_bytes() == old(self).spec_max_bytes(),
            r.0@ == (RecordView {
                connection: connection_id.0,
                remote_path: remote_path@,
                local_path: cache_file_path(old(self).spec_root(), connection_id.0, remote_path@),
                size_bytes,
                last_accessed: now,
                pinned,
                active_transfer: false,
            }),
            evicted_from(committed(old(self).spec_records(), r.0@), final(self).spec_records(), r.1@.map_values(|x: CacheRecord| x@), old(self).spec_max_bytes()),
    {
        let local_path = self.cached_path(connection_id, &remote_path);
        let record = CacheRecord {
            connection_id,
            remote_path,
            local_path,
            size_bytes,
            last_accessed: now,
            pinned,
            active_transfer: false,
        };
        let copy = record.duplicate();
        let ghost s = self.spec_records();
        let ghost v = record@;
        match self.position(connection_id, &record.remote_path) {
            Some(i) => {
                self.records.remove(i);
                self.records.insert(i, record);
                proof {
                    assert(self.spec_records() =~= s.update(i as int, v));
                    lemma_keys_unique_update(s, i as int, v);
                }
            },
            None => {
                self.records.push(record);
                proof {
                    assert(self.spec_records() =~= s.push(v));
                    assert forall|i: int, j: int| 0 <= i < s.push(v).len() && 0 <= j < s.push(v).len() && i != j
                        implies !has_key(#[trigger] s.push(v)[i], s.push(v)[j].connection, #[trigger] s.push(v)[j].remote_path) by {
                        if i == s.len() as int && j < s.len() {
                            assert(!has_key(s[j], v.connection, v.remote_path));
                        }
                        if j == s.len() as int && i < s.len() {
                            assert(!has_key(s[i], v.connection, v.remote_path));
                        }
                    }
                }
            },
        }
        let evicted = self.evict_until_within_limit();
        (copy, evicted)
    }

    /// Pins or unpins the copy of a key, then brings the cache back within
    /// its limit; returns the records evicted.
    pub fn set_pinned(&mut self, connection_id: ConnectionId, remote_path: &RemotePath, pinned: bool) -> (r: Result<Vec<CacheRecord>, CacheError>)
        requires
            old(self).wf(),
        ensures
            final(self).wf(),
            final(self).spec_root() == old(self).spec_root(),
            final(self).spec_max_bytes() == old(self).spec_max_bytes(),
            match key_position(old(self).spec_records(), connection_id.0, remote_path@) {
                None => r matches Err(CacheError::NotFound(p)) && p@ == remote_path@
                    && final(self).spec_records() == old(self).spec_records(),
                Some(i) => r matches Ok(evicted) && evicted_from(
                    old(self).spec_records().update(i, RecordView { pinned, ..old(self).spec_records()[i] }),
                    final(self).spec_records(),
                    evicted@.map_values(|x: CacheRecord| x@),
                    old(self).spec_max_bytes(),
                ),
            },
    {
        let ghost s = self.spec_records();
        match self.position(connection_id, remote_path) {
            None => Err(CacheError::NotFound(remote_path.duplicate())),
            Some(i) => {
                let mut rec = self.records.remove(i);
                rec.pinned = pinned;
                let ghost v = rec@;
                self.records.insert(i, rec);
                proof {
                    assert(self.spec_records() =~= s.update(i as int, v));
                    lemma_total_update(s, i as int, v);
                    lemma_keys_unique_update(s, i as int, v);
                }
                Ok(self.evict_until_within_limit())
            },
        }
    }

    /// Marks whether the copy of a key has a transfer running.
    pub fn set_active_transfer(&mut self, connection_id: ConnectionId, remote_path: &RemotePath, active: bool) -> (r: Result<(), CacheError>)
        requires
            old(self).wf(),
        ensures
            final(self).wf(),
            final(self).spec_root() == old(self).spec_root(),
            final(self).spec_max_bytes() == old(self).spec_max_bytes(),
            match key_position(old(self).spec_records(), connection_id.0, remote_path@) {
                None => r matches Err(CacheError::NotFound(p)) && p@ == remote_path@
                    && final(self).spec_records() == old(self).spec_records(),
                Some(i) => r is Ok && final(self).spec_records()
                    == old(self).spec_records().update(i, RecordView { active_transfer: active, ..old(self).spec_records()[i] }),
            },
    {
        let ghost s = self.spec_records();
        match self.position(connection_id, remote_path) {
            None => Err(CacheError::NotFound(remote_path.duplicate())),
            Some(i) => {
                let mut rec = self.records.remove(i);
                rec.active_transfer = active;
                let ghost v = rec@;
                self.records.insert(i, rec);
                proof {
                    assert(self.spec_records() =~= s.update(i as int, v));
                    lemma_total_update(s, i as int, v);
                    lemma_keys_unique_update(s, i as int, v);
                }
                Ok(())
            },
        }
    }

    /// Removes every evictable record; returns the bytes they held and the
    /// records removed.
    pub fn clear_unpinned(&mut self) -> (r: (u64, Vec<CacheRecord>))
        requires
            old(self).wf(),
        ensures
            final(self).wf(),
            final(self).spec_root() == old(self).spec_root(),
            final(self).spec_max_bytes() == old(self).spec_max_bytes(),
            final(self).spec_records() == old(self).spec_records().filter(kept_by_clear()),
            r.1@.map_values(|x: CacheRecord| x@) == old(self).spec_records().filter(evictable_pred()),
            r.0 == total_size(r.1@.map_values(|x: CacheRecord| x@)),
    {
        let ghost s = self.spec_records();
        let mut kept: Vec<CacheRecord> = Vec::new();
        let mut removed: Vec<CacheRecord> = Vec::new();
        let mut bytes: u64 = 0;
        let mut rest: Vec<CacheRecord> = Vec::new();
        std::mem::swap(&mut rest, &mut self.records);
        let n = rest.len();
        proof {
            assert(rest@.map_values(|x: CacheRecord| x@) == s);
            assert forall|k: int| 0 <= k < rest@.len() implies #[trigger] rest@[k]@ == s[k] by {
                assert(rest@.map_values(|x: CacheRecord| x@)[k] == rest@[k]@);
            }
            assert(s.take(0) =~= Seq::<RecordView>::empty());
            reveal(Seq::filter);
            assert(kept@.map_values(|x: CacheRecord| x@) =~= Seq::<RecordView>::empty());
            assert(removed@.map_values(|x: CacheRecord| x@) =~= Seq::<RecordView>::empty());
        }
        let mut i: usize = 0;
        while i < n
            invariant
                n == s.len(),
                i <= n,
                rest@.len() == n - i,
                forall|k: int| 0 <= k < rest@.len() ==> #[trigger] rest@[k]@ == s[i + k],
                kept@.map_values(|x: CacheRecord| x@) == s.take(i as int).filter(kept_by_clear()),
                removed@.map_values(|x: CacheRecord| x@) == s.take(i as int).filter(evictable_pred()),
                bytes == total_size(removed@.map_values(|x: CacheRecord| x@)),
                total_size(s) <= u64::MAX,
                keys_unique(s),
                self.root == old(self).root,
                self.max_bytes == old(self).max_bytes,
            decreases n - i,
        {
            let ghost r0 = rest@;
            proof {
                assert(r0[0]@ == s[i + 0]);
            }
            let rec = rest.remove(0);
            let ghost v = rec@;
            proof {
                assert(rest@ == r0.remove(0));
                assert forall|k: int| 0 <= k < rest@.len() implies #[trigger] rest@[k]@ == s[(i + 1) + k] by {
                    assert(rest@[k] == r0[k + 1]);
                    assert(r0[k + 1]@ == s[i + (k + 1)]);
                }
                assert(v == s[i as int]);
                assert(s.take(i + 1) =~= s.take(i as int).push(v));
                lemma_filter_push(s.take(i as int), v, kept_by_clear());
                lemma_filter_push(s.take(i as int), v, evictable_pred());
            }
            if !rec.pinned && !rec.active_transfer {
                let ghost prior = removed@.map_values(|x: CacheRecord| x@);
                proof {
                    lemma_total_push(prior, v);
                    lemma_filter_total_bound(s.take(i + 1));
                    lemma_total_take_bound(s, i + 1);
                }
                bytes = bytes + rec.size_bytes;
                removed.push(rec);
                proof {
                    assert(removed@.map_values(|x: CacheRecord| x@) =~= prior.push(v));
                }
            } else {
                let ghost prior = kept@.map_values(|x: CacheRecord| x@);
                kept.push(rec);
                proof {
                    assert(kept@.map_values(|x: CacheRecord| x@) =~= prior.push(v));
                }
            }
            i = i + 1;
        }
        self.records = kept;
        proof {
            assert(s.take(n as int) =~= s);
            lemma_filter_keeps_unique(s, kept_by_clear());
            lemma_filter_total_bound(s);
        }
        (bytes, removed)
    }
}


/// A record committed to the cache that eviction may not remove (it is
/// pinned, or has a transfer running) is what a lookup of its key finds
/// afterwards.
pub proof fn lemma_kept_commit_is_found(before: Seq<RecordView>, r: RecordView, after: Seq<RecordView>, removed: Seq<RecordView>, max_bytes: u64)
    requires
        keys_unique(before),
        keys_unique(after),
        !evictable(r),
        evicted_from(committed(before, r), after, removed, max_bytes),
    ensures
        key_position(after, r.connection, r.remote_path) matches Some(i) && after[i] == r,
{
    let c = committed(before, r);
    match key_position(before, r.connection, r.remote_path) {
        Some(i) => {
            assert(c[i] == r);
            assert(!evictable(c[i]));
        },
        None => {
            assert(c[before.len() as int] == r);
            assert(!evictable(c[before.len() as int]));
        },
    }
    assert(after.contains(r));
    let m = choose|m: int| 0 <= m < after.len() && after[m] == r;
    assert(has_key(after[m], r.connection, r.remote_path));
    let k = choose|k: int| 0 <= k < after.len() && has_key(after[k], r.connection, r.remote_path);
    if k != m {
        assert(!has_key(after[k], after[m].connection, after[m].remote_path));
    }
}

/// The state of an eviction that is under way: `after` and `removed` split
/// `before`, with the removed records the least recently used evictable ones.
pub open spec fn partial_eviction(before: Seq<RecordView>, after: Seq<RecordView>, removed: Seq<RecordView>, max_bytes: u64) -> bool {
    &&& after.len() + removed.len() == before.len()
    &&& forall|i: int| 0 <= i < after.len() ==> before.contains(#[trigger] after[i])
    &&& forall|i: int| 0 <= i < removed.len() ==> before.contains(#[trigger] removed[i]) && evictable(removed[i])
    &&& forall|i: int, j: int| 0 <= i < j < removed.len() ==> #[trigger] removed[i].last_accessed <= #[trigger] removed[j].last_accessed
    &&& forall|i: int| 0 <= i < before.len() && !evictable(#[trigger] before[i]) ==> after.contains(before[i])
    &&& forall|i: int, j: int| 0 <= i < removed.len() && 0 <= j < after.len() && evictable(#[trigger] after[j])
        ==> #[trigger] removed[i].last_accessed <= after[j].last_accessed
    &&& removed.len() > 0 ==> total_size(after) + removed.last().size_bytes > max_bytes
    &&& total_size(after) + total_size(removed) == total_size(before)
}

proof fn lemma_total_nonneg(s: Seq<RecordView>)
    ensures
        total_size(s) >= 0,
    decreases s.len(),
{
    if s.len() > 0 {
        lemma_total_nonneg(s.drop_first());
    }
}

proof fn lemma_total_push(s: Seq<RecordView>, v: RecordView)
    ensures
        total_size(s.push(v)) == total_size(s) + v.size_bytes,
    decreases s.len(),
{
    if s.len() > 0 {
        assert(s.push(v).drop_first() =~= s.drop_first().push(v));
        assert(s.push(v)[0] == s[0]);
        lemma_total_push(s.drop_first(), v);
    } else {
        assert(s.push(v).drop_first() =~= Seq::<RecordView>::empty());
        assert(s.push(v)[0] == v);
        assert(total_size(Seq::<RecordView>::empty()) == 0);
        assert(total_size(s) == 0);
    }
}

proof fn lemma_total_remove(s: Seq<RecordView>, k: int)
    requires
        0 <= k < s.len(),
    ensures
        total_size(s.remove(k)) == total_size(s) - s[k].size_bytes,
    decreases s.len(),
{
    if k == 0 {
        assert(s.remove(0) =~= s.drop_first());
    } else {
        assert(s.remove(k).drop_first() =~= s.drop_first().remove(k - 1));
        lemma_total_remove(s.drop_first(), k - 1);
    }
}

proof fn lemma_total_update(s: Seq<RecordView>, k: int, v: RecordView)
    requires
        0 <= k < s.len(),
    ensures
        total_size(s.update(k, v)) == total_size(s) - s[k].size_bytes + v.size_bytes,
    decreases s.len(),
{
    if k == 0 {
        assert(s.update(0, v).drop_first() =~= s.drop_first());
    } else {
        assert(s.update(k, v).drop_first() =~= s.drop_first().update(k - 1, v));
        lemma_total_update(s.drop_first(), k - 1, v);
    }
}

proof fn lemma_total_take_bound(s: Seq<RecordView>, k: int)
    requires
        0 <= k <= s.len(),
    ensures
        total_size(s.take(k)) <= total_size(s),
{
    lemma_total_split(s, k);
    lemma_total_nonneg(s.skip(k));
}

proof fn lemma_total_split(s: Seq<RecordView>, k: int)
    requires
        0 <= k <= s.len(),
    ensures
        total_size(s) == total_size(s.take(k)) + total_size(s.skip(k)),
    decreases k,
{
    if k == 0 {
        assert(s.take(0) =~= Seq::<RecordView>::empty());
        assert(s.skip(0) =~= s);
    } else {
        assert(s.drop_first().take(k - 1) =~= s.take(k).drop_first());
        assert(s.drop_first().skip(k - 1) =~= s.skip(k));
        lemma_total_split(s.drop_first(), k - 1);
    }
    lemma_total_nonneg(s.skip(k));
}

proof fn lemma_filter_total_bound(s: Seq<RecordView>)
    ensures
        total_size(s.filter(evictable_pred())) <= total_size(s),
        total_size(s.filter(kept_by_clear())) <= total_size(s),
    decreases s.len(),
{
    reveal(Seq::filter);
    if s.len() > 0 {
        lemma_filter_total_bound(s.drop_last());
        lemma_total_push(s.drop_last().filter(evictable_pred()), s.last());
        lemma_total_push(s.drop_last().filter(kept_by_clear()), s.last());
        assert(s.drop_last().push(s.last()) =~= s);
        lemma_total_push(s.drop_last(), s.last());
        lemma_total_nonneg(s.drop_last().filter(evictable_pred()));
        lemma_total_nonneg(s.drop_last().filter(kept_by_clear()));
    }
}

proof fn lemma_filter_push(s: Seq<RecordView>, v: RecordView, f: spec_fn(RecordView) -> bool)
    ensures
        s.push(v).filter(f) == if f(v) { s.filter(f).push(v) } else { s.filter(f) },
{
    reveal(Seq::filter);
    assert(s.push(v).drop_last() =~= s);
}

proof fn lemma_filter_keeps_unique(s: Seq<RecordView>, f: spec_fn(RecordView) -> bool)
    requires
        keys_unique(s),
    ensures
        keys_unique(s.filter(f)),
{
    let t = s.filter(f);
    assert forall|i: int, j: int| 0 <= i < t.len() && 0 <= j < t.len() && i != j implies !has_key(#[trigger] t[i], t[j].connection, #[trigger] t[j].remote_path) by {
        lemma_filter_distinct_positions(s, f, i, j);
    }
}

/// Records at distinct positions of a filtered sequence have distinct keys.
proof fn lemma_filter_distinct_positions(s: Seq<RecordView>, f: spec_fn(RecordView) -> bool, i: int, j: int)
    requires
        keys_unique(s),
        0 <= i < s.filter(f).len(),
        0 <= j < s.filter(f).len(),
        i != j,
    ensures
        !has_key(s.filter(f)[i], s.filter(f)[j].connection, s.filter(f)[j].remote_path),
    decreases s.len(),
{
    reveal(Seq::filter);
    let t = s.filter(f);
    let d = s.drop_last();
    let p = d.filter(f);
    assert forall|a: int, b: int| 0 <= a < d.len() && 0 <= b < d.len() && a != b implies !has_key(#[trigger] d[a], d[b].connection, #[trigger] d[b].remote_path) by {
        assert(d[a] == s[a] && d[b] == s[b]);
    }
    if f(s.last()) {
        assert(t == p.push(s.last()));
        if i < p.len() && j < p.len() {
            lemma_filter_distinct_positions(d, f, i, j);
        } else {
            let k = if i < p.len() { i } else { j };
            assert(p.contains(p[k]));
            d.lemma_filter_contains_rev(f, p[k]);
            let m = choose|m: int| 0 <= m < d.len() && d[m] == p[k];
            assert(s[m] == p[k]);
            let last = s.len() - 1;
            assert(!has_key(s[m], s[last].connection, s[last].remote_path));
            assert(!has_key(s[last], s[m].connection, s[m].remote_path));
        }
    } else {
        assert(t == p);
        lemma_filter_distinct_positions(d, f, i, j);
    }
}

proof fn lemma_keys_unique_remove(s: Seq<RecordView>, k: int)
    requires
        keys_unique(s),
        0 <= k < s.len(),
    ensures
        keys_unique(s.remove(k)),
{
    let t = s.remove(k);
    assert forall|i: int, j: int| 0 <= i < t.len() && 0 <= j < t.len() && i != j implies !has_key(#[trigger] t[i], t[j].connection, #[trigger] t[j].remote_path) by {
        let a = if i < k { i } else { i + 1 };
        let b = if j < k { j } else { j + 1 };
        assert(t[i] == s[a] && t[j] == s[b]);
    }
}

proof fn lemma_keys_unique_update(s: Seq<RecordView>, k: int, v: RecordView)
    requires
        keys_unique(s),
        0 <= k < s.len(),
        has_key(v, s[k].connection, s[k].remote_path),
    ensures
        keys_unique(s.update(k, v)),
{
    let t = s.update(k, v);
    assert forall|i: int, j: int| 0 <= i < t.len() && 0 <= j < t.len() && i != j implies !has_key(#[trigger] t[i], t[j].connection, #[trigger] t[j].remote_path) by {
        assert(!has_key(s[i], s[j].connection, s[j].remote_path));
    }
}

proof fn lemma_eviction_step(before: Seq<RecordView>, s: Seq<RecordView>, out: Seq<RecordView>, b: int, max_bytes: u64)
    requires
        partial_eviction(before, s, out, max_bytes),
        0 <= b < s.len(),
        evictable(s[b]),
        forall|j: int| 0 <= j < s.len() && evictable(#[trigger] s[j]) ==> s[b].last_accessed <= s[j].last_accessed,
        total_size(s) > max_bytes,
    ensures
        partial_eviction(before, s.remove(b), out.push(s[b]), max_bytes),
{
    let t = s.remove(b);
    let o = out.push(s[b]);
    lemma_total_remove(s, b);
    lemma_total_push(out, s[b]);
    assert forall|i: int| 0 <= i < t.len() implies before.contains(#[trigger] t[i]) by {
        let a = if i < b { i } else { i + 1 };
        assert(t[i] == s[a]);
    }
    assert forall|i: int| 0 <= i < o.len() implies before.contains(#[trigger] o[i]) && evictable(o[i]) by {
        if i == out.len() {
            assert(o[i] == s[b]);
        } else {
            assert(o[i] == out[i]);
        }
    }
    assert forall|i: int| 0 <= i < before.len() && !evictable(#[trigger] before[i]) implies t.contains(before[i]) by {
        let m = choose|m: int| 0 <= m < s.len() && s[m] == before[i];
        assert(m != b);
        let a = if m < b { m } else { m - 1 };
        assert(t[a] == s[m]);
    }
    assert forall|i: int, j: int| 0 <= i < j < o.len() implies #[trigger] o[i].last_accessed <= #[trigger] o[j].last_accessed by {
        assert(o[i] == out[i]);
        if j == out.len() {
            assert(o[j] == s[b]);
        } else {
            assert(o[j] == out[j]);
        }
    }
    assert forall|i: int, j: int| 0 <= i < o.len() && 0 <= j < t.len() && evictable(#[trigger] t[j]) implies #[trigger] o[i].last_accessed <= t[j].last_accessed by {
        let a = if j < b { j } else { j + 1 };
        assert(t[j] == s[a]);
        if i < out.len() {
            assert(o[i] == out[i]);
        }
    }
}

} // verus!
