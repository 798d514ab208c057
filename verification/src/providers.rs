//! What each storage provider can do.
use vstd::prelude::*;
use crate::capability::{Capability, CapabilitySet};

verus! {

/// Amazon S3 and compatible stores: whole objects, with ranged reads.
pub fn s3_capabilities() -> (s: CapabilitySet)
    ensures
        s@ == set![Capability::Read, Capability::Write, Capability::Delete, Capability::RangeRead],
{
    let s = CapabilitySet::with(&[Capability::Read, Capability::Write, Capability::Delete, Capability::RangeRead]);
    proof {
        assert(s@ =~= set![Capability::Read, Capability::Write, Capability::Delete, Capability::RangeRead]);
    }
    s
}

/// SFTP servers.
pub fn sftp_capabilities() -> (s: CapabilitySet)
    ensures
        s@ == set![Capability::Read, Capability::Write, Capability::Delete, Capability::Rename, Capability::CreateDirectory, Capability::RangeRead],
{
    let s = CapabilitySet::with(&[Capability::Read, Capability::Write, Capability::Delete, Capability::Rename, Capability::CreateDirectory, Capability::RangeRead]);
    proof {
        assert(s@ =~= set![Capability::Read, Capability::Write, Capability::Delete, Capability::Rename, Capability::CreateDirectory, Capability::RangeRead]);
    }
    s
}

/// SMB shares.
pub fn smb_capabilities() -> (s: CapabilitySet)
    ensures
        s@ == set![Capability::Read, Capability::Write, Capability::Delete, Capability::Rename, Capability::CreateDirectory, Capability::RangeRead],
{
    let s = CapabilitySet::with(&[Capability::Read, Capability::Write, Capability::Delete, Capability::Rename, Capability::CreateDirectory, Capability::RangeRead]);
    proof {
        assert(s@ =~= set![Capability::Read, Capability::Write, Capability::Delete, Capability::Rename, Capability::CreateDirectory, Capability::RangeRead]);
    }
    s
}

/// FTP servers: no ranged reads.
pub fn ftp_capabilities() -> (s: CapabilitySet)
    ensures
        s@ == set![Capability::Read, Capability::Write, Capability::Delete, Capability::Rename, Capability::CreateDirectory],
{
    let s = CapabilitySet::with(&[Capability::Read, Capability::Write, Capability::Delete, Capability::Rename, Capability::CreateDirectory]);
    proof {
        assert(s@ =~= set![Capability::Read, Capability::Write, Capability::Delete, Capability::Rename, Capability::CreateDirectory]);
    }
    s
}

/// MEGA accounts: no ranged reads.
pub fn mega_capabilities() -> (s: CapabilitySet)
    ensures
        s@ == set![Capability::Read, Capability::Write, Capability::Delete, Capability::Rename, Capability::CreateDirectory],
{
    let s = CapabilitySet::with(&[Capability::Read, Capability::Write, Capability::Delete, Capability::Rename, Capability::CreateDirectory]);
    proof {
        assert(s@ =~= set![Capability::Read, Capability::Write, Capability::Delete, Capability::Rename, Capability::CreateDirectory]);
    }
    s
}

/// WebDAV servers, with copies, locks and ranged reads.
pub fn webdav_capabilities() -> (s: CapabilitySet)
    ensures
        s@ == set![Capability::Read, Capability::Write, Capability::Delete, Capability::Rename, Capability::ServerSideCopy,
            Capability::CreateDirectory, Capability::Locking, Capability::RangeRead],
{
    let s = CapabilitySet::with(&[Capability::Read, Capability::Write, Capability::Delete, Capability::Rename, Capability::ServerSideCopy,
        Capability::CreateDirectory, Capability::Locking, Capability::RangeRead]);
    proof {
        assert(s@ =~= set![Capability::Read, Capability::Write, Capability::Delete, Capability::Rename, Capability::ServerSideCopy,
            Capability::CreateDirectory, Capability::Locking, Capability::RangeRead]);
    }
    s
}

/// Google Drive, with server-side copies and ranged reads.
pub fn google_drive_capabilities() -> (s: CapabilitySet)
    ensures
        s@ == set![Capability::Read, Capability::Write, Capability::Delete, Capability::Rename, Capability::ServerSideCopy,
            Capability::CreateDirectory, Capability::RangeRead],
{
    let s = CapabilitySet::with(&[Capability::Read, Capability::Write, Capability::Delete, Capability::Rename, Capability::ServerSideCopy,
        Capability::CreateDirectory, Capability::RangeRead]);
    proof {
        assert(s@ =~= set![Capability::Read, Capability::Write, Capability::Delete, Capability::Rename, Capability::ServerSideCopy,
            Capability::CreateDirectory, Capability::RangeRead]);
    }
    s
}

/// Immich libraries: read only, with ranged reads.
pub fn immich_capabilities() -> (s: CapabilitySet)
    ensures
        s@ == set![Capability::Read, Capability::RangeRead],
{
    let s = CapabilitySet::with(&[Capability::Read, Capability::RangeRead]);
    proof {
        assert(s@ =~= set![Capability::Read, Capability::RangeRead]);
    }
    s
}

/// Google Photos libraries: uploads, albums and ranged reads, no deletes.
pub fn google_photos_capabilities() -> (s: CapabilitySet)
    ensures
        s@ == set![Capability::Read, Capability::Write, Capability::Rename, Capability::CreateDirectory, Capability::RangeRead],
{
    let s = CapabilitySet::with(&[Capability::Read, Capability::Write, Capability::Rename, Capability::CreateDirectory, Capability::RangeRead]);
    proof {
        assert(s@ =~= set![Capability::Read, Capability::Write, Capability::Rename, Capability::CreateDirectory, Capability::RangeRead]);
    }
    s
}

/// The capabilities of either of two sets.
pub fn union_of(a: &CapabilitySet, b: &CapabilitySet) -> (s: CapabilitySet)
    ensures
        s@ == a@.union(b@),
{
    let first = a.iter();
    let second = b.iter();
    let mut all: Vec<Capability> = Vec::new();
    for i in 0..first.len()
        invariant
            all@ == first@.take(i as int),
    {
        all.push(first[i]);
        proof {
            assert(first@.take(i + 1) =~= first@.take(i as int).push(first@[i as int]));
        }
    }
    let k = all.len();
    for j in 0..second.len()
        invariant
            k == first@.len(),
            all@ == first@ + second@.take(j as int),
    {
        all.push(second[j]);
        proof {
            assert(second@.take(j + 1) =~= second@.take(j as int).push(second@[j as int]));
            assert(first@ + second@.take(j + 1) =~= (first@ + second@.take(j as int)).push(second@[j as int]));
        }
    }
    proof {
        assert(first@.take(first@.len() as int) =~= first@);
        assert(second@.take(second@.len() as int) =~= second@);
        vstd::seq_lib::seq_to_set_distributes_over_add(first@, second@);
    }
    let s = CapabilitySet::with(all.as_slice());
    s
}

} // verus!
