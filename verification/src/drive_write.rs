//! How a write to Google Drive is planned: folders cannot take content,
//! Workspace documents are only written back as their Office export (never
//! through a browser shortcut) and only when they have not changed since
//! they were opened; other files are overwritten or created.
use vstd::prelude::*;
use crate::common::ProviderKind;
use crate::drive_workspace::{drive_metadata, folder_mime, office_mime, workspace_format, workspace_format_of, DriveFile, WorkspaceFormat, WorkspaceOpenMode};
use crate::export_cache::WorkspaceExportCache;
use crate::path::RemotePath;
use crate::storage::{RemoteMetadata, StorageError};
use crate::sync_run::opt_text;
use crate::text::str_eq;

verus! {

broadcast use vstd::string::group_string_axioms;

/// Where an upload goes.
#[derive(Debug)]
pub enum WriteTarget {
    /// The content of the file with this id is replaced.
    Existing(String),
    /// A new file is created first.
    Create,
}

/// How a write is carried out.
#[derive(Debug)]
pub struct WritePlan {
    pub target: WriteTarget,
    /// The Workspace kind of the document written back, if it is one.
    pub workspace: Option<WorkspaceFormat>,
    /// The content type of the upload.
    pub content_type: &'static str,
}

/// Whether the cache holds the export of `file` at its current version.
pub open spec fn export_unchanged(exports: WorkspaceExportCache, file: DriveFile) -> bool {
    exists|k: int| 0 <= k < exports.entries().len() && exports.entries()[k].file_id@ == file.id@
        && opt_text(exports.entries()[k].version) == opt_text(file.version)
}

/// The message for a document that changed after it was opened.
pub open spec fn changed_after_open_text(name: Seq<char>) -> Seq<char> {
    name + " changed in Google Drive after it was opened; close and reopen the file before saving"@
}

/// Whether the cache holds the export of `file` at its current version.
pub fn export_is_current(exports: &WorkspaceExportCache, file: &DriveFile) -> (r: bool)
    requires
        exports.wf(),
    ensures
        r == export_unchanged(*exports, *file),
{
    match exports.entry(file.id.as_str()) {
        Some(cached) => {
            let same = match (&cached.version, &file.version) {
                (Some(a), Some(b)) => str_eq(a.as_str(), b.as_str()),
                (None, None) => true,
                _ => false,
            };
            proof {
                assert(same == (opt_text(cached.version) == opt_text(file.version)));
                if export_unchanged(*exports, *file) {
                    let k = choose|k: int| 0 <= k < exports.entries().len() && exports.entries()[k].file_id@ == file.id@
                        && opt_text(exports.entries()[k].version) == opt_text(file.version);
                    assert(exports.entries()[k] == *cached);
                }
                if same {
                    let k = choose|k: int| 0 <= k < exports.entries().len() && exports.entries()[k] == *cached;
                    assert(exports.entries()[k].file_id@ == file.id@);
                }
            }
            same
        },
        None => {
            proof {
                if export_unchanged(*exports, *file) {
                    let k = choose|k: int| 0 <= k < exports.entries().len() && exports.entries()[k].file_id@ == file.id@
                        && opt_text(exports.entries()[k].version) == opt_text(file.version);
                    assert(exports.entries()[k].file_id@ != file.id@);
                }
            }
            false
        },
    }
}

/// Plans a write over `existing` (the file at the path, if there is one).
pub fn plan_write(existing: Option<&DriveFile>, mode: WorkspaceOpenMode, exports: &WorkspaceExportCache) -> (r: Result<WritePlan, StorageError>)
    requires
        exports.wf(),
    ensures
        match existing {
            None => r matches Ok(plan) && plan.target is Create && plan.workspace is None
                && plan.content_type@ == "application/octet-stream"@,
            Some(f) => if f.mime_type@ == folder_mime() {
                r matches Err(StorageError::Provider { provider: p, message: m }) && p == ProviderKind::GoogleDrive
                    && m@ == "cannot write content to a directory"@
            } else {
                match workspace_format_of(f.mime_type@) {
                    None => r matches Ok(plan) && (plan.target matches WriteTarget::Existing(id) && id@ == f.id@)
                        && plan.workspace is None && plan.content_type@ == "application/octet-stream"@,
                    Some(format) => if mode == WorkspaceOpenMode::Browser {
                        r matches Err(StorageError::Unsupported { provider: p, capability: c }) && p == ProviderKind::GoogleDrive
                            && c@ == "write_workspace_browser_shortcut"@
                    } else if export_unchanged(*exports, *f) {
                        r matches Ok(plan) && (plan.target matches WriteTarget::Existing(id) && id@ == f.id@)
                            && plan.workspace == Some(format) && plan.content_type@ == office_mime(format)
                    } else {
                        r matches Err(StorageError::Provider { provider: p, message: m }) && p == ProviderKind::GoogleDrive
                            && m@ == changed_after_open_text(f.name@)
                    },
                }
            },
        },
{
    let file = match existing {
        None => return Ok(WritePlan { target: WriteTarget::Create, workspace: None, content_type: "application/octet-stream" }),
        Some(f) => f,
    };
    if str_eq(file.mime_type.as_str(), "application/vnd.google-apps.folder") {
        return Err(StorageError::Provider {
            provider: ProviderKind::GoogleDrive,
            message: String::from_str("cannot write content to a directory"),
        });
    }
    match workspace_format(file.mime_type.as_str()) {
        None => Ok(WritePlan {
            target: WriteTarget::Existing(file.id.clone()),
            workspace: None,
            content_type: "application/octet-stream",
        }),
        Some(format) => {
            if matches!(mode, WorkspaceOpenMode::Browser) {
                return Err(StorageError::Unsupported {
                    provider: ProviderKind::GoogleDrive,
                    capability: String::from_str("write_workspace_browser_shortcut"),
                });
            }
            let unchanged = export_is_current(exports, file);
            if !unchanged {
                let mut message = file.name.clone();
                message.append(" changed in Google Drive after it was opened; close and reopen the file before saving");
                return Err(StorageError::Provider { provider: ProviderKind::GoogleDrive, message });
            }
            Ok(WritePlan { target: WriteTarget::Existing(file.id.clone()), workspace: Some(format), content_type: format.office_mime_type() })
        },
    }
}

/// The metadata of a file after a write: what Drive reports, except that a
/// Workspace document is given the size of the uploaded export.
pub fn written_metadata(file: DriveFile, path: RemotePath, workspace: bool, uploaded_size: Option<u64>) -> (m: RemoteMetadata)
    ensures
        m.path@ == path@,
        workspace ==> m.size_bytes == uploaded_size,
        !workspace ==> m.size_bytes == if workspace_format_of(file.mime_type@) is Some {
            None
        } else {
            match file.size {
                Some(s) => crate::text::parsed_u64(s@),
                None => None,
            }
        },
{
    let mut metadata = drive_metadata(file, path);
    if workspace {
        metadata.size_bytes = uploaded_size;
    }
    metadata
}

} // verus!
