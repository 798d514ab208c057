# bifrost_drive

The core of the Bifrost Drive storage client, written in Verus: every
function in `src/` carries a contract that Verus proves, and the few calls
into other crates (`uuid`, `sha2`, `hex`, `serde_json`, `url`, `quick-xml`,
`chrono`, and some of `std`) stand behind small trusted wrappers whose
contracts say what those crates promise.

## Layout

- `src/` — the verified library, one module per concern:
  - paths and vocabulary: `path`, `common`, `capability`, `error`, `storage`,
    `text`, `urls`, `timestamps`;
  - synchronization and transfers: `sync`, `sync_run`, `transfer`, `retry`;
  - the local cache: `cache`, `export_cache`;
  - connections and their settings: `api`, `connections`, `endpoints`,
    `settings`, `credentials`, `roots`;
  - providers: `providers` (capabilities), `s3`, `webdav`, `smb`,
    `range_reads` (SFTP, FTP and SMB ranged reads), `mega_ops`,
    `drive_names`, `drive_workspace`, `drive_write`, `drive_ops` (Google
    Drive), `google_photos`, `photos_ops`, `immich`, `immich_ops`;
  - the native file-system bridges: `cfapi` (Windows Cloud Files), `winfsp`,
    `drive`, `drive_engine`, `fuse`, `bridge` (macOS File Provider).
- `tests/` — ordinary Rust tests against the compiled library.
- `app/` — a small command-line front end that does the file and console
  work around the library.

Laws that span several functions are stated as public proof functions
(their names start with `lemma_`), next to the functions they speak of.
