//! Verified core of the Bifrost Drive storage client: remote paths, provider
//! kinds, synchronization decisions, the transfer queue, the cache index and
//! the naming rules that providers use for remote files.
pub mod api;
pub mod bridge;
pub mod cache;
pub mod capability;
pub mod cfapi;
pub mod common;
pub mod connection_setup;
pub mod connections;
pub mod credentials;
pub mod drive;
pub mod drive_engine;
pub mod drive_names;
pub mod drive_ops;
pub mod drive_workspace;
pub mod drive_write;
pub mod endpoints;
pub mod error;
pub mod export_cache;
pub mod fuse;
pub mod google_photos;
pub mod immich;
pub mod immich_listing;
pub mod immich_ops;
pub mod mega_ops;
pub mod path;
pub mod photos_ops;
pub mod providers;
pub mod range_reads;
pub mod retry;
pub mod s3;
pub mod roots;
pub mod settings;
pub mod smb;
pub mod storage;
pub mod sync;
pub mod sync_run;
pub mod text;
pub mod timestamps;
pub mod transfer;
pub mod urls;
pub mod webdav;
pub mod winfsp;
