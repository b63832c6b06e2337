//! Exporting records from a proprietary personal-notes store into a portable
//! on-disk layout: folder-path resolution over a flat parent-pointer table,
//! best-effort text recovery from the store's binary blobs, identifier and
//! timestamp handling, and the per-note export planning that a sequential or
//! concurrent runner drives.

pub mod chars;
pub mod cli;
pub mod db;
pub mod decode;
pub mod export;
pub mod folders;
mod ids;
pub mod json;
pub mod model;
pub mod render;
pub mod tables;
pub mod timestamp;
pub mod transport;

pub use ids::parse_coredata_pk;
pub use ids::IdError;
pub use model::Account;
pub use model::BackupNoteMetadata;
pub use model::Folder;
pub use model::Note;
pub use model::NoteSummary;
