//! Change-triggered backups of a set of files: the snapshot ledger, the
//! retention policy, the debouncer and the plans that the engine carries out.

pub mod backup;
pub mod database;
pub mod display;
pub mod error;
pub mod filesystem;
pub mod profile;
pub mod retention;
pub mod text;
pub mod watcher;

pub use backup::{
    backup, delete_all_backups, delete_one_backup, restore_backup, Backup, Id, Timestamp,
};
pub use database::BackupTable;
pub use profile::Profile;
