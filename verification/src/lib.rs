//! Names and uploads of Cloud Storage objects.
//!
//! Names are brought to their NFC form, and local files are uploaded, each as one
//! transaction that is undone where any part of it fails. Whatever talks to the
//! network, the file system or other programs stays outside: the modules here
//! decide what is to be done next from what came of the step before.
pub mod atomic_rename;
pub mod bucket_lock;
pub mod change_laws;
pub mod cloud;
pub mod cloud_laws;
pub mod command_laws;
pub mod copy_object;
pub mod discovery_laws;
pub mod error;
pub mod error_laws;
pub mod held_buckets;
pub mod interrupt;
pub mod listing_laws;
pub mod local;
pub mod local_laws;
pub mod local_path;
pub mod local_run_laws;
pub mod lock_laws;
pub mod locking_laws;
pub mod moving_laws;
pub mod naming_laws;
pub mod normalization_plan;
pub mod normalize;
pub mod object_move;
pub mod object_path;
pub mod object_state;
pub mod path_laws;
pub mod record;
pub mod relocation;
pub mod relocation_laws;
pub mod remote_run;
pub mod rename_laws;
pub mod renaming_laws;
pub mod request_laws;
pub mod restoration_laws;
pub mod run_laws;
pub mod session;
pub mod source_laws;
pub mod storage;
pub mod storage_operations;
pub mod storage_request;
pub mod storage_transport;
pub mod storage_url;
pub mod text;
pub mod text_laws;
pub mod transaction;
pub mod transaction_laws;
pub mod undoing;
pub mod unique_name;
pub mod upload;
pub mod upload_discovery;
pub mod upload_file;
pub mod upload_source;
pub mod uploading_laws;
pub mod url_laws;
pub mod workflow;
pub mod workflow_laws;

pub use crate::cloud::shell_quote;
pub use crate::cloud::Cloud;
pub use crate::error::AppError;
pub use crate::interrupt::InterruptFlag;
pub use crate::local::apply_normalization;
pub use crate::local::path_string;
pub use crate::local::rollback_normalization;
pub use crate::normalization_plan::build as build_normalization_plan;
pub use crate::normalization_plan::normalized;
pub use crate::normalization_plan::Entry;
pub use crate::normalize::process_moves;
pub use crate::object_path::ObjectPath;
pub use crate::storage::StorageClient;
pub use crate::transaction::RemoteChange;
pub use crate::undoing::rollback_remote;
pub use crate::upload_discovery::upload_files_by_directory;
pub use crate::workflow::run;
pub use crate::workflow::Command;
