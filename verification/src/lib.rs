//! Verified core of a mod synchroniser for a game directory: name rules,
//! path arithmetic, Steam library discovery, backup bookkeeping, and the
//! decision logic of the download, extraction and restore workflows.
pub mod text;
pub mod paths;
pub mod names;
pub mod steam;
pub mod order;
pub mod layout;
pub mod listing;
pub mod repo;
pub mod mirrors;
pub mod extraction;
pub mod archive;
pub mod workflows;
