//! Local JDK management, verified: a version model for Java version strings
//! with a proven total order and parse/format round trip, a streaming checksum
//! gate, archive extraction safety checks, remote package selection rules, and
//! an install state machine that commits atomically and publishes installs
//! through a marker file.

pub mod adoptjdk;
pub mod archive;
pub mod command;
pub mod config;
pub mod context_id;
pub mod content_disposition_parser;
pub mod error;
pub mod foojay;
pub mod checksum_verifier;
pub mod java_version;
pub mod jdk_manager;
pub mod release_file_parser;
pub mod text;
