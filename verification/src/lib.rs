//! Verified core of a dataset-transfer orchestrator.
//!
//! The library moves the files of a public dataset, described by a
//! provider manifest, either to local disk or to an S3-compatible object
//! store.  Store-bound requests are authenticated with an AWS Signature
//! Version 4 signer.  Per-task progress is tracked in a registry of
//! snapshots, and the transfer engine reports an event after every
//! manifest entry.  All I/O is left to the caller: the functions here
//! compute URLs, request descriptions, signatures and state transitions
//! from plain values.

pub mod accession;
pub mod crypto;
pub mod engine;
pub mod manifest;
pub mod probe;
pub mod registry;
pub mod s3_request;
pub mod sigv4;
pub mod task;
pub mod text;
pub mod timestamp;
pub mod urlparse;
