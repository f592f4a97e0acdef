//! Audits a catalog of mod-addon packages against two independent
//! fingerprint-matching services: fingerprints are extracted from the
//! catalog, grouped into deduplicated batches, one request body is built
//! per batch and service, and the per-batch results are merged into
//! per-service and combined match counts.

pub mod batch;
pub mod catalog;
pub mod report;
pub mod service;

pub use batch::audit_batches;
pub use batch::make_batches;
pub use batch::Batch;
pub use batch::BATCH_SIZE;
pub use catalog::extract_fingerprints;
pub use catalog::fingerprints_of_package;
pub use catalog::File;
pub use catalog::Module;
pub use catalog::Package;
pub use report::aggregate;
pub use report::collect_ids;
pub use report::AuditReport;
pub use report::ExactMatch;
pub use report::MatchResult;
pub use service::request_body;
pub use service::ServiceChoice;
