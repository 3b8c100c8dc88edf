//! Release metadata for a software project: which versions exist, where their
//! archives can be downloaded, and which digests verify them.
//!
//! The crate holds the metadata tree with its "latest" bookkeeping, the
//! reconciliation of fetched checksums into that tree, and the decision logic
//! of the bounded fetch pipeline. Every function is verified with Verus; the
//! few calls into other crates are made by small trusted wrappers, each
//! documented where it stands.

pub mod batch;
pub mod bucket;
pub mod command;
pub mod decimal;
pub mod digest;
pub mod fetch;
pub mod location;
pub mod outcomes;
pub mod project;
pub mod range;
pub mod reconcile;
pub mod redirects;
pub mod text;
pub mod tree;
pub mod version;

pub use batch::{Batch, Progress};
pub use bucket::ReleaseRangeData;
pub use command::{name_value_parse, Alias, Archive, NameValueParseError, TargetFormat};
pub use decimal::ParseNumberError;
pub use digest::{ChecksumMap, Checksums, DigestAlgorithm};
pub use fetch::{FetchError, FetchOutcome, FetchStep, FetchTask, MAX_ATTEMPTS};
pub use location::{ReleaseLocation, ReleaseStatus, ReleaseVersionData};
pub use outcomes::KeyedOutcomes;
pub use project::MuktiProject;
pub use range::{VersionRange, VersionRangeKind, VersionRangeParseError};
pub use reconcile::{
    archive_url, archive_urls, backfill_checksums, backfill_urls, key_by_url, pair_with_outcomes,
    update_release_json, ArchiveWithChecksums, ProjectCountError, UpdateOutcome,
};
pub use redirects::{generate_netlify_redirects, write_entries};
pub use tree::MuktiReleasesJson;
pub use version::Version;
