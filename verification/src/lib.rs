//! Verified core of a directory-organization utility: classification of
//! files by extension, content-hash duplicate detection, destination
//! planning for organization schemes, and report aggregation.

pub mod category;
pub mod config;
pub mod dates;
pub mod dups;
pub mod hashing;
pub mod organize;
pub mod report;
pub mod scan;
pub mod text;
