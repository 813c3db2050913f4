//! A paginated record-extraction pipeline: requests name resources, responses
//! carry their bytes, and each decoded record may name the next page to fetch.
pub mod extract;
pub mod fs;
pub mod tracker;
