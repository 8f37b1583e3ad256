//! Project manifests for a script runtime: finding the nearest manifest,
//! validating its dependency tables and features, activating features, and
//! the lexical path logic and file-access decisions they rest on.
pub mod features;
pub mod fs;
pub mod locate;
pub mod manifest;
pub mod path;
