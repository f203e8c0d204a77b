//! The logic of the maintenance tools that refresh the site's fallback data
//! and its list of open-source contributions from GitHub.

pub mod fallback_data;
pub mod oss_contribs;
