//! The site's configuration: the repositories whose statistics are tracked
//! and the open-source contributions listed.

pub mod projects;
pub mod work;
