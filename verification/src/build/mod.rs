//! Build-time content compilation: Markdown rendering and post-processing,
//! blog post and project page collection, and Rust code generation.

pub mod blog;
pub mod markdown;
pub mod projects;
