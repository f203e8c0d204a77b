//! Content pipeline and page logic of the jpellis.me personal site:
//! Markdown post-processing, blog and project page compilation, GitHub
//! statistics parsing and the small formatting helpers used by the pages.

pub mod blog;
pub mod build;
pub mod components;
pub mod config;
pub mod integration;
pub mod maintenance;
pub mod pages;
pub mod sort;
pub mod text;
