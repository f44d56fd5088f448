//! rblog: the verified core of a small blog engine.
//!
//! The library holds what the blog decides and computes: splitting a post
//! file into its front matter and body, normalising slugs, keeping posts and
//! attachments keyed without duplicates, ordering posts newest first,
//! paging, request normalisation, and the decisions of the file watcher.
//! Reading files, parsing YAML and serving HTTP stay outside.

pub mod text;
pub mod front_matter;
pub mod keyed;
pub mod markdown;
pub mod dates;
pub mod blog;
pub mod app_config;
pub mod cli;
pub mod routes;
pub mod watch;
pub mod appstate;
