//! The settings of the web application, as its configuration file holds
//! them. Defaults and environment overrides are applied where the file is
//! loaded.

use vstd::prelude::*;

verus! {

/// The application's settings.
#[derive(Debug)]
pub struct AppConfig {
    pub host: String,
    pub port: String,
    pub title: String,
    pub root: String,
    pub page_size: Option<usize>,
    pub enable_drafts: Option<bool>,
    pub posts_dir: String,
    pub github: Option<String>,
    pub mastodon: Option<String>,
    pub twitter: Option<String>,
    pub facebook: Option<Facebook>,
    pub disqus: Option<String>,
    pub giscus: Option<Giscus>,
    pub google_analytics: Option<GoogleAnalytics>,
    pub syntax_highlight: Option<bool>,
}

/// Settings of the Giscus comment widget.
#[derive(Debug, Clone, PartialEq)]
pub struct Giscus {
    pub script_src: String,
    pub repo: String,
    pub repo_id: String,
    pub category: String,
    pub category_id: String,
    pub mapping: String,
    pub reactions_enabled: u32,
    pub emit_metadata: u32,
    pub theme: String,
    pub lang: String,
    pub crossorigin: String,
}

/// Settings of Google Analytics.
#[derive(Debug, Clone, PartialEq)]
pub struct GoogleAnalytics {
    pub ga_measurement_id: String,
}

/// Settings of the Facebook plugins.
#[derive(Debug, Clone, PartialEq)]
pub struct Facebook {
    pub app_id: String,
}

} // verus!
