//! A verified content pipeline for a markdown blog: front-matter parsing,
//! markdown rendering with dual-theme highlighted code blocks and rewritten
//! external links, preview and thumbnail derivation, date-ordered corpus
//! assembly with a populate-once cache, and the RSS, sitemap and robots
//! documents.
pub mod archive;
pub mod cache;
pub mod frontmatter;
pub mod order;
pub mod posts;
pub mod preview;
pub mod render;
pub mod rss;
pub mod sitemap;
pub mod text;
