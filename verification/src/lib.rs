//! A content-source connector for the se8 comics catalog site: compiles
//! host-supplied filter selections into a query descriptor, builds the
//! site's listing and per-resource URLs, and extracts normalized records
//! (series summaries, series details, chapters, pages) from values read
//! out of the site's HTML and JSON responses.
//!
//! Network transport and HTML/JSON node querying are outside collaborators;
//! they hand this library plain values and take plain values back.

pub mod chapters;
pub mod detail;
pub mod encode;
pub mod filters;
pub mod listing;
pub mod numbers;
pub mod pages;
pub mod records;
pub mod strings;
pub mod text;
pub mod url_laws;
pub mod urls;
