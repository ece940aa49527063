//! Downloader core for the RaiPlay video portal: filename sanitising, page URL
//! validation, HLS variant selection, segment caching and segment assembly.

pub mod api;
pub mod models;
pub mod sanitize_path;
