//! Hard-link aware deduplication of a media library against a downloads tree.
//!
//! A file that was downloaded and then hard-linked into the media library is one
//! object on disk with several paths. The engine finds such objects by their
//! identity, groups them by the folders they live in, and works out what a
//! deletion on either side removes.
//!
//! - [`paths`] and [`text`]: the path grammar and the string functions under it.
//! - [`cache`] and [`scanner`]: file identities, the scan cache, and the scan as a
//!   fold of listed files into records.
//! - [`grouping`]: the records of each top-level folder under a root.
//! - [`deletion`]: the plan of a deletion and its effect on the records.
//! - [`qbittorrent`]: the torrents of the torrent service and their match to the
//!   records.
//! - [`sorting`] and [`stats`]: which groups a view lists, in what order, and the
//!   figures it shows.
//! - [`app`] and [`config`]: the state of the application and what is configured.
//! - [`laws`]: what holds of these together.
//!
//! The engine touches neither disk nor network. Its caller walks the trees,
//! removes files and talks to the torrent service, and reports what came of it.

pub mod app;
pub mod cache;
pub mod config;
pub mod deletion;
pub mod grouping;
pub mod laws;
pub mod paths;
pub mod qbittorrent;
pub mod scanner;
pub mod sorting;
pub mod stats;
pub mod text;
