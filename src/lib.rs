//! Browsing the sources of a released package: one-level directory listings
//! rebuilt from a release's flat manifest, the redirect of a loosely matched
//! version to its canonical path, and how a requested file is shown.
pub mod content;
pub mod listing;
pub mod page;
pub mod paths;
pub mod text;
pub mod version;
