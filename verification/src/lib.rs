//! The rules of a mod manager, verified: which releases a package and its
//! dependencies are installed with, and how their archives are downloaded
//! one at a time.
//!
//! The crate does no input or output. It decides; its caller fetches,
//! writes and shows.
//!
//! - [`version`] orders dotted version strings.
//! - [`dependency`] reads one dependency declaration of a release.
//! - [`dependency_resolver`] walks the dependency graph of a root package,
//!   one fetched package at a time; [`resolve_model`] is its mathematical
//!   model, and [`resolution`] runs a whole walk against a table of
//!   metadata and hands the plan to the queue.
//! - [`download_queue`] is the queue of downloads, of which at most one is
//!   under way at any time.
//! - [`transfer`] decides how one streaming transfer goes on: when to
//!   publish figures, when to resume, to start over or to give up; and
//!   [`archive`] reads what the archive host answers.
//! - [`mod_lists`], [`profile`], [`catalog`], [`search`], [`releases`] and
//!   [`thumbnails`] hold the rules about profiles and about the catalog.
//! - [`text`] holds what the parsers share.

pub mod archive;
pub mod catalog;
pub mod dependency;
pub mod dependency_resolver;
pub mod download_queue;
pub mod mod_lists;
pub mod profile;
pub mod releases;
pub mod resolution;
pub mod resolve_model;
pub mod search;
mod system;
pub mod text;
pub mod thumbnails;
pub mod transfer;
pub mod version;
