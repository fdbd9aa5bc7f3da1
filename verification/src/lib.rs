//! Organizes audio files into a directory tree derived from their embedded
//! metadata, according to a declarative path template.
//!
//! The template compiler turns a format string such as
//! `{artist}/{album}/{track:2} - {title}.{ext}` into a validated
//! [`format::ParsedFormat`]; the path builder applies it to one
//! [`metadata::Metadata`] record; the sorter walks a directory tree and
//! accounts for per-file successes and failures; the watcher maps
//! filesystem notifications to libraries and suppresses its own echoes.

pub mod config;
pub mod error;
pub mod format;
pub mod metadata;
pub mod parser;
pub mod path;
pub mod sorting;
pub mod strutil;
pub mod watcher;
