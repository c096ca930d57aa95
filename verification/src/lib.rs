//! Decisions behind a preprocessing tool for document archives.

#![allow(unused_imports)]

pub mod archive;
pub mod args;
pub mod assistant;
pub mod command;
pub mod config;
pub mod dispatch;
pub mod manifest;
pub mod member;
pub mod mtime;
pub mod number;
pub mod output;
pub mod path;
pub mod pattern;
pub mod pdf;
pub mod repack;
pub mod rewrite;
pub mod state;
pub mod text;
