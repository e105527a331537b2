//! Verified core of JchTools: directory organising, recursive extraction,
//! per-file git commits and the state behind the desktop window.

pub mod archive;
pub mod cli;
pub mod config;
pub mod config_json;
pub mod control;
pub mod convert;
pub mod db;
pub mod engine;
pub mod engine_bundle;
pub mod error;
pub mod fsutil;
pub mod functional;
pub mod git_tools;
pub mod gui;
pub mod hash_cache;
pub mod hashing;
pub mod json;
pub mod media;
pub mod model;
pub mod order;
pub mod rules;
pub mod text;
