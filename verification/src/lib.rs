//! Shellshelf: storing, searching and sharing reusable shell commands.
//!
//! This crate holds the verified core of the tool: keyword extraction, shelf
//! databases and their search and merge rules, command references, command
//! templates, configuration validation, shared-repository naming, curl request
//! analysis and the run store of the web workbench, the browse data and
//! command previews of the web interface, Postman import, the decisions of
//! repository synchronization and publishing, and the grouping and formatting
//! of listing output.
pub mod browse;
pub mod cli_rules;
pub mod command_ref;
pub mod config;
pub mod curl_database;
pub mod curl_runner;
pub mod database;
pub mod dedup;
pub mod github;
pub mod history;
pub mod keywords;
pub mod listing;
pub mod path;
pub mod pattern;
pub mod postman;
pub mod publish;
pub mod repo_sync;
pub mod sorted;
pub mod template;
pub mod text;
pub mod web;
