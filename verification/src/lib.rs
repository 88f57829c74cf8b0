//! Meowbox: an AI-friendly mail aggregator. This crate holds the verified
//! logic shared by the command-line tool, the MCP server and the desktop
//! shell: subject normalisation, MIME-to-record conversion, quote and
//! signature stripping, file-name sanitising, the synchronisation decisions,
//! SQL construction for the store, and the pure parts of the tool handlers.
#![allow(unused_imports)]

pub mod text;
pub mod domain;
pub mod parse;
pub mod mime;
pub mod fsname;
pub mod paths;
pub mod imap;
pub mod store;
pub mod engine;
pub mod time;
pub mod grouping;
pub mod mcp;
pub mod json;
pub mod desktop;
pub mod cli;
