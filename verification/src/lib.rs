//! Fluxor's download logic: the rules that decide how a file is split into
//! byte ranges, when a partial transfer may be resumed, how headers from a
//! server are read, how file names and directories are validated, and how the
//! download queue changes state.

pub mod bridge;
pub mod browser;
pub mod diagnostics;
pub mod engine;
pub mod error;
pub mod http;
pub mod model;
pub mod names;
pub mod outside;
pub mod queue;
pub mod rate;
pub mod segments;
pub mod storage;
pub mod text;
pub mod transfer;
pub mod validation;
