//! Core of a small personal task tracker.
//!
//! Tasks live in one of three collections — ready, waiting, completed — each
//! persisted as a JSON array in its own file.  This crate holds the verified
//! core: the task data model, the lifecycle operations on in-memory
//! collections, the smallest-free-id allocator, the JSON codec for the
//! persisted format, and a model of the write-temp-then-rename protocol.
//! File input and output themselves happen outside the crate; callers hand
//! the core file contents and receive file contents back.

pub mod active_params;
pub mod codec;
pub mod command;
pub mod config;
pub mod date;
pub mod display;
pub mod error;
pub mod fsmodel;
pub mod priority;
pub mod store;
pub mod task;
pub mod utils;
