//! A file-backed repository of reference documents ("papers") and the notes kept on them.
//!
//! Every paper is one note file: a front-matter block with the paper's metadata,
//! followed by free-form notes. This crate holds the rules of that repository:
//! how a title becomes a file name, which papers a filter selects, when a paper
//! is due for review, and what has to move when files and metadata drift apart.
//! It touches no file itself; callers hand it what they read and carry out what
//! it decides.

pub mod author;
pub mod cli;
pub mod config;
pub mod doctor;
pub mod edit;
pub mod extract;
pub mod fetch;
pub mod file_or_stdin;
pub mod filter;
pub mod ids;
pub mod interactive;
pub mod keys;
pub mod label;
pub mod note;
pub mod paper;
pub mod paths;
pub mod primitive;
pub mod rename_files;
pub mod repo;
pub mod review;
pub mod sort;
pub mod table;
pub mod tag;
pub mod text;
pub mod url_path;
