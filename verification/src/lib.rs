//! Extraction of credentials from log lines: the lines of the files of one
//! directory are taken apart into user name and password, the user names are
//! classified by their shape, and the records that are kept are freed of
//! repetitions and rendered for the output file.

pub mod classify;
pub mod config;
pub mod dedup;
pub mod extract;
pub mod output;
pub mod pattern;
pub mod pool;
pub mod scan;
pub mod text;
pub mod worker;
