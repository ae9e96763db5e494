//! Draining a podcast download queue.
//!
//! A feed reader writes the downloads that are pending to a queue file, one
//! per line: the address to fetch from and the path to write to. This library
//! holds what a tool needs to work the queue off:
//!
//! - `parser`: the tokenizer that splits a queue line into tokens, with
//!   quoting and backslash escapes;
//! - `item`: the entry that a line holds, made from its first two tokens;
//! - `queue`: the entries of a whole file, and the content that the file gets
//!   when a finished entry is removed from it;
//! - `download`: the order of fetches and removals in one run, and the
//!   arguments of the call that fetches an item;
//! - `args`: the options of a run;
//! - `text`: characters and runs of characters.
//!
//! Reading and writing files and running the downloader are left to the caller.

pub mod args;
pub mod download;
pub mod item;
pub mod parser;
pub mod queue;
pub mod text;

pub use crate::args::Opt;
pub use crate::item::DownloadItem;
pub use crate::parser::tokenize_string;
