//! Scanning combinators over byte input: locate and extract sub-matches
//! embedded among irrelevant content, using caller-supplied item parsers
//! together with a marker, prefix or separator.

pub mod anyhow;
pub mod compose;
pub mod error;
pub mod find;
pub mod parser;
pub mod recognize_separated;
pub mod search;
pub mod simple;
pub mod take_all;
pub mod weblink;

pub use anyhow::ParseAnyhow;
pub use error::{Error, ErrorCode};
pub use find::{find_all, find_all_into, find_first};
pub use parser::Parser;
pub use recognize_separated::{recognize_separated0, recognize_separated1};
pub use simple::{alphanumdot0, alphanumdot1};
pub use take_all::{take_all, take_all_into};
pub use weblink::{link_char, weblink};
