//! Directory listings with icons.
//!
//! The library turns what is known about the entries of a directory into the
//! lines of a listing. It never touches the file system or the terminal: the
//! caller examines each path once, hands over a [`emoji_utils::PathInfo`], and
//! prints the rows it gets back.
//!
//! - [`emoji_utils`] classifies an entry and gives it an icon.
//! - [`file_entry`] holds an entry as it is listed and compares entries.
//! - [`order`] defines the listing order on sort keys.
//! - [`sort`] sorts a listing and states what holds of the result.
//! - [`display_utils`] lays the listing out in columns and renders its rows.
//! - [`terminal_size`] holds the decisions around asking for the terminal's
//!   size.
//! - [`text`] holds the text primitives the others share.

pub mod display_utils;
pub mod emoji_utils;
pub mod file_entry;
pub mod order;
pub mod sort;
pub mod terminal_size;
pub mod text;
