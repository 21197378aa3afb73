//! A command language over a flat list of tracked titles.
//!
//! A command line such as `f/"One Piece"/+1/w` is split into tokens, each token is
//! resolved into a command, and the commands are run in order against a store of
//! items while a selection of items is handed from one command to the next.
//!
//! - [`parser`] splits records and command lines into tokens.
//! - [`extra`] resolves a token into a command.
//! - [`base`] holds an item and the text of its stored record.
//! - [`store`] holds the list of items and what can be done to it.
//! - [`record`] reads a stored text back into a store.
//! - [`pipeline`] runs the commands of a command line.
//! - [`pattern`] matches names against regular expressions.
//! - [`laws`] and [`roundtrip`] prove what holds of all of these.
//! - [`text`] reads and writes numbers and pads columns.
//! - [`extension`], [`model`] and [`logger`] hold other forms of an entry, and what
//!   a logger decides.

pub mod base;
pub mod extension;
pub mod extra;
pub mod laws;
pub mod logger;
pub mod model;
pub mod parser;
pub mod pattern;
pub mod pipeline;
pub mod record;
pub mod roundtrip;
pub mod store;
pub mod text;
