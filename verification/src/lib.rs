//! Parsers that turn the log lines of two appliances into one kind of
//! record.
//!
//! [`auth`] reads the positional lines of a database audit log, [`pulse`]
//! the `key=value` lines of a VPN gateway. Both fill a
//! [`record::LogRecord`]. [`tokenizer`] splits a `key=value` line into its
//! fields, and [`rendering`] shows that a line written from well-formed
//! pairs reads back as those pairs.
//!
//! Positions are character indices, and every index is proved to be in
//! range before it is used.

pub mod auth;
pub mod fields;
pub mod number;
pub mod pulse;
pub mod record;
pub mod rendering;
pub mod text;
pub mod tokenizer;
pub mod trusted;
