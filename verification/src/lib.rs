//! A small query-filter parsing and matching engine.
//!
//! Raw, URL-encoded query-string values are parsed into strongly typed
//! filter criteria (an identifier code, a time of day, a runway-length
//! comparison), the criteria present in one request form are collected
//! into ordered filter lists, and a runway-length criterion can be
//! evaluated against the runways of a record.

pub mod airport;
pub mod error;
pub mod filter;
pub mod form;
pub mod num;
pub mod numeric;
pub mod time;
