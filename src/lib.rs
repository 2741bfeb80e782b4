//! A wide-column data model on top of an ordered byte-string store.
//!
//! Cells are addressed by (row key, column family, column qualifier,
//! timestamp). [`codec`] folds an identity into one sortable byte key,
//! [`cell`] reads stored pairs back as [`cell::Cell`] views, and [`table`]
//! ties both to a partition of the store. [`laws`] proves that decoding
//! inverts encoding and that key order is identity order. [`domain`] and
//! [`webtable`] are the web-scraping store built on top: row keys made of
//! reversed domain names, and pages, metadata and links in three tables.

pub mod codec;
pub mod error;
pub mod cell;
pub mod table;
pub mod laws;
pub mod domain;
pub mod webtable;
