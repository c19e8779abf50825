//! A content-addressable cache, as a value.
//!
//! A [`Cache`](cache::Cache) holds what a cache directory holds: an
//! append-only index that maps keys to content digests, and a content store
//! that maps digests to blobs. Whatever is handed back to a reader has been
//! hashed again and compared with the digest it was asked for.
//!
//! The library does no input or output. A program that keeps its cache on
//! disk reads the files that an operation depends on into a `Cache`, lets
//! the library decide, and writes back what the library made: the modules
//! [`path`] and [`record`] say where the files lie and what they hold.
//!
//! Two choices are made once and hold throughout. In the index the latest
//! entry of a key is the one that counts; earlier entries stay in the log.
//! In the content store a blob that is kept under an address is never
//! replaced by a write; writing the same bytes again changes nothing.
//!
//! - [`algorithm`], [`integrity`], [`hasher`], [`text`]: digests, how they
//!   are computed and compared, and their text form.
//! - [`content`], [`reader`], [`writer`]: the content store.
//! - [`index`]: the index.
//! - [`get`], [`put`]: reading and writing by key.
//! - [`laws`]: what holds of every cache.
//! - [`path`], [`record`], [`hex`], [`number`], [`split`], [`bytes`]: the
//!   layout of a cache directory and the helpers it is written with.
pub mod algorithm;
pub mod bytes;
pub mod cache;
pub mod content;
pub mod errors;
pub mod get;
pub mod hasher;
pub mod hex;
pub mod index;
pub mod integrity;
pub mod laws;
pub mod number;
pub mod path;
pub mod put;
pub mod reader;
pub mod record;
pub mod split;
pub mod text;
pub mod writer;
