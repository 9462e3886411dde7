//! A schema-driven decoder for the RSZ reflection format, and the decisions
//! of the site generator around it.
//!
//! The decoder, leaves first:
//! - `cursor`: a bounds-checked, alignment-aware reader over a byte buffer;
//! - `text`: UTF-16 text, and decimal and hexadecimal digits;
//! - `symbolic`: enums with unit and ranged variants, bit-flag sets and
//!   offset identifiers, each with its exact inverse;
//! - `field`: the fields that the cursor alone decodes;
//! - `schema`: field layouts, type descriptors, and the dispatch from a
//!   content hash to a schema version;
//! - `value`: the decoded value tree and its mathematical view;
//! - `model`: what decoding means, stated without any cache;
//! - `session`: the decode session, which resolves nested and shared child
//!   objects and decodes each child once;
//! - `truncation`: laws of the model on buffers that are cut short.
//!
//! Around it: `otomo` (two identifier enums of the catalog), `msg` and
//! `pages` (messages and the names of generated pages), `toc` (the table
//! of contents) and `sink` (content types and content hashes of written
//! files).

pub mod cursor;
pub mod error;
pub mod field;
pub mod model;
pub mod msg;
pub mod otomo;
pub mod pages;
pub mod schema;
pub mod session;
pub mod sink;
pub mod symbolic;
pub mod text;
pub mod toc;
pub mod truncation;
pub mod value;
