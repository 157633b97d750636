//! Extraction of structured book metadata from OPF package documents, the
//! XML dialect used by e-book packaging formats.
//!
//! The library walks the event stream of an XML document once, recognizes the
//! structurally significant elements (`package`, `metadata`, `dc:*` fields,
//! `meta` name/content pairs, `guide`/`reference`), and accumulates them into
//! a normalized document model with lookup and derivation operations
//! (first-value lookup, multi-value lookup, cover-reference resolution, ISBN
//! extraction, date-format fallback parsing).
//!
//! Tokenization is delegated to the quick-xml crate; everything the engine
//! does with the resulting events is specified and verified here.

pub mod adapter;
pub mod dates;
pub mod laws;
pub mod error;
pub mod models;
pub mod parser;
pub mod text;
pub mod xml;

pub use adapter::OpfMetadataExtractor;
pub use dates::CalendarDate;
pub use error::OpfParseError;
pub use models::{BookMetadataExtractor, GuideReference, Identifier, MetaEntry, OpfDoc};
pub use xml::{Tag, XmlEvent};

