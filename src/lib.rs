//! Assembly of spreadsheet package parts: an XML tag writer, the cell
//! metadata part, the shared string table, the style registry, the
//! relationships and content types of the package, and the assembly of its
//! entries.

pub mod content_types;
pub mod dedup;
pub mod formats;
pub mod metadata;
pub mod package;
pub mod relationships;
pub mod strings;
pub mod xml;

pub use metadata::Metadata;
