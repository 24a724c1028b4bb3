//! Loading of a Unihan-style character property archive into a relational
//! store, and rendering of ad hoc query results.
//!
//! The library holds the logic: parsing of record lines, splitting archive
//! members into lines, the decisions of an ingestion run, and the conversion
//! of query cells into display text under a row cap. The store itself is
//! driven by the caller, which performs the actions the library hands out.
mod archive;
pub mod error;
pub mod ingest;
pub mod member;
pub mod query;
pub mod record;
pub mod text;

pub use error::{ErrorKind, InternalError};
pub use record::{parse_line, FieldRecord, ParseError};
pub use member::parse_member;
pub use query::{render_cell, render_row, render_blob, CellValue, QueryCollector, QueryResult, MAX_ROWS};
pub use ingest::{IngestAction, Ingestion, StoreOutcome, CREATE_TABLE_SQL, INSERT_SQL};
