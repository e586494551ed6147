//! Lineup finds Go structs and TypeScript declarations whose field order
//! wastes memory to padding, and suggests the order that wastes least.
//!
//! - `text`: character-level text helpers with their specifications.
//! - `layout`: field layout (offsets, padding, size) and the suggested order.
//! - `go_parser`: Go struct declarations read from source text.
//! - `ts_parser`, `ts_syntax`: TypeScript declarations read from the oxc
//!   syntax tree.
//! - `analyzer`: type sizes and the analysis of each declaration.
//! - `paths`: which files of a repository a scan reads.
//! - `db`, `scan`: the records of the scan history and their totals.
pub mod text;
pub mod layout;
pub mod go_parser;
pub mod ts_parser;
pub mod analyzer;
pub mod paths;
pub mod ts_syntax;
pub mod db;
pub mod scan;
