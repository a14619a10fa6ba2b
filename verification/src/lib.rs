//! Render semi-structured records (JSON-like values or CSV rows) as tables.
//!
//! The crate models records as [`value::JsonValue`], resolves a column plan
//! for a batch of records, projects each record onto that plan as a
//! rectangular table, formats every cell, applies column-scoped colorize
//! rules, and renders the result in one of several output formats.

pub mod cell;
pub mod colorize;
pub mod config;
pub mod csv;
pub mod grid;
pub mod html;
pub mod markdown;
pub mod printer;
pub mod reader;
pub mod table;
pub mod text;
pub mod value;

pub use colorize::{ColorizeIndex, ColorizeSpec};
pub use config::{ConfigError, InputFormat};
pub use csv::{CsvReader, CsvReaderOptions};
pub use html::HtmlTablePrinter;
pub use printer::{HtmlTableFormat, PlainTextTableFormat, TableFormat, TablePrinter};
pub use reader::{OneShotJsonReader, StreamingJsonReader};
pub use table::{JsonTable, TableHeader};
pub use value::JsonValue;
