//! Scans a model of a directory tree for documentation files in two
//! lightweight markup dialects (markdown and asciidoc), and builds one
//! record per file: its path relative to the scan root, its full text,
//! a bounded prefix, and the lines that are headings under the file's
//! dialect.
//!
//! The crate holds the pure logic only: which paths are collected from a
//! tree, how text is split into lines, which lines are headings, and how
//! a record is assembled. Reading the real filesystem, and serializing
//! the records, live outside the library.

pub mod doc;
pub mod headings;
pub mod path;
pub mod scan;
pub mod text;
