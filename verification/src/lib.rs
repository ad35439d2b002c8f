//! Fixed-width comment headers rendered from named templates.
//!
//! A [`template::Template`] is a recipe for a header: fields with or without
//! a label, an optional border and blank lines above and below.
//! [`header::build_header`] renders it into a block of text in which every
//! character takes one column:
//!
//! - [`wrap`] breaks a text into lines of a given width, cutting the words
//!   that are wider than a line;
//! - [`compose`] turns one field into lines that are exactly as wide as the
//!   row, aligned left or centred, with a label column where the key is
//!   shown;
//! - [`border`] puts the border round the lines, or makes line comments of
//!   them;
//! - [`header`] lays out the whole template and joins the lines.
//!
//! [`storage`] keeps templates by name, and [`config`] holds the limits that
//! new templates are held to.

pub mod border;
pub mod compose;
pub mod config;
pub mod error;
pub mod header;
pub mod storage;
pub mod template;
pub mod text;
pub mod words;
pub mod wrap;
