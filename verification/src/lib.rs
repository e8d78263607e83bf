//! Page-level PDF editing: the decisions, plans and protocols behind the
//! `nata` command line tool, with the outside work (processes, files,
//! argument parsing) left to the caller.

pub mod cli;
pub mod error;
pub mod exit_code;
pub mod text;
pub mod path_syntax;
pub mod page_spec;
pub mod protocol;
pub mod command_support;
pub mod io_support;
pub mod strict;
pub mod qpdf_runner;
pub mod pdftoppm_runner;
pub mod qpdf_detector;
pub mod pdftoppm_detector;
pub mod merge;
pub mod extract;
pub mod split;
pub mod render;
