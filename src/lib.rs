//! Turns the transcript of a recursive `make` build into a compile command
//! database: one record per compiled source file, with the build root as
//! its directory, the source path relative to it, and the full argument
//! list.
//!
//! The path algebra is in [`path`], the recognition of compiler invocations
//! in [`command`], the directory tracker and the line parser in [`parser`],
//! and the framing of the output array in [`writer`].

pub mod text;
pub mod path;
pub mod path_laws;
pub mod command;
pub mod parser;
pub mod parser_laws;
pub mod reader;
pub mod writer;

pub use command::{find_target, CompileRecord};
pub use parser::{Directive, ParseError, Parser};
