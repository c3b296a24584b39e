//! # txtpp
//! A simple-to-use general purpose preprocessor for text files.
//!
//! A template is a file whose name has the extension `txtpp`, as in
//! `foo.txt.txtpp` or `foo.txtpp.txt`. Preprocessing it gives the file of
//! the same name without that extension. The lines of a template are
//! copied, but for the directives among them, which are marked by `TXTPP#`:
//! they run a command, include a file, write a file on the side, or keep
//! output back under a tag.
//!
//! This library holds what is decided in a run, and proves it:
//!
//! - [`directive`]: finding a directive on a line, and the lines that continue it
//! - [`tag_state`]: tags, and putting their content into a line
//! - [`pp`]: the preprocessor of one file, a state machine that asks for
//!   what it needs from the file system and the shell
//! - [`io_context`]: where the output of a file goes when building,
//!   verifying and cleaning
//! - [`dependency`]: the graph of the files that wait for each other
//! - [`scheduler`]: which tasks a run starts, and when it is over
//! - [`inputs`]: the files and directories that a run begins with
//! - [`path`], [`text`], [`line_ending`], [`shell`], [`config`], [`error`]:
//!   what these are built from
//!
//! Nothing here reads a file, runs a command or starts a thread: the
//! caller does, and hands over what it found.
pub mod config;
pub mod dependency;
pub mod directive;
pub mod error;
pub mod inputs;
pub mod io_context;
pub mod line_ending;
pub mod path;
pub mod pp;
pub mod scheduler;
pub mod shell;
pub mod tag_state;
pub mod text;

pub use crate::config::{Config, Mode, Verbosity};
