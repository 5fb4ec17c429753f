//! A small library for browsing a directory of pre-formatted scripture
//! texts: the corpus that is read, the configuration chosen on the
//! command line, the listing of a corpus directory and the interactive
//! line controller.
//!
//! Everything here works on plain values. Reading the command line, the
//! directory and the input stream is left to the program around the
//! library.

pub mod args;
pub mod controller;
pub mod engine;
mod strings;
pub mod text;

pub use args::{Args, ArgsError, Flags};
pub use controller::{Controller, Input};
pub use engine::{Engine, Entry};
pub use text::Text;
