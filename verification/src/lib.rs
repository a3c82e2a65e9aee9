//! Command-line front end of a stream editor: the argument rewriting that
//! restores GNU's attached `-iSUFFIX` form, the collection of scripts and
//! input files from the parsed command line, and the processing context
//! built from the option flags.

pub mod args;
pub mod command_line;
pub mod scripts;
pub mod context;
