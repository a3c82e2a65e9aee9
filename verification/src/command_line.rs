use vstd::prelude::*;

verus! {

/// The `sed` command line after option parsing, as plain values: for each
/// argument of the command, what the option parser found for it.
///
/// `expressions` and `script_files` hold every occurrence of `-e SCRIPT` and
/// `-f SCRIPT_FILE` with its index among all the parsed arguments, in the
/// order in which they were given. `in_place` is `None` when `-i` /
/// `--in-place` was not given and `Some(SUFFIX)` when it was, with an empty
/// `SUFFIX` for the bare option.
pub struct CommandLine {
    /// The first positional argument.
    pub script: Option<String>,
    /// The remaining positional arguments.
    pub files: Vec<String>,
    pub expressions: Vec<(usize, String)>,
    pub script_files: Vec<(usize, String)>,
    pub all_output_files: bool,
    pub debug: bool,
    pub regexp_extended: bool,
    pub follow_symlinks: bool,
    pub in_place: Option<String>,
    pub length: Option<u32>,
    pub quiet: bool,
    pub posix: bool,
    pub separate: bool,
    pub sandbox: bool,
    pub unbuffered: bool,
    pub null_data: bool,
}

/// The command line with no argument at all.
pub open spec fn empty_command_line(cl: CommandLine) -> bool {
    &&& cl.script is None
    &&& cl.files@.len() == 0
    &&& cl.expressions@.len() == 0
    &&& cl.script_files@.len() == 0
    &&& !cl.all_output_files
    &&& !cl.debug
    &&& !cl.regexp_extended
    &&& !cl.follow_symlinks
    &&& cl.in_place is None
    &&& cl.length is None
    &&& !cl.quiet
    &&& !cl.posix
    &&& !cl.separate
    &&& !cl.sandbox
    &&& !cl.unbuffered
    &&& !cl.null_data
}

impl Default for CommandLine {
    fn default() -> (cl: Self)
        ensures
            empty_command_line(cl),
    {
        CommandLine {
            script: None,
            files: Vec::new(),
            expressions: Vec::new(),
            script_files: Vec::new(),
            all_output_files: false,
            debug: false,
            regexp_extended: false,
            follow_symlinks: false,
            in_place: None,
            length: None,
            quiet: false,
            posix: false,
            separate: false,
            sandbox: false,
            unbuffered: false,
            null_data: false,
        }
    }
}

/// A usage error of the command line.
#[derive(Debug, PartialEq, Eq)]
pub enum SedError {
    /// Neither a positional script, nor `-e`, nor `-f` was given.
    MissingScript,
}

impl SedError {
    /// The exit status that the error calls for.
    pub fn code(&self) -> (c: i32)
        ensures
            c == 1,
    {
        match self {
            SedError::MissingScript => 1,
        }
    }

    /// The message that reports the error.
    pub fn message(&self) -> (m: String)
        ensures
            m@ == "missing script"@,
    {
        match self {
            SedError::MissingScript => String::from_str("missing script"),
        }
    }
}

} // verus!
