use vstd::prelude::*;

use crate::command_line::CommandLine;

verus! {

/// The line-wrap length of the `l` command when `-l` is not given.
pub const DEFAULT_LINE_LENGTH: usize = 70;

/// A pattern or hold space: its text, and whether it ends with a newline.
pub struct StringSpace {
    pub content: String,
    pub has_newline: bool,
}

/// The settings and the run-time state of script execution.
pub struct ProcessingContext {
    pub all_output_files: bool,
    pub debug: bool,
    pub regex_extended: bool,
    pub follow_symlinks: bool,
    pub in_place: bool,
    pub in_place_suffix: Option<String>,
    pub length: usize,
    pub quiet: bool,
    pub posix: bool,
    pub separate: bool,
    pub sandbox: bool,
    pub unbuffered: bool,
    pub null_data: bool,
    pub input_name: String,
    pub line_number: usize,
    pub last_address: bool,
    pub last_line: bool,
    pub last_file: bool,
    pub stop_processing: bool,
    pub hold: StringSpace,
    pub parsed_block_nesting: usize,
    pub substitution_made: bool,
}

/// The backup suffix of in-place editing: none without `-i`, and none for
/// an empty suffix, so that `-i=` is bare `-i`.
pub open spec fn in_place_suffix_of(in_place: Option<String>) -> Option<String> {
    match in_place {
        Some(s) => if s@.len() == 0 {
            None
        } else {
            Some(s)
        },
        None => None,
    }
}

/// The line-wrap length: the `-l` value, else `DEFAULT_LINE_LENGTH`.
pub open spec fn line_length_of(length: Option<u32>) -> usize {
    match length {
        Some(v) => v as usize,
        None => DEFAULT_LINE_LENGTH,
    }
}

/// The context's settings are those of the command line.
pub open spec fn settings_match(ctx: ProcessingContext, cl: CommandLine) -> bool {
    &&& ctx.all_output_files == cl.all_output_files
    &&& ctx.debug == cl.debug
    &&& ctx.regex_extended == cl.regexp_extended
    &&& ctx.follow_symlinks == cl.follow_symlinks
    &&& ctx.in_place == cl.in_place is Some
    &&& ctx.in_place_suffix == in_place_suffix_of(cl.in_place)
    &&& ctx.length == line_length_of(cl.length)
    &&& ctx.quiet == cl.quiet
    &&& ctx.posix == cl.posix
    &&& ctx.separate == cl.separate
    &&& ctx.sandbox == cl.sandbox
    &&& ctx.unbuffered == cl.unbuffered
    &&& ctx.null_data == cl.null_data
}

/// The run-time state is that before any input is read: standard input,
/// line 0, no flag raised, an empty hold space ending in a newline.
pub open spec fn initial_state(ctx: ProcessingContext) -> bool {
    &&& ctx.input_name@ == "<stdin>"@
    &&& ctx.line_number == 0
    &&& !ctx.last_address
    &&& !ctx.last_line
    &&& !ctx.last_file
    &&& !ctx.stop_processing
    &&& ctx.hold.content@.len() == 0
    &&& ctx.hold.has_newline
    &&& ctx.parsed_block_nesting == 0
    &&& !ctx.substitution_made
}

/// Each setting of the context is the command-line option of the same name
/// and no other; in-place editing is on exactly when `-i` was given, and its
/// backup suffix is exactly the suffix given, of any length, dropped only
/// when it is empty; the line-wrap length is the `-l` value, else 70.
pub proof fn lemma_context_follows_options(cl: CommandLine, ctx: ProcessingContext)
    requires
        settings_match(ctx, cl),
    ensures
        ctx.all_output_files == cl.all_output_files,
        ctx.debug == cl.debug,
        ctx.regex_extended == cl.regexp_extended,
        ctx.follow_symlinks == cl.follow_symlinks,
        ctx.quiet == cl.quiet,
        ctx.posix == cl.posix,
        ctx.separate == cl.separate,
        ctx.sandbox == cl.sandbox,
        ctx.unbuffered == cl.unbuffered,
        ctx.null_data == cl.null_data,
        ctx.in_place <==> cl.in_place is Some,
        cl.in_place is None ==> ctx.in_place_suffix is None,
        cl.in_place matches Some(s) ==> ctx.in_place_suffix == (if s@.len() == 0 {
            None
        } else {
            Some(s)
        }),
        cl.length matches Some(v) ==> ctx.length == v as int,
        cl.length is None ==> ctx.length == 70,
{
}

/// Builds the processing context from the flags of the command line.
pub fn build_context(cl: &CommandLine) -> (ctx: ProcessingContext)
    ensures
        settings_match(ctx, *cl),
        initial_state(ctx),
{
    let in_place_suffix = match &cl.in_place {
        Some(s) => if s.as_str().is_empty() {
            None
        } else {
            Some(s.clone())
        },
        None => None,
    };
    let length: usize = match cl.length {
        Some(v) => v as usize,
        None => DEFAULT_LINE_LENGTH,
    };
    ProcessingContext {
        all_output_files: cl.all_output_files,
        debug: cl.debug,
        regex_extended: cl.regexp_extended,
        follow_symlinks: cl.follow_symlinks,
        in_place: cl.in_place.is_some(),
        in_place_suffix,
        length,
        quiet: cl.quiet,
        posix: cl.posix,
        separate: cl.separate,
        sandbox: cl.sandbox,
        unbuffered: cl.unbuffered,
        null_data: cl.null_data,
        input_name: String::from_str("<stdin>"),
        line_number: 0,
        last_address: false,
        last_line: false,
        last_file: false,
        stop_processing: false,
        hold: StringSpace { content: String::new(), has_newline: true },
        parsed_block_nesting: 0,
        substitution_made: false,
    }
}

} // verus!
