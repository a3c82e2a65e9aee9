use sed::args::{preprocess_in_place_suffix, CliArg};
use sed::command_line::{CommandLine, SedError};
use sed::context::build_context;
use sed::scripts::{get_scripts_files, ScriptValue};

fn argv(xs: &[&str]) -> Vec<CliArg<Vec<u8>>> {
    xs.iter().map(|x| CliArg::Text(x.to_string())).collect()
}

fn strings(xs: &[&str]) -> Vec<String> {
    xs.iter().map(|x| x.to_string()).collect()
}

#[test]
fn rewriting_twice_is_rewriting_once() {
    let args = &["sed", "-i.bak", "-iE", "-i", "-i=x", "--in-place", "-En", "--", "-i.keep"];
    let once = preprocess_in_place_suffix(argv(args));
    assert_eq!(once, argv(&["sed", "-i=.bak", "-i=E", "-i", "-i=x", "--in-place", "-En", "--", "-i.keep"]));
    let twice = preprocess_in_place_suffix(argv(&["sed", "-i=.bak", "-i=E", "-i", "-i=x", "--in-place", "-En", "--", "-i.keep"]));
    assert_eq!(twice, once);
}

#[test]
fn non_unicode_arguments_pass_through() {
    let args = vec![
        CliArg::Text("sed".to_string()),
        CliArg::Other(vec![b'-', b'i', 0xff]),
        CliArg::Text("-ix".to_string()),
    ];
    let out = preprocess_in_place_suffix(args);
    assert_eq!(
        out,
        vec![
            CliArg::Text("sed".to_string()),
            CliArg::Other(vec![b'-', b'i', 0xff]),
            CliArg::Text("-i=x".to_string()),
        ]
    );
}

#[test]
fn non_ascii_suffix_is_kept_whole() {
    let out = preprocess_in_place_suffix(argv(&["-i.été"]));
    assert_eq!(out, argv(&["-i=.été"]));
}

#[test]
fn second_terminator_and_empty_arguments_are_kept() {
    let out = preprocess_in_place_suffix(argv(&["", "-", "-i", "--", "--", "-ia"]));
    assert_eq!(out, argv(&["", "-", "-i", "--", "--", "-ia"]));
    let none: Vec<CliArg<Vec<u8>>> = Vec::new();
    assert_eq!(preprocess_in_place_suffix(none), Vec::new());
}

#[test]
fn scripts_follow_command_line_order() {
    // sed -f a.sed -e 1d -f b.sed -e 2d file
    let cl = CommandLine {
        script: Some("file".to_string()),
        expressions: vec![(4, "1d".to_string()), (8, "2d".to_string())],
        script_files: vec![(2, "a.sed".to_string()), (6, "b.sed".to_string())],
        ..CommandLine::default()
    };
    let (scripts, files) = get_scripts_files(&cl).unwrap();
    assert_eq!(
        scripts,
        vec![
            ScriptValue::PathVal("a.sed".to_string()),
            ScriptValue::StringVal("1d".to_string()),
            ScriptValue::PathVal("b.sed".to_string()),
            ScriptValue::StringVal("2d".to_string()),
        ]
    );
    assert_eq!(files, strings(&["file"]));
}

#[test]
fn equal_indices_keep_the_given_order() {
    let cl = CommandLine {
        expressions: vec![(5, "x".to_string()), (3, "y".to_string())],
        script_files: vec![(5, "z".to_string())],
        ..CommandLine::default()
    };
    let (scripts, files) = get_scripts_files(&cl).unwrap();
    assert_eq!(
        scripts,
        vec![
            ScriptValue::StringVal("y".to_string()),
            ScriptValue::StringVal("x".to_string()),
            ScriptValue::PathVal("z".to_string()),
        ]
    );
    assert_eq!(files, strings(&["-"]));
}

#[test]
fn missing_script_is_refused() {
    let cl = CommandLine { files: strings(&["a", "b"]), quiet: true, ..CommandLine::default() };
    let err = get_scripts_files(&cl).unwrap_err();
    assert_eq!(err, SedError::MissingScript);
    assert_eq!(err.code(), 1);
    assert_eq!(err.message(), "missing script");
    assert!(get_scripts_files(&CommandLine::default()).is_err());
}

#[test]
fn positional_script_ignores_no_files() {
    let cl = CommandLine { script: Some("p".to_string()), files: strings(&["-", "x"]), ..CommandLine::default() };
    let (scripts, files) = get_scripts_files(&cl).unwrap();
    assert_eq!(scripts, vec![ScriptValue::StringVal("p".to_string())]);
    assert_eq!(files, strings(&["-", "x"]));
}

#[test]
fn context_starts_on_standard_input() {
    let ctx = build_context(&CommandLine { length: Some(u32::MAX), in_place: Some("~".to_string()), ..CommandLine::default() });
    assert_eq!(ctx.length, u32::MAX as usize);
    assert_eq!(ctx.in_place_suffix, Some("~".to_string()));
    assert_eq!(ctx.input_name, "<stdin>");
    assert_eq!(ctx.line_number, 0);
    assert!(!ctx.last_address && !ctx.last_line && !ctx.last_file && !ctx.stop_processing);
    assert_eq!(ctx.hold.content, "");
    assert!(ctx.hold.has_newline);
    assert_eq!(ctx.parsed_block_nesting, 0);
    assert!(!ctx.substitution_made);
}

#[test]
fn zero_length_is_kept() {
    let ctx = build_context(&CommandLine { length: Some(0), ..CommandLine::default() });
    assert_eq!(ctx.length, 0);
}
