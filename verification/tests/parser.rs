use parse_args::ArgParser;

fn args_of(parts: &[&str]) -> Vec<String> {
    parts.iter().map(|s| String::from(*s)).collect()
}

#[test]
fn empty_parser() {
    // Create an empty parser
    let parser = ArgParser::new();

    // Parse nothing
    let args = vec![String::from("./test_exec")];
    let dict = parser.parse(&args);

    // No warnings or errors should have occurred
    assert_eq!(dict.has_warnings(), false);
    assert_eq!(dict.has_errors(), false);
}

#[test]
fn simple_pos_parser() {
    // Create a parser with one positional
    let mut parser = ArgParser::new();
    parser.add_pos("pos1", "pos1", "A test positional.");

    // Parse a value for this positional
    let args = vec![String::from("./test_exec"), String::from("test")];
    let dict = parser.parse(&args);

    // No warnings or errors should have occurred
    assert_eq!(dict.has_warnings(), false);
    assert_eq!(dict.has_errors(), false);

    // The value of pos1 should be 'test'
    assert_eq!(dict.has_pos("pos1"), true);
    assert_eq!(dict.get_pos("pos1").unwrap(), "test");
}

#[test]
fn simple_opt_parser() {
    // Create a parser with one option
    let mut parser = ArgParser::new();
    parser.add_opt("opt1", "o", "opt1", 0, 0, "", "A test option.");

    // Try to parse its existance with shortname first
    let mut args = vec![String::from("./test_exec"), String::from("-o")];
    let mut dict = parser.parse(&args);
    // No warnings or errors should have occurred
    assert_eq!(dict.has_warnings(), false);
    assert_eq!(dict.has_errors(), false);
    // opt1 should exist
    assert_eq!(dict.has_opt("opt1"), true);

    // Now with longname
    args = vec![String::from("./test_exec"), String::from("--opt1")];
    dict = parser.parse(&args);
    // No warnings or errors should have occurred
    assert_eq!(dict.has_warnings(), false);
    assert_eq!(dict.has_errors(), false);
    // opt1 should exist
    assert_eq!(dict.has_opt("opt1"), true);
}

#[test]
fn values_opt_parser() {
    // Create a parser with one option that has values
    let mut parser = ArgParser::new();
    parser.add_opt("opt1", "o", "opt1", 0, 3, "", "A test option.");

    // Try to parse its existance with shortname first
    let mut args = vec![String::from("./test_exec"), String::from("-o")];
    let mut dict = parser.parse(&args);
    // No warnings or errors should have occurred
    assert_eq!(dict.has_warnings(), false);
    assert_eq!(dict.has_errors(), false);
    // opt1 should exist and have no values
    assert_eq!(dict.has_opt("opt1"), true);
    assert_eq!(dict.get_opt("opt1").unwrap().len(), 0);

    // Now with three options, shortname
    args = vec![
        String::from("./test_exec"),
        String::from("-o"),
        String::from("1"),
        String::from("2"),
        String::from("3"),
    ];
    dict = parser.parse(&args);
    // No warnings or errors should have occurred
    assert_eq!(dict.has_warnings(), false);
    assert_eq!(dict.has_errors(), false);
    // opt1 should exist and have 3 values
    assert_eq!(dict.has_opt("opt1"), true);
    assert_eq!(dict.get_opt("opt1").unwrap().len(), 3);
    assert_eq!(dict.get_opt("opt1").unwrap()[0], "1");
    assert_eq!(dict.get_opt("opt1").unwrap()[1], "2");
    assert_eq!(dict.get_opt("opt1").unwrap()[2], "3");

    // Now a longname, no options
    let mut args = vec![String::from("./test_exec"), String::from("--opt1")];
    let mut dict = parser.parse(&args);
    // No warnings or errors should have occurred
    assert_eq!(dict.has_warnings(), false);
    assert_eq!(dict.has_errors(), false);
    // opt1 should exist and have no values
    assert_eq!(dict.has_opt("opt1"), true);
    assert_eq!(dict.get_opt("opt1").unwrap().len(), 0);

    // Finally with three options, longname
    args = vec![
        String::from("./test_exec"),
        String::from("--opt1"),
        String::from("1"),
        String::from("2"),
        String::from("3"),
    ];
    dict = parser.parse(&args);
    // No warnings or errors should have occurred
    assert_eq!(dict.has_warnings(), false);
    assert_eq!(dict.has_errors(), false);
    // opt1 should exist and have 3 values
    assert_eq!(dict.has_opt("opt1"), true);
    assert_eq!(dict.get_opt("opt1").unwrap().len(), 3);
    assert_eq!(dict.get_opt("opt1").unwrap()[0], "1");
    assert_eq!(dict.get_opt("opt1").unwrap()[1], "2");
    assert_eq!(dict.get_opt("opt1").unwrap()[2], "3");

    // Finally with two options, mixed
    args = vec![
        String::from("./test_exec"),
        String::from("--opt1"),
        String::from("1"),
        String::from("-o"),
        String::from("2"),
    ];
    dict = parser.parse(&args);
    // No warnings or errors should have occurred
    assert_eq!(dict.has_warnings(), false);
    assert_eq!(dict.has_errors(), false);
    // opt1 should exist and have 3 values
    assert_eq!(dict.has_opt("opt1"), true);
    assert_eq!(dict.get_opt("opt1").unwrap().len(), 2);
    assert_eq!(dict.get_opt("opt1").unwrap()[0], "1");
    assert_eq!(dict.get_opt("opt1").unwrap()[1], "2");
}

#[test]
fn mixed_parser() {
    // Create a parser with several positionals and options
    let mut parser = ArgParser::new();
    parser.add_pos("pos1", "pos1", "A test positional.");
    parser.add_pos("pos2", "pos2", "Another test positional.");
    parser.add_opt("opt1", "o", "opt1", 0, 3, "[<opt1>[ <opt2>[ <opt3>]]]", "A test option.");
    parser.add_opt("opt2", "", "opt2", 4, 4, "<opt1> <opt2> <opt3> <opt4>", "Another test option.");

    // Parse a tough string
    let args = vec![
        String::from("./test_exec"),
        String::from("test1"),
        String::from("-o"),
        String::from("test2"),
        String::from("test3"),
        String::from("--opt2"),
        String::from("test4"),
        String::from("--opt1"),
        String::from("test5"),
        String::from("test6"),
        String::from("--opt2"),
        String::from("test7"),
        String::from("test8"),
        String::from("test9"),
    ];
    let dict = parser.parse(&args);

    // No warnings or errors should have occurred
    assert_eq!(dict.has_warnings(), false);
    assert_eq!(dict.has_errors(), false);

    // The value of the first positional should be 'test1'
    assert_eq!(dict.has_pos("pos1"), true);
    assert_eq!(dict.get_pos("pos1").unwrap(), "test1");
    // The value of the second positional should be 'test6'
    assert_eq!(dict.has_pos("pos2"), true);
    assert_eq!(dict.get_pos("pos2").unwrap(), "test6");
    // The value of the first option should be 'test2', 'test3' and 'test5'
    assert_eq!(dict.has_opt("opt1"), true);
    assert_eq!(dict.get_opt("opt1").unwrap().len(), 3);
    assert_eq!(dict.get_opt("opt1").unwrap()[0], "test2");
    assert_eq!(dict.get_opt("opt1").unwrap()[1], "test3");
    assert_eq!(dict.get_opt("opt1").unwrap()[2], "test5");
    // The value of the second option should be 'test4', 'test7', 'test8' and 'test9'
    assert_eq!(dict.has_opt("opt2"), true);
    assert_eq!(dict.get_opt("opt2").unwrap().len(), 4);
    assert_eq!(dict.get_opt("opt2").unwrap()[0], "test4");
    assert_eq!(dict.get_opt("opt2").unwrap()[1], "test7");
    assert_eq!(dict.get_opt("opt2").unwrap()[2], "test8");
    assert_eq!(dict.get_opt("opt2").unwrap()[3], "test9");
}

#[test]
fn warnings() {
    // Create an empty parser
    let parser = ArgParser::new();

    // Parse a few positionals
    let args = vec![
        String::from("./test_exec"),
        String::from("test1"),
        String::from("test2"),
        String::from("test3"),
    ];
    let dict = parser.parse(&args);

    // Three warnings should have occurred but no errors
    assert_eq!(dict.has_warnings(), true);
    assert_eq!(dict.get_warnings().len(), 3);
    assert_eq!(dict.has_errors(), false);
}

#[test]
fn errors() {
    // Create an empty parser
    let parser = ArgParser::new();

    // Parse a few unknown options
    let args = vec![
        String::from("./test_exec"),
        String::from("--test1"),
        String::from("-test2"),
        String::from("--test3"),
    ];
    let dict = parser.parse(&args);

    // Three errors should have occurred but no warnings
    assert_eq!(dict.has_warnings(), false);
    assert_eq!(dict.has_errors(), true);
    assert_eq!(dict.get_errors().len(), 3);
}

#[test]
fn warning_message_names_token_and_index() {
    let parser = ArgParser::new();
    let dict = parser.parse(&args_of(&["./x", "t1", "t2"]));
    assert_eq!(dict.get_warnings().len(), 2);
    assert_eq!(dict.get_warnings()[0], "Skipping positional 't1' (index 0)...");
    assert_eq!(dict.get_warnings()[1], "Skipping positional 't2' (index 1)...");
    assert!(!dict.has_errors());
}

#[test]
fn unknown_option_message() {
    let parser = ArgParser::new();
    let dict = parser.parse(&args_of(&["./x", "--foo"]));
    assert_eq!(dict.get_errors().len(), 1);
    assert_eq!(dict.get_errors()[0], "Unknown option '--foo'");
}

#[test]
fn unknown_option_message_with_help_hint() {
    let mut parser = ArgParser::new();
    parser.add_help();
    let dict = parser.parse(&args_of(&["./x", "-z"]));
    assert_eq!(dict.get_errors().len(), 1);
    assert_eq!(
        dict.get_errors()[0],
        "Unknown option '-z'; use '--help' to see an overview of accepted options."
    );
}

#[test]
fn missing_char_after_dash() {
    let parser = ArgParser::new();
    let dict = parser.parse(&args_of(&["./x", "-"]));
    assert_eq!(dict.get_errors().len(), 1);
    assert_eq!(dict.get_errors()[0], "Missing character after '-'.");
}

#[test]
fn attached_value_on_flag_is_an_error() {
    let mut parser = ArgParser::new();
    parser.add_opt("opt1", "o", "opt1", 0, 0, "", "A test option.");
    let dict = parser.parse(&args_of(&["./x", "-ov"]));
    assert_eq!(dict.get_errors().len(), 1);
    assert_eq!(dict.get_errors()[0], "Option '-o' cannot accept values (is passed 'v').");
    // errors void all bindings
    assert!(!dict.has_opt("opt1"));
}

#[test]
fn attached_value_single_value_option() {
    let mut parser = ArgParser::new();
    parser.add_opt("opt1", "o", "opt1", 0, 1, "", "A test option.");

    let dict = parser.parse(&args_of(&["./x", "-oval"]));
    assert!(!dict.has_errors());
    assert_eq!(dict.get_opt("opt1").unwrap().len(), 1);
    assert_eq!(dict.get_opt("opt1").unwrap()[0], "val");

    let dict = parser.parse(&args_of(&["./x", "--opt1=val"]));
    assert!(!dict.has_errors());
    assert_eq!(dict.get_opt("opt1").unwrap().len(), 1);
    assert_eq!(dict.get_opt("opt1").unwrap()[0], "val");
}

#[test]
fn attached_value_on_multi_value_option_is_an_error() {
    let mut parser = ArgParser::new();
    parser.add_opt("opt1", "o", "opt1", 0, 3, "", "A test option.");
    let dict = parser.parse(&args_of(&["./x", "--opt1=x"]));
    assert_eq!(dict.get_errors().len(), 1);
    assert_eq!(
        dict.get_errors()[0],
        "Passing a value immediately after an option is only supported for options with at most 1 value ('--opt1' has at most 3)."
    );
}

#[test]
fn too_many_values_via_repeated_attached() {
    let mut parser = ArgParser::new();
    parser.add_opt("opt1", "o", "opt1", 0, 1, "", "A test option.");
    let dict = parser.parse(&args_of(&["./x", "-ox", "-oy"]));
    assert_eq!(dict.get_errors().len(), 1);
    assert_eq!(dict.get_errors()[0], "Too many values for '--opt1': expected at most 1, got 2.");
    assert!(!dict.has_opt("opt1"));
}

#[test]
fn not_enough_values() {
    let mut parser = ArgParser::new();
    parser.add_opt("opt1", "o", "opt1", 2, 3, "", "A test option.");
    let dict = parser.parse(&args_of(&["./x", "--opt1", "a"]));
    assert_eq!(dict.get_errors().len(), 1);
    assert_eq!(dict.get_errors()[0], "Not enough values for '--opt1': expected at least 2, got 1.");
    assert!(!dict.has_opt("opt1"));
}

#[test]
fn fourth_value_spills_into_a_positional_warning() {
    // With at most 3 values, a fourth plain token is not consumed by the
    // option: it becomes an extra positional, warned about and skipped.
    let mut parser = ArgParser::new();
    parser.add_opt("opt1", "o", "opt1", 0, 3, "", "A test option.");
    let dict = parser.parse(&args_of(&["./x", "--opt1", "1", "2", "3", "4"]));
    assert!(!dict.has_errors());
    assert_eq!(dict.get_warnings().len(), 1);
    assert_eq!(dict.get_warnings()[0], "Skipping positional '4' (index 0)...");
    assert_eq!(dict.get_opt("opt1").unwrap().len(), 3);
}

#[test]
fn mixed_short_long_concatenate_in_order() {
    let mut parser = ArgParser::new();
    parser.add_opt("opt1", "o", "opt1", 0, 3, "", "A test option.");
    let dict = parser.parse(&args_of(&["./x", "--opt1", "a", "-o", "b"]));
    assert!(!dict.has_errors());
    assert!(!dict.has_warnings());
    assert_eq!(dict.get_opt("opt1").unwrap().len(), 2);
    assert_eq!(dict.get_opt("opt1").unwrap()[0], "a");
    assert_eq!(dict.get_opt("opt1").unwrap()[1], "b");
}

#[test]
fn help_overrides_everything() {
    let mut parser = ArgParser::new();
    parser.add_pos("pos1", "pos1", "A test positional.");
    parser.add_opt("opt1", "o", "opt1", 0, 3, "", "A test option.");
    parser.add_help();
    let dict = parser.parse(&args_of(&["./x", "posval", "--unknown", "--help", "extra"]));
    assert!(dict.has_help());
    assert!(dict.has_opt("help"));
    assert_eq!(dict.get_opt("help").unwrap().len(), 0);
    assert!(!dict.has_errors());
    assert!(!dict.has_warnings());
    assert!(!dict.has_pos("pos1"));
    assert!(!dict.has_opt("opt1"));
}

#[test]
fn no_help_flag_means_no_help() {
    let mut parser = ArgParser::new();
    parser.add_help();
    let dict = parser.parse(&args_of(&["./x"]));
    assert!(!dict.has_help());
    assert!(!dict.has_opt("help"));
}

#[test]
fn double_dash_stops_option_parsing() {
    let mut parser = ArgParser::new();
    parser.add_double_dash();
    parser.add_pos("pos1", "pos1", "A test positional.");
    let dict = parser.parse(&args_of(&["./x", "--", "-weird"]));
    assert!(!dict.has_errors());
    assert!(!dict.has_warnings());
    assert_eq!(dict.get_pos("pos1").unwrap(), "-weird");
}

#[test]
fn double_dash_inside_value_consumption() {
    let mut parser = ArgParser::new();
    parser.add_double_dash();
    parser.add_opt("opt1", "o", "opt1", 0, 3, "", "A test option.");
    let dict = parser.parse(&args_of(&["./x", "--opt1", "a", "--", "-b"]));
    assert!(!dict.has_errors());
    assert!(!dict.has_warnings());
    assert_eq!(dict.get_opt("opt1").unwrap().len(), 2);
    assert_eq!(dict.get_opt("opt1").unwrap()[0], "a");
    assert_eq!(dict.get_opt("opt1").unwrap()[1], "-b");
}

#[test]
fn bare_double_dash_without_support_is_unknown() {
    let parser = ArgParser::new();
    let dict = parser.parse(&args_of(&["./x", "--"]));
    assert_eq!(dict.get_errors().len(), 1);
    assert_eq!(dict.get_errors()[0], "Unknown option '--'");
}

#[test]
fn errors_void_all_bindings_but_keep_warnings() {
    let mut parser = ArgParser::new();
    parser.add_pos("pos1", "pos1", "A test positional.");
    let dict = parser.parse(&args_of(&["./x", "bound", "extra", "--nope"]));
    assert!(dict.has_errors());
    assert_eq!(dict.get_errors().len(), 1);
    assert_eq!(dict.get_warnings().len(), 1);
    assert!(!dict.has_pos("pos1"));
}

#[test]
fn empty_token_binds_as_a_positional() {
    let mut parser = ArgParser::new();
    parser.add_pos("pos1", "pos1", "A test positional.");
    let dict = parser.parse(&args_of(&["./x", ""]));
    assert!(!dict.has_errors());
    assert!(!dict.has_warnings());
    assert_eq!(dict.get_pos("pos1").unwrap(), "");
}

#[test]
fn warning_indices_render_in_decimal() {
    let parser = ArgParser::new();
    let args = args_of(&[
        "./x", "a", "b", "c", "d", "e", "f", "g", "h", "i", "j", "k",
    ]);
    let dict = parser.parse(&args);
    assert_eq!(dict.get_warnings().len(), 11);
    assert_eq!(dict.get_warnings()[10], "Skipping positional 'k' (index 10)...");
}

#[test]
fn registry_getters() {
    let mut parser = ArgParser::new();
    parser.add_pos("pos1", "first", "A test positional.");
    parser.add_pos("pos2", "second", "Another test positional.");
    parser.add_opt("opt1", "o", "option-one", 0, 1, "", "A test option.");
    assert_eq!(parser.get_index("pos1"), 0);
    assert_eq!(parser.get_index("pos2"), 1);
    assert_eq!(parser.get_name("pos2"), "second");
    assert_eq!(parser.get_shortname("opt1"), "o");
    assert_eq!(parser.get_longname("opt1"), "option-one");
}
